//! Counts "TLG" production artifacts: discovers production output
//! directories under a root tree, inventories the files directly inside
//! each one, classifies each file by its name prefix, collapses duplicate
//! artifacts that exist in several formats, and folds the result into a
//! per-directory histogram with a deterministic rendering order.
//!
//! The pipeline is locate, scan, deduplicate, classify, aggregate,
//! render. Filesystem traversal and printing are the caller's concern:
//! every function here works on plain paths and file names.

pub mod aggregate;
pub mod classify;
pub mod dedup;
pub mod entry;
pub mod fixture;
pub mod locate;
pub mod render;
pub mod report;
pub mod strings;

pub use aggregate::DirScan;
pub use aggregate::aggregate;
pub use aggregate::scan_histogram;
pub use aggregate::tlg_report;
pub use classify::Category;
pub use classify::classify;
pub use classify::group_tlg;
pub use dedup::dedupe;
pub use entry::FileEntry;
pub use entry::scan_entries;
pub use fixture::FixtureConfig;
pub use fixture::FixturePlan;
pub use fixture::default_fixture;
pub use fixture::setup_test_files;
pub use fixture::traverse_dirs;
pub use locate::PatternError;
pub use locate::prod_dirs;
pub use locate::structural_dirs;
pub use render::render;
pub use report::DirList;
pub use report::Histogram;
