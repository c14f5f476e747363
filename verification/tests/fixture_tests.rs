use count_tlgs::default_fixture;
use count_tlgs::setup_test_files;
use count_tlgs::traverse_dirs;

#[test]
fn plan_removes_and_recreates_the_roots() {
    let cfg = default_fixture();
    let plan = setup_test_files(&cfg);
    assert_eq!(plan.remove_dirs, vec!["zzz/a", "zzz/d", "zzz/g"]);
    assert!(plan.create_dirs.contains(&"zzz/a".to_string()));
    assert!(plan.create_dirs.contains(&"zzz/d".to_string()));
    assert!(plan.create_dirs.contains(&"zzz/g".to_string()));
}

#[test]
fn plan_creates_the_whole_chain_under_each_root() {
    let cfg = default_fixture();
    let plan = setup_test_files(&cfg);
    // Six directories per root: the root and five nested below it.
    assert_eq!(plan.create_dirs.len(), 18);
    assert!(plan.create_dirs.contains(&"zzz/g/data_analysis".to_string()));
    assert!(
        plan.create_dirs.contains(
            &"zzz/g/data_analysis/primary_cSr/prod/output/c".to_string()
        )
    );
}

#[test]
fn plan_puts_every_file_into_every_directory() {
    let cfg = default_fixture();
    let plan = setup_test_files(&cfg);
    // Seven files in each of the eighteen directories.
    assert_eq!(plan.create_files.len(), 18 * 7);
    assert!(plan.create_files.contains(&"zzz/g/t_bla.out".to_string()));
    assert!(plan.create_files.contains(&"zzz/g/data_analysis/g_bla.pdf".to_string()));
    assert!(
        plan.create_files.contains(
            &"zzz/a/data_analysis/primary_cSr/prod/output/l_02_bla.out".to_string()
        )
    );
}

#[test]
fn traverse_pairs_each_directory_with_each_file() {
    let dirs = vec!["d1".to_string(), "d2".to_string()];
    let files = vec!["f1".to_string(), "f2".to_string(), "f3".to_string()];
    let paths = traverse_dirs(&dirs, &files);
    assert_eq!(
        paths,
        vec!["d1/f1", "d1/f2", "d1/f3", "d2/f1", "d2/f2", "d2/f3"]
    );
}
