//! Folding scanned directories into the report: filter each listing by
//! extension, collapse duplicate stems, classify what survives, count
//! per category, and record the histogram under the directory's
//! reporting key — a fixed number of ancestor levels above it. Two
//! directories sharing a key overwrite: the last one processed wins.

use vstd::prelude::*;

use crate::classify::Category;
use crate::classify::classify;
use crate::classify::classify_spec;
use crate::dedup::dedupe;
use crate::dedup::dedupe_names;
use crate::entry::filter_names;
use crate::entry::filter_views;
use crate::entry::names_of;
use crate::entry::scan_entries;
use crate::report::DirList;
use crate::report::Histogram;
use crate::strings::last_index_of;
use crate::strings::rfind_char;
use crate::strings::views_of;

verus! {

/// One scanned directory: its path and the names of the regular files
/// directly inside it, in listing order.
#[derive(Debug)]
pub struct DirScan {
    pub dir: String,
    pub file_names: Vec<String>,
}

/// The path with its last segment removed; a path without separators
/// has the empty path as its parent.
pub open spec fn parent_spec(p: Seq<char>) -> Seq<char> {
    let li = last_index_of(p, '/');
    if li >= 0 {
        p.take(li)
    } else {
        Seq::empty()
    }
}

/// The ancestor a fixed number of levels above a path.
pub open spec fn ancestor_spec(p: Seq<char>, levels: nat) -> Seq<char>
    decreases levels,
{
    if levels == 0 {
        p
    } else {
        ancestor_spec(parent_spec(p), (levels - 1) as nat)
    }
}

proof fn lemma_ancestor_step(p: Seq<char>, k: nat)
    ensures
        ancestor_spec(p, k + 1) == parent_spec(ancestor_spec(p, k)),
    decreases k,
{
    if k > 0 {
        lemma_ancestor_step(parent_spec(p), (k - 1) as nat);
    } else {
        assert(ancestor_spec(p, 1) == ancestor_spec(parent_spec(p), 0));
        assert(ancestor_spec(parent_spec(p), 0) == parent_spec(p));
    }
}

/// The path with its last segment removed.
pub fn parent_of(p: &str) -> (r: String)
    ensures
        r@ == parent_spec(p@),
{
    proof {
        crate::strings::lemma_last_index_of(p@, '/');
    }
    match rfind_char(p, '/') {
        Some(li) => {
            let r = p.substring_char(0, li).to_owned();
            assert(r@ =~= p@.take(li as int));
            r
        },
        None => {
            let r = String::new();
            assert(r@ =~= parent_spec(p@));
            r
        },
    }
}

/// The reporting key of a directory: its ancestor `levels` up.
pub fn ancestor_of(p: &str, levels: usize) -> (r: String)
    ensures
        r@ == ancestor_spec(p@, levels as nat),
{
    let mut cur = p.to_owned();
    let mut k: usize = 0;
    while k < levels
        invariant
            k <= levels,
            cur@ == ancestor_spec(p@, k as nat),
        decreases levels - k,
    {
        proof {
            lemma_ancestor_step(p@, k as nat);
        }
        cur = parent_of(cur.as_str());
        k = k + 1;
    }
    cur
}

/// How many of the names fall under a category.
pub open spec fn count_cat(names: Seq<Seq<char>>, c: Category) -> int
    decreases names.len(),
{
    if names.len() == 0 {
        0
    } else {
        count_cat(names.drop_last(), c) + if classify_spec(names.last()) == c {
            1int
        } else {
            0int
        }
    }
}

proof fn lemma_count_cat_bounds(names: Seq<Seq<char>>, c: Category)
    ensures
        0 <= count_cat(names, c) <= names.len(),
    decreases names.len(),
{
    if names.len() > 0 {
        lemma_count_cat_bounds(names.drop_last(), c);
    }
}

/// The histogram whose counts are the category counts of the names.
pub open spec fn hist_spec(names: Seq<Seq<char>>) -> Histogram {
    Histogram {
        table: count_cat(names, Category::Table) as usize,
        listing: count_cat(names, Category::Listing) as usize,
        graph: count_cat(names, Category::Graph) as usize,
        other: count_cat(names, Category::Other) as usize,
    }
}

/// The names of one directory that count: filtered by extension, then
/// collapsed to one per stem.
pub open spec fn surviving_names(names: Seq<Seq<char>>, filter: Option<Seq<Seq<char>>>) -> Seq<
    Seq<char>,
> {
    dedupe_names(filter_names(names, filter))
}

/// The histogram of one scanned directory.
pub open spec fn dir_hist_spec(names: Seq<Seq<char>>, filter: Option<Seq<Seq<char>>>) -> Histogram {
    hist_spec(surviving_names(names, filter))
}

/// The report mapping the scans fold into: each scan's histogram under
/// its reporting key, in scan order, a later key overwriting an
/// earlier one.
pub open spec fn agg_map_spec(
    scans: Seq<DirScan>,
    filter: Option<Seq<Seq<char>>>,
    levels: nat,
) -> Map<Seq<char>, Histogram>
    decreases scans.len(),
{
    if scans.len() == 0 {
        Map::empty()
    } else {
        agg_map_spec(scans.drop_last(), filter, levels).insert(
            ancestor_spec(scans.last().dir@, levels),
            dir_hist_spec(views_of(scans.last().file_names@), filter),
        )
    }
}

/// Count one directory's listing: filter, collapse stems, classify and
/// count each survivor.
pub fn scan_histogram(file_names: &Vec<String>, filter: Option<&Vec<String>>) -> (h: Histogram)
    ensures
        h == dir_hist_spec(views_of(file_names@), filter_views(filter)),
{
    let ghost all = views_of(file_names@);
    let ghost fv = filter_views(filter);
    let entries = scan_entries(file_names, filter);
    let kept = dedupe(&entries);
    let ghost survivors = names_of(kept@);
    assert(survivors == surviving_names(all, fv));
    let m = kept.len();
    let mut h = Histogram::zero();
    let mut j: usize = 0;
    assert(survivors.take(0) =~= Seq::<Seq<char>>::empty());
    while j < m
        invariant
            j <= m,
            m == kept@.len(),
            survivors == names_of(kept@),
            forall|c: Category| h.count(c) == count_cat(survivors.take(j as int), c),
        decreases m - j,
    {
        let ghost prefix = survivors.take(j as int + 1);
        assert(prefix.drop_last() =~= survivors.take(j as int));
        assert(prefix.last() == kept@[j as int].name@);
        let c = classify(kept[j].name.as_str());
        proof {
            lemma_count_cat_bounds(survivors.take(j as int), c);
        }
        h = h.bump(c);
        assert forall|d: Category| h.count(d) == count_cat(prefix, d) by {
            assert(count_cat(prefix, d) == count_cat(prefix.drop_last(), d) + if classify_spec(
                prefix.last(),
            ) == d {
                1int
            } else {
                0int
            });
        }
        j = j + 1;
    }
    assert(survivors.take(m as int) =~= survivors);
    proof {
        lemma_count_cat_bounds(survivors, Category::Table);
        lemma_count_cat_bounds(survivors, Category::Listing);
        lemma_count_cat_bounds(survivors, Category::Graph);
        lemma_count_cat_bounds(survivors, Category::Other);
    }
    assert(h.count(Category::Table) == count_cat(survivors, Category::Table));
    assert(h.count(Category::Listing) == count_cat(survivors, Category::Listing));
    assert(h.count(Category::Graph) == count_cat(survivors, Category::Graph));
    assert(h.count(Category::Other) == count_cat(survivors, Category::Other));
    assert(h.table == hist_spec(survivors).table);
    assert(h.listing == hist_spec(survivors).listing);
    assert(h.graph == hist_spec(survivors).graph);
    assert(h.other == hist_spec(survivors).other);
    assert(h == hist_spec(survivors));
    h
}

/// Aggregate the scans into a report: one histogram per reporting key,
/// the key taken `levels` above each scanned directory, the last scan
/// of a key winning.
pub fn aggregate(scans: &Vec<DirScan>, filter: Option<&Vec<String>>, levels: usize) -> (r: DirList)
    ensures
        r.wf(),
        r.as_map() == agg_map_spec(scans@, filter_views(filter), levels as nat),
{
    let ghost fv = filter_views(filter);
    let n = scans.len();
    let mut report = DirList::new();
    let mut i: usize = 0;
    assert(scans@.take(0) =~= Seq::<DirScan>::empty());
    while i < n
        invariant
            i <= n,
            n == scans@.len(),
            fv == filter_views(filter),
            report.wf(),
            report.as_map() == agg_map_spec(scans@.take(i as int), fv, levels as nat),
        decreases n - i,
    {
        let ghost prefix = scans@.take(i as int + 1);
        assert(prefix.drop_last() =~= scans@.take(i as int));
        assert(prefix.last() == scans@[i as int]);
        let h = scan_histogram(&scans[i].file_names, filter);
        let key = ancestor_of(scans[i].dir.as_str(), levels);
        report.insert(key, h);
        i = i + 1;
    }
    assert(scans@.take(n as int) =~= scans@);
    report
}

/// The extensions that count as production artifacts.
pub open spec fn default_exts() -> Seq<Seq<char>> {
    seq!["out"@, "pdf"@]
}

/// How many ancestor levels above a located directory its reporting
/// key lies: two, as in `.../prod/output` reporting under the
/// directory that holds `prod`.
pub open spec fn default_levels() -> nat {
    2
}

/// The whole counting pass over located directories, with the fixed
/// extension filter and reporting key convention.
pub fn tlg_report(scans: &Vec<DirScan>) -> (r: DirList)
    ensures
        r.wf(),
        r.as_map() == agg_map_spec(scans@, Some(default_exts()), default_levels()),
{
    let mut exts: Vec<String> = Vec::new();
    exts.push(String::from_str("out"));
    exts.push(String::from_str("pdf"));
    assert(views_of(exts@) =~= default_exts());
    aggregate(scans, Some(&exts), 2)
}

} // verus!
