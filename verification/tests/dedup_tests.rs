use count_tlgs::FileEntry;
use count_tlgs::dedupe;
use count_tlgs::scan_entries;
use count_tlgs::scan_histogram;

fn strings(names: &[&str]) -> Vec<String> {
    names.iter().map(|n| n.to_string()).collect()
}

#[test]
fn entry_splits_name_into_stem_and_extension() {
    let e = FileEntry::new("t_bla.out");
    assert_eq!(e.name, "t_bla.out");
    assert_eq!(e.stem, "t_bla");
    assert_eq!(e.extension.as_deref(), Some("out"));

    let e = FileEntry::new("a.tar.gz");
    assert_eq!(e.stem, "a.tar");
    assert_eq!(e.extension.as_deref(), Some("gz"));

    let e = FileEntry::new("noext");
    assert_eq!(e.stem, "noext");
    assert_eq!(e.extension, None);

    let e = FileEntry::new(".bashrc");
    assert_eq!(e.stem, ".bashrc");
    assert_eq!(e.extension, None);
}

#[test]
fn dedup_keeps_one_entry_per_stem() {
    let entries: Vec<FileEntry> = ["t_bla.out", "t_bla.pdf", "t_bla.txt"]
        .iter()
        .map(|n| FileEntry::new(n))
        .collect();
    let kept = dedupe(&entries);
    assert_eq!(kept.len(), 1);
    assert_eq!(kept[0].name, "t_bla.out");
}

#[test]
fn dedup_first_occurrence_wins() {
    let entries: Vec<FileEntry> = ["g_a.pdf", "g_a.out", "l_b.out", "g_a.txt", "l_b.pdf"]
        .iter()
        .map(|n| FileEntry::new(n))
        .collect();
    let kept = dedupe(&entries);
    let names: Vec<&str> = kept.iter().map(|e| e.name.as_str()).collect();
    assert_eq!(names, vec!["g_a.pdf", "l_b.out"]);
}

#[test]
fn duplicate_stem_counts_once_whatever_the_filter() {
    let names = strings(&["t_bla.out", "t_bla.pdf", "t_bla.txt"]);

    let unfiltered = scan_histogram(&names, None);
    assert_eq!(unfiltered.table, 1);
    assert_eq!(unfiltered.listing, 0);
    assert_eq!(unfiltered.graph, 0);
    assert_eq!(unfiltered.other, 0);

    let exts = strings(&["out", "pdf"]);
    let filtered = scan_histogram(&names, Some(&exts));
    assert_eq!(filtered.table, 1);
    assert_eq!(filtered.listing, 0);
    assert_eq!(filtered.graph, 0);
    assert_eq!(filtered.other, 0);
}

#[test]
fn scan_keeps_only_filtered_extensions_in_order() {
    let names = strings(&["t_bla.out", "t_bla.txt", "g_bla.pdf", "noext"]);
    let exts = strings(&["out", "pdf"]);
    let kept = scan_entries(&names, Some(&exts));
    let kept_names: Vec<&str> = kept.iter().map(|e| e.name.as_str()).collect();
    assert_eq!(kept_names, vec!["t_bla.out", "g_bla.pdf"]);

    let all = scan_entries(&names, None);
    assert_eq!(all.len(), 4);
}

#[test]
fn filter_excludes_entries_without_extension() {
    let names = strings(&["t_noext", "l_one.out"]);
    let exts = strings(&["out", "pdf"]);
    let h = scan_histogram(&names, Some(&exts));
    assert_eq!(h.table, 0);
    assert_eq!(h.listing, 1);
    let h = scan_histogram(&names, None);
    assert_eq!(h.table, 1);
    assert_eq!(h.listing, 1);
}
