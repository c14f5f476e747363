use count_tlgs::DirList;
use count_tlgs::DirScan;
use count_tlgs::Histogram;
use count_tlgs::aggregate;
use count_tlgs::render;
use count_tlgs::tlg_report;

fn strings(names: &[&str]) -> Vec<String> {
    names.iter().map(|n| n.to_string()).collect()
}

fn fixture_file_names() -> Vec<String> {
    strings(&[
        "t_bla.out",
        "t_bla.pdf",
        "t_bla.txt",
        "eer_bla.out",
        "l_01_bla.out",
        "l_02_bla.out",
        "g_bla.pdf",
    ])
}

fn fixture_scans() -> Vec<DirScan> {
    ["zzz/a", "zzz/d", "zzz/g"]
        .iter()
        .map(|root| DirScan {
            dir: format!("{}/data_analysis/primary_cSr/prod/output", root),
            file_names: fixture_file_names(),
        })
        .collect()
}

#[test]
fn fixture_histogram_per_directory() {
    let report = tlg_report(&fixture_scans());
    assert_eq!(report.len(), 3);
    for i in 0..report.len() {
        let h = report.hist_at(i);
        assert_eq!(h.table, 1);
        assert_eq!(h.listing, 2);
        assert_eq!(h.graph, 1);
        assert_eq!(h.other, 1);
    }
    assert_eq!(report.key_at(0).as_str(), "zzz/a/data_analysis/primary_cSr");
    assert_eq!(report.key_at(1).as_str(), "zzz/d/data_analysis/primary_cSr");
    assert_eq!(report.key_at(2).as_str(), "zzz/g/data_analysis/primary_cSr");
}

#[test]
fn test_run() {
    let report = tlg_report(&fixture_scans());
    let out = render(&report);
    let expected = "\
zzz/a/data_analysis/primary_cSr\ntable: 1\nlisting: 2\ngraph: 1\nother: 1\n\n\
zzz/d/data_analysis/primary_cSr\ntable: 1\nlisting: 2\ngraph: 1\nother: 1\n\n\
zzz/g/data_analysis/primary_cSr\ntable: 1\nlisting: 2\ngraph: 1\nother: 1\n\n";
    assert_eq!(out, expected);
}

#[test]
fn reporting_key_is_the_configured_ancestor() {
    let scans = vec![DirScan {
        dir: "a/b/c/d".to_string(),
        file_names: strings(&["t_x.out"]),
    }];
    let report = aggregate(&scans, None, 2);
    assert_eq!(report.len(), 1);
    assert_eq!(report.key_at(0).as_str(), "a/b");

    let report = aggregate(&scans, None, 0);
    assert_eq!(report.key_at(0).as_str(), "a/b/c/d");

    let report = aggregate(&scans, None, 9);
    assert_eq!(report.key_at(0).as_str(), "");
}

#[test]
fn colliding_keys_overwrite_last_wins() {
    let scans = vec![
        DirScan { dir: "top/unit/prod/output".to_string(), file_names: strings(&["t_a.out"]) },
        DirScan { dir: "top/unit/prod/output2".to_string(), file_names: strings(&["g_b.pdf"]) },
    ];
    let report = aggregate(&scans, None, 2);
    assert_eq!(report.len(), 1);
    assert_eq!(report.key_at(0).as_str(), "top/unit");
    let h = report.hist_at(0);
    assert_eq!(h.table, 0);
    assert_eq!(h.graph, 1);
}

#[test]
fn rendering_orders_keys_and_categories() {
    let mut report = DirList::new();
    report.insert(
        "zebra".to_string(),
        Histogram { table: 0, listing: 3, graph: 0, other: 12 },
    );
    report.insert(
        "alpha".to_string(),
        Histogram { table: 2, listing: 0, graph: 1, other: 0 },
    );
    let out = render(&report);
    let expected = "alpha\ntable: 2\ngraph: 1\n\nzebra\nlisting: 3\nother: 12\n\n";
    assert_eq!(out, expected);
}

#[test]
fn discovery_order_does_not_change_the_rendering() {
    let forward = tlg_report(&fixture_scans());
    let mut reversed_scans = fixture_scans();
    reversed_scans.reverse();
    let backward = tlg_report(&reversed_scans);
    assert_eq!(render(&forward), render(&backward));
}

#[test]
fn empty_report_renders_to_nothing() {
    let report = tlg_report(&Vec::new());
    assert_eq!(render(&report), "");
}
