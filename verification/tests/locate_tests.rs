use count_tlgs::PatternError;
use count_tlgs::default_fixture;
use count_tlgs::prod_dirs;
use count_tlgs::setup_test_files;
use count_tlgs::structural_dirs;

fn fixture_dirs() -> Vec<String> {
    let cfg = default_fixture();
    let plan = setup_test_files(&cfg);
    plan.create_dirs
}

#[test]
fn test_prod_dirs() {
    // Do not remove the leading / from the suffix: without it the
    // combined pattern is invalid.
    let candidates = fixture_dirs();
    let mut b_dirs = prod_dirs("zzz", "/**/data_analysis/*csr*/prod/output/", &candidates)
        .unwrap();
    b_dirs.sort();

    let expected: Vec<String> = [
        "zzz/a/data_analysis/primary_cSr/prod/output",
        "zzz/d/data_analysis/primary_cSr/prod/output",
        "zzz/g/data_analysis/primary_cSr/prod/output",
    ]
    .iter()
    .map(|d| d.to_string())
    .collect();

    assert_eq!(b_dirs, expected)
}

#[test]
fn missing_leading_separator_is_a_pattern_error() {
    let candidates = fixture_dirs();
    let r = prod_dirs("zzz", "**/data_analysis/*csr*/prod/output/", &candidates);
    assert_eq!(r, Err(PatternError));
}

#[test]
fn three_stars_are_a_pattern_error() {
    let candidates = fixture_dirs();
    let r = prod_dirs("zzz", "/***/prod/output/", &candidates);
    assert_eq!(r, Err(PatternError));
}

#[test]
fn locating_twice_returns_the_same_paths() {
    let candidates = fixture_dirs();
    let first = prod_dirs("zzz", "/**/data_analysis/*csr*/prod/output/", &candidates).unwrap();
    let second = prod_dirs("zzz", "/**/data_analysis/*csr*/prod/output/", &candidates).unwrap();
    assert_eq!(first, second);
}

#[test]
fn single_star_stays_within_one_segment() {
    let candidates = vec![
        "zzz/data_analysis/a/bcsr/prod/output".to_string(),
        "zzz/data_analysis/primary_cSr/prod/output".to_string(),
    ];
    let found = prod_dirs("zzz", "/**/data_analysis/*csr*/prod/output/", &candidates).unwrap();
    assert_eq!(found, vec!["zzz/data_analysis/primary_cSr/prod/output".to_string()]);
}

#[test]
fn structural_mode_finds_the_same_directories() {
    let candidates = fixture_dirs();
    let found = structural_dirs(&candidates, "csr", "output");
    let expected: Vec<String> = [
        "zzz/a/data_analysis/primary_cSr/prod/output",
        "zzz/d/data_analysis/primary_cSr/prod/output",
        "zzz/g/data_analysis/primary_cSr/prod/output",
    ]
    .iter()
    .map(|d| d.to_string())
    .collect();
    assert_eq!(found, expected);
}

#[test]
fn structural_mode_needs_every_segment_condition() {
    let missing_prod = vec!["zzz/a/data_analysis/primary_cSr/output".to_string()];
    assert!(structural_dirs(&missing_prod, "csr", "output").is_empty());

    let missing_token = vec!["zzz/a/data_analysis/primary/prod/output".to_string()];
    assert!(structural_dirs(&missing_token, "csr", "output").is_empty());

    let wrong_name = vec!["zzz/a/data_analysis/primary_cSr/prod/output/c".to_string()];
    assert!(structural_dirs(&wrong_name, "csr", "output").is_empty());
}
