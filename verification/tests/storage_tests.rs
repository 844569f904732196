//! Tests of the selection of files from a folder listing.

use csv_validator::error::AppError;
use csv_validator::storage::{build_glob_matcher, file_name};

fn listing(paths: &[&str]) -> Vec<String> {
    paths.iter().map(|p| p.to_string()).collect()
}

#[test]
fn matching_csvs_are_selected() {
    let m = build_glob_matcher("*.csv").unwrap();
    let files = m.matching_files(listing(&[
        "raw/orders/2024-01-02.csv",
        "raw/orders/README.txt",
        "raw/orders/2024-01-01.csv",
    ]));
    assert_eq!(files, vec!["raw/orders/2024-01-01.csv", "raw/orders/2024-01-02.csv"]);
}

#[test]
fn glob_applies_to_file_name() {
    let m = build_glob_matcher("orders_*.csv").unwrap();
    let files = m.matching_files(listing(&[
        "raw/orders/orders_jan.csv",
        "raw/orders/summary.csv",
        "raw/orders_x/summary.csv",
    ]));
    assert_eq!(files, vec!["raw/orders/orders_jan.csv"]);
}

#[test]
fn selection_is_sorted_like_strings() {
    let m = build_glob_matcher("*").unwrap();
    let mut input = vec!["b", "a/z", "A", "a", "ab", "é", "a", "Z"];
    let files = m.matching_files(listing(&input));
    input.sort();
    assert_eq!(files, input);
}

#[test]
fn listing_order_does_not_matter() {
    let m = build_glob_matcher("*.csv").unwrap();
    let a = m.matching_files(listing(&["x/2.csv", "x/1.csv", "x/3.txt", "x/1.csv"]));
    let b = m.matching_files(listing(&["x/1.csv", "x/3.txt", "x/1.csv", "x/2.csv"]));
    assert_eq!(a, b);
    assert_eq!(a, vec!["x/1.csv", "x/1.csv", "x/2.csv"]);
}

#[test]
fn invalid_glob_is_a_rule_error() {
    match build_glob_matcher("[abc") {
        Err(AppError::Rule(m)) => {
            assert!(m.starts_with("Invalid file pattern '[abc': "));
            assert!(m.len() > "Invalid file pattern '[abc': ".len());
        }
        _ => panic!("expected a rule error"),
    }
}

#[test]
fn file_name_is_last_segment() {
    assert_eq!(file_name("raw/orders/a.csv"), "a.csv");
    assert_eq!(file_name("a.csv"), "a.csv");
    assert_eq!(file_name("raw/"), "");
    assert_eq!(file_name(""), "");
}

#[test]
fn glob_too_deep_for_its_regex_is_a_rule_error() {
    let depth = 400;
    let pattern = format!("{}x{}", "{a,".repeat(depth), "}".repeat(depth));
    match build_glob_matcher(&pattern) {
        Err(AppError::Rule(m)) => assert!(m.starts_with("Invalid file pattern '")),
        Ok(_) => panic!("expected a rule error"),
        Err(_) => panic!("expected a rule error"),
    }
}
