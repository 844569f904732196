//! Tests of the run report.

use std::time::Duration;

use csv_validator::reporter::ValidationReport;
use csv_validator::rules::ValidationViolation;
use csv_validator::validator::FileValidationResult;

fn violation(row: usize) -> ValidationViolation {
    ValidationViolation {
        rule: "not_null".to_string(),
        column: "c".to_string(),
        row,
        value: String::new(),
        message: "m".to_string(),
    }
}

fn result(path: &str, violations: usize) -> FileValidationResult {
    FileValidationResult {
        file_path: path.to_string(),
        violations: (0..violations).map(|i| violation(i + 2)).collect(),
        rows_checked: 10,
        columns_checked: 2,
    }
}

fn report(results: Vec<FileValidationResult>) -> ValidationReport {
    ValidationReport { results, container: "rust".to_string(), duration: Duration::from_millis(420) }
}

#[test]
fn file_result_valid_iff_no_violations() {
    assert!(result("a.csv", 0).is_valid());
    assert!(!result("a.csv", 1).is_valid());
}

#[test]
fn report_totals_and_failed_files() {
    let r = report(vec![result("a.csv", 0), result("b.csv", 3), result("c.csv", 1)]);
    assert!(!r.is_valid());
    assert_eq!(r.total_violations(), 4);
    let failed: Vec<&str> = r.failed_files().iter().map(|f| f.file_path.as_str()).collect();
    assert_eq!(failed, vec!["b.csv", "c.csv"]);
    assert_eq!(r.summary_line(), "container=rust files=3 violations=4 status=FAIL");
}

#[test]
fn valid_report_has_no_failed_files() {
    // Law: valid exactly when there is no violation and no failed file.
    let r = report(vec![result("a.csv", 0), result("b.csv", 0)]);
    assert!(r.is_valid());
    assert_eq!(r.total_violations(), 0);
    assert!(r.failed_files().is_empty());
    assert_eq!(r.summary_line(), "container=rust files=2 violations=0 status=PASS");
    let empty = report(vec![]);
    assert!(empty.is_valid());
    assert_eq!(empty.summary_line(), "container=rust files=0 violations=0 status=PASS");
}

#[test]
fn summary_counts_are_decimal() {
    let results: Vec<FileValidationResult> = (0..12).map(|i| result("f.csv", if i == 0 { 105 } else { 0 })).collect();
    let r = report(results);
    assert_eq!(r.summary_line(), "container=rust files=12 violations=105 status=FAIL");
}
