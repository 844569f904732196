//! Tests of the choices the command-line settings imply.

use std::path::PathBuf;

use csv_validator::cli::{Cli, OutputFormat};
use csv_validator::config::{Config, StorageConfig};
use csv_validator::rules::ValidationViolation;
use csv_validator::validator::FileValidationResult;

fn cli(verbose: u8, account: Option<&str>, output: &str) -> Cli {
    Cli {
        container: Some("raw-data".to_string()),
        local_file: None,
        config_location: PathBuf::from("config/rules.yaml"),
        storage_account: account.map(|a| a.to_string()),
        output: output.to_string(),
        fail_fast: false,
        dry_run: false,
        verbose,
    }
}

fn config(account: Option<&str>) -> Config {
    Config {
        storage: Some(StorageConfig { account: account.map(|a| a.to_string()) }),
        files: vec![],
        validations: vec![],
    }
}

#[test]
fn verbosity_selects_log_level() {
    assert_eq!(cli(0, None, "pretty").log_level(), "warn");
    assert_eq!(cli(1, None, "pretty").log_level(), "info");
    assert_eq!(cli(2, None, "pretty").log_level(), "debug");
    assert_eq!(cli(3, None, "pretty").log_level(), "trace");
    assert_eq!(cli(200, None, "pretty").log_level(), "trace");
}

#[test]
fn command_line_account_wins_over_config() {
    assert_eq!(cli(0, Some("cliacct"), "pretty").account(&config(Some("cfg"))), Some("cliacct".to_string()));
    assert_eq!(cli(0, None, "pretty").account(&config(Some("cfg"))), Some("cfg".to_string()));
    assert_eq!(cli(0, None, "pretty").account(&config(None)), None);
    let mut no_storage = config(None);
    no_storage.storage = None;
    assert_eq!(cli(0, None, "pretty").account(&no_storage), None);
}

#[test]
fn output_names_select_format() {
    assert_eq!(cli(0, None, "json").output_format(), OutputFormat::Json);
    assert_eq!(cli(0, None, "summary").output_format(), OutputFormat::Summary);
    assert_eq!(cli(0, None, "pretty").output_format(), OutputFormat::Pretty);
    assert_eq!(cli(0, None, "JSON").output_format(), OutputFormat::Pretty);
}

fn result(violations: usize) -> FileValidationResult {
    FileValidationResult {
        file_path: "raw/orders/a.csv".to_string(),
        violations: (0..violations)
            .map(|i| ValidationViolation {
                rule: "not_null".to_string(),
                column: "id".to_string(),
                row: i + 2,
                value: String::new(),
                message: "empty".to_string(),
            })
            .collect(),
        rows_checked: violations,
        columns_checked: 1,
    }
}

#[test]
fn fail_fast_stops_at_first_failing_file() {
    let mut c = cli(0, None, "pretty");
    assert!(!c.stops_after(&result(0)));
    assert!(!c.stops_after(&result(2)));
    c.fail_fast = true;
    assert!(!c.stops_after(&result(0)));
    assert!(c.stops_after(&result(1)));
}
