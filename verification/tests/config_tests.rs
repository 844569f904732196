//! Tests of the configuration checks and path matching.

use csv_validator::config::{
    default_file_pattern, path_matches_prefix, ColumnValidation, Config, FileConfig, FileValidation,
    StorageConfig, ValidationRule,
};
use csv_validator::error::AppError;

#[test]
fn path_prefix_exact_match() {
    assert!(path_matches_prefix("raw/orders", "raw/orders"));
}

#[test]
fn path_prefix_subfolder_match() {
    assert!(path_matches_prefix(
        "raw/orders/2024-01-01.csv",
        "raw/orders"
    ));
}

#[test]
fn path_prefix_no_false_positive() {
    assert!(!path_matches_prefix(
        "raw/orders-archive/file.csv",
        "raw/orders"
    ));
}

#[test]
fn path_prefix_trailing_slash_in_pattern() {
    assert!(path_matches_prefix(
        "raw/orders/file.csv",
        "raw/orders/"
    ));
}

#[test]
fn path_prefix_edge_cases() {
    // Law: a pattern and the pattern with a trailing slash select the same
    // files, apart from the path equal to the pattern.
    assert!(path_matches_prefix("raw/orders", "raw/orders"));
    assert!(!path_matches_prefix("raw/orders", "raw/orders/"));
    assert!(path_matches_prefix("raw/orders/", "raw/orders/"));
    assert!(path_matches_prefix("raw/orders/", "raw/orders"));
    assert!(!path_matches_prefix("raw", "raw/orders"));
    assert!(path_matches_prefix("/x", ""));
    assert!(path_matches_prefix("", ""));
    assert!(!path_matches_prefix("x", ""));
    assert!(path_matches_prefix("logs.csv", "logs.csv"));
}

#[test]
fn default_pattern_is_csv() {
    assert_eq!(default_file_pattern(), "*.csv");
}

fn config_with(files: usize, rules: Vec<ValidationRule>) -> Config {
    Config {
        storage: Some(StorageConfig { account: None }),
        files: (0..files)
            .map(|_| FileConfig { path: "raw".to_string(), file_pattern: default_file_pattern() })
            .collect(),
        validations: vec![FileValidation {
            file_pattern: "raw/orders".to_string(),
            columns: vec![ColumnValidation { name: "id".to_string(), rules }],
        }],
    }
}

#[test]
fn config_without_files_is_rejected() {
    match config_with(0, vec![]).validate() {
        Err(AppError::Config(m)) => {
            assert_eq!(m, "Config must define at least one entry under `files`")
        }
        _ => panic!("expected a config error"),
    }
}

#[test]
fn config_without_validations_is_rejected() {
    let mut c = config_with(1, vec![]);
    c.validations.clear();
    match c.validate() {
        Err(AppError::Config(m)) => {
            assert_eq!(m, "Config must define at least one entry under `validations`")
        }
        _ => panic!("expected a config error"),
    }
}

#[test]
fn config_with_bad_regex_is_rejected() {
    let c = config_with(
        1,
        vec![
            ValidationRule::NotNull,
            ValidationRule::Regex { pattern: "^ok$".to_string(), message: None },
            ValidationRule::Regex { pattern: "([a-z]".to_string(), message: None },
        ],
    );
    match c.validate() {
        Err(AppError::Config(m)) => {
            assert!(m.starts_with(
                "Invalid regex '([a-z]' in column 'id' (file_pattern: 'raw/orders'): "
            ));
            assert!(m.len() > "Invalid regex '([a-z]' in column 'id' (file_pattern: 'raw/orders'): ".len());
        }
        _ => panic!("expected a config error"),
    }
}

#[test]
fn good_config_is_accepted() {
    let c = config_with(
        2,
        vec![
            ValidationRule::Regex { pattern: r"^ORD-\d{6}$".to_string(), message: None },
            ValidationRule::Integer,
        ],
    );
    assert!(c.validate().is_ok());
}
