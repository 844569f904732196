//! Tests of file validation.

use csv_validator::config::{ColumnValidation, Config, FileConfig, FileValidation, ValidationRule};
use csv_validator::error::AppError;
use csv_validator::rules::NumericReading;
use csv_validator::validator::{resolve_column_indices, Validator};

fn read_number(text: &str, min: Option<u64>, max: Option<u64>) -> NumericReading {
    match text.parse::<f64>() {
        Err(_) => NumericReading::NotANumber,
        Ok(num) => {
            let min = min.map(f64::from_bits);
            let max = max.map(f64::from_bits);
            if min.is_some_and(|m| num < m) {
                NumericReading::BelowMin { number: num.to_string(), bound: min.unwrap().to_string() }
            } else if max.is_some_and(|m| num > m) {
                NumericReading::AboveMax { number: num.to_string(), bound: max.unwrap().to_string() }
            } else {
                NumericReading::InRange
            }
        }
    }
}

fn make_config(file_pattern: &str, columns: Vec<ColumnValidation>) -> Config {
    Config {
        storage: None,
        files: vec![FileConfig {
            path: file_pattern.to_string(),
            file_pattern: "*.csv".to_string(),
        }],
        validations: vec![FileValidation {
            file_pattern: file_pattern.to_string(),
            columns,
        }],
    }
}

#[test]
fn valid_csv_produces_no_violations() {
    let config = make_config(
        "raw/orders",
        vec![ColumnValidation {
            name: "order_id".to_string(),
            rules: vec![ValidationRule::NotNull],
        }],
    );

    let csv = b"order_id,amount\nORD-000001,10.00\nORD-000002,20.00\n";
    let mut validator = Validator::new(&config);
    let result = validator
        .validate_file("raw/orders/test.csv", csv, &read_number)
        .unwrap();

    assert!(result.is_valid());
    assert_eq!(result.rows_checked, 2);
    assert_eq!(result.columns_checked, 1);
}

#[test]
fn null_in_required_column_is_caught() {
    let config = make_config(
        "raw/orders",
        vec![ColumnValidation {
            name: "order_id".to_string(),
            rules: vec![ValidationRule::NotNull],
        }],
    );

    let csv = b"order_id,amount\nORD-000001,10.00\n,20.00\n";
    let mut validator = Validator::new(&config);
    let result = validator
        .validate_file("raw/orders/test.csv", csv, &read_number)
        .unwrap();

    assert!(!result.is_valid());
    assert_eq!(result.violations.len(), 1);
    assert_eq!(result.violations[0].rule, "not_null");
}

#[test]
fn missing_column_returns_error() {
    let config = make_config(
        "raw/orders",
        vec![ColumnValidation {
            name: "nonexistent_column".to_string(),
            rules: vec![ValidationRule::NotNull],
        }],
    );

    let csv = b"order_id,amount\nORD-000001,10.00\n";
    let mut validator = Validator::new(&config);
    let result = validator.validate_file("raw/orders/test.csv", csv, &read_number);

    assert!(result.is_err());
}

#[test]
fn unmatched_file_path_returns_empty_result() {
    let config = make_config(
        "raw/orders",
        vec![ColumnValidation {
            name: "order_id".to_string(),
            rules: vec![ValidationRule::NotNull],
        }],
    );

    let csv = b"some_col\nvalue\n";
    let mut validator = Validator::new(&config);
    // "raw/customers" does not match "raw/orders"
    let result = validator
        .validate_file("raw/customers/test.csv", csv, &read_number)
        .unwrap();

    assert!(result.is_valid());
    assert_eq!(result.rows_checked, 0);
}

#[test]
fn duplicate_in_id_column_is_caught() {
    let config = make_config(
        "raw/orders",
        vec![ColumnValidation {
            name: "order_id".to_string(),
            rules: vec![ValidationRule::NoDuplicates],
        }],
    );

    let csv =
        b"order_id,amount\nORD-000001,10.00\nORD-000002,20.00\nORD-000001,30.00\n";
    let mut validator = Validator::new(&config);
    let result = validator
        .validate_file("raw/orders/test.csv", csv, &read_number)
        .unwrap();

    assert!(!result.is_valid());
    assert_eq!(result.violations[0].rule, "no_duplicates");
}

#[test]
fn missing_column_message_lists_headers() {
    let config = make_config(
        "raw/orders",
        vec![
            ColumnValidation { name: "order_id".to_string(), rules: vec![] },
            ColumnValidation { name: "nope".to_string(), rules: vec![] },
        ],
    );
    let mut validator = Validator::new(&config);
    match validator.validate_file("raw/orders/x.csv", b"order_id, amount\n1,2\n", &read_number) {
        Err(AppError::Rule(m)) => assert_eq!(
            m,
            "Column 'nope' not found in 'raw/orders/x.csv'. Available columns: [order_id, amount]"
        ),
        other => panic!("unexpected: {:?}", other.map(|r| r.rows_checked)),
    }
}

#[test]
fn malformed_record_is_a_csv_error() {
    let config = make_config(
        "raw/orders",
        vec![ColumnValidation { name: "a".to_string(), rules: vec![ValidationRule::NotNull] }],
    );
    let mut validator = Validator::new(&config);
    let r = validator.validate_file("raw/orders/x.csv", b"a,b\n1,2\n3\n", &read_number);
    assert!(matches!(r, Err(AppError::Csv(_))));
    // A missing column is reported before a malformed record.
    let config = make_config(
        "raw/orders",
        vec![ColumnValidation { name: "zz".to_string(), rules: vec![] }],
    );
    let mut validator = Validator::new(&config);
    let r = validator.validate_file("raw/orders/x.csv", b"a,b\n1,2\n3\n", &read_number);
    assert!(matches!(r, Err(AppError::Rule(_))));
}

#[test]
fn violations_run_column_by_column_and_rule_by_rule() {
    let config = make_config(
        "data",
        vec![
            ColumnValidation {
                name: "b".to_string(),
                rules: vec![ValidationRule::NotNull, ValidationRule::Integer],
            },
            ColumnValidation { name: "a".to_string(), rules: vec![ValidationRule::NotNull] },
        ],
    );
    let mut validator = Validator::new(&config);
    let csv = b"a,b\n,x\n1,\n , 7 \n";
    let r = validator.validate_file("data", csv, &read_number).unwrap();
    let got: Vec<(String, String, usize)> = r
        .violations
        .iter()
        .map(|v| (v.column.clone(), v.rule.clone(), v.row))
        .collect();
    assert_eq!(
        got,
        vec![
            ("b".to_string(), "not_null".to_string(), 3),
            ("b".to_string(), "integer".to_string(), 2),
            ("a".to_string(), "not_null".to_string(), 2),
            ("a".to_string(), "not_null".to_string(), 4),
        ]
    );
    assert_eq!(r.rows_checked, 3);
    assert_eq!(r.columns_checked, 2);
    assert_eq!(r.file_path, "data");
}

#[test]
fn first_matching_block_applies() {
    let mut config = make_config(
        "raw",
        vec![ColumnValidation { name: "a".to_string(), rules: vec![ValidationRule::NotNull] }],
    );
    config.validations.push(FileValidation {
        file_pattern: "raw/orders".to_string(),
        columns: vec![ColumnValidation { name: "zz".to_string(), rules: vec![] }],
    });
    let mut validator = Validator::new(&config);
    let r = validator.validate_file("raw/orders/f.csv", b"a\n1\n", &read_number).unwrap();
    assert_eq!(r.columns_checked, 1);
    assert_eq!(r.rows_checked, 1);
}

#[test]
fn resolve_column_indices_finds_first_header() {
    let headers = vec!["x".to_string(), "y".to_string(), "x".to_string()];
    let fv = FileValidation {
        file_pattern: "p".to_string(),
        columns: vec![
            ColumnValidation { name: "y".to_string(), rules: vec![] },
            ColumnValidation { name: "x".to_string(), rules: vec![] },
        ],
    };
    let idx = resolve_column_indices(&headers, &fv, "p/f.csv").unwrap();
    assert_eq!(idx, vec![1, 0]);
}

#[test]
fn validate_table_takes_parsed_records() {
    let config = make_config(
        "p",
        vec![ColumnValidation {
            name: "n".to_string(),
            rules: vec![ValidationRule::NumericRange { min: Some(1.0f64.to_bits()), max: None }],
        }],
    );
    let mut validator = Validator::new(&config);
    let headers = vec!["n".to_string()];
    let records = vec![vec!["0.5".to_string()], vec!["2".to_string()], vec![]];
    let r = validator
        .validate_table("p/f.csv", &config.validations[0], &headers, &records, &read_number)
        .unwrap();
    assert_eq!(r.violations.len(), 1);
    assert_eq!(r.violations[0].row, 2);
    assert_eq!(r.rows_checked, 3);
}

#[test]
fn revalidation_gives_the_same_result() {
    let config = make_config(
        "raw",
        vec![ColumnValidation {
            name: "id".to_string(),
            rules: vec![
                ValidationRule::Regex { pattern: "^[0-9]+$".to_string(), message: None },
                ValidationRule::NoDuplicates,
            ],
        }],
    );
    let mut validator = Validator::new(&config);
    let csv = b"id\n1\nx\n1\n";
    let first = validator.validate_file("raw/a.csv", csv, &read_number).unwrap();
    validator.validate_file("raw/b.csv", b"id\n2\n", &read_number).unwrap();
    let again = validator.validate_file("raw/a.csv", csv, &read_number).unwrap();
    let view = |r: &csv_validator::validator::FileValidationResult| {
        r.violations
            .iter()
            .map(|v| (v.rule.clone(), v.row, v.value.clone(), v.message.clone()))
            .collect::<Vec<_>>()
    };
    assert_eq!(view(&first), view(&again));
    assert_eq!(view(&first).len(), 2);
    assert_eq!((first.rows_checked, first.columns_checked), (again.rows_checked, again.columns_checked));
    assert_eq!(first.file_path, again.file_path);
}

#[test]
fn columns_sharing_a_name_see_each_row_once() {
    let config = make_config(
        "raw/orders",
        vec![
            ColumnValidation { name: "id".to_string(), rules: vec![ValidationRule::NoDuplicates] },
            ColumnValidation { name: "id".to_string(), rules: vec![] },
        ],
    );
    let mut validator = Validator::new(&config);
    let r = validator.validate_file("raw/orders/t.csv", b"id\nA\n", &read_number).unwrap();
    assert_eq!(r.rows_checked, 1);
    assert_eq!(r.columns_checked, 2);
    assert!(r.violations.is_empty());

    let r = validator.validate_file("raw/orders/t.csv", b"id\nA\nB\nA\n", &read_number).unwrap();
    assert_eq!(r.violations.len(), 1);
    assert_eq!(r.violations[0].row, 4);
    assert_eq!(r.violations[0].message, "Duplicate value 'A' in column 'id' at row 4 (first seen at row 2)");
}
