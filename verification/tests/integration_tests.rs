//! End-to-end tests of the `Config -> Validator -> FileValidationResult`
//! pipeline on an orders file layout.

use csv_validator::config::{ColumnValidation, Config, FileConfig, FileValidation, ValidationRule};
use csv_validator::rules::NumericReading;
use csv_validator::validator::Validator;

fn read_number(text: &str, min: Option<u64>, max: Option<u64>) -> NumericReading {
    match text.parse::<f64>() {
        Err(_) => NumericReading::NotANumber,
        Ok(num) => {
            let min = min.map(f64::from_bits);
            let max = max.map(f64::from_bits);
            if min.is_some_and(|m| num < m) {
                NumericReading::BelowMin { number: num.to_string(), bound: min.unwrap().to_string() }
            } else if max.is_some_and(|m| num > m) {
                NumericReading::AboveMax { number: num.to_string(), bound: max.unwrap().to_string() }
            } else {
                NumericReading::InRange
            }
        }
    }
}

/// The orders configuration: five checked columns under `raw/orders`.
fn load_config() -> Config {
    let column = |name: &str, rules: Vec<ValidationRule>| ColumnValidation { name: name.to_string(), rules };
    let config = Config {
        storage: None,
        files: vec![FileConfig { path: "raw/orders".to_string(), file_pattern: "*.csv".to_string() }],
        validations: vec![FileValidation {
            file_pattern: "raw/orders".to_string(),
            columns: vec![
                column(
                    "order_id",
                    vec![
                        ValidationRule::NotNull,
                        ValidationRule::NoDuplicates,
                        ValidationRule::Regex {
                            pattern: "^ORD-[0-9]{6}$".to_string(),
                            message: Some("Order ID must match ORD-XXXXXX".to_string()),
                        },
                    ],
                ),
                column(
                    "email",
                    vec![ValidationRule::Regex {
                        pattern: r"^[^@\s]+@[^@\s]+\.[^@\s]+$".to_string(),
                        message: None,
                    }],
                ),
                column(
                    "amount",
                    vec![ValidationRule::NumericRange {
                        min: Some(0.01f64.to_bits()),
                        max: Some(100000.0f64.to_bits()),
                    }],
                ),
                column(
                    "currency",
                    vec![ValidationRule::AllowedValues {
                        values: vec!["USD".to_string(), "EUR".to_string(), "GBP".to_string()],
                    }],
                ),
                column(
                    "status",
                    vec![ValidationRule::AllowedValues {
                        values: vec![
                            "pending".to_string(),
                            "shipped".to_string(),
                            "delivered".to_string(),
                            "cancelled".to_string(),
                        ],
                    }],
                ),
            ],
        }],
    };
    config.validate().expect("the orders config must be valid");
    config
}

const VALID_ORDERS: &[u8] = b"order_id,customer_id,email,amount,currency,status
ORD-000001,C1,alice@example.com,10.00,USD,pending
ORD-000002,C2,bob@example.com,20.50,EUR,shipped
ORD-000003,C3,carol@example.org,99.99,GBP,delivered
ORD-000004,C4,dave@example.net,1500,USD,cancelled
ORD-000005,C5,erin@example.com,0.01,EUR,pending
";

const INVALID_ORDERS: &[u8] = b"order_id,customer_id,email,amount,currency,status
ORD-000001,C1,alice@example.com,10.00,USD,pending
,C2,bob@example.com,20.00,EUR,shipped
ORD-000003,C3,not-an-email,30.00,GBP,delivered
ORD-000001,C4,dave@example.com,-5.00,USD,pending
ORD-000005,C5,erin@example.com,50.00,CHF,unknown_status
";

#[test]
fn valid_orders_file_produces_no_violations() {
    let config = load_config();
    let content = VALID_ORDERS;

    let mut validator = Validator::new(&config);
    let result = validator
        .validate_file("raw/orders/valid_orders.csv", content, &read_number)
        .expect("validation must not error on well-formed CSV");

    assert!(
        result.is_valid(),
        "Expected no violations, got: {:#?}",
        result.violations
    );
    assert_eq!(result.rows_checked, 5);
    assert_eq!(result.columns_checked, 5); // order_id, email, amount, currency, status
}

#[test]
fn invalid_orders_file_produces_expected_violations() {
    let config = load_config();
    let content = INVALID_ORDERS;

    let mut validator = Validator::new(&config);
    let result = validator
        .validate_file("raw/orders/invalid_orders.csv", content, &read_number)
        .expect("validation must not error even on bad data");

    assert!(!result.is_valid(), "Expected violations but got none");

    let rules: Vec<&str> = result.violations.iter().map(|v| v.rule.as_str()).collect();

    assert!(rules.contains(&"not_null"), "Expected a not_null violation");
    assert!(rules.contains(&"regex"), "Expected a regex violation for email");
    assert!(rules.contains(&"no_duplicates"), "Expected a no_duplicates violation");
    assert!(rules.contains(&"numeric_range"), "Expected a numeric_range violation");
    assert!(rules.contains(&"allowed_values"), "Expected an allowed_values violation");
}

#[test]
fn empty_csv_with_valid_headers_produces_no_violations() {
    let config = load_config();
    let csv = b"order_id,customer_id,email,amount,currency,status\n";

    let mut validator = Validator::new(&config);
    let result = validator
        .validate_file("raw/orders/empty.csv", csv, &read_number)
        .expect("empty file must not error");

    assert!(result.is_valid());
    assert_eq!(result.rows_checked, 0);
}

#[test]
fn file_outside_configured_paths_is_skipped() {
    let config = load_config();
    let csv = b"some_col\nvalue\n";

    let mut validator = Validator::new(&config);
    let result = validator
        .validate_file("raw/invoices/file.csv", csv, &read_number)
        .expect("unmatched path must not error");

    assert!(result.is_valid());
    assert_eq!(result.rows_checked, 0, "unmatched file should not be checked");
}

#[test]
fn missing_column_in_csv_returns_error() {
    let config = load_config();
    let csv = b"unrelated_col\nsome_value\n";

    let mut validator = Validator::new(&config);
    let result = validator.validate_file("raw/orders/bad_schema.csv", csv, &read_number);

    assert!(
        result.is_err(),
        "Missing column must return an error, not empty violations"
    );
}
