//! Tests of the rule engine.

use csv_validator::config::ValidationRule;
use csv_validator::rules::{NumericReading, RuleEngine};

fn engine() -> RuleEngine {
    RuleEngine::new()
}

/// Reads a trimmed cell as an `f64` and places it against the bounds.
fn read_number(text: &str, min: Option<u64>, max: Option<u64>) -> NumericReading {
    match text.parse::<f64>() {
        Err(_) => NumericReading::NotANumber,
        Ok(num) => {
            let min = min.map(f64::from_bits);
            let max = max.map(f64::from_bits);
            if min.is_some_and(|m| num < m) {
                NumericReading::BelowMin { number: num.to_string(), bound: min.unwrap().to_string() }
            } else if max.is_some_and(|m| num > m) {
                NumericReading::AboveMax { number: num.to_string(), bound: max.unwrap().to_string() }
            } else {
                NumericReading::InRange
            }
        }
    }
}

fn pairs<'a>(data: &[(&'a str, &'a str)]) -> Vec<(usize, &'a str)> {
    data.iter()
        .enumerate()
        .map(|(i, (_, v))| (i + 2, *v))
        .collect()
}

// --- not_null -----------------------------------------------------------

#[test]
fn not_null_passes_on_non_empty() {
    let vals = pairs(&[("", "hello"), ("", "world")]);
    let violations = engine().apply(&ValidationRule::NotNull, "col", &vals, &read_number);
    assert!(violations.is_empty());
}

#[test]
fn not_null_catches_empty() {
    let vals = pairs(&[("", "hello"), ("", ""), ("", "world"), ("", "")]);
    let violations = engine().apply(&ValidationRule::NotNull, "col", &vals, &read_number);
    assert_eq!(violations.len(), 2);
    assert!(violations.iter().all(|v| v.rule == "not_null"));
}

#[test]
fn not_null_catches_whitespace_only() {
    let vals = vec![(2, "   ")];
    let violations = engine().apply(&ValidationRule::NotNull, "col", &vals, &read_number);
    assert_eq!(violations.len(), 1);
}

// --- no_duplicates ------------------------------------------------------

#[test]
fn no_duplicates_passes_unique() {
    let vals = pairs(&[("", "a"), ("", "b"), ("", "c")]);
    let violations = engine().apply(&ValidationRule::NoDuplicates, "col", &vals, &read_number);
    assert!(violations.is_empty());
}

#[test]
fn no_duplicates_catches_duplicate() {
    let vals = pairs(&[("", "a"), ("", "b"), ("", "a")]);
    let violations = engine().apply(&ValidationRule::NoDuplicates, "col", &vals, &read_number);
    assert_eq!(violations.len(), 1);
    assert_eq!(violations[0].value, "a");
}

#[test]
fn no_duplicates_skips_nulls() {
    let vals = vec![(2, ""), (3, ""), (4, "unique")];
    let violations = engine().apply(&ValidationRule::NoDuplicates, "col", &vals, &read_number);
    assert!(violations.is_empty());
}

// --- regex --------------------------------------------------------------

#[test]
fn regex_passes_matching_value() {
    let vals = pairs(&[("", "ORD-000001"), ("", "ORD-999999")]);
    let rule = ValidationRule::Regex {
        pattern: r"^ORD-\d{6}$".to_string(),
        message: None,
    };
    let violations = engine().apply(&rule, "order_id", &vals, &read_number);
    assert!(violations.is_empty());
}

#[test]
fn regex_catches_non_matching_value() {
    let vals = pairs(&[("", "INVALID"), ("", "ORD-000001")]);
    let rule = ValidationRule::Regex {
        pattern: r"^ORD-\d{6}$".to_string(),
        message: None,
    };
    let violations = engine().apply(&rule, "order_id", &vals, &read_number);
    assert_eq!(violations.len(), 1);
    assert_eq!(violations[0].value, "INVALID");
}

#[test]
fn regex_skips_empty_values() {
    let vals = vec![(2, "")];
    let rule = ValidationRule::Regex {
        pattern: r"^ORD-\d{6}$".to_string(),
        message: None,
    };
    let violations = engine().apply(&rule, "order_id", &vals, &read_number);
    assert!(violations.is_empty());
}

// --- allowed_values -----------------------------------------------------

#[test]
fn allowed_values_passes_valid() {
    let allowed = vec!["pending".to_string(), "shipped".to_string()];
    let vals = pairs(&[("", "pending"), ("", "shipped")]);
    let rule = ValidationRule::AllowedValues { values: allowed };
    let violations = engine().apply(&rule, "status", &vals, &read_number);
    assert!(violations.is_empty());
}

#[test]
fn allowed_values_catches_invalid() {
    let allowed = vec!["pending".to_string(), "shipped".to_string()];
    let vals = pairs(&[("", "unknown"), ("", "pending")]);
    let rule = ValidationRule::AllowedValues { values: allowed };
    let violations = engine().apply(&rule, "status", &vals, &read_number);
    assert_eq!(violations.len(), 1);
    assert_eq!(violations[0].value, "unknown");
}

// --- numeric_range ------------------------------------------------------

#[test]
fn numeric_range_passes_within_bounds() {
    let vals = pairs(&[("", "5.0"), ("", "10.0"), ("", "99.99")]);
    let rule = ValidationRule::NumericRange {
        min: Some(0.0f64.to_bits()),
        max: Some(100.0f64.to_bits()),
    };
    let violations = engine().apply(&rule, "amount", &vals, &read_number);
    assert!(violations.is_empty());
}

#[test]
fn numeric_range_catches_below_min() {
    let vals = pairs(&[("", "-1.0"), ("", "5.0")]);
    let rule = ValidationRule::NumericRange {
        min: Some(0.0f64.to_bits()),
        max: None,
    };
    let violations = engine().apply(&rule, "amount", &vals, &read_number);
    assert_eq!(violations.len(), 1);
}

#[test]
fn numeric_range_catches_non_numeric() {
    let vals = pairs(&[("", "not_a_number")]);
    let rule = ValidationRule::NumericRange {
        min: None,
        max: None,
    };
    let violations = engine().apply(&rule, "amount", &vals, &read_number);
    assert_eq!(violations.len(), 1);
}

// --- min/max length -----------------------------------------------------

#[test]
fn min_length_passes_long_enough() {
    let vals = pairs(&[("", "hello")]);
    let rule = ValidationRule::MinLength { value: 3 };
    assert!(engine().apply(&rule, "col", &vals, &read_number).is_empty());
}

#[test]
fn min_length_catches_too_short() {
    let vals = pairs(&[("", "hi")]);
    let rule = ValidationRule::MinLength { value: 5 };
    assert_eq!(engine().apply(&rule, "col", &vals, &read_number).len(), 1);
}

#[test]
fn max_length_catches_too_long() {
    let vals = pairs(&[("", "toolongstring")]);
    let rule = ValidationRule::MaxLength { value: 5 };
    assert_eq!(engine().apply(&rule, "col", &vals, &read_number).len(), 1);
}

// --- integer ------------------------------------------------------------

#[test]
fn integer_passes_valid_integers() {
    let vals = pairs(&[("", "1"), ("", "42"), ("", "-7"), ("", "0")]);
    let violations = engine().apply(&ValidationRule::Integer, "id", &vals, &read_number);
    assert!(violations.is_empty());
}

#[test]
fn integer_catches_float() {
    let vals = pairs(&[("", "3.14")]);
    let violations = engine().apply(&ValidationRule::Integer, "id", &vals, &read_number);
    assert_eq!(violations.len(), 1);
    assert_eq!(violations[0].rule, "integer");
}

#[test]
fn integer_catches_text() {
    let vals = pairs(&[("", "hello")]);
    let violations = engine().apply(&ValidationRule::Integer, "id", &vals, &read_number);
    assert_eq!(violations.len(), 1);
}

#[test]
fn integer_skips_empty_values() {
    let vals = vec![(2, "")];
    let violations = engine().apply(&ValidationRule::Integer, "id", &vals, &read_number);
    assert!(violations.is_empty());
}

// --- exact violations ---------------------------------------------------

#[test]
fn not_null_violation_is_exact() {
    let vals = vec![(2, "x"), (7, " ")];
    let v = engine().apply(&ValidationRule::NotNull, "order_id", &vals, &read_number);
    assert_eq!(v.len(), 1);
    assert_eq!(v[0].rule, "not_null");
    assert_eq!(v[0].column, "order_id");
    assert_eq!(v[0].row, 7);
    assert_eq!(v[0].value, "");
    assert_eq!(v[0].message, "Column 'order_id' contains a NULL/empty value at row 7");
}

#[test]
fn duplicate_violation_names_first_row() {
    let vals = vec![(2, "a"), (3, "b"), (4, "a"), (15, "a")];
    let v = engine().apply(&ValidationRule::NoDuplicates, "id", &vals, &read_number);
    assert_eq!(v.len(), 2);
    assert_eq!(v[0].row, 4);
    assert_eq!(v[1].row, 15);
    assert_eq!(
        v[1].message,
        "Duplicate value 'a' in column 'id' at row 15 (first seen at row 2)"
    );
}

#[test]
fn regex_default_and_custom_messages() {
    let vals = vec![(3, "bad")];
    let rule = ValidationRule::Regex { pattern: "^[0-9]+$".to_string(), message: None };
    let v = engine().apply(&rule, "n", &vals, &read_number);
    assert_eq!(
        v[0].message,
        "Value 'bad' in column 'n' at row 3 does not match required pattern '^[0-9]+$'"
    );
    let rule = ValidationRule::Regex {
        pattern: "^[0-9]+$".to_string(),
        message: Some("digits only".to_string()),
    };
    let v = engine().apply(&rule, "n", &vals, &read_number);
    assert_eq!(v[0].message, "digits only");
}

#[test]
fn regex_matches_anywhere_in_value() {
    // `is_match` looks for a match anywhere, not for a whole-value match.
    let vals = vec![(2, "xx42yy")];
    let rule = ValidationRule::Regex { pattern: "[0-9]+".to_string(), message: None };
    assert!(engine().apply(&rule, "n", &vals, &read_number).is_empty());
}

#[test]
fn invalid_regex_reports_single_violation() {
    let vals = vec![(2, "a"), (3, "b")];
    let rule = ValidationRule::Regex { pattern: "foo(bar".to_string(), message: None };
    let mut e = engine();
    let v = e.apply(&rule, "c", &vals, &read_number);
    assert_eq!(v.len(), 1);
    assert_eq!(v[0].rule, "regex");
    assert_eq!(v[0].row, 0);
    assert_eq!(v[0].value, "");
    assert!(v[0].message.starts_with("Regex compilation error: Regex error: "));
    assert!(v[0].message.len() > "Regex compilation error: Regex error: ".len());
    // The same answer the second time round.
    let again = e.apply(&rule, "c", &vals, &read_number);
    assert_eq!(again.len(), 1);
    assert_eq!(again[0].message, v[0].message);
}

#[test]
fn cached_regex_gives_same_answers() {
    let rule = ValidationRule::Regex { pattern: "^a".to_string(), message: None };
    let mut e = engine();
    let first = e.apply(&rule, "c", &[(2, "abc"), (3, "xbc")], &read_number);
    let second = e.apply(&rule, "c", &[(2, "abc"), (3, "xbc")], &read_number);
    assert_eq!(first.len(), 1);
    assert_eq!(second.len(), 1);
    assert_eq!(first[0].row, second[0].row);
    assert_eq!(first[0].message, second[0].message);
}

#[test]
fn length_messages_count_characters() {
    let vals = vec![(2, "héllo")];
    let v = engine().apply(&ValidationRule::MaxLength { value: 4 }, "c", &vals, &read_number);
    assert_eq!(
        v[0].message,
        "Value 'héllo' in column 'c' at row 2 has length 5 which exceeds the maximum of 4"
    );
    let v = engine().apply(&ValidationRule::MinLength { value: 10 }, "c", &vals, &read_number);
    assert_eq!(
        v[0].message,
        "Value 'héllo' in column 'c' at row 2 has length 5 which is below the minimum of 10"
    );
    assert!(engine().apply(&ValidationRule::MaxLength { value: 5 }, "c", &vals, &read_number).is_empty());
}

#[test]
fn max_length_counts_whitespace_only_cells() {
    let vals = vec![(2, "    ")];
    let v = engine().apply(&ValidationRule::MaxLength { value: 2 }, "c", &vals, &read_number);
    assert_eq!(v.len(), 1);
    let v = engine().apply(&ValidationRule::MinLength { value: 10 }, "c", &vals, &read_number);
    assert!(v.is_empty());
}

#[test]
fn allowed_values_message_lists_set() {
    let rule = ValidationRule::AllowedValues {
        values: vec!["USD".to_string(), "EUR".to_string(), "GBP".to_string()],
    };
    let v = engine().apply(&rule, "currency", &[(6, "CHF"), (7, "usd")], &read_number);
    assert_eq!(v.len(), 2);
    assert_eq!(
        v[0].message,
        "Value 'CHF' in column 'currency' at row 6 is not in the allowed set: [USD, EUR, GBP]"
    );
}

#[test]
fn integer_edge_cases() {
    let ok = vec![
        (2, "+5"),
        (3, " 42 "),
        (4, "-9223372036854775808"),
        (5, "9223372036854775807"),
        (6, "007"),
    ];
    assert!(engine().apply(&ValidationRule::Integer, "i", &ok, &read_number).is_empty());
    let bad = vec![
        (2, "-"),
        (3, "+"),
        (4, "9223372036854775808"),
        (5, "-9223372036854775809"),
        (6, "1_000"),
        (7, "1 2"),
        (8, "٣"),
    ];
    let v = engine().apply(&ValidationRule::Integer, "i", &bad, &read_number);
    let rows: Vec<usize> = v.iter().map(|x| x.row).collect();
    assert_eq!(rows, vec![2, 3, 4, 5, 6, 7, 8]);
    assert_eq!(v[0].message, "Value '-' in column 'i' at row 2 is not a valid integer");
}

#[test]
fn numeric_range_messages() {
    let rule = ValidationRule::NumericRange {
        min: Some(0.0f64.to_bits()),
        max: Some(10.5f64.to_bits()),
    };
    let vals = vec![(2, "-1.0"), (3, " 12 "), (4, "abc"), (5, ""), (6, "3")];
    let v = engine().apply(&rule, "amount", &vals, &read_number);
    assert_eq!(v.len(), 3);
    assert_eq!(v[0].message, "Value -1 in column 'amount' at row 2 is below the minimum of 0");
    assert_eq!(v[1].message, "Value 12 in column 'amount' at row 3 exceeds the maximum of 10.5");
    assert_eq!(v[1].value, " 12 ");
    assert_eq!(v[2].message, "Value 'abc' in column 'amount' at row 4 is not a valid number");
}

#[test]
fn empty_cells_change_nothing_but_not_null() {
    // Law: dropping the empty cells leaves every rule but not_null unchanged.
    let with_empty = vec![(2, "a"), (3, ""), (4, "a"), (5, ""), (6, "zz")];
    let without: Vec<(usize, &str)> = with_empty.iter().copied().filter(|(_, v)| !v.is_empty()).collect();
    let rules = vec![
        ValidationRule::NoDuplicates,
        ValidationRule::MinLength { value: 2 },
        ValidationRule::MaxLength { value: 1 },
        ValidationRule::Integer,
        ValidationRule::Regex { pattern: "^a$".to_string(), message: None },
        ValidationRule::AllowedValues { values: vec!["a".to_string()] },
        ValidationRule::NumericRange { min: None, max: None },
    ];
    for rule in &rules {
        let a = engine().apply(rule, "c", &with_empty, &read_number);
        let b = engine().apply(rule, "c", &without, &read_number);
        let ra: Vec<(usize, String)> = a.iter().map(|x| (x.row, x.message.clone())).collect();
        let rb: Vec<(usize, String)> = b.iter().map(|x| (x.row, x.message.clone())).collect();
        assert_eq!(ra, rb);
    }
    assert_eq!(engine().apply(&ValidationRule::NotNull, "c", &with_empty, &read_number).len(), 2);
}

#[test]
fn no_duplicates_empty_iff_distinct() {
    // Law: no duplicate violations exactly when non-blank values are distinct.
    let distinct = vec![(2, "a"), (3, " "), (4, " "), (5, "b")];
    assert!(engine().apply(&ValidationRule::NoDuplicates, "c", &distinct, &read_number).is_empty());
    let repeated = vec![(2, "a"), (3, "b"), (4, "b")];
    assert!(!engine().apply(&ValidationRule::NoDuplicates, "c", &repeated, &read_number).is_empty());
}
