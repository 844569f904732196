//! The errors the library reports.

use vstd::prelude::*;

verus! {

#[verifier::external_type_specification]
#[verifier::external_body]
pub struct ExCsvError(csv::Error);

/// Every error the library can produce.
#[derive(Debug)]
pub enum AppError {
    /// A bad configuration.
    Config(String),
    /// An error while parsing a CSV file.
    Csv(csv::Error),
    /// An error in applying a validation rule (a missing column, a bad file
    /// pattern).
    Rule(String),
}

} // verus!
