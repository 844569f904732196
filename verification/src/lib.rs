//! Data-quality checks for CSV files: a YAML-described set of column rules
//! (not null, no duplicates, regex, length bounds, allowed values, numeric
//! range, integer) applied to the rows of CSV files.

pub mod cli;
pub mod config;
pub mod csv_table;
pub mod error;
pub mod pattern;
pub mod reporter;
pub mod rules;
pub mod storage;
pub mod text;
pub mod validator;
