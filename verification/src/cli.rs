//! The command-line settings of a run, and the choices they imply.
//!
//! Parsing the command line is left to the program; this module holds the
//! parsed settings and decides what they mean: the logging level, the
//! storage account to use, when a fail-fast run stops and the report format.

use vstd::prelude::*;

use crate::config::Config;
use crate::text::same_text;
use crate::validator::FileValidationResult;

verus! {

#[verifier::external_type_specification]
#[verifier::external_body]
pub struct ExPathBuf(std::path::PathBuf);

/// CSV Data Quality Validator settings.
pub struct Cli {
    /// Azure Storage container (filesystem) name (not needed with
    /// `local_file`).
    pub container: Option<String>,
    /// Validate a single local CSV file instead of connecting to Azure.
    pub local_file: Option<std::path::PathBuf>,
    /// Path to the YAML validation config file.
    pub config_location: std::path::PathBuf,
    /// Azure Storage account name.
    pub storage_account: Option<String>,
    /// Output format for the validation report: `pretty`, `json` or `summary`.
    pub output: String,
    /// Stop processing on the first validation failure.
    pub fail_fast: bool,
    /// Check the config file without connecting to Azure.
    pub dry_run: bool,
    /// Log verbosity (the number of `-v` flags).
    pub verbose: u8,
}

/// How the validation report is printed.
#[derive(Debug, PartialEq, Eq, Structural)]
pub enum OutputFormat {
    /// Human-readable coloured table.
    Pretty,
    /// Machine-readable JSON.
    Json,
    /// Single-line pass/fail summary.
    Summary,
}

/// The log level that `verbose` flags ask for.
pub open spec fn log_level_name(verbose: u8) -> Seq<char> {
    if verbose == 0 {
        "warn"@
    } else if verbose == 1 {
        "info"@
    } else if verbose == 2 {
        "debug"@
    } else {
        "trace"@
    }
}

/// The text of an optional string.
pub open spec fn optional_text(o: Option<String>) -> Option<Seq<char>> {
    match o {
        Some(s) => Some(s@),
        None => None,
    }
}

/// The storage account of a run: the command line's (which includes the
/// `AZURE_STORAGE_ACCOUNT` variable) if given, else the config file's.
pub open spec fn chosen_account(cli: Option<String>, config: Config) -> Option<Seq<char>> {
    match cli {
        Some(a) => Some(a@),
        None => match config.storage {
            Some(s) => optional_text(s.account),
            None => None,
        },
    }
}

/// The report format a name selects; any other name selects the pretty one.
pub open spec fn format_named(name: Seq<char>) -> OutputFormat {
    if name == "json"@ {
        OutputFormat::Json
    } else if name == "summary"@ {
        OutputFormat::Summary
    } else {
        OutputFormat::Pretty
    }
}

impl Cli {
    /// The default log level: `warn`, then `info`, `debug` and `trace` for
    /// one, two, three or more `-v` flags.
    pub fn log_level(&self) -> (level: &'static str)
        ensures
            level@ == log_level_name(self.verbose),
    {
        match self.verbose {
            0 => "warn",
            1 => "info",
            2 => "debug",
            _ => "trace",
        }
    }

    /// The storage account to connect to: command line > environment
    /// variable > config file.
    pub fn account(&self, config: &Config) -> (a: Option<String>)
        ensures
            optional_text(a) == chosen_account(self.storage_account, *config),
    {
        match &self.storage_account {
            Some(a) => Some(a.clone()),
            None => match &config.storage {
                Some(s) => match &s.account {
                    Some(a) => Some(a.clone()),
                    None => None,
                },
                None => None,
            },
        }
    }

    /// Whether the run stops after a file with this result: in fail-fast
    /// mode, as soon as a file has violations.
    pub fn stops_after(&self, result: &FileValidationResult) -> (b: bool)
        ensures
            b == (self.fail_fast && result.violations@.len() > 0),
    {
        self.fail_fast && !result.is_valid()
    }

    /// The report format chosen by `output`.
    pub fn output_format(&self) -> (f: OutputFormat)
        ensures
            f == format_named(self.output@),
    {
        if same_text(self.output.as_str(), "json") {
            OutputFormat::Json
        } else if same_text(self.output.as_str(), "summary") {
            OutputFormat::Summary
        } else {
            OutputFormat::Pretty
        }
    }
}

} // verus!
