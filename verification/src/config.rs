//! The validation configuration: which files to scan and which rules apply
//! to which columns.
//!
//! The YAML file itself is read and deserialised by the command-line program;
//! this module holds the configuration as plain data, the semantic checks
//! that follow parsing, and the path matching that maps a file to its rules.

use vstd::prelude::*;

use crate::error::AppError;
use crate::pattern::{regex_compile_error, CompiledRegex};
use crate::text::{chars_of, is_prefix, same_text, starts_with};

verus! {

/// Root configuration object.
#[derive(Debug)]
pub struct Config {
    /// Optional storage account name (can be overridden by CLI / env).
    pub storage: Option<StorageConfig>,
    /// Ordered list of folder paths + filename patterns to discover CSV files.
    pub files: Vec<FileConfig>,
    /// Validation rules, each mapped to a set of file paths.
    pub validations: Vec<FileValidation>,
}

/// Storage-related configuration.
#[derive(Debug)]
pub struct StorageConfig {
    /// Azure Storage account name.
    pub account: Option<String>,
}

/// Describes a folder inside the container to scan for CSV files.
#[derive(Debug)]
pub struct FileConfig {
    /// Folder path inside the container (e.g. `raw/orders`).
    pub path: String,
    /// Glob pattern for filenames (default: `*.csv`).
    pub file_pattern: String,
}

/// The filename glob used when a `files` entry names none.
pub fn default_file_pattern() -> (s: String)
    ensures
        s@ == "*.csv"@,
{
    String::from_str("*.csv")
}

/// Maps a set of column rules to files whose path starts with `file_pattern`.
#[derive(Debug)]
pub struct FileValidation {
    /// Path prefix that a file must start with to apply these rules.
    pub file_pattern: String,
    /// Per-column validation rules.
    pub columns: Vec<ColumnValidation>,
}

/// All rules that apply to a single CSV column.
#[derive(Debug)]
pub struct ColumnValidation {
    /// Exact column header name as it appears in the CSV file.
    pub name: String,
    /// Ordered list of rules to enforce on every cell in this column.
    pub rules: Vec<ValidationRule>,
}

/// A single validation rule that can be applied to a CSV column.
#[derive(Debug)]
pub enum ValidationRule {
    /// Column value must not be empty or whitespace-only.
    NotNull,
    /// No two rows may share the same (non-blank) value in this column.
    NoDuplicates,
    /// Every non-blank value must match the regular expression.
    Regex {
        /// Regex pattern.
        pattern: String,
        /// Optional human-readable message shown in violation reports.
        message: Option<String>,
    },
    /// String length (in characters) must be at least `value`.
    MinLength { value: usize },
    /// String length (in characters) must be no more than `value`.
    MaxLength { value: usize },
    /// Non-blank values must be one of the listed strings (case-sensitive).
    AllowedValues { values: Vec<String> },
    /// Non-blank values must be numbers within `[min, max]`.  The bounds are
    /// the IEEE-754 bit patterns of the `f64` bounds of the configuration;
    /// an absent bound leaves that side unbounded.
    NumericRange { min: Option<u64>, max: Option<u64> },
    /// Non-blank values must be parseable as a whole number (`i64`).
    Integer,
}

// ---------------------------------------------------------------------------
// Checks that follow parsing
// ---------------------------------------------------------------------------

/// The error for a regex rule whose pattern does not compile, if it is one.
pub open spec fn rule_config_error(rule: ValidationRule, column: Seq<char>, file_pattern: Seq<
    char,
>) -> Option<Seq<char>> {
    match rule {
        ValidationRule::Regex { pattern, .. } => match regex_compile_error(pattern@) {
            Some(e) => Some(
                "Invalid regex '"@ + pattern@ + "' in column '"@ + column + "' (file_pattern: '"@
                    + file_pattern + "'): "@ + e,
            ),
            None => None,
        },
        _ => None,
    }
}

/// The first error among the first `n` rules of a column.
pub open spec fn rules_config_error(
    rules: Seq<ValidationRule>,
    column: Seq<char>,
    file_pattern: Seq<char>,
    n: int,
) -> Option<Seq<char>>
    decreases n,
{
    if n <= 0 {
        None
    } else {
        match rules_config_error(rules, column, file_pattern, n - 1) {
            Some(e) => Some(e),
            None => rule_config_error(rules[n - 1], column, file_pattern),
        }
    }
}

/// The first error among the rules of the first `n` columns.
pub open spec fn columns_config_error(
    columns: Seq<ColumnValidation>,
    file_pattern: Seq<char>,
    n: int,
) -> Option<Seq<char>>
    decreases n,
{
    if n <= 0 {
        None
    } else {
        match columns_config_error(columns, file_pattern, n - 1) {
            Some(e) => Some(e),
            None => rules_config_error(
                columns[n - 1].rules@,
                columns[n - 1].name@,
                file_pattern,
                columns[n - 1].rules@.len() as int,
            ),
        }
    }
}

/// The first error among the rules of the first `n` validation blocks.
pub open spec fn validations_config_error(validations: Seq<FileValidation>, n: int) -> Option<
    Seq<char>,
>
    decreases n,
{
    if n <= 0 {
        None
    } else {
        match validations_config_error(validations, n - 1) {
            Some(e) => Some(e),
            None => columns_config_error(
                validations[n - 1].columns@,
                validations[n - 1].file_pattern@,
                validations[n - 1].columns@.len() as int,
            ),
        }
    }
}

/// What is wrong with a configuration, if anything: no `files`, no
/// `validations`, or a regex that does not compile (the first, in order).
pub open spec fn config_error(config: Config) -> Option<Seq<char>> {
    if config.files@.len() == 0 {
        Some("Config must define at least one entry under `files`"@)
    } else if config.validations@.len() == 0 {
        Some("Config must define at least one entry under `validations`"@)
    } else {
        validations_config_error(config.validations@, config.validations@.len() as int)
    }
}

impl Config {
    /// Perform semantic validation beyond what parsing provides.
    ///
    /// Every regex pattern is compiled, so that configuration mistakes
    /// surface immediately.
    pub fn validate(&self) -> (r: Result<(), AppError>)
        ensures
            match config_error(*self) {
                None => r is Ok,
                Some(m) => r matches Err(AppError::Config(e)) && e@ == m,
            },
    {
        if self.files.len() == 0 {
            return Err(
                AppError::Config(
                    String::from_str("Config must define at least one entry under `files`"),
                ),
            );
        }
        if self.validations.len() == 0 {
            return Err(
                AppError::Config(
                    String::from_str("Config must define at least one entry under `validations`"),
                ),
            );
        }
        let mut i: usize = 0;
        while i < self.validations.len()
            invariant
                i <= self.validations.len(),
                validations_config_error(self.validations@, i as int) is None,
                self.files@.len() > 0,
            decreases self.validations.len() - i,
        {
            let fv = &self.validations[i];
            let mut j: usize = 0;
            while j < fv.columns.len()
                invariant
                    j <= fv.columns.len(),
                    i < self.validations.len(),
                    fv == &self.validations@[i as int],
                    validations_config_error(self.validations@, i as int) is None,
                    self.files@.len() > 0,
                    columns_config_error(fv.columns@, fv.file_pattern@, j as int) is None,
                decreases fv.columns.len() - j,
            {
                let col = &fv.columns[j];
                let mut k: usize = 0;
                while k < col.rules.len()
                    invariant
                        k <= col.rules.len(),
                        i < self.validations.len(),
                        j < fv.columns.len(),
                        fv == &self.validations@[i as int],
                        col == &fv.columns@[j as int],
                        validations_config_error(self.validations@, i as int) is None,
                        self.files@.len() > 0,
                        columns_config_error(fv.columns@, fv.file_pattern@, j as int) is None,
                        rules_config_error(col.rules@, col.name@, fv.file_pattern@, k as int)
                            is None,
                    decreases col.rules.len() - k,
                {
                    if let ValidationRule::Regex { pattern, .. } = &col.rules[k] {
                        if let Err(e) = CompiledRegex::compile(pattern.as_str()) {
                            let mut m = String::from_str("Invalid regex '");
                            m.append(pattern.as_str());
                            m.append("' in column '");
                            m.append(col.name.as_str());
                            m.append("' (file_pattern: '");
                            m.append(fv.file_pattern.as_str());
                            m.append("'): ");
                            m.append(e.as_str());
                            proof {
                                lemma_rules_error_at(
                                    col.rules@,
                                    col.name@,
                                    fv.file_pattern@,
                                    k as int,
                                    col.rules@.len() as int,
                                );
                                lemma_columns_error_at(
                                    fv.columns@,
                                    fv.file_pattern@,
                                    j as int,
                                    fv.columns@.len() as int,
                                );
                                lemma_validations_error_at(
                                    self.validations@,
                                    i as int,
                                    self.validations@.len() as int,
                                );
                            }
                            return Err(AppError::Config(m));
                        }
                    }
                    k = k + 1;
                }
                j = j + 1;
            }
            i = i + 1;
        }
        Ok(())
    }
}

proof fn lemma_rules_error_at(
    rules: Seq<ValidationRule>,
    column: Seq<char>,
    file_pattern: Seq<char>,
    k: int,
    n: int,
)
    requires
        0 <= k < n,
        rules_config_error(rules, column, file_pattern, k) is None,
        rule_config_error(rules[k], column, file_pattern) is Some,
    ensures
        rules_config_error(rules, column, file_pattern, n) == rule_config_error(
            rules[k],
            column,
            file_pattern,
        ),
    decreases n,
{
    if n > k + 1 {
        lemma_rules_error_at(rules, column, file_pattern, k, n - 1);
    }
}

proof fn lemma_columns_error_at(columns: Seq<ColumnValidation>, file_pattern: Seq<char>, j: int, n: int)
    requires
        0 <= j < n,
        columns_config_error(columns, file_pattern, j) is None,
        rules_config_error(
            columns[j].rules@,
            columns[j].name@,
            file_pattern,
            columns[j].rules@.len() as int,
        ) is Some,
    ensures
        columns_config_error(columns, file_pattern, n) == rules_config_error(
            columns[j].rules@,
            columns[j].name@,
            file_pattern,
            columns[j].rules@.len() as int,
        ),
    decreases n,
{
    if n > j + 1 {
        lemma_columns_error_at(columns, file_pattern, j, n - 1);
    }
}

proof fn lemma_validations_error_at(validations: Seq<FileValidation>, i: int, n: int)
    requires
        0 <= i < n,
        validations_config_error(validations, i) is None,
        columns_config_error(
            validations[i].columns@,
            validations[i].file_pattern@,
            validations[i].columns@.len() as int,
        ) is Some,
    ensures
        validations_config_error(validations, n) == columns_config_error(
            validations[i].columns@,
            validations[i].file_pattern@,
            validations[i].columns@.len() as int,
        ),
    decreases n,
{
    if n > i + 1 {
        lemma_validations_error_at(validations, i, n - 1);
    }
}

/// `pattern` as a folder prefix: itself when it ends with `/`, else with a
/// `/` appended.
pub open spec fn with_separator(pattern: Seq<char>) -> Seq<char> {
    if pattern.len() > 0 && pattern.last() == '/' {
        pattern
    } else {
        pattern.push('/')
    }
}

/// `file_path` belongs to `pattern`: it is the pattern itself or lies in the
/// folder the pattern names.
pub open spec fn matches_prefix(file_path: Seq<char>, pattern: Seq<char>) -> bool {
    file_path == pattern || is_prefix(with_separator(pattern), file_path)
}

/// Returns `true` when `file_path` is considered to "belong" to `pattern`.
///
/// Matching is prefix-based on path segments so that `raw/orders` matches
/// `raw/orders/2024-01-01.csv` but *not* `raw/orders-archive/file.csv`.
pub fn path_matches_prefix(file_path: &str, pattern: &str) -> (b: bool)
    ensures
        b == matches_prefix(file_path@, pattern@),
{
    if same_text(file_path, pattern) {
        return true;
    }
    let pc = chars_of(pattern);
    let mut with_sep = String::from_str(pattern);
    if !(pc.len() > 0 && pc[pc.len() - 1] == '/') {
        with_sep.push('/');
    }
    starts_with(file_path, with_sep.as_str())
}

// ---------------------------------------------------------------------------
// Laws
// ---------------------------------------------------------------------------

/// A pattern and the same pattern with a trailing `/` select the same files,
/// apart from a path equal to the pattern itself.
pub proof fn law_trailing_slash(file_path: Seq<char>, pattern: Seq<char>)
    requires
        pattern.len() == 0 || pattern.last() != '/',
    ensures
        matches_prefix(file_path, pattern) == (file_path == pattern || matches_prefix(
            file_path,
            pattern.push('/'),
        )),
{
    let p = pattern.push('/');
    assert(p.last() == '/');
    assert(with_separator(p) == p);
    if file_path == p {
        assert(file_path.subrange(0, p.len() as int) =~= p);
    }
}

/// Matching is by whole path segments: a path other than the pattern
/// itself matches only when the pattern is followed by a `/` in it, so
/// `raw/orders` never selects `raw/orders-archive/file.csv`.
pub proof fn law_segment_boundary(file_path: Seq<char>, pattern: Seq<char>)
    requires
        pattern.len() > 0,
        pattern.last() != '/',
        matches_prefix(file_path, pattern),
        file_path != pattern,
    ensures
        file_path.len() > pattern.len(),
        file_path.subrange(0, pattern.len() as int) == pattern,
        file_path[pattern.len() as int] == '/',
{
    let p = pattern.push('/');
    assert(file_path.subrange(0, p.len() as int)[pattern.len() as int] == '/');
    assert(file_path.subrange(0, pattern.len() as int) =~= file_path.subrange(
        0,
        p.len() as int,
    ).subrange(0, pattern.len() as int));
    assert(p.subrange(0, pattern.len() as int) =~= pattern);
}

proof fn lemma_rules_no_error(
    rules: Seq<ValidationRule>,
    column: Seq<char>,
    file_pattern: Seq<char>,
    k: int,
    n: int,
)
    requires
        0 <= k < n,
        rules_config_error(rules, column, file_pattern, n) is None,
    ensures
        rule_config_error(rules[k], column, file_pattern) is None,
    decreases n,
{
    if n > k + 1 {
        lemma_rules_no_error(rules, column, file_pattern, k, n - 1);
    }
}

proof fn lemma_columns_no_error(columns: Seq<ColumnValidation>, file_pattern: Seq<char>, j: int, n: int)
    requires
        0 <= j < n,
        columns_config_error(columns, file_pattern, n) is None,
    ensures
        rules_config_error(
            columns[j].rules@,
            columns[j].name@,
            file_pattern,
            columns[j].rules@.len() as int,
        ) is None,
    decreases n,
{
    if n > j + 1 {
        lemma_columns_no_error(columns, file_pattern, j, n - 1);
    }
}

proof fn lemma_validations_no_error(validations: Seq<FileValidation>, i: int, n: int)
    requires
        0 <= i < n,
        validations_config_error(validations, n) is None,
    ensures
        columns_config_error(
            validations[i].columns@,
            validations[i].file_pattern@,
            validations[i].columns@.len() as int,
        ) is None,
    decreases n,
{
    if n > i + 1 {
        lemma_validations_no_error(validations, i, n - 1);
    }
}

/// Regexes are checked when the configuration is: in a configuration that
/// passes `Config::validate`, every regex rule's pattern compiles, so
/// applying it never reports a compilation error.
pub proof fn law_validated_regexes_compile(config: Config, i: int, j: int, k: int)
    requires
        config_error(config) is None,
        0 <= i < config.validations@.len(),
        0 <= j < config.validations@[i].columns@.len(),
        0 <= k < config.validations@[i].columns@[j].rules@.len(),
        config.validations@[i].columns@[j].rules@[k] is Regex,
    ensures
        regex_compile_error(config.validations@[i].columns@[j].rules@[k]->pattern@) is None,
{
    let vs = config.validations@;
    lemma_validations_no_error(vs, i, vs.len() as int);
    let cs = vs[i].columns@;
    lemma_columns_no_error(cs, vs[i].file_pattern@, j, cs.len() as int);
    lemma_rules_no_error(cs[j].rules@, cs[j].name@, vs[i].file_pattern@, k, cs[j].rules@.len() as int);
}

/// A path is selected by its own pattern, and by a pattern naming a folder
/// it lies in: `pattern/rest` always matches `pattern`, and so does
/// `pattern + rest` when the pattern already ends with `/`.
pub proof fn law_folder_contents_match(pattern: Seq<char>, rest: Seq<char>)
    ensures
        matches_prefix(pattern, pattern),
        matches_prefix(pattern.push('/') + rest, pattern),
        pattern.len() > 0 && pattern.last() == '/' ==> matches_prefix(pattern + rest, pattern),
{
    let p = pattern.push('/');
    assert((p + rest).subrange(0, p.len() as int) =~= p);
    assert((p + rest).subrange(0, pattern.len() as int) =~= pattern);
    assert((pattern + rest).subrange(0, pattern.len() as int) =~= pattern);
}

proof fn lemma_rules_error_exists(rules: Seq<ValidationRule>, column: Seq<char>, file_pattern: Seq<char>, n: int)
    requires
        0 <= n <= rules.len(),
    ensures
        match rules_config_error(rules, column, file_pattern, n) {
            None => forall|k: int| 0 <= k < n ==> rule_config_error(#[trigger] rules[k], column, file_pattern) is None,
            Some(m) => exists|k: int| 0 <= k < n && rule_config_error(#[trigger] rules[k], column, file_pattern) == Some(m),
        },
    decreases n,
{
    if n > 0 {
        lemma_rules_error_exists(rules, column, file_pattern, n - 1);
    }
}

proof fn lemma_columns_error_exists(columns: Seq<ColumnValidation>, file_pattern: Seq<char>, n: int)
    requires
        0 <= n <= columns.len(),
    ensures
        match columns_config_error(columns, file_pattern, n) {
            None => forall|j: int, k: int| 0 <= j < n && 0 <= k < columns[j].rules@.len() ==> rule_config_error(
                #[trigger] columns[j].rules@[k], columns[j].name@, file_pattern) is None,
            Some(m) => exists|j: int, k: int| 0 <= j < n && 0 <= k < columns[j].rules@.len() && rule_config_error(
                #[trigger] columns[j].rules@[k], columns[j].name@, file_pattern) == Some(m),
        },
    decreases n,
{
    if n > 0 {
        lemma_columns_error_exists(columns, file_pattern, n - 1);
        let c = columns[n - 1];
        lemma_rules_error_exists(c.rules@, c.name@, file_pattern, c.rules@.len() as int);
    }
}

proof fn lemma_validations_error_exists(validations: Seq<FileValidation>, n: int)
    requires
        0 <= n <= validations.len(),
    ensures
        match validations_config_error(validations, n) {
            None => forall|i: int, j: int, k: int|
                0 <= i < n && 0 <= j < validations[i].columns@.len() && 0 <= k
                    < validations[i].columns@[j].rules@.len() ==> rule_config_error(
                    #[trigger] validations[i].columns@[j].rules@[k],
                    validations[i].columns@[j].name@,
                    validations[i].file_pattern@,
                ) is None,
            Some(m) => exists|i: int, j: int, k: int|
                0 <= i < n && 0 <= j < validations[i].columns@.len() && 0 <= k
                    < validations[i].columns@[j].rules@.len() && rule_config_error(
                    #[trigger] validations[i].columns@[j].rules@[k],
                    validations[i].columns@[j].name@,
                    validations[i].file_pattern@,
                ) == Some(m),
        },
    decreases n,
{
    if n > 0 {
        lemma_validations_error_exists(validations, n - 1);
        let v = validations[n - 1];
        lemma_columns_error_exists(v.columns@, v.file_pattern@, v.columns@.len() as int);
        match validations_config_error(validations, n) {
            None => {},
            Some(m) => {
                if validations_config_error(validations, n - 1) is None {
                    let (j, k) = choose|j: int, k: int| 0 <= j < v.columns@.len() && 0 <= k < v.columns@[j].rules@.len()
                        && rule_config_error(#[trigger] v.columns@[j].rules@[k], v.columns@[j].name@, v.file_pattern@) == Some(m);
                    assert(rule_config_error(validations[n - 1].columns@[j].rules@[k], validations[n - 1].columns@[j].name@, validations[n - 1].file_pattern@) == Some(m));
                }
            },
        }
    }
}

/// A configuration is accepted exactly when it lists at least one folder,
/// at least one validation block, and every regex of every rule compiles.
/// A rejected configuration with folders and blocks names a regex that does
/// not compile: its pattern, its column, its block and the regex error.
pub proof fn law_config_accepted_iff_regexes_compile(config: Config)
    ensures
        (config_error(config) is None) == (config.files@.len() > 0 && config.validations@.len() > 0
            && forall|i: int, j: int, k: int|
            0 <= i < config.validations@.len() && 0 <= j < config.validations@[i].columns@.len() && 0
                <= k < config.validations@[i].columns@[j].rules@.len() && (
            #[trigger] config.validations@[i].columns@[j].rules@[k]) is Regex ==> regex_compile_error(
                config.validations@[i].columns@[j].rules@[k]->Regex_pattern@,
            ) is None),
        config.files@.len() > 0 && config.validations@.len() > 0 ==> match config_error(config) {
            None => true,
            Some(m) => exists|i: int, j: int, k: int|
                {
                    &&& 0 <= i < config.validations@.len()
                    &&& 0 <= j < config.validations@[i].columns@.len()
                    &&& 0 <= k < config.validations@[i].columns@[j].rules@.len()
                    &&& (#[trigger] config.validations@[i].columns@[j].rules@[k]) is Regex
                    &&& regex_compile_error(config.validations@[i].columns@[j].rules@[k]->Regex_pattern@) is Some
                    &&& m == "Invalid regex '"@ + config.validations@[i].columns@[j].rules@[k]->Regex_pattern@
                        + "' in column '"@ + config.validations@[i].columns@[j].name@
                        + "' (file_pattern: '"@ + config.validations@[i].file_pattern@ + "'): "@
                        + regex_compile_error(config.validations@[i].columns@[j].rules@[k]->Regex_pattern@)->0
                },
        },
{
    let vs = config.validations@;
    lemma_validations_error_exists(vs, vs.len() as int);
}

} // verus!
