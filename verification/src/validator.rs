//! Core validation orchestrator.
//!
//! `Validator` receives raw CSV bytes and a reference to the loaded `Config`,
//! finds the matching `FileValidation` block for the given path, and runs
//! every column rule against the data.

use vstd::prelude::*;

use crate::config::{matches_prefix, path_matches_prefix, ColumnValidation, Config, FileValidation, ValidationRule};
use crate::csv_table::{csv_table, read_csv_table, table_view};
use crate::error::AppError;
use crate::pattern::regex_compile_error;
use crate::rules::{
    allowed_values_check, cells, collect, duplicate_violations, integer_check, max_length_check,
    min_length_check, not_null_check, numeric_range_check, option_view, reads_numbers,
    regex_check, regex_error_violation, rule_violations, violation_views, NumericReading,
    RuleEngine, ValidationViolation, ViolationView,
};
use crate::text::{decimal, join, join_strings, string_views};

verus! {

// ---------------------------------------------------------------------------
// Result type
// ---------------------------------------------------------------------------

/// Summary of validation results for a single file.
#[derive(Debug)]
pub struct FileValidationResult {
    /// Full path of the validated file (relative to the storage root).
    pub file_path: String,
    /// All violations found in the file (empty => valid).
    pub violations: Vec<ValidationViolation>,
    /// Total number of data rows examined.
    pub rows_checked: usize,
    /// Number of columns that had at least one rule applied.
    pub columns_checked: usize,
}

impl FileValidationResult {
    /// `true` when no violations were found.
    pub fn is_valid(&self) -> (b: bool)
        ensures
            b == (self.violations@.len() == 0),
    {
        self.violations.len() == 0
    }
}

// ---------------------------------------------------------------------------
// What a file's validation reports
// ---------------------------------------------------------------------------

/// The index of the first validation block whose pattern `file_path`
/// belongs to.
pub open spec fn first_match(validations: Seq<FileValidation>, file_path: Seq<char>) -> Option<int>
    decreases validations.len(),
{
    if validations.len() == 0 {
        None
    } else {
        match first_match(validations.drop_last(), file_path) {
            Some(i) => Some(i),
            None => if matches_prefix(file_path, validations.last().file_pattern@) {
                Some(validations.len() - 1)
            } else {
                None
            },
        }
    }
}

/// The position of the first header equal to `name`.
pub open spec fn header_position(headers: Seq<Seq<char>>, name: Seq<char>) -> Option<int>
    decreases headers.len(),
{
    if headers.len() == 0 {
        None
    } else {
        match header_position(headers.drop_last(), name) {
            Some(i) => Some(i),
            None => if headers.last() == name {
                Some(headers.len() - 1)
            } else {
                None
            },
        }
    }
}

/// The index of the first column whose name is not a header.
pub open spec fn first_missing(headers: Seq<Seq<char>>, columns: Seq<ColumnValidation>) -> Option<
    int,
>
    decreases columns.len(),
{
    if columns.len() == 0 {
        None
    } else {
        match first_missing(headers, columns.drop_last()) {
            Some(j) => Some(j),
            None => if header_position(headers, columns.last().name@) is None {
                Some(columns.len() - 1)
            } else {
                None
            },
        }
    }
}

/// The error text for a column that is not among the headers.
pub open spec fn missing_column_message(
    name: Seq<char>,
    file_path: Seq<char>,
    headers: Seq<Seq<char>>,
) -> Seq<char> {
    "Column '"@ + name + "' not found in '"@ + file_path + "'. Available columns: ["@ + join(
        headers,
        ", "@,
    ) + "]"@
}

/// The indices are the header positions of the columns.
pub open spec fn resolved(
    indices: Seq<usize>,
    headers: Seq<Seq<char>>,
    columns: Seq<ColumnValidation>,
) -> bool {
    &&& indices.len() == columns.len()
    &&& forall|j: int|
        0 <= j < columns.len() ==> header_position(headers, columns[j].name@) == Some(
            #[trigger] indices[j] as int,
        )
}

/// The text of field `idx` of a record, or the empty text when the record
/// is shorter.
pub open spec fn cell_text(record: Seq<Seq<char>>, idx: int) -> Seq<char> {
    if 0 <= idx < record.len() {
        record[idx]
    } else {
        seq![]
    }
}

/// The cells of the field at position `idx` over the first `n` records,
/// one per record; a data record's row number counts the header as row 1.
///
/// With resolved indices, every configured column of one name sits at the
/// first header of that name, so each record gives such a column one cell.
pub open spec fn column_cells(table: Seq<Seq<Seq<char>>>, idx: int, n: int) -> Seq<
    (usize, Seq<char>),
>
    decreases n,
{
    if n <= 0 {
        seq![]
    } else {
        column_cells(table, idx, n - 1).push(((n + 1) as usize, cell_text(table[n - 1], idx)))
    }
}

/// The violations of the first `n` rules of a column, in rule order.
pub open spec fn column_violations<F: Fn(&str, Option<u64>, Option<u64>) -> NumericReading>(
    rules: Seq<ValidationRule>,
    name: Seq<char>,
    cells: Seq<(usize, Seq<char>)>,
    read_number: F,
    n: int,
) -> Seq<ViolationView>
    decreases n,
{
    if n <= 0 {
        seq![]
    } else {
        column_violations(rules, name, cells, read_number, n - 1) + rule_violations(
            rules[n - 1],
            name,
            cells,
            read_number,
        )
    }
}

/// The violations of the first `n` columns of a table, column by column.
pub open spec fn table_violations<F: Fn(&str, Option<u64>, Option<u64>) -> NumericReading>(
    columns: Seq<ColumnValidation>,
    indices: Seq<usize>,
    table: Seq<Seq<Seq<char>>>,
    read_number: F,
    n: int,
) -> Seq<ViolationView>
    decreases n,
{
    if n <= 0 {
        seq![]
    } else {
        let c = columns[n - 1];
        table_violations(columns, indices, table, read_number, n - 1) + column_violations(
            c.rules@,
            c.name@,
            column_cells(table, indices[n - 1] as int, table.len() as int),
            read_number,
            c.rules@.len() as int,
        )
    }
}

/// The result of validating the records `table` of the file `file_path`
/// against `validation`, whose columns sit at `indices`.
pub open spec fn table_result<F: Fn(&str, Option<u64>, Option<u64>) -> NumericReading>(
    r: FileValidationResult,
    file_path: Seq<char>,
    validation: FileValidation,
    indices: Seq<usize>,
    table: Seq<Seq<Seq<char>>>,
    read_number: F,
) -> bool {
    &&& r.file_path@ == file_path
    &&& violation_views(r.violations@) == table_violations(
        validation.columns@,
        indices,
        table,
        read_number,
        validation.columns@.len() as int,
    )
    &&& r.rows_checked == table.len()
    &&& r.columns_checked == validation.columns@.len()
}

/// The result for a file that no validation block covers.
pub open spec fn skipped_result(r: FileValidationResult, file_path: Seq<char>) -> bool {
    &&& r.file_path@ == file_path
    &&& r.violations@.len() == 0
    &&& r.rows_checked == 0
    &&& r.columns_checked == 0
}

/// The outcome of reading the headers `headers` of a file and finding the
/// columns of `validation` among them.
pub open spec fn column_outcome(
    r: Result<Vec<usize>, AppError>,
    headers: Seq<Seq<char>>,
    validation: FileValidation,
    file_path: Seq<char>,
) -> bool {
    match first_missing(headers, validation.columns@) {
        None => r matches Ok(indices) && resolved(indices@, headers, validation.columns@),
        Some(j) => r matches Err(AppError::Rule(m)) && m@ == missing_column_message(
            validation.columns@[j].name@,
            file_path,
            headers,
        ),
    }
}

/// The message for a file with more records than rows can be numbered.
pub open spec fn too_many_rows_message() -> Seq<char> {
    "Too many rows to number in the file"@
}

/// What validating `content` as the file `file_path` under `config` gives.
///
/// No validation block covers the path: an empty result.  Otherwise the
/// first block that does applies: the header row must read (else a CSV
/// error), every configured column must be a header (else a rule error
/// naming the first missing one), and every record must read (else a CSV
/// error); then the result holds the violations of every rule of every
/// column over the records.
pub open spec fn file_outcome<F: Fn(&str, Option<u64>, Option<u64>) -> NumericReading>(
    config: Config,
    file_path: Seq<char>,
    content: Seq<u8>,
    read_number: F,
    r: Result<FileValidationResult, AppError>,
) -> bool {
    match first_match(config.validations@, file_path) {
        None => r matches Ok(res) && skipped_result(res, file_path),
        Some(i) => {
            let validation = config.validations@[i];
            let (headers, records) = csv_table(content);
            match headers {
                None => r matches Err(AppError::Csv(_)),
                Some(h) => match first_missing(h, validation.columns@) {
                    Some(j) => r matches Err(AppError::Rule(m)) && m@ == missing_column_message(
                        validation.columns@[j].name@,
                        file_path,
                        h,
                    ),
                    None => match records {
                        None => r matches Err(AppError::Csv(_)),
                        Some(t) => if t.len() <= usize::MAX - 2 {
                            r matches Ok(res) && exists|indices: Seq<usize>|
                                resolved(indices, h, validation.columns@) && table_result(
                                    res,
                                    file_path,
                                    validation,
                                    indices,
                                    t,
                                    read_number,
                                )
                        } else {
                            r matches Err(AppError::Rule(m)) && m@ == too_many_rows_message()
                        },
                    },
                },
            }
        },
    }
}

// ---------------------------------------------------------------------------
// Validator
// ---------------------------------------------------------------------------

/// Validator that wraps the rule engine and config.
pub struct Validator<'cfg> {
    config: &'cfg Config,
    engine: RuleEngine,
}

impl<'cfg> Validator<'cfg> {
    /// The configuration this validator applies.
    pub closed spec fn config(&self) -> Config {
        *self.config
    }

    /// Create a new validator bound to the given config.
    pub fn new(config: &'cfg Config) -> (v: Self)
        ensures
            v.config() == *config,
    {
        Validator { config, engine: RuleEngine::new() }
    }

    /// Validate `content` (raw CSV bytes) as the file at `file_path`.
    ///
    /// If no `FileValidation` block in the config matches `file_path` the
    /// file is considered unchecked and an empty-violation result is
    /// returned.  Otherwise the first matching block applies: the header
    /// row must read, every configured column must be a header, and every
    /// record must read; then every rule of every column runs over the
    /// records.  `read_number` classifies the cells of `numeric_range`
    /// rules.
    pub fn validate_file<F: Fn(&str, Option<u64>, Option<u64>) -> NumericReading>(
        &mut self,
        file_path: &str,
        content: &[u8],
        read_number: &F,
    ) -> (r: Result<FileValidationResult, AppError>)
        requires
            reads_numbers(*read_number),
        ensures
            final(self).config() == old(self).config(),
            file_outcome(old(self).config(), file_path@, content@, *read_number, r),
    {
        let config: &'cfg Config = self.config;
        let mut found: Option<usize> = None;
        let mut i: usize = 0;
        while i < config.validations.len()
            invariant
                i <= config.validations.len(),
                found matches Some(k) ==> k < config.validations.len() && first_match(
                    config.validations@,
                    file_path@,
                ) == Some(k as int),
                found is None ==> first_match(config.validations@.take(i as int), file_path@)
                    is None,
            decreases config.validations.len() - i,
        {
            proof {
                assert(config.validations@.take(i + 1).drop_last() =~= config.validations@.take(
                    i as int,
                ));
                assert(config.validations@.take(i + 1).last() == config.validations@[i as int]);
            }
            if found.is_none() {
                if path_matches_prefix(file_path, config.validations[i].file_pattern.as_str()) {
                    proof {
                        lemma_first_match_prefix(config.validations@, file_path@, i as int);
                    }
                    found = Some(i);
                }
            }
            i = i + 1;
        }
        assert(config.validations@.take(config.validations@.len() as int)
            =~= config.validations@);
        let validation = match found {
            None => {
                return Ok(
                    FileValidationResult {
                        file_path: String::from_str(file_path),
                        violations: Vec::new(),
                        rows_checked: 0,
                        columns_checked: 0,
                    },
                );
            },
            Some(k) => &config.validations[k],
        };
        let (headers, records) = read_csv_table(content);
        let headers = match headers {
            Ok(h) => h,
            Err(e) => {
                return Err(AppError::Csv(e));
            },
        };
        let records = match records {
            Ok(t) => t,
            Err(e) => {
                if let Err(missing) = resolve_column_indices(&headers, validation, file_path) {
                    return Err(missing);
                }
                return Err(AppError::Csv(e));
            },
        };
        if records.len() > usize::MAX - 2 {
            if let Err(missing) = resolve_column_indices(&headers, validation, file_path) {
                return Err(missing);
            }
            return Err(AppError::Rule(String::from_str("Too many rows to number in the file")));
        }
        self.validate_table(file_path, validation, &headers, &records, read_number)
    }

    /// Validate the records `records` of the file `file_path`, whose header
    /// row is `headers`, against `validation`.
    ///
    /// Every configured column must be among the headers; then every rule of
    /// every column runs over the records, column by column and rule by rule.
    pub fn validate_table<F: Fn(&str, Option<u64>, Option<u64>) -> NumericReading>(
        &mut self,
        file_path: &str,
        validation: &FileValidation,
        headers: &Vec<String>,
        records: &Vec<Vec<String>>,
        read_number: &F,
    ) -> (r: Result<FileValidationResult, AppError>)
        requires
            reads_numbers(*read_number),
            records.len() <= usize::MAX - 2,
        ensures
            final(self).config() == old(self).config(),
            match first_missing(string_views(headers@), validation.columns@) {
                Some(j) => r matches Err(AppError::Rule(m)) && m@ == missing_column_message(
                    validation.columns@[j].name@,
                    file_path@,
                    string_views(headers@),
                ),
                None => r matches Ok(res) && exists|indices: Seq<usize>|
                    resolved(indices, string_views(headers@), validation.columns@)
                        && table_result(
                        res,
                        file_path@,
                        *validation,
                        indices,
                        table_view(records@),
                        *read_number,
                    ),
            },
    {
        match resolve_column_indices(headers, validation, file_path) {
            Err(e) => Err(e),
            Ok(indices) => {
                let res = self.run_validation(file_path, validation, &indices, records, read_number);
                proof {
                    assert(resolved(indices@, string_views(headers@), validation.columns@));
                }
                Ok(res)
            },
        }
    }

    /// Apply every rule of every column to the records.
    fn run_validation<F: Fn(&str, Option<u64>, Option<u64>) -> NumericReading>(
        &mut self,
        file_path: &str,
        validation: &FileValidation,
        indices: &Vec<usize>,
        records: &Vec<Vec<String>>,
        read_number: &F,
    ) -> (res: FileValidationResult)
        requires
            reads_numbers(*read_number),
            records.len() <= usize::MAX - 2,
            indices.len() == validation.columns.len(),
        ensures
            final(self).config() == old(self).config(),
            table_result(
                res,
                file_path@,
                *validation,
                indices@,
                table_view(records@),
                *read_number,
            ),
    {
        let ghost table = table_view(records@);
        let columns = &validation.columns;
        let mut all_violations: Vec<ValidationViolation> = Vec::new();
        let mut j: usize = 0;
        while j < columns.len()
            invariant
                j <= columns.len(),
                columns == &validation.columns,
                indices.len() == columns.len(),
                records.len() <= usize::MAX - 2,
                table == table_view(records@),
                reads_numbers(*read_number),
                self.config() == old(self).config(),
                violation_views(all_violations@) == table_violations(
                    columns@,
                    indices@,
                    table,
                    *read_number,
                    j as int,
                ),
            decreases columns.len() - j,
        {
            let column = &columns[j];
            let borrowed = column_values(records, indices[j]);
            let mut k: usize = 0;
            let ghost before = violation_views(all_violations@);
            while k < column.rules.len()
                invariant
                    k <= column.rules.len(),
                    column == &columns@[j as int],
                    reads_numbers(*read_number),
                    self.config() == old(self).config(),
                    j < indices.len(),
                    cells(borrowed@) == column_cells(table, indices@[j as int] as int, table.len() as int),
                    violation_views(all_violations@) == before + column_violations(
                        column.rules@,
                        column.name@,
                        cells(borrowed@),
                        *read_number,
                        k as int,
                    ),
                decreases column.rules.len() - k,
            {
                let mut violations = self.engine.apply(
                    &column.rules[k],
                    column.name.as_str(),
                    borrowed.as_slice(),
                    read_number,
                );
                let ghost prev = all_violations@;
                let ghost added = violations@;
                all_violations.append(&mut violations);
                proof {
                    assert(all_violations@ == prev + added);
                    assert(violation_views(prev + added) =~= violation_views(prev)
                        + violation_views(added));
                    assert(before + column_violations(
                        column.rules@,
                        column.name@,
                        cells(borrowed@),
                        *read_number,
                        k as int,
                    ) + violation_views(added) =~= before + column_violations(
                        column.rules@,
                        column.name@,
                        cells(borrowed@),
                        *read_number,
                        k + 1,
                    ));
                }
                k = k + 1;
            }
            proof {
                assert(columns@[j as int] == *column);
            }
            j = j + 1;
        }
        FileValidationResult {
            file_path: String::from_str(file_path),
            violations: all_violations,
            rows_checked: records.len(),
            columns_checked: columns.len(),
        }
    }
}

proof fn lemma_first_match_prefix(validations: Seq<FileValidation>, file_path: Seq<char>, i: int)
    requires
        0 <= i < validations.len(),
        first_match(validations.take(i), file_path) is None,
        matches_prefix(file_path, validations[i].file_pattern@),
    ensures
        first_match(validations, file_path) == Some(i),
    decreases validations.len(),
{
    if i == validations.len() - 1 {
        assert(validations.drop_last() =~= validations.take(i));
    } else {
        assert(validations.drop_last().take(i) =~= validations.take(i));
        lemma_first_match_prefix(validations.drop_last(), file_path, i);
        assert(validations.drop_last()[i] == validations[i]);
    }
}

/// The cells of field `idx` over all records, borrowed from the records.
fn column_values<'a>(records: &'a Vec<Vec<String>>, idx: usize) -> (out: Vec<(usize, &'a str)>)
    requires
        records.len() <= usize::MAX - 2,
    ensures
        cells(out@) == column_cells(table_view(records@), idx as int, records@.len() as int),
{
    let ghost table = table_view(records@);
    let mut out: Vec<(usize, &'a str)> = Vec::new();
    let mut k: usize = 0;
    while k < records.len()
        invariant
            k <= records.len(),
            records.len() <= usize::MAX - 2,
            table == table_view(records@),
            cells(out@) == column_cells(table, idx as int, k as int),
        decreases records.len() - k,
    {
        let record = &records[k];
        let value: &str = if idx < record.len() {
            record[idx].as_str()
        } else {
            ""
        };
        proof {
            reveal_strlit("");
            assert(table[k as int] == string_views(record@));
            assert(value@ =~= cell_text(table[k as int], idx as int));
        }
        let row: usize = k + 2;
        let ghost prev = out@;
        out.push((row, value));
        proof {
            assert(cells(prev.push((row, value))) =~= cells(prev).push((row, value@)));
        }
        k = k + 1;
    }
    out
}

/// Find each configured column among the headers.
///
/// Returns `AppError::Rule` for the first column that cannot be found in the
/// headers, listing all available headers in the message.
pub fn resolve_column_indices(
    headers: &Vec<String>,
    validation: &FileValidation,
    file_path: &str,
) -> (r: Result<Vec<usize>, AppError>)
    ensures
        column_outcome(r, string_views(headers@), *validation, file_path@),
{
    let ghost hv = string_views(headers@);
    let columns = &validation.columns;
    let mut indices: Vec<usize> = Vec::new();
    let mut j: usize = 0;
    while j < columns.len()
        invariant
            j <= columns.len(),
            columns == &validation.columns,
            hv == string_views(headers@),
            first_missing(hv, columns@.take(j as int)) is None,
            resolved(indices@, hv, columns@.take(j as int)),
        decreases columns.len() - j,
    {
        let name = &columns[j].name;
        let mut p: usize = 0;
        let mut found: Option<usize> = None;
        while p < headers.len() && found.is_none()
            invariant
                p <= headers.len(),
                hv == string_views(headers@),
                found matches Some(q) ==> header_position(hv, name@) == Some(q as int),
                found is None ==> header_position(hv.take(p as int), name@) is None,
            decreases headers.len() - p,
        {
            proof {
                assert(hv.take(p + 1).drop_last() =~= hv.take(p as int));
                assert(hv.take(p + 1).last() == headers@[p as int]@);
            }
            if headers[p] == *name {
                proof {
                    lemma_header_position_prefix(hv, name@, p as int);
                }
                found = Some(p);
            }
            p = p + 1;
        }
        proof {
            assert(columns@.take(j + 1).drop_last() =~= columns@.take(j as int));
            assert(columns@.take(j + 1).last() == columns@[j as int]);
        }
        match found {
            Some(q) => {
                let ghost prev = indices@;
                indices.push(q);
                proof {
                    assert forall|jj: int| 0 <= jj < j + 1 implies header_position(
                        hv,
                        columns@.take(j + 1)[jj].name@,
                    ) == Some(#[trigger] indices@[jj] as int) by {
                        if jj < j {
                            assert(columns@.take(j + 1)[jj] == columns@.take(j as int)[jj]);
                            assert(indices@[jj] == prev[jj]);
                        }
                    }
                }
            },
            None => {
                proof {
                    assert(hv.take(headers@.len() as int) =~= hv);
                    lemma_first_missing_prefix(hv, columns@, j as int);
                }
                let mut m = String::from_str("Column '");
                m.append(name.as_str());
                m.append("' not found in '");
                m.append(file_path);
                m.append("'. Available columns: [");
                let available = join_strings(headers, ", ");
                m.append(available.as_str());
                m.append("]");
                return Err(AppError::Rule(m));
            },
        }
        j = j + 1;
    }
    assert(columns@.take(columns@.len() as int) =~= columns@);
    Ok(indices)
}

proof fn lemma_header_position_prefix(headers: Seq<Seq<char>>, name: Seq<char>, p: int)
    requires
        0 <= p < headers.len(),
        header_position(headers.take(p), name) is None,
        headers[p] == name,
    ensures
        header_position(headers, name) == Some(p),
    decreases headers.len() - p,
{
    if p == headers.len() - 1 {
        assert(headers.drop_last() =~= headers.take(p));
    } else {
        assert(headers.drop_last().take(p) =~= headers.take(p));
        lemma_header_position_prefix(headers.drop_last(), name, p);
    }
}

proof fn lemma_first_missing_prefix(headers: Seq<Seq<char>>, columns: Seq<ColumnValidation>, j: int)
    requires
        0 <= j < columns.len(),
        first_missing(headers, columns.take(j)) is None,
        header_position(headers, columns[j].name@) is None,
    ensures
        first_missing(headers, columns) == Some(j),
    decreases columns.len() - j,
{
    if j == columns.len() - 1 {
        assert(columns.drop_last() =~= columns.take(j));
    } else {
        assert(columns.drop_last().take(j) =~= columns.take(j));
        lemma_first_missing_prefix(headers, columns.drop_last(), j);
    }
}

// ---------------------------------------------------------------------------
// Laws
// ---------------------------------------------------------------------------

/// A violation names a row of the file: a data row (the header is row 1, the
/// first data row is row 2), or row 0 for a regex that does not compile.
pub open spec fn names_file_row(v: ViolationView, rows: nat) -> bool {
    ||| 2 <= v.row <= rows + 1
    ||| v.row == 0 && v.rule == "regex"@ && v.value.len() == 0
}

/// Every cell lies in a data row.
pub open spec fn cells_in_rows(cells: Seq<(usize, Seq<char>)>, rows: nat) -> bool {
    forall|i: int| 0 <= i < cells.len() ==> 2 <= (#[trigger] cells[i]).0 <= rows + 1
}

/// Every violation names a row of the file.
pub open spec fn violations_in_rows(vs: Seq<ViolationView>, rows: nat) -> bool {
    forall|i: int| 0 <= i < vs.len() ==> names_file_row(#[trigger] vs[i], rows)
}

/// What a check reports for a cell names the cell's row.
pub open spec fn keeps_row(check: spec_fn((usize, Seq<char>)) -> Option<ViolationView>) -> bool {
    forall|c: (usize, Seq<char>)| #[trigger] check(c) matches Some(v) ==> v.row == c.0
}

proof fn lemma_column_cells_in_rows(table: Seq<Seq<Seq<char>>>, idx: int, n: int)
    requires
        n <= table.len(),
        table.len() <= usize::MAX - 2,
    ensures
        cells_in_rows(column_cells(table, idx, n), table.len()),
    decreases n,
{
    if n > 0 {
        lemma_column_cells_in_rows(table, idx, n - 1);
    }
}

proof fn lemma_collect_in_rows(
    cells: Seq<(usize, Seq<char>)>,
    check: spec_fn((usize, Seq<char>)) -> Option<ViolationView>,
    rows: nat,
)
    requires
        cells_in_rows(cells, rows),
        keeps_row(check),
    ensures
        violations_in_rows(collect(cells, check), rows),
    decreases cells.len(),
{
    if cells.len() > 0 {
        assert(cells_in_rows(cells.drop_last(), rows)) by {
            assert forall|i: int| 0 <= i < cells.drop_last().len() implies 2 <= (
            #[trigger] cells.drop_last()[i]).0 <= rows + 1 by {
                assert(cells.drop_last()[i] == cells[i]);
            }
        }
        lemma_collect_in_rows(cells.drop_last(), check, rows);
        assert(cells.last() == cells[cells.len() - 1]);
        let c = cells.last();
        if check(c) is Some {
            assert(check(c)->0.row == c.0);
        }
    }
}

proof fn lemma_duplicates_in_rows(column: Seq<char>, cells: Seq<(usize, Seq<char>)>, rows: nat)
    requires
        cells_in_rows(cells, rows),
    ensures
        violations_in_rows(duplicate_violations(column, cells), rows),
    decreases cells.len(),
{
    if cells.len() > 0 {
        assert(cells_in_rows(cells.drop_last(), rows)) by {
            assert forall|i: int| 0 <= i < cells.drop_last().len() implies 2 <= (
            #[trigger] cells.drop_last()[i]).0 <= rows + 1 by {
                assert(cells.drop_last()[i] == cells[i]);
            }
        }
        lemma_duplicates_in_rows(column, cells.drop_last(), rows);
        assert(cells.last() == cells[cells.len() - 1]);
    }
}

proof fn lemma_rule_in_rows<F: Fn(&str, Option<u64>, Option<u64>) -> NumericReading>(
    rule: ValidationRule,
    column: Seq<char>,
    cells: Seq<(usize, Seq<char>)>,
    read_number: F,
    rows: nat,
)
    requires
        cells_in_rows(cells, rows),
    ensures
        violations_in_rows(rule_violations(rule, column, cells, read_number), rows),
{
    match rule {
        ValidationRule::NotNull => {
            let check = not_null_check(column);
            assert(keeps_row(check));
            lemma_collect_in_rows(cells, check, rows);
        },
        ValidationRule::NoDuplicates => {
            lemma_duplicates_in_rows(column, cells, rows);
        },
        ValidationRule::Regex { pattern, message } => {
            if regex_compile_error(pattern@) is None {
                let check = regex_check(column, pattern@, option_view(message));
                assert(keeps_row(check));
                lemma_collect_in_rows(cells, check, rows);
            } else {
                let v = regex_error_violation(column, regex_compile_error(pattern@)->0);
                assert(names_file_row(v, rows));
                assert(seq![v][0] == v);
            }
        },
        ValidationRule::MinLength { value } => {
            let check = min_length_check(column, value);
            assert(keeps_row(check));
            lemma_collect_in_rows(cells, check, rows);
        },
        ValidationRule::MaxLength { value } => {
            let check = max_length_check(column, value);
            assert(keeps_row(check));
            lemma_collect_in_rows(cells, check, rows);
        },
        ValidationRule::AllowedValues { values } => {
            let check = allowed_values_check(column, string_views(values@));
            assert(keeps_row(check));
            lemma_collect_in_rows(cells, check, rows);
        },
        ValidationRule::NumericRange { min, max } => {
            let check = numeric_range_check(column, min, max, read_number);
            assert(keeps_row(check));
            lemma_collect_in_rows(cells, check, rows);
        },
        ValidationRule::Integer => {
            let check = integer_check(column);
            assert(keeps_row(check));
            lemma_collect_in_rows(cells, check, rows);
        },
    }
}

proof fn lemma_concat_in_rows(a: Seq<ViolationView>, b: Seq<ViolationView>, rows: nat)
    requires
        violations_in_rows(a, rows),
        violations_in_rows(b, rows),
    ensures
        violations_in_rows(a + b, rows),
{
    assert forall|i: int| 0 <= i < (a + b).len() implies names_file_row(#[trigger] (a + b)[i], rows) by {
        if i < a.len() {
            assert((a + b)[i] == a[i]);
        } else {
            assert((a + b)[i] == b[i - a.len()]);
        }
    }
}

proof fn lemma_column_in_rows<F: Fn(&str, Option<u64>, Option<u64>) -> NumericReading>(
    rules: Seq<ValidationRule>,
    name: Seq<char>,
    cells: Seq<(usize, Seq<char>)>,
    read_number: F,
    n: int,
    rows: nat,
)
    requires
        cells_in_rows(cells, rows),
        n <= rules.len(),
    ensures
        violations_in_rows(column_violations(rules, name, cells, read_number, n), rows),
    decreases n,
{
    if n > 0 {
        lemma_column_in_rows(rules, name, cells, read_number, n - 1, rows);
        lemma_rule_in_rows(rules[n - 1], name, cells, read_number, rows);
        lemma_concat_in_rows(
            column_violations(rules, name, cells, read_number, n - 1),
            rule_violations(rules[n - 1], name, cells, read_number),
            rows,
        );
    }
}

/// Every violation of a file names one of its data rows (the header being
/// row 1, the first data row row 2), except the one violation of a regex that
/// does not compile, which has row 0 and no value.
pub proof fn law_violation_rows<F: Fn(&str, Option<u64>, Option<u64>) -> NumericReading>(
    columns: Seq<ColumnValidation>,
    indices: Seq<usize>,
    table: Seq<Seq<Seq<char>>>,
    read_number: F,
    n: int,
)
    requires
        table.len() <= usize::MAX - 2,
        n <= columns.len(),
    ensures
        violations_in_rows(table_violations(columns, indices, table, read_number, n), table.len()),
    decreases n,
{
    if n > 0 {
        law_violation_rows(columns, indices, table, read_number, n - 1);
        let c = columns[n - 1];
        lemma_column_cells_in_rows(table, indices[n - 1] as int, table.len() as int);
        lemma_column_in_rows(
            c.rules@,
            c.name@,
            column_cells(table, indices[n - 1] as int, table.len() as int),
            read_number,
            c.rules@.len() as int,
            table.len(),
        );
        lemma_concat_in_rows(
            table_violations(columns, indices, table, read_number, n - 1),
            column_violations(
                c.rules@,
                c.name@,
                column_cells(table, indices[n - 1] as int, table.len() as int),
                read_number,
                c.rules@.len() as int,
            ),
            table.len(),
        );
    }
}

/// The text of a file's result: its path, its violations, and the numbers
/// of rows and columns it checked.
pub open spec fn result_view(r: FileValidationResult) -> (Seq<char>, Seq<ViolationView>, usize, usize) {
    (r.file_path@, violation_views(r.violations@), r.rows_checked, r.columns_checked)
}

proof fn lemma_resolved_unique(
    a: Seq<usize>,
    b: Seq<usize>,
    headers: Seq<Seq<char>>,
    columns: Seq<ColumnValidation>,
)
    requires
        resolved(a, headers, columns),
        resolved(b, headers, columns),
    ensures
        a == b,
{
    assert forall|j: int| 0 <= j < a.len() implies a[j] == b[j] by {
        assert(header_position(headers, columns[j].name@) == Some(a[j] as int));
        assert(header_position(headers, columns[j].name@) == Some(b[j] as int));
    }
    assert(a =~= b);
}

/// Validating a file always gives the same outcome: it depends on the
/// configuration, the path, the content and the number reader only, not on
/// what the validator validated before it (the regexes it has compiled).
pub proof fn law_validation_repeatable<F: Fn(&str, Option<u64>, Option<u64>) -> NumericReading>(
    config: Config,
    file_path: Seq<char>,
    content: Seq<u8>,
    read_number: F,
    r1: Result<FileValidationResult, AppError>,
    r2: Result<FileValidationResult, AppError>,
)
    requires
        file_outcome(config, file_path, content, read_number, r1),
        file_outcome(config, file_path, content, read_number, r2),
    ensures
        match (r1, r2) {
            (Ok(a), Ok(b)) => result_view(a) == result_view(b),
            (Err(AppError::Rule(m1)), Err(AppError::Rule(m2))) => m1@ == m2@,
            (Err(AppError::Csv(_)), Err(AppError::Csv(_))) => true,
            _ => false,
        },
{
    match first_match(config.validations@, file_path) {
        None => {
            let a = r1->Ok_0;
            let b = r2->Ok_0;
            assert(violation_views(a.violations@) =~= violation_views(b.violations@));
        },
        Some(i) => {
            let validation = config.validations@[i];
            let (headers, records) = csv_table(content);
            if headers is Some && first_missing(headers->0, validation.columns@) is None
                && records is Some && records->0.len() <= usize::MAX - 2 {
                let h = headers->0;
                let t = records->0;
                let a = r1->Ok_0;
                let b = r2->Ok_0;
                let ia = choose|ia: Seq<usize>|
                    resolved(ia, h, validation.columns@) && table_result(
                        a,
                        file_path,
                        validation,
                        ia,
                        t,
                        read_number,
                    );
                let ib = choose|ib: Seq<usize>|
                    resolved(ib, h, validation.columns@) && table_result(
                        b,
                        file_path,
                        validation,
                        ib,
                        t,
                        read_number,
                    );
                lemma_resolved_unique(ia, ib, h, validation.columns@);
            }
        },
    }
}

proof fn lemma_header_position_contains(headers: Seq<Seq<char>>, name: Seq<char>)
    ensures
        (header_position(headers, name) is None) == !headers.contains(name),
    decreases headers.len(),
{
    if headers.len() > 0 {
        let rest = headers.drop_last();
        lemma_header_position_contains(rest, name);
        if rest.contains(name) {
            let k = choose|k: int| 0 <= k < rest.len() && rest[k] == name;
            assert(headers[k] == name);
        }
        if headers.contains(name) && !rest.contains(name) {
            let k = choose|k: int| 0 <= k < headers.len() && headers[k] == name;
            if k < rest.len() {
                assert(rest[k] == name);
            }
        }
        if headers.last() == name {
            assert(headers[headers.len() - 1] == name);
        }
    }
}

proof fn lemma_first_missing_none(headers: Seq<Seq<char>>, columns: Seq<ColumnValidation>)
    ensures
        (first_missing(headers, columns) is None) == forall|j: int|
            0 <= j < columns.len() ==> headers.contains(#[trigger] columns[j].name@),
    decreases columns.len(),
{
    if columns.len() > 0 {
        let rest = columns.drop_last();
        lemma_first_missing_none(headers, rest);
        lemma_header_position_contains(headers, columns.last().name@);
        if forall|j: int| 0 <= j < columns.len() ==> headers.contains(#[trigger] columns[j].name@) {
            assert forall|j: int| 0 <= j < rest.len() implies headers.contains(
                #[trigger] rest[j].name@,
            ) by {
                assert(rest[j] == columns[j]);
            }
            assert(columns.last() == columns[columns.len() - 1]);
        }
        if first_missing(headers, columns) is None {
            assert forall|j: int| 0 <= j < columns.len() implies headers.contains(
                #[trigger] columns[j].name@,
            ) by {
                if j < rest.len() {
                    assert(rest[j] == columns[j]);
                    assert(headers.contains(rest[j].name@));
                }
            }
        }
    }
}

proof fn lemma_first_missing_at(headers: Seq<Seq<char>>, columns: Seq<ColumnValidation>, j: int)
    requires
        0 <= j < columns.len(),
        !headers.contains(columns[j].name@),
        forall|k: int| 0 <= k < j ==> headers.contains(#[trigger] columns[k].name@),
    ensures
        first_missing(headers, columns) == Some(j),
    decreases columns.len(),
{
    let rest = columns.drop_last();
    if j < columns.len() - 1 {
        assert(rest[j] == columns[j]);
        assert forall|k: int| 0 <= k < j implies headers.contains(#[trigger] rest[k].name@) by {
            assert(rest[k] == columns[k]);
        }
        lemma_first_missing_at(headers, rest, j);
    } else {
        assert forall|k: int| 0 <= k < rest.len() implies headers.contains(
            #[trigger] rest[k].name@,
        ) by {
            assert(rest[k] == columns[k]);
        }
        lemma_first_missing_none(headers, rest);
        lemma_header_position_contains(headers, columns[j].name@);
    }
}

/// A file that a validation block covers and whose header row reads is a
/// rule error as soon as one of the block's columns is not among the
/// headers, whatever its records (none at all included).  The error names
/// the first such column and lists the headers.
pub proof fn law_missing_column_is_an_error<F: Fn(&str, Option<u64>, Option<u64>) -> NumericReading>(
    config: Config,
    file_path: Seq<char>,
    content: Seq<u8>,
    read_number: F,
    r: Result<FileValidationResult, AppError>,
    j: int,
)
    requires
        file_outcome(config, file_path, content, read_number, r),
        first_match(config.validations@, file_path) is Some,
        csv_table(content).0 is Some,
        ({
            let columns = config.validations@[first_match(config.validations@, file_path)->0].columns@;
            let headers = csv_table(content).0->0;
            &&& 0 <= j < columns.len()
            &&& !headers.contains(columns[j].name@)
            &&& forall|k: int| 0 <= k < j ==> headers.contains(#[trigger] columns[k].name@)
        }),
    ensures
        ({
            let columns = config.validations@[first_match(config.validations@, file_path)->0].columns@;
            let headers = csv_table(content).0->0;
            r matches Err(AppError::Rule(m)) && m@ == "Column '"@ + columns[j].name@
                + "' not found in '"@ + file_path + "'. Available columns: ["@ + join(
                headers,
                ", "@,
            ) + "]"@
        }),
{
    let columns = config.validations@[first_match(config.validations@, file_path)->0].columns@;
    lemma_first_missing_at(csv_table(content).0->0, columns, j);
}

/// When a validation block covers the file and validating it succeeds, the
/// header row and every record read, every column of the block is among
/// the headers, and the result names the file and counts every record and
/// every column of the block.
pub proof fn law_success_checks_every_column<F: Fn(&str, Option<u64>, Option<u64>) -> NumericReading>(
    config: Config,
    file_path: Seq<char>,
    content: Seq<u8>,
    read_number: F,
    r: Result<FileValidationResult, AppError>,
)
    requires
        file_outcome(config, file_path, content, read_number, r),
        first_match(config.validations@, file_path) is Some,
        r is Ok,
    ensures
        ({
            let columns = config.validations@[first_match(config.validations@, file_path)->0].columns@;
            let res = r->Ok_0;
            &&& csv_table(content).0 is Some
            &&& csv_table(content).1 is Some
            &&& forall|j: int|
                0 <= j < columns.len() ==> csv_table(content).0->0.contains(
                    #[trigger] columns[j].name@,
                )
            &&& res.file_path@ == file_path
            &&& res.rows_checked == csv_table(content).1->0.len()
            &&& res.columns_checked == columns.len()
        }),
{
    let columns = config.validations@[first_match(config.validations@, file_path)->0].columns@;
    if csv_table(content).0 is Some {
        lemma_first_missing_none(csv_table(content).0->0, columns);
    }
}

/// A file that no validation block covers is valid and unchecked: no
/// violation, no row and no column.
pub proof fn law_uncovered_file_is_skipped<F: Fn(&str, Option<u64>, Option<u64>) -> NumericReading>(
    config: Config,
    file_path: Seq<char>,
    content: Seq<u8>,
    read_number: F,
    r: Result<FileValidationResult, AppError>,
)
    requires
        file_outcome(config, file_path, content, read_number, r),
        forall|i: int|
            0 <= i < config.validations@.len() ==> !matches_prefix(
                file_path,
                #[trigger] config.validations@[i].file_pattern@,
            ),
    ensures
        r matches Ok(res) && res.file_path@ == file_path && res.violations@.len() == 0
            && res.rows_checked == 0 && res.columns_checked == 0,
{
    lemma_first_match_none(config.validations@, file_path);
}

proof fn lemma_first_match_none(validations: Seq<FileValidation>, file_path: Seq<char>)
    requires
        forall|i: int|
            0 <= i < validations.len() ==> !matches_prefix(
                file_path,
                #[trigger] validations[i].file_pattern@,
            ),
    ensures
        first_match(validations, file_path) is None,
    decreases validations.len(),
{
    if validations.len() > 0 {
        let rest = validations.drop_last();
        assert forall|i: int| 0 <= i < rest.len() implies !matches_prefix(
            file_path,
            #[trigger] rest[i].file_pattern@,
        ) by {
            assert(rest[i] == validations[i]);
        }
        lemma_first_match_none(rest, file_path);
        assert(validations.last() == validations[validations.len() - 1]);
    }
}

/// The cells a column sees: one per record, the record's field at
/// position `idx` (empty when the record is shorter), at row record
/// number + 2 (the header being row 1).
pub open spec fn field_cells(table: Seq<Seq<Seq<char>>>, idx: int) -> Seq<(usize, Seq<char>)> {
    Seq::new(
        table.len(),
        |k: int| ((k + 2) as usize, if 0 <= idx < table[k].len() { table[k][idx] } else { seq![] }),
    )
}

/// What each rule of a list reports for the same cells, rule by rule.
pub open spec fn reports_by_rule<F: Fn(&str, Option<u64>, Option<u64>) -> NumericReading>(
    rules: Seq<ValidationRule>,
    name: Seq<char>,
    cells: Seq<(usize, Seq<char>)>,
    read_number: F,
) -> Seq<Seq<ViolationView>> {
    Seq::new(rules.len(), |q: int| rule_violations(rules[q], name, cells, read_number))
}

/// What each column reports, column by column: all its rules, in order,
/// over the cells of the field at `idx[j]`.
pub open spec fn reports_by_column<F: Fn(&str, Option<u64>, Option<u64>) -> NumericReading>(
    columns: Seq<ColumnValidation>,
    idx: Seq<int>,
    table: Seq<Seq<Seq<char>>>,
    read_number: F,
) -> Seq<Seq<ViolationView>> {
    Seq::new(
        columns.len(),
        |j: int|
            reports_by_rule(
                columns[j].rules@,
                columns[j].name@,
                field_cells(table, idx[j]),
                read_number,
            ).flatten(),
    )
}

proof fn lemma_first_header(headers: Seq<Seq<char>>, name: Seq<char>, p: int)
    requires
        0 <= p < headers.len(),
        headers[p] == name,
        forall|i: int| 0 <= i < p ==> headers[i] != name,
    ensures
        header_position(headers, name) == Some(p),
{
    let pre = headers.take(p);
    lemma_header_position_contains(pre, name);
    if pre.contains(name) {
        let i = choose|i: int| 0 <= i < pre.len() && pre[i] == name;
        assert(pre[i] == headers[i]);
    }
    lemma_header_position_prefix(headers, name, p);
}

proof fn lemma_column_cells_field(table: Seq<Seq<Seq<char>>>, idx: int, n: int)
    requires
        0 <= n <= table.len(),
        table.len() <= usize::MAX - 2,
    ensures
        column_cells(table, idx, n) == field_cells(table, idx).take(n),
    decreases n,
{
    if n > 0 {
        lemma_column_cells_field(table, idx, n - 1);
        assert(field_cells(table, idx).take(n) =~= field_cells(table, idx).take(n - 1).push(
            field_cells(table, idx)[n - 1],
        ));
    } else {
        assert(field_cells(table, idx).take(0) =~= Seq::<(usize, Seq<char>)>::empty());
    }
}

proof fn lemma_column_violations_flat<F: Fn(&str, Option<u64>, Option<u64>) -> NumericReading>(
    rules: Seq<ValidationRule>,
    name: Seq<char>,
    cells: Seq<(usize, Seq<char>)>,
    read_number: F,
    n: int,
)
    requires
        0 <= n <= rules.len(),
    ensures
        column_violations(rules, name, cells, read_number, n) == reports_by_rule(
            rules,
            name,
            cells,
            read_number,
        ).take(n).flatten_alt(),
    decreases n,
{
    let all = reports_by_rule(rules, name, cells, read_number);
    if n > 0 {
        lemma_column_violations_flat(rules, name, cells, read_number, n - 1);
        assert(all.take(n).drop_last() =~= all.take(n - 1));
        assert(all.take(n).last() == all[n - 1]);
    } else {
        assert(all.take(0) =~= Seq::<Seq<ViolationView>>::empty());
    }
}

proof fn lemma_table_violations_flat<F: Fn(&str, Option<u64>, Option<u64>) -> NumericReading>(
    columns: Seq<ColumnValidation>,
    indices: Seq<usize>,
    idx: Seq<int>,
    table: Seq<Seq<Seq<char>>>,
    read_number: F,
    n: int,
)
    requires
        0 <= n <= columns.len(),
        indices.len() == columns.len(),
        idx.len() == columns.len(),
        forall|j: int| 0 <= j < columns.len() ==> indices[j] as int == #[trigger] idx[j],
        table.len() <= usize::MAX - 2,
    ensures
        table_violations(columns, indices, table, read_number, n) == reports_by_column(
            columns,
            idx,
            table,
            read_number,
        ).take(n).flatten_alt(),
    decreases n,
{
    let all = reports_by_column(columns, idx, table, read_number);
    if n > 0 {
        lemma_table_violations_flat(columns, indices, idx, table, read_number, n - 1);
        assert(all.take(n).drop_last() =~= all.take(n - 1));
        assert(all.take(n).last() == all[n - 1]);
        let c = columns[n - 1];
        let cells = column_cells(table, indices[n - 1] as int, table.len() as int);
        lemma_column_cells_field(table, indices[n - 1] as int, table.len() as int);
        assert(field_cells(table, idx[n - 1]).take(table.len() as int) =~= field_cells(
            table,
            idx[n - 1],
        ));
        lemma_column_violations_flat(c.rules@, c.name@, cells, read_number, c.rules@.len() as int);
        let rr = reports_by_rule(c.rules@, c.name@, cells, read_number);
        assert(rr.take(rr.len() as int) =~= rr);
        rr.lemma_flatten_and_flatten_alt_are_equivalent();
    } else {
        assert(all.take(0) =~= Seq::<Seq<ViolationView>>::empty());
    }
}

/// The violations of a validated file are what the rules of its validation
/// block report, column by column in the block's order and rule by rule
/// within a column; each column sees one cell per record, the field under
/// the first header of the column's name, at row record number + 2.
pub proof fn law_file_violations_by_column_and_rule<F: Fn(&str, Option<u64>, Option<u64>) -> NumericReading>(
    config: Config,
    file_path: Seq<char>,
    content: Seq<u8>,
    read_number: F,
    r: Result<FileValidationResult, AppError>,
    idx: Seq<int>,
)
    requires
        file_outcome(config, file_path, content, read_number, r),
        first_match(config.validations@, file_path) is Some,
        r is Ok,
        ({
            let columns = config.validations@[first_match(config.validations@, file_path)->0].columns@;
            let headers = csv_table(content).0->0;
            &&& idx.len() == columns.len()
            &&& forall|j: int|
                0 <= j < columns.len() ==> {
                    &&& 0 <= #[trigger] idx[j] < headers.len()
                    &&& headers[idx[j]] == columns[j].name@
                    &&& forall|i: int| 0 <= i < idx[j] ==> headers[i] != columns[j].name@
                }
        }),
    ensures
        violation_views(r->Ok_0.violations@) == reports_by_column(
            config.validations@[first_match(config.validations@, file_path)->0].columns@,
            idx,
            csv_table(content).1->0,
            read_number,
        ).flatten(),
{
    let validation = config.validations@[first_match(config.validations@, file_path)->0];
    let columns = validation.columns@;
    let h = csv_table(content).0->0;
    let t = csv_table(content).1->0;
    lemma_first_missing_none(h, columns);
    let res = r->Ok_0;
    let indices = choose|indices: Seq<usize>|
        resolved(indices, h, columns) && table_result(res, file_path, validation, indices, t, read_number);
    assert forall|j: int| 0 <= j < columns.len() implies indices[j] as int == #[trigger] idx[j] by {
        lemma_first_header(h, columns[j].name@, idx[j]);
    }
    lemma_table_violations_flat(columns, indices, idx, t, read_number, columns.len() as int);
    let all = reports_by_column(columns, idx, t, read_number);
    assert(all.take(columns.len() as int) =~= all);
    all.lemma_flatten_and_flatten_alt_are_equivalent();
}

proof fn lemma_first_match_found(validations: Seq<FileValidation>, file_path: Seq<char>)
    ensures
        match first_match(validations, file_path) {
            Some(i) => 0 <= i < validations.len() && matches_prefix(
                file_path,
                validations[i].file_pattern@,
            ) && forall|k: int|
                0 <= k < i ==> !matches_prefix(file_path, #[trigger] validations[k].file_pattern@),
            None => forall|k: int|
                0 <= k < validations.len() ==> !matches_prefix(
                    file_path,
                    #[trigger] validations[k].file_pattern@,
                ),
        },
    decreases validations.len(),
{
    if validations.len() > 0 {
        let rest = validations.drop_last();
        let n = validations.len() - 1;
        lemma_first_match_found(rest, file_path);
        assert(validations.last() == validations[n]);
        match first_match(rest, file_path) {
            Some(i) => {
                assert(rest[i] == validations[i]);
                assert forall|k: int| 0 <= k < i implies !matches_prefix(
                    file_path,
                    #[trigger] validations[k].file_pattern@,
                ) by {
                    assert(rest[k] == validations[k]);
                }
            },
            None => {
                assert forall|k: int| 0 <= k < n implies !matches_prefix(
                    file_path,
                    #[trigger] validations[k].file_pattern@,
                ) by {
                    assert(rest[k] == validations[k]);
                }
            },
        }
    }
}

/// The validation block that applies to a file is the first, in the
/// configuration's order, whose pattern the file's path matches; no block
/// applies when none matches.
pub proof fn law_first_matching_block_applies(validations: Seq<FileValidation>, file_path: Seq<char>, i: int)
    ensures
        (first_match(validations, file_path) == Some(i)) == (0 <= i < validations.len()
            && matches_prefix(file_path, validations[i].file_pattern@) && forall|k: int|
            0 <= k < i ==> !matches_prefix(file_path, #[trigger] validations[k].file_pattern@)),
        (first_match(validations, file_path) is None) == forall|k: int|
            0 <= k < validations.len() ==> !matches_prefix(
                file_path,
                #[trigger] validations[k].file_pattern@,
            ),
{
    lemma_first_match_found(validations, file_path);
    if 0 <= i < validations.len() && matches_prefix(file_path, validations[i].file_pattern@)
        && forall|k: int|
        0 <= k < i ==> !matches_prefix(file_path, #[trigger] validations[k].file_pattern@) {
        match first_match(validations, file_path) {
            Some(i2) => {
                if i2 < i {
                    assert(!matches_prefix(file_path, validations[i2].file_pattern@));
                } else if i2 > i {
                    assert(!matches_prefix(file_path, validations[i].file_pattern@));
                }
            },
            None => {
                assert(!matches_prefix(file_path, validations[i].file_pattern@));
            },
        }
    }
    if forall|k: int|
        0 <= k < validations.len() ==> !matches_prefix(file_path, #[trigger] validations[k].file_pattern@) {
        lemma_first_match_none(validations, file_path);
    }
}

/// A column is found at the first header equal to its name, and is missing
/// exactly when no header equals its name.
pub proof fn law_column_found_at_first_header(headers: Seq<Seq<char>>, name: Seq<char>, p: int)
    ensures
        (header_position(headers, name) == Some(p)) == (0 <= p < headers.len() && headers[p] == name
            && forall|i: int| 0 <= i < p ==> headers[i] != name),
        (header_position(headers, name) is None) == !headers.contains(name),
    decreases headers.len(),
{
    lemma_header_position_contains(headers, name);
    if 0 <= p < headers.len() && headers[p] == name && forall|i: int| 0 <= i < p ==> headers[i] != name {
        lemma_first_header(headers, name, p);
    }
    if header_position(headers, name) == Some(p) && headers.len() > 0 {
        let rest = headers.drop_last();
        law_column_found_at_first_header(rest, name, p);
        if header_position(rest, name) is None {
            assert forall|i: int| 0 <= i < p implies headers[i] != name by {
                assert(rest[i] == headers[i]);
                assert(!rest.contains(name));
            }
        } else {
            assert(rest[p] == headers[p]);
            assert forall|i: int| 0 <= i < p implies headers[i] != name by {
                assert(rest[i] == headers[i]);
            }
        }
    }
}

} // verus!
