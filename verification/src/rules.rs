//! Validation rule engine.
//!
//! `RuleEngine` applies individual `ValidationRule` variants to column data.
//! It caches compiled regexes so that patterns shared across many files are
//! only compiled once.
//!
//! The engine receives column data as a slice of `(row_number, value)` pairs
//! where `row_number` is 1-based and accounts for the header row (data starts
//! at row 2).
//!
//! Numbers are read with floating-point arithmetic, which this library leaves
//! to its caller: `numeric_range` rules go through a number reader (see
//! [`NumericReading`]) handed to [`RuleEngine::apply`].

use vstd::prelude::*;
use vstd::hash_map::StringHashMap;

use crate::config::ValidationRule;
use crate::pattern::{regex_compile_error, regex_is_match, CompiledRegex};
use crate::text::{
    blank, chars_of, decimal, decimal_string, digit_char, is_blank, join, join_strings, string_views,
    trim_bounds, trimmed,
};

verus! {

// ---------------------------------------------------------------------------
// Public data types
// ---------------------------------------------------------------------------

/// A single constraint violation found during validation.
#[derive(Debug)]
pub struct ValidationViolation {
    /// Short rule identifier (e.g. `"not_null"`, `"regex"`).
    pub rule: String,
    /// Name of the column that produced the violation.
    pub column: String,
    /// 1-based row number in the CSV file (header = row 1, first data = row 2).
    pub row: usize,
    /// The offending cell value (empty for `not_null` violations).
    pub value: String,
    /// Human-readable description of the violation.
    pub message: String,
}

/// The text of a violation.
pub struct ViolationView {
    pub rule: Seq<char>,
    pub column: Seq<char>,
    pub row: usize,
    pub value: Seq<char>,
    pub message: Seq<char>,
}

impl View for ValidationViolation {
    type V = ViolationView;

    open spec fn view(&self) -> ViolationView {
        ViolationView {
            rule: self.rule@,
            column: self.column@,
            row: self.row,
            value: self.value@,
            message: self.message@,
        }
    }
}

/// The views of a list of violations.
pub open spec fn violation_views(v: Seq<ValidationViolation>) -> Seq<ViolationView> {
    v.map_values(|x: ValidationViolation| x@)
}

/// How a number reader classifies the trimmed text of a cell for a
/// `numeric_range` rule, given the rule's bounds.
///
/// `number` is the parsed value and `bound` the bound it crosses, both as
/// they are to be written in the violation message.
#[derive(Debug)]
pub enum NumericReading {
    /// The cell does not parse as a number.
    NotANumber,
    /// The number lies below the minimum.
    BelowMin { number: String, bound: String },
    /// The number lies above the maximum.
    AboveMax { number: String, bound: String },
    /// The number lies within the bounds.
    InRange,
}

/// The text of a [`NumericReading`].
pub enum NumericReadingView {
    NotANumber,
    BelowMin { number: Seq<char>, bound: Seq<char> },
    AboveMax { number: Seq<char>, bound: Seq<char> },
    InRange,
}

impl View for NumericReading {
    type V = NumericReadingView;

    open spec fn view(&self) -> NumericReadingView {
        match self {
            NumericReading::NotANumber => NumericReadingView::NotANumber,
            NumericReading::BelowMin { number, bound } => NumericReadingView::BelowMin {
                number: number@,
                bound: bound@,
            },
            NumericReading::AboveMax { number, bound } => NumericReadingView::AboveMax {
                number: number@,
                bound: bound@,
            },
            NumericReading::InRange => NumericReadingView::InRange,
        }
    }
}

/// A number reader may be called on any cell and bounds, and what it answers
/// depends on the text of the cell and the bounds only.
pub open spec fn reads_numbers<F: Fn(&str, Option<u64>, Option<u64>) -> NumericReading>(
    f: F,
) -> bool {
    &&& forall|v: &str, lo: Option<u64>, hi: Option<u64>| #[trigger] f.requires((v, lo, hi))
    &&& forall|a: &str, b: &str, lo: Option<u64>, hi: Option<u64>, r1: NumericReading,
        r2: NumericReading|
        a@ == b@ && #[trigger] f.ensures((a, lo, hi), r1) && #[trigger] f.ensures((b, lo, hi), r2)
            ==> r1@ == r2@
}

/// What the number reader `f` answers for a cell holding `text`.
pub open spec fn number_reading<F: Fn(&str, Option<u64>, Option<u64>) -> NumericReading>(
    f: F,
    text: Seq<char>,
    lo: Option<u64>,
    hi: Option<u64>,
) -> NumericReadingView {
    let (a, r) = choose|a: &str, r: NumericReading|
        a@ == text && #[trigger] f.ensures((a, lo, hi), r);
    r@
}

// ---------------------------------------------------------------------------
// What each rule reports
// ---------------------------------------------------------------------------

/// The cells of a column as `(row, text)` pairs.
pub open spec fn cells(values: Seq<(usize, &str)>) -> Seq<(usize, Seq<char>)> {
    values.map_values(|p: (usize, &str)| (p.0, p.1@))
}

/// The violations that `check` reports for `cells`, in order.
pub open spec fn collect(
    cells: Seq<(usize, Seq<char>)>,
    check: spec_fn((usize, Seq<char>)) -> Option<ViolationView>,
) -> Seq<ViolationView>
    decreases cells.len(),
{
    if cells.len() == 0 {
        seq![]
    } else {
        let rest = collect(cells.drop_last(), check);
        match check(cells.last()) {
            Some(v) => rest.push(v),
            None => rest,
        }
    }
}

/// `Value '<value>' in column '<column>' at row <row>`
pub open spec fn value_at_text(value: Seq<char>, column: Seq<char>, row: usize) -> Seq<char> {
    "Value '"@ + value + "' in column '"@ + column + "' at row "@ + decimal(row as nat)
}

pub open spec fn not_null_check(column: Seq<char>) -> spec_fn((usize, Seq<char>)) -> Option<
    ViolationView,
> {
    |c: (usize, Seq<char>)|
        if blank(c.1) {
            Some(
                ViolationView {
                    rule: "not_null"@,
                    column,
                    row: c.0,
                    value: seq![],
                    message: "Column '"@ + column + "' contains a NULL/empty value at row "@
                        + decimal(c.0 as nat),
                },
            )
        } else {
            None
        }
}

/// The row at which `value` first occurs among `cells`, if it does.
pub open spec fn first_row(cells: Seq<(usize, Seq<char>)>, value: Seq<char>) -> Option<usize>
    decreases cells.len(),
{
    if cells.len() == 0 {
        None
    } else {
        match first_row(cells.drop_last(), value) {
            Some(r) => Some(r),
            None => if cells.last().1 == value {
                Some(cells.last().0)
            } else {
                None
            },
        }
    }
}

pub open spec fn duplicate_violation(
    column: Seq<char>,
    row: usize,
    value: Seq<char>,
    first: usize,
) -> ViolationView {
    ViolationView {
        rule: "no_duplicates"@,
        column,
        row,
        value,
        message: "Duplicate value '"@ + value + "' in column '"@ + column + "' at row "@ + decimal(
            row as nat,
        ) + " (first seen at row "@ + decimal(first as nat) + ")"@,
    }
}

/// Every non-blank cell whose value occurred in an earlier cell.
pub open spec fn duplicate_violations(column: Seq<char>, cells: Seq<(usize, Seq<char>)>) -> Seq<
    ViolationView,
>
    decreases cells.len(),
{
    if cells.len() == 0 {
        seq![]
    } else {
        let prefix = cells.drop_last();
        let rest = duplicate_violations(column, prefix);
        let (row, value) = cells.last();
        if blank(value) {
            rest
        } else {
            match first_row(prefix, value) {
                Some(first) => rest.push(duplicate_violation(column, row, value, first)),
                None => rest,
            }
        }
    }
}

pub open spec fn regex_check(
    column: Seq<char>,
    pattern: Seq<char>,
    message: Option<Seq<char>>,
) -> spec_fn((usize, Seq<char>)) -> Option<ViolationView> {
    |c: (usize, Seq<char>)|
        if !blank(c.1) && !regex_is_match(pattern, c.1) {
            Some(
                ViolationView {
                    rule: "regex"@,
                    column,
                    row: c.0,
                    value: c.1,
                    message: match message {
                        Some(m) => m,
                        None => value_at_text(c.1, column, c.0) + " does not match required pattern '"@
                            + pattern + "'"@,
                    },
                },
            )
        } else {
            None
        }
}

/// The single violation reported for a regex that does not compile.
pub open spec fn regex_error_violation(column: Seq<char>, error: Seq<char>) -> ViolationView {
    ViolationView {
        rule: "regex"@,
        column,
        row: 0,
        value: seq![],
        message: "Regex compilation error: Regex error: "@ + error,
    }
}

pub open spec fn min_length_check(column: Seq<char>, min: usize) -> spec_fn(
    (usize, Seq<char>),
) -> Option<ViolationView> {
    |c: (usize, Seq<char>)|
        if !blank(c.1) && c.1.len() < min {
            Some(
                ViolationView {
                    rule: "min_length"@,
                    column,
                    row: c.0,
                    value: c.1,
                    message: value_at_text(c.1, column, c.0) + " has length "@ + decimal(c.1.len())
                        + " which is below the minimum of "@ + decimal(min as nat),
                },
            )
        } else {
            None
        }
}

pub open spec fn max_length_check(column: Seq<char>, max: usize) -> spec_fn(
    (usize, Seq<char>),
) -> Option<ViolationView> {
    |c: (usize, Seq<char>)|
        if c.1.len() > max {
            Some(
                ViolationView {
                    rule: "max_length"@,
                    column,
                    row: c.0,
                    value: c.1,
                    message: value_at_text(c.1, column, c.0) + " has length "@ + decimal(c.1.len())
                        + " which exceeds the maximum of "@ + decimal(max as nat),
                },
            )
        } else {
            None
        }
}

pub open spec fn allowed_values_check(column: Seq<char>, allowed: Seq<Seq<char>>) -> spec_fn(
    (usize, Seq<char>),
) -> Option<ViolationView> {
    |c: (usize, Seq<char>)|
        if !blank(c.1) && !allowed.contains(c.1) {
            Some(
                ViolationView {
                    rule: "allowed_values"@,
                    column,
                    row: c.0,
                    value: c.1,
                    message: value_at_text(c.1, column, c.0) + " is not in the allowed set: ["@
                        + join(allowed, ", "@) + "]"@,
                },
            )
        } else {
            None
        }
}

/// An ASCII decimal digit.
pub open spec fn is_digit(c: char) -> bool {
    '0' <= c <= '9'
}

/// The value of a string of decimal digits.
pub open spec fn digits_value(s: Seq<char>) -> nat
    decreases s.len(),
{
    if s.len() == 0 {
        0
    } else {
        digits_value(s.drop_last()) * 10 + (s.last() as nat - 48) as nat
    }
}

/// The text starts with a `+` or `-` sign.
pub open spec fn has_sign(s: Seq<char>) -> bool {
    s.len() > 0 && (s[0] == '+' || s[0] == '-')
}

/// The text after its sign, if it has one.
pub open spec fn unsigned_part(s: Seq<char>) -> Seq<char> {
    if has_sign(s) {
        s.drop_first()
    } else {
        s
    }
}

/// The largest magnitude an `i64` written as `s` may have.
pub open spec fn i64_magnitude_limit(s: Seq<char>) -> nat {
    if has_sign(s) && s[0] == '-' {
        0x8000_0000_0000_0000nat
    } else {
        0x7fff_ffff_ffff_ffffnat
    }
}

/// The texts that `str::parse::<i64>` accepts: an optional `+` or `-` sign
/// followed by one or more ASCII digits, whose value fits in an `i64`.
pub open spec fn parses_as_i64(s: Seq<char>) -> bool {
    &&& unsigned_part(s).len() > 0
    &&& forall|i: int| 0 <= i < unsigned_part(s).len() ==> is_digit(#[trigger] unsigned_part(s)[i])
    &&& digits_value(unsigned_part(s)) <= i64_magnitude_limit(s)
}

pub open spec fn integer_check(column: Seq<char>) -> spec_fn((usize, Seq<char>)) -> Option<
    ViolationView,
> {
    |c: (usize, Seq<char>)|
        if !blank(c.1) && !parses_as_i64(trimmed(c.1)) {
            Some(
                ViolationView {
                    rule: "integer"@,
                    column,
                    row: c.0,
                    value: c.1,
                    message: value_at_text(c.1, column, c.0) + " is not a valid integer"@,
                },
            )
        } else {
            None
        }
}

pub open spec fn numeric_range_check<F: Fn(&str, Option<u64>, Option<u64>) -> NumericReading>(
    column: Seq<char>,
    min: Option<u64>,
    max: Option<u64>,
    read_number: F,
) -> spec_fn((usize, Seq<char>)) -> Option<ViolationView> {
    |c: (usize, Seq<char>)|
        if blank(c.1) {
            None
        } else {
            match number_reading(read_number, trimmed(c.1), min, max) {
                NumericReadingView::NotANumber => Some(
                    ViolationView {
                        rule: "numeric_range"@,
                        column,
                        row: c.0,
                        value: c.1,
                        message: value_at_text(c.1, column, c.0) + " is not a valid number"@,
                    },
                ),
                NumericReadingView::BelowMin { number, bound } => Some(
                    ViolationView {
                        rule: "numeric_range"@,
                        column,
                        row: c.0,
                        value: c.1,
                        message: "Value "@ + number + " in column '"@ + column + "' at row "@
                            + decimal(c.0 as nat) + " is below the minimum of "@ + bound,
                    },
                ),
                NumericReadingView::AboveMax { number, bound } => Some(
                    ViolationView {
                        rule: "numeric_range"@,
                        column,
                        row: c.0,
                        value: c.1,
                        message: "Value "@ + number + " in column '"@ + column + "' at row "@
                            + decimal(c.0 as nat) + " exceeds the maximum of "@ + bound,
                    },
                ),
                NumericReadingView::InRange => None,
            }
        }
}

/// The patterns a rule compiles: that of a regex rule whose pattern
/// compiles, nothing otherwise.
pub open spec fn compiled_patterns(rule: ValidationRule) -> Set<Seq<char>> {
    match rule {
        ValidationRule::Regex { pattern, .. } => if regex_compile_error(pattern@) is None {
            set![pattern@]
        } else {
            Set::empty()
        },
        _ => Set::empty(),
    }
}

/// The views of an optional string.
pub open spec fn option_view(o: Option<String>) -> Option<Seq<char>> {
    match o {
        Some(s) => Some(s@),
        None => None,
    }
}

/// The violations that `rule` reports for the cells of `column`, in order.
pub open spec fn rule_violations<F: Fn(&str, Option<u64>, Option<u64>) -> NumericReading>(
    rule: ValidationRule,
    column: Seq<char>,
    cells: Seq<(usize, Seq<char>)>,
    read_number: F,
) -> Seq<ViolationView> {
    match rule {
        ValidationRule::NotNull => collect(cells, not_null_check(column)),
        ValidationRule::NoDuplicates => duplicate_violations(column, cells),
        ValidationRule::Regex { pattern, message } => match regex_compile_error(pattern@) {
            Some(e) => seq![regex_error_violation(column, e)],
            None => collect(cells, regex_check(column, pattern@, option_view(message))),
        },
        ValidationRule::MinLength { value } => collect(cells, min_length_check(column, value)),
        ValidationRule::MaxLength { value } => collect(cells, max_length_check(column, value)),
        ValidationRule::AllowedValues { values } => collect(
            cells,
            allowed_values_check(column, string_views(values@)),
        ),
        ValidationRule::NumericRange { min, max } => collect(
            cells,
            numeric_range_check(column, min, max, read_number),
        ),
        ValidationRule::Integer => collect(cells, integer_check(column)),
    }
}

// ---------------------------------------------------------------------------
// Building violations
// ---------------------------------------------------------------------------

/// `Value '<value>' in column '<column>' at row <row>`
fn value_at(value: &str, column: &str, row: usize) -> (s: String)
    ensures
        s@ == value_at_text(value@, column@, row),
{
    let mut s = String::from_str("Value '");
    s.append(value);
    s.append("' in column '");
    s.append(column);
    s.append("' at row ");
    let d = decimal_string(row);
    s.append(d.as_str());
    s
}

fn violation(rule: &str, column: &str, row: usize, value: &str, message: String) -> (v:
    ValidationViolation)
    ensures
        v@ == (ViolationView {
            rule: rule@,
            column: column@,
            row,
            value: value@,
            message: message@,
        }),
{
    ValidationViolation {
        rule: String::from_str(rule),
        column: String::from_str(column),
        row,
        value: String::from_str(value),
        message,
    }
}

proof fn lemma_collect_step(
    cells: Seq<(usize, Seq<char>)>,
    i: int,
    check: spec_fn((usize, Seq<char>)) -> Option<ViolationView>,
)
    requires
        0 <= i < cells.len(),
    ensures
        collect(cells.take(i + 1), check) == match check(cells[i]) {
            Some(v) => collect(cells.take(i), check).push(v),
            None => collect(cells.take(i), check),
        },
{
    assert(cells.take(i + 1).drop_last() =~= cells.take(i));
    assert(cells.take(i + 1).last() == cells[i]);
}

proof fn lemma_views_push(out: Seq<ValidationViolation>, v: ValidationViolation)
    ensures
        violation_views(out.push(v)) == violation_views(out).push(v@),
{
    assert(violation_views(out.push(v)) =~= violation_views(out).push(v@));
}

// ---------------------------------------------------------------------------
// Rule engine
// ---------------------------------------------------------------------------

/// Engine that applies rules and caches compiled regexes.
pub struct RuleEngine {
    regex_cache: StringHashMap<CompiledRegex>,
}

impl RuleEngine {
    /// Every cached regex is filed under the pattern it was compiled from,
    /// and that pattern compiles.
    #[verifier::type_invariant]
    spec fn cache_matches_sources(self) -> bool {
        forall|p: Seq<char>| #[trigger]
            self.regex_cache@.contains_key(p) ==> self.regex_cache@[p].pattern() == p
                && regex_compile_error(p) is None
    }

    /// The patterns whose compiled regex the engine holds.
    pub closed spec fn cached_patterns(&self) -> Set<Seq<char>> {
        self.regex_cache@.dom()
    }

    /// Create a new, empty engine.
    pub fn new() -> (e: Self)
        ensures
            e.cached_patterns() == Set::<Seq<char>>::empty(),
    {
        RuleEngine { regex_cache: StringHashMap::new() }
    }

    /// Apply a single `rule` to all `values` in a column.
    ///
    /// Returns the violations, in the order of the cells that produced them.
    /// `read_number` classifies the cells of a `numeric_range` rule.  What is
    /// returned does not depend on which regexes the engine already holds.
    pub fn apply<F: Fn(&str, Option<u64>, Option<u64>) -> NumericReading>(
        &mut self,
        rule: &ValidationRule,
        column: &str,
        values: &[(usize, &str)],
        read_number: &F,
    ) -> (out: Vec<ValidationViolation>)
        requires
            reads_numbers(*read_number),
        ensures
            violation_views(out@) == rule_violations(*rule, column@, cells(values@), *read_number),
            final(self).cached_patterns() == old(self).cached_patterns().union(
                compiled_patterns(*rule),
            ),
    {
        match rule {
            ValidationRule::NotNull => check_not_null(column, values),
            ValidationRule::NoDuplicates => check_no_duplicates(column, values),
            ValidationRule::Regex { pattern, message } => {
                match self.check_regex(column, values, pattern, message) {
                    Ok(out) => out,
                    Err(e) => {
                        let mut m = String::from_str("Regex compilation error: Regex error: ");
                        m.append(e.as_str());
                        let mut out = Vec::new();
                        out.push(
                            ValidationViolation {
                                rule: String::from_str("regex"),
                                column: String::from_str(column),
                                row: 0,
                                value: String::new(),
                                message: m,
                            },
                        );
                        proof {
                            lemma_views_push(Seq::empty(), out@[0]);
                            assert(Seq::<ValidationViolation>::empty().push(out@[0]) =~= out@);
                            assert(violation_views(Seq::empty()) =~= Seq::<ViolationView>::empty());
                        }
                        out
                    },
                }
            },
            ValidationRule::MinLength { value: min } => check_min_length(column, values, *min),
            ValidationRule::MaxLength { value: max } => check_max_length(column, values, *max),
            ValidationRule::AllowedValues { values: allowed } => check_allowed_values(
                column,
                values,
                allowed,
            ),
            ValidationRule::NumericRange { min, max } => check_numeric_range(
                column,
                values,
                *min,
                *max,
                read_number,
            ),
            ValidationRule::Integer => check_integer(column, values),
        }
    }

    /// The compiled regex for `pattern`, compiling and caching it on first
    /// use.
    fn compiled(&mut self, pattern: &String) -> (r: Result<&CompiledRegex, String>)
        ensures
            final(self).cached_patterns() == if regex_compile_error(pattern@) is None {
                old(self).cached_patterns().insert(pattern@)
            } else {
                old(self).cached_patterns()
            },
            match r {
                Ok(c) => regex_compile_error(pattern@) is None && c.pattern() == pattern@,
                Err(e) => regex_compile_error(pattern@) == Some(e@),
            },
    {
        proof {
            use_type_invariant(&*self);
        }
        if !self.regex_cache.contains_key(pattern.as_str()) {
            let re = CompiledRegex::compile(pattern.as_str())?;
            let mut cache = StringHashMap::new();
            std::mem::swap(&mut cache, &mut self.regex_cache);
            cache.insert(pattern.clone(), re);
            self.regex_cache = cache;
        }
        proof {
            use_type_invariant(&*self);
        }
        assert(self.regex_cache@.dom() =~= old(self).regex_cache@.dom().insert(pattern@));
        match self.regex_cache.get(pattern.as_str()) {
            Some(c) => {
                proof {
                    assert(self.regex_cache@.contains_key(pattern@));
                }
                Ok(c)
            },
            None => {
                assert(false);
                Err(String::new())
            },
        }
    }

    fn check_regex(
        &mut self,
        column: &str,
        values: &[(usize, &str)],
        pattern: &String,
        custom_message: &Option<String>,
    ) -> (r: Result<Vec<ValidationViolation>, String>)
        ensures
            final(self).cached_patterns() == if regex_compile_error(pattern@) is None {
                old(self).cached_patterns().insert(pattern@)
            } else {
                old(self).cached_patterns()
            },
            match r {
                Ok(out) => regex_compile_error(pattern@) is None && violation_views(out@)
                    == collect(
                    cells(values@),
                    regex_check(column@, pattern@, option_view(*custom_message)),
                ),
                Err(e) => regex_compile_error(pattern@) == Some(e@),
            },
    {
        let re = self.compiled(pattern)?;
        let ghost check = regex_check(column@, pattern@, option_view(*custom_message));
        let mut out: Vec<ValidationViolation> = Vec::new();
        let mut i: usize = 0;
        while i < values.len()
            invariant
                i <= values.len(),
                re.pattern() == pattern@,
                check == regex_check(column@, pattern@, option_view(*custom_message)),
                violation_views(out@) == collect(cells(values@).take(i as int), check),
            decreases values.len() - i,
        {
            let (row, v) = values[i];
            proof {
                lemma_collect_step(cells(values@), i as int, check);
            }
            if !is_blank(v) && !re.is_match(v) {
                let message = match custom_message {
                    Some(m) => m.clone(),
                    None => {
                        let mut m = value_at(v, column, row);
                        m.append(" does not match required pattern '");
                        m.append(pattern.as_str());
                        m.append("'");
                        m
                    },
                };
                let x = violation("regex", column, row, v, message);
                proof {
                    lemma_views_push(out@, x);
                }
                out.push(x);
            }
            i = i + 1;
        }
        assert(cells(values@).take(values@.len() as int) =~= cells(values@));
        Ok(out)
    }
}

// ---------------------------------------------------------------------------
// Rule implementations
// ---------------------------------------------------------------------------

fn check_not_null(column: &str, values: &[(usize, &str)]) -> (out: Vec<ValidationViolation>)
    ensures
        violation_views(out@) == collect(cells(values@), not_null_check(column@)),
{
    let ghost check = not_null_check(column@);
    let mut out: Vec<ValidationViolation> = Vec::new();
    let mut i: usize = 0;
    while i < values.len()
        invariant
            i <= values.len(),
            check == not_null_check(column@),
            violation_views(out@) == collect(cells(values@).take(i as int), check),
        decreases values.len() - i,
    {
        let (row, v) = values[i];
        proof {
            lemma_collect_step(cells(values@), i as int, check);
        }
        if is_blank(v) {
            let mut m = String::from_str("Column '");
            m.append(column);
            m.append("' contains a NULL/empty value at row ");
            let d = decimal_string(row);
            m.append(d.as_str());
            let x = ValidationViolation {
                rule: String::from_str("not_null"),
                column: String::from_str(column),
                row,
                value: String::new(),
                message: m,
            };
            proof {
                lemma_views_push(out@, x);
            }
            out.push(x);
        }
        i = i + 1;
    }
    assert(cells(values@).take(values@.len() as int) =~= cells(values@));
    out
}

fn check_no_duplicates(column: &str, values: &[(usize, &str)]) -> (out: Vec<ValidationViolation>)
    ensures
        violation_views(out@) == duplicate_violations(column@, cells(values@)),
{
    // first_seen maps value -> first row it appeared on
    let mut first_seen: StringHashMap<usize> = StringHashMap::new();
    let mut out: Vec<ValidationViolation> = Vec::new();
    let mut i: usize = 0;
    while i < values.len()
        invariant
            i <= values.len(),
            violation_views(out@) == duplicate_violations(column@, cells(values@).take(i as int)),
            forall|s: Seq<char>| #[trigger]
                first_seen@.contains_key(s) == (!blank(s) && first_row(
                    cells(values@).take(i as int),
                    s,
                ) is Some),
            forall|s: Seq<char>| #[trigger]
                first_seen@.contains_key(s) ==> Some(first_seen@[s]) == first_row(
                    cells(values@).take(i as int),
                    s,
                ),
        decreases values.len() - i,
    {
        let (row, v) = values[i];
        let ghost prefix = cells(values@).take(i as int);
        let ghost next = cells(values@).take(i + 1);
        proof {
            assert(next.drop_last() =~= prefix);
            assert(next.last() == (row, v@));
        }
        if !is_blank(v) {
            match first_seen.get(v) {
                Some(first_row_ref) => {
                    let first = *first_row_ref;
                    let mut m = String::from_str("Duplicate value '");
                    m.append(v);
                    m.append("' in column '");
                    m.append(column);
                    m.append("' at row ");
                    let d = decimal_string(row);
                    m.append(d.as_str());
                    m.append(" (first seen at row ");
                    let f = decimal_string(first);
                    m.append(f.as_str());
                    m.append(")");
                    let x = violation("no_duplicates", column, row, v, m);
                    proof {
                        lemma_views_push(out@, x);
                    }
                    out.push(x);
                },
                None => {
                    first_seen.insert(String::from_str(v), row);
                },
            }
        }
        proof {
            assert forall|s: Seq<char>| #[trigger]
                first_seen@.contains_key(s) == (!blank(s) && first_row(next, s) is Some) by {
                if s != v@ {
                    assert(first_row(next, s) == first_row(prefix, s));
                }
            }
            assert forall|s: Seq<char>| #[trigger]
                first_seen@.contains_key(s) implies Some(first_seen@[s]) == first_row(next, s) by {
                if s != v@ {
                    assert(first_row(next, s) == first_row(prefix, s));
                }
            }
        }
        i = i + 1;
    }
    assert(cells(values@).take(values@.len() as int) =~= cells(values@));
    out
}

fn check_min_length(column: &str, values: &[(usize, &str)], min: usize) -> (out: Vec<
    ValidationViolation,
>)
    ensures
        violation_views(out@) == collect(cells(values@), min_length_check(column@, min)),
{
    let ghost check = min_length_check(column@, min);
    let mut out: Vec<ValidationViolation> = Vec::new();
    let mut i: usize = 0;
    while i < values.len()
        invariant
            i <= values.len(),
            check == min_length_check(column@, min),
            violation_views(out@) == collect(cells(values@).take(i as int), check),
        decreases values.len() - i,
    {
        let (row, v) = values[i];
        proof {
            lemma_collect_step(cells(values@), i as int, check);
        }
        let len = v.unicode_len();
        if !is_blank(v) && len < min {
            let mut m = value_at(v, column, row);
            m.append(" has length ");
            let l = decimal_string(len);
            m.append(l.as_str());
            m.append(" which is below the minimum of ");
            let b = decimal_string(min);
            m.append(b.as_str());
            let x = violation("min_length", column, row, v, m);
            proof {
                lemma_views_push(out@, x);
            }
            out.push(x);
        }
        i = i + 1;
    }
    assert(cells(values@).take(values@.len() as int) =~= cells(values@));
    out
}

fn check_max_length(column: &str, values: &[(usize, &str)], max: usize) -> (out: Vec<
    ValidationViolation,
>)
    ensures
        violation_views(out@) == collect(cells(values@), max_length_check(column@, max)),
{
    let ghost check = max_length_check(column@, max);
    let mut out: Vec<ValidationViolation> = Vec::new();
    let mut i: usize = 0;
    while i < values.len()
        invariant
            i <= values.len(),
            check == max_length_check(column@, max),
            violation_views(out@) == collect(cells(values@).take(i as int), check),
        decreases values.len() - i,
    {
        let (row, v) = values[i];
        proof {
            lemma_collect_step(cells(values@), i as int, check);
        }
        let len = v.unicode_len();
        if len > max {
            let mut m = value_at(v, column, row);
            m.append(" has length ");
            let l = decimal_string(len);
            m.append(l.as_str());
            m.append(" which exceeds the maximum of ");
            let b = decimal_string(max);
            m.append(b.as_str());
            let x = violation("max_length", column, row, v, m);
            proof {
                lemma_views_push(out@, x);
            }
            out.push(x);
        }
        i = i + 1;
    }
    assert(cells(values@).take(values@.len() as int) =~= cells(values@));
    out
}

fn check_allowed_values(column: &str, values: &[(usize, &str)], allowed: &Vec<String>) -> (out:
    Vec<ValidationViolation>)
    ensures
        violation_views(out@) == collect(
            cells(values@),
            allowed_values_check(column@, string_views(allowed@)),
        ),
{
    let ghost allowed_views = string_views(allowed@);
    let mut allowed_set: StringHashMap<()> = StringHashMap::new();
    let mut k: usize = 0;
    while k < allowed.len()
        invariant
            k <= allowed.len(),
            allowed_views == string_views(allowed@),
            forall|s: Seq<char>| #[trigger]
                allowed_set@.contains_key(s) == allowed_views.take(k as int).contains(s),
        decreases allowed.len() - k,
    {
        allowed_set.insert(allowed[k].clone(), ());
        proof {
            assert forall|s: Seq<char>| #[trigger]
                allowed_set@.contains_key(s) == allowed_views.take(k + 1).contains(s) by {
                if allowed_views.take(k + 1).contains(s) {
                    let j = choose|j: int| 0 <= j < k + 1 && #[trigger] allowed_views.take(k + 1)[j] == s;
                    if j < k {
                        assert(allowed_views.take(k as int)[j] == s);
                    }
                }
                if allowed_views.take(k as int).contains(s) {
                    let j = choose|j: int| 0 <= j < k && #[trigger] allowed_views.take(k as int)[j] == s;
                    assert(allowed_views.take(k + 1)[j] == s);
                }
                if s == allowed_views[k as int] {
                    assert(allowed_views.take(k + 1)[k as int] == s);
                }
            }
        }
        k = k + 1;
    }
    assert(allowed_views.take(allowed@.len() as int) =~= allowed_views);
    let joined = join_strings(allowed, ", ");
    let ghost check = allowed_values_check(column@, allowed_views);
    let mut out: Vec<ValidationViolation> = Vec::new();
    let mut i: usize = 0;
    while i < values.len()
        invariant
            i <= values.len(),
            check == allowed_values_check(column@, allowed_views),
            joined@ == join(allowed_views, ", "@),
            forall|s: Seq<char>| #[trigger] allowed_set@.contains_key(s) == allowed_views.contains(s),
            violation_views(out@) == collect(cells(values@).take(i as int), check),
        decreases values.len() - i,
    {
        let (row, v) = values[i];
        proof {
            lemma_collect_step(cells(values@), i as int, check);
        }
        if !is_blank(v) && !allowed_set.contains_key(v) {
            let mut m = value_at(v, column, row);
            m.append(" is not in the allowed set: [");
            m.append(joined.as_str());
            m.append("]");
            let x = violation("allowed_values", column, row, v, m);
            proof {
                lemma_views_push(out@, x);
            }
            out.push(x);
        }
        i = i + 1;
    }
    assert(cells(values@).take(values@.len() as int) =~= cells(values@));
    out
}

/// Whether the trimmed text of `chars`, `chars[lo..hi]`, parses as an `i64`.
fn parses_i64(chars: &Vec<char>, lo: usize, hi: usize) -> (b: bool)
    requires
        lo <= hi <= chars.len(),
    ensures
        b == parses_as_i64(chars@.subrange(lo as int, hi as int)),
{
    let ghost s = chars@.subrange(lo as int, hi as int);
    let signed = lo < hi && (chars[lo] == '+' || chars[lo] == '-');
    let negative = signed && chars[lo] == '-';
    let start = if signed {
        lo + 1
    } else {
        lo
    };
    let ghost digits = chars@.subrange(start as int, hi as int);
    assert(digits =~= unsigned_part(s));
    if start == hi {
        return false;
    }
    let limit: u64 = if negative {
        0x8000_0000_0000_0000
    } else {
        0x7fff_ffff_ffff_ffff
    };
    assert(signed ==> s[0] == chars@[lo as int]);
    assert(limit == i64_magnitude_limit(s));
    // `value` is the value of the digits read so far while it stays within
    // `limit`; `over` records that it has gone beyond.
    let mut value: u64 = 0;
    let mut over = false;
    let mut i = start;
    while i < hi
        invariant
            lo <= start <= i <= hi <= chars.len(),
            s == chars@.subrange(lo as int, hi as int),
            digits == chars@.subrange(start as int, hi as int),
            digits == unsigned_part(s),
            limit == i64_magnitude_limit(s),
            forall|j: int| 0 <= j < i - start ==> is_digit(#[trigger] digits[j]),
            !over ==> value == digits_value(digits.take(i - start)) && value <= limit,
            over ==> digits_value(digits.take(i - start)) > limit,
        decreases hi - i,
    {
        let c = chars[i];
        if !('0' <= c && c <= '9') {
            assert(!parses_as_i64(s)) by {
                assert(digits[i - start] == c);
                assert(!is_digit(digits[i - start]));
            }
            return false;
        }
        let ghost prev = digits.take(i - start);
        let ghost cur = digits.take(i - start + 1);
        proof {
            assert(cur.drop_last() =~= prev);
            assert(cur.last() == c);
        }
        let d = (c as u32 - 48) as u64;
        assert(d <= 9);
        assert(d == cur.last() as nat - 48);
        if !over {
            if value > (limit - d) / 10 {
                over = true;
            } else {
                value = value * 10 + d;
            }
        }
        i = i + 1;
    }
    assert(digits.take(hi - start) =~= digits);
    !over
}

fn check_integer(column: &str, values: &[(usize, &str)]) -> (out: Vec<ValidationViolation>)
    ensures
        violation_views(out@) == collect(cells(values@), integer_check(column@)),
{
    let ghost check = integer_check(column@);
    let mut out: Vec<ValidationViolation> = Vec::new();
    let mut i: usize = 0;
    while i < values.len()
        invariant
            i <= values.len(),
            check == integer_check(column@),
            violation_views(out@) == collect(cells(values@).take(i as int), check),
        decreases values.len() - i,
    {
        let (row, v) = values[i];
        proof {
            lemma_collect_step(cells(values@), i as int, check);
        }
        if !is_blank(v) {
            let chars = chars_of(v);
            let (lo, hi) = trim_bounds(&chars);
            if !parses_i64(&chars, lo, hi) {
                let mut m = value_at(v, column, row);
                m.append(" is not a valid integer");
                let x = violation("integer", column, row, v, m);
                proof {
                    lemma_views_push(out@, x);
                }
                out.push(x);
            }
        }
        i = i + 1;
    }
    assert(cells(values@).take(values@.len() as int) =~= cells(values@));
    out
}

fn check_numeric_range<F: Fn(&str, Option<u64>, Option<u64>) -> NumericReading>(
    column: &str,
    values: &[(usize, &str)],
    min: Option<u64>,
    max: Option<u64>,
    read_number: &F,
) -> (out: Vec<ValidationViolation>)
    requires
        reads_numbers(*read_number),
    ensures
        violation_views(out@) == collect(
            cells(values@),
            numeric_range_check(column@, min, max, *read_number),
        ),
{
    let ghost check = numeric_range_check(column@, min, max, *read_number);
    let mut out: Vec<ValidationViolation> = Vec::new();
    let mut i: usize = 0;
    while i < values.len()
        invariant
            i <= values.len(),
            reads_numbers(*read_number),
            check == numeric_range_check(column@, min, max, *read_number),
            violation_views(out@) == collect(cells(values@).take(i as int), check),
        decreases values.len() - i,
    {
        let (row, v) = values[i];
        proof {
            lemma_collect_step(cells(values@), i as int, check);
        }
        if !is_blank(v) {
            let chars = chars_of(v);
            let (lo, hi) = trim_bounds(&chars);
            let text = v.substring_char(lo, hi);
            let reading = read_number(text, min, max);
            proof {
                lemma_reading_determined(*read_number, text, min, max, reading);
            }
            let message = match reading {
                NumericReading::NotANumber => {
                    let mut m = value_at(v, column, row);
                    m.append(" is not a valid number");
                    Some(m)
                },
                NumericReading::BelowMin { number, bound } => {
                    let mut m = String::from_str("Value ");
                    m.append(number.as_str());
                    m.append(" in column '");
                    m.append(column);
                    m.append("' at row ");
                    let d = decimal_string(row);
                    m.append(d.as_str());
                    m.append(" is below the minimum of ");
                    m.append(bound.as_str());
                    Some(m)
                },
                NumericReading::AboveMax { number, bound } => {
                    let mut m = String::from_str("Value ");
                    m.append(number.as_str());
                    m.append(" in column '");
                    m.append(column);
                    m.append("' at row ");
                    let d = decimal_string(row);
                    m.append(d.as_str());
                    m.append(" exceeds the maximum of ");
                    m.append(bound.as_str());
                    Some(m)
                },
                NumericReading::InRange => None,
            };
            match message {
                Some(m) => {
                    let x = violation("numeric_range", column, row, v, m);
                    proof {
                        lemma_views_push(out@, x);
                    }
                    out.push(x);
                },
                None => {},
            }
        }
        i = i + 1;
    }
    assert(cells(values@).take(values@.len() as int) =~= cells(values@));
    out
}

/// What a number reader answers for a cell is the reading of the cell's text.
proof fn lemma_reading_determined<F: Fn(&str, Option<u64>, Option<u64>) -> NumericReading>(
    f: F,
    v: &str,
    lo: Option<u64>,
    hi: Option<u64>,
    r: NumericReading,
)
    requires
        reads_numbers(f),
        f.ensures((v, lo, hi), r),
    ensures
        r@ == number_reading(f, v@, lo, hi),
{
    assert(exists|a: &str, c: NumericReading| a@ == v@ && #[trigger] f.ensures((a, lo, hi), c));
    let (a, c) = choose|a: &str, c: NumericReading| a@ == v@ && #[trigger] f.ensures((a, lo, hi), c);
    assert(f.ensures((a, lo, hi), c));
}

// ---------------------------------------------------------------------------
// Laws
// ---------------------------------------------------------------------------

/// The cells whose text is not empty, in order.
pub open spec fn without_empty(cells: Seq<(usize, Seq<char>)>) -> Seq<(usize, Seq<char>)>
    decreases cells.len(),
{
    if cells.len() == 0 {
        seq![]
    } else {
        let rest = without_empty(cells.drop_last());
        if cells.last().1.len() == 0 {
            rest
        } else {
            rest.push(cells.last())
        }
    }
}

proof fn lemma_collect_without_empty(
    cells: Seq<(usize, Seq<char>)>,
    check: spec_fn((usize, Seq<char>)) -> Option<ViolationView>,
)
    requires
        forall|row: usize| #[trigger] check((row, Seq::<char>::empty())) is None,
    ensures
        collect(cells, check) == collect(without_empty(cells), check),
    decreases cells.len(),
{
    if cells.len() > 0 {
        lemma_collect_without_empty(cells.drop_last(), check);
        let rest = without_empty(cells.drop_last());
        if cells.last().1.len() == 0 {
            assert(cells.last().1 =~= Seq::<char>::empty());
            assert(check((cells.last().0, Seq::<char>::empty())) is None);
        } else {
            assert(rest.push(cells.last()).drop_last() =~= rest);
        }
    }
}

proof fn lemma_first_row_without_empty(cells: Seq<(usize, Seq<char>)>, value: Seq<char>)
    requires
        value.len() > 0,
    ensures
        first_row(without_empty(cells), value) == first_row(cells, value),
    decreases cells.len(),
{
    if cells.len() > 0 {
        lemma_first_row_without_empty(cells.drop_last(), value);
        let rest = without_empty(cells.drop_last());
        if cells.last().1.len() != 0 {
            assert(rest.push(cells.last()).drop_last() =~= rest);
        }
    }
}

proof fn lemma_duplicates_without_empty(column: Seq<char>, cells: Seq<(usize, Seq<char>)>)
    ensures
        duplicate_violations(column, cells) == duplicate_violations(column, without_empty(cells)),
    decreases cells.len(),
{
    if cells.len() > 0 {
        lemma_duplicates_without_empty(column, cells.drop_last());
        let rest = without_empty(cells.drop_last());
        if cells.last().1.len() == 0 {
            assert(blank(cells.last().1));
        } else {
            assert(rest.push(cells.last()).drop_last() =~= rest);
            lemma_first_row_without_empty(cells.drop_last(), cells.last().1);
        }
    }
}

/// Empty cells are skipped by every rule except `not_null`: dropping the
/// empty cells of a column changes nothing in what any other rule reports.
pub proof fn law_empty_cells_skipped<F: Fn(&str, Option<u64>, Option<u64>) -> NumericReading>(
    rule: ValidationRule,
    column: Seq<char>,
    cells: Seq<(usize, Seq<char>)>,
    read_number: F,
)
    requires
        !(rule is NotNull),
    ensures
        rule_violations(rule, column, cells, read_number) == rule_violations(
            rule,
            column,
            without_empty(cells),
            read_number,
        ),
{
    let e = Seq::<char>::empty();
    assert(blank(e));
    match rule {
        ValidationRule::NotNull => {},
        ValidationRule::NoDuplicates => {
            lemma_duplicates_without_empty(column, cells);
        },
        ValidationRule::Regex { pattern, message } => {
            if regex_compile_error(pattern@) is None {
                let check = regex_check(column, pattern@, option_view(message));
                assert forall|row: usize| #[trigger] check((row, e)) is None by {}
                lemma_collect_without_empty(cells, check);
            }
        },
        ValidationRule::MinLength { value } => {
            let check = min_length_check(column, value);
            assert forall|row: usize| #[trigger] check((row, e)) is None by {}
            lemma_collect_without_empty(cells, check);
        },
        ValidationRule::MaxLength { value } => {
            let check = max_length_check(column, value);
            assert forall|row: usize| #[trigger] check((row, e)) is None by {}
            lemma_collect_without_empty(cells, check);
        },
        ValidationRule::AllowedValues { values } => {
            let check = allowed_values_check(column, string_views(values@));
            assert forall|row: usize| #[trigger] check((row, e)) is None by {}
            lemma_collect_without_empty(cells, check);
        },
        ValidationRule::NumericRange { min, max } => {
            let check = numeric_range_check(column, min, max, read_number);
            assert forall|row: usize| #[trigger] check((row, e)) is None by {}
            lemma_collect_without_empty(cells, check);
        },
        ValidationRule::Integer => {
            let check = integer_check(column);
            assert forall|row: usize| #[trigger] check((row, e)) is None by {}
            lemma_collect_without_empty(cells, check);
        },
    }
}

proof fn lemma_first_row_none(cells: Seq<(usize, Seq<char>)>, value: Seq<char>)
    ensures
        first_row(cells, value) is None <==> forall|i: int|
            0 <= i < cells.len() ==> (#[trigger] cells[i]).1 != value,
    decreases cells.len(),
{
    if cells.len() > 0 {
        lemma_first_row_none(cells.drop_last(), value);
        if first_row(cells, value) is None {
            assert forall|i: int| 0 <= i < cells.len() implies (#[trigger] cells[i]).1 != value by {
                if i < cells.len() - 1 {
                    assert(cells.drop_last()[i] == cells[i]);
                }
            }
        } else if forall|i: int| 0 <= i < cells.len() ==> (#[trigger] cells[i]).1 != value {
            assert forall|i: int| 0 <= i < cells.drop_last().len() implies (
            #[trigger] cells.drop_last()[i]).1 != value by {
                assert(cells.drop_last()[i] == cells[i]);
            }
            assert(cells.last() == cells[cells.len() - 1]);
        }
    }
}

/// `no_duplicates` reports nothing exactly when no non-blank value occurs
/// in two cells of the column.
pub proof fn law_no_duplicates_iff_distinct(column: Seq<char>, cells: Seq<(usize, Seq<char>)>)
    ensures
        duplicate_violations(column, cells).len() == 0 <==> forall|i: int, j: int|
            0 <= i < j < cells.len() && !blank(cells[j].1) ==> #[trigger] cells[i].1
                != #[trigger] cells[j].1,
    decreases cells.len(),
{
    if cells.len() > 0 {
        let prefix = cells.drop_last();
        let last = cells.last();
        law_no_duplicates_iff_distinct(column, prefix);
        lemma_first_row_none(prefix, last.1);
        lemma_duplicates_len_monotone(column, cells);
        let distinct = forall|i: int, j: int|
            0 <= i < j < cells.len() && !blank(cells[j].1) ==> #[trigger] cells[i].1
                != #[trigger] cells[j].1;
        let prefix_distinct = forall|i: int, j: int|
            0 <= i < j < prefix.len() && !blank(prefix[j].1) ==> #[trigger] prefix[i].1
                != #[trigger] prefix[j].1;
        if distinct {
            assert(prefix_distinct) by {
                assert forall|i: int, j: int|
                    0 <= i < j < prefix.len() && !blank(prefix[j].1) implies #[trigger] prefix[i].1
                    != #[trigger] prefix[j].1 by {
                    assert(prefix[i] == cells[i]);
                    assert(prefix[j] == cells[j]);
                }
            }
            if !blank(last.1) {
                assert forall|i: int| 0 <= i < prefix.len() implies (#[trigger] prefix[i]).1
                    != last.1 by {
                    assert(prefix[i] == cells[i]);
                    assert(cells[cells.len() - 1] == last);
                }
            }
        }
        if duplicate_violations(column, cells).len() == 0 {
            assert forall|i: int, j: int|
                0 <= i < j < cells.len() && !blank(cells[j].1) implies #[trigger] cells[i].1
                != #[trigger] cells[j].1 by {
                assert(cells[i] == prefix[i]);
                if j < cells.len() - 1 {
                    assert(cells[j] == prefix[j]);
                } else {
                    assert(cells[j] == last);
                }
            }
        }
    }
}

proof fn lemma_duplicates_len_monotone(column: Seq<char>, cells: Seq<(usize, Seq<char>)>)
    requires
        cells.len() > 0,
    ensures
        duplicate_violations(column, cells.drop_last()).len() <= duplicate_violations(
            column,
            cells,
        ).len(),
{
}

// ---------------------------------------------------------------------------
// Laws: which cells each rule reports
// ---------------------------------------------------------------------------

/// `vs` reports the cells `bad`, one violation each and in the same order:
/// the `i`-th violation carries the rule name `rule`, the column `column`,
/// and the row and text of the `i`-th cell of `bad`.
pub open spec fn reports_cells(
    vs: Seq<ViolationView>,
    bad: Seq<(usize, Seq<char>)>,
    rule: Seq<char>,
    column: Seq<char>,
) -> bool {
    &&& vs.len() == bad.len()
    &&& forall|i: int|
        0 <= i < vs.len() ==> {
            &&& (#[trigger] vs[i]).rule == rule
            &&& vs[i].column == column
            &&& vs[i].row == bad[i].0
            &&& vs[i].value == bad[i].1
        }
}

/// What `collect` gives is `check` applied to the cells it reports, which
/// are the cells of `pred`, in order.
proof fn lemma_collect_filter(
    cells: Seq<(usize, Seq<char>)>,
    check: spec_fn((usize, Seq<char>)) -> Option<ViolationView>,
    pred: spec_fn((usize, Seq<char>)) -> bool,
)
    requires
        forall|c: (usize, Seq<char>)| (#[trigger] check(c) is Some) == pred(c),
    ensures
        collect(cells, check).len() == cells.filter(pred).len(),
        forall|i: int|
            0 <= i < collect(cells, check).len() ==> Some(#[trigger] collect(cells, check)[i])
                == check(cells.filter(pred)[i]),
    decreases cells.len(),
{
    reveal(Seq::filter);
    if cells.len() > 0 {
        lemma_collect_filter(cells.drop_last(), check, pred);
        assert(check(cells.last()) is Some == pred(cells.last()));
        let rest = collect(cells.drop_last(), check);
        let frest = cells.drop_last().filter(pred);
        if pred(cells.last()) {
            assert forall|i: int| 0 <= i < collect(cells, check).len() implies Some(
                #[trigger] collect(cells, check)[i],
            ) == check(cells.filter(pred)[i]) by {
                if i < rest.len() {
                    assert(collect(cells, check)[i] == rest[i]);
                    assert(cells.filter(pred)[i] == frest[i]);
                }
            }
        }
    }
}

/// `not_null` reports exactly the blank cells (empty or whitespace only),
/// one violation each, in cell order, with an empty value.
pub proof fn law_not_null_reports_blank_cells<F: Fn(&str, Option<u64>, Option<u64>) -> NumericReading>(
    column: Seq<char>,
    cells: Seq<(usize, Seq<char>)>,
    read_number: F,
)
    ensures
        ({
            let vs = rule_violations(ValidationRule::NotNull, column, cells, read_number);
            let bad = cells.filter(|c: (usize, Seq<char>)| blank(c.1));
            &&& vs.len() == bad.len()
            &&& forall|i: int|
                0 <= i < vs.len() ==> {
                    &&& (#[trigger] vs[i]).rule == "not_null"@
                    &&& vs[i].column == column
                    &&& vs[i].row == bad[i].0
                    &&& vs[i].value.len() == 0
                    &&& vs[i].message == "Column '"@ + column + "' contains a NULL/empty value at row "@
                        + decimal(bad[i].0 as nat)
                }
        }),
{
    let pred = |c: (usize, Seq<char>)| blank(c.1);
    lemma_collect_filter(cells, not_null_check(column), pred);
}

/// When the pattern compiles, `regex` reports exactly the non-blank cells
/// the regex does not match, one violation each, in cell order, carrying
/// the rule's message when it has one.  When it does not compile, the rule
/// reports one violation, at row 0, naming the compilation error.
pub proof fn law_regex_reports_each_mismatch<F: Fn(&str, Option<u64>, Option<u64>) -> NumericReading>(
    rule: ValidationRule,
    column: Seq<char>,
    cells: Seq<(usize, Seq<char>)>,
    read_number: F,
)
    requires
        rule is Regex,
    ensures
        ({
            let pattern = rule->Regex_pattern@;
            let vs = rule_violations(rule, column, cells, read_number);
            let bad = cells.filter(|c: (usize, Seq<char>)| !blank(c.1) && !regex_is_match(pattern, c.1));
            match regex_compile_error(pattern) {
                None => {
                    &&& reports_cells(vs, bad, "regex"@, column)
                    &&& forall|i: int|
                        0 <= i < vs.len() ==> (#[trigger] vs[i]).message == match rule->Regex_message {
                            Some(m) => m@,
                            None => "Value '"@ + bad[i].1 + "' in column '"@ + column + "' at row "@
                                + decimal(bad[i].0 as nat) + " does not match required pattern '"@
                                + pattern + "'"@,
                        }
                },
                Some(e) => vs == seq![
                    ViolationView {
                        rule: "regex"@,
                        column,
                        row: 0,
                        value: seq![],
                        message: "Regex compilation error: Regex error: "@ + e,
                    },
                ],
            }
        }),
{
    let pattern = rule->Regex_pattern@;
    if regex_compile_error(pattern) is None {
        let pred = |c: (usize, Seq<char>)| !blank(c.1) && !regex_is_match(pattern, c.1);
        let check = regex_check(column, pattern, option_view(rule->Regex_message));
        lemma_collect_filter(cells, check, pred);
    }
}

/// `min_length` reports exactly the non-blank cells with fewer characters
/// than the minimum, one violation each, in cell order, giving the cell's
/// length and the minimum; a cell of exactly the minimum length is never
/// reported.
pub proof fn law_min_length_reports_short_cells<F: Fn(&str, Option<u64>, Option<u64>) -> NumericReading>(
    min: usize,
    column: Seq<char>,
    cells: Seq<(usize, Seq<char>)>,
    read_number: F,
)
    ensures
        ({
            let vs = rule_violations(ValidationRule::MinLength { value: min }, column, cells, read_number);
            let bad = cells.filter(|c: (usize, Seq<char>)| !blank(c.1) && c.1.len() < min);
            &&& reports_cells(vs, bad, "min_length"@, column)
            &&& forall|i: int|
                0 <= i < vs.len() ==> (#[trigger] vs[i]).message == "Value '"@ + bad[i].1 + "' in column '"@ + column + "' at row "@
                        + decimal(bad[i].0 as nat) + " has length "@ + decimal(bad[i].1.len())
                        + " which is below the minimum of "@ + decimal(min as nat)
        }),
{
    let pred = |c: (usize, Seq<char>)| !blank(c.1) && c.1.len() < min;
    lemma_collect_filter(cells, min_length_check(column, min), pred);
}

/// `max_length` reports exactly the cells with more characters than the
/// maximum, one violation each, in cell order.
pub proof fn law_max_length_reports_long_cells<F: Fn(&str, Option<u64>, Option<u64>) -> NumericReading>(
    max: usize,
    column: Seq<char>,
    cells: Seq<(usize, Seq<char>)>,
    read_number: F,
)
    ensures
        ({
            let vs = rule_violations(ValidationRule::MaxLength { value: max }, column, cells, read_number);
            let bad = cells.filter(|c: (usize, Seq<char>)| c.1.len() > max);
            &&& reports_cells(vs, bad, "max_length"@, column)
            &&& forall|i: int|
                0 <= i < vs.len() ==> (#[trigger] vs[i]).message == "Value '"@ + bad[i].1 + "' in column '"@ + column + "' at row "@
                        + decimal(bad[i].0 as nat) + " has length "@ + decimal(bad[i].1.len())
                        + " which exceeds the maximum of "@ + decimal(max as nat)
        }),
{
    let pred = |c: (usize, Seq<char>)| c.1.len() > max;
    lemma_collect_filter(cells, max_length_check(column, max), pred);
}

/// `allowed_values` reports exactly the non-blank cells equal to none of
/// the allowed values, one violation each, in cell order.
pub proof fn law_allowed_values_reports_other_cells<F: Fn(&str, Option<u64>, Option<u64>) -> NumericReading>(
    values: Vec<String>,
    column: Seq<char>,
    cells: Seq<(usize, Seq<char>)>,
    read_number: F,
)
    ensures
        ({
            let vs = rule_violations(ValidationRule::AllowedValues { values }, column, cells, read_number);
            let bad = cells.filter(|c: (usize, Seq<char>)|
                    !blank(c.1) && forall|k: int| 0 <= k < values@.len() ==> (#[trigger] values@[k])@ != c.1);
            &&& reports_cells(vs, bad, "allowed_values"@, column)
            &&& forall|i: int|
                0 <= i < vs.len() ==> (#[trigger] vs[i]).message == "Value '"@ + bad[i].1 + "' in column '"@ + column + "' at row "@
                        + decimal(bad[i].0 as nat) + " is not in the allowed set: ["@
                        + join(string_views(values@), ", "@) + "]"@
        }),
{
    let allowed = string_views(values@);
    let pred = |c: (usize, Seq<char>)|
        !blank(c.1) && forall|k: int| 0 <= k < values@.len() ==> (#[trigger] values@[k])@ != c.1;
    let check = allowed_values_check(column, allowed);
    assert forall|c: (usize, Seq<char>)| (#[trigger] check(c) is Some) == pred(c) by {
        if allowed.contains(c.1) {
            let k = choose|k: int| 0 <= k < allowed.len() && allowed[k] == c.1;
            assert(values@[k]@ == c.1);
        } else {
            assert forall|k: int| 0 <= k < values@.len() implies (#[trigger] values@[k])@ != c.1 by {
                assert(allowed[k] == values@[k]@);
            }
        }
    }
    lemma_collect_filter(cells, check, pred);
}

/// `integer` reports exactly the non-blank cells whose trimmed text is not
/// an `i64`, one violation each, in cell order.
pub proof fn law_integer_reports_non_integers<F: Fn(&str, Option<u64>, Option<u64>) -> NumericReading>(
    column: Seq<char>,
    cells: Seq<(usize, Seq<char>)>,
    read_number: F,
)
    ensures
        ({
            let vs = rule_violations(ValidationRule::Integer, column, cells, read_number);
            let bad = cells.filter(|c: (usize, Seq<char>)| !blank(c.1) && !parses_as_i64(trimmed(c.1)));
            &&& reports_cells(vs, bad, "integer"@, column)
            &&& forall|i: int|
                0 <= i < vs.len() ==> (#[trigger] vs[i]).message == "Value '"@ + bad[i].1 + "' in column '"@ + column + "' at row "@
                        + decimal(bad[i].0 as nat) + " is not a valid integer"@
        }),
{
    let pred = |c: (usize, Seq<char>)| !blank(c.1) && !parses_as_i64(trimmed(c.1));
    lemma_collect_filter(cells, integer_check(column), pred);
}

/// `numeric_range` reports exactly the non-blank cells whose trimmed text
/// the number reader does not find to be a number within the bounds, one
/// violation each, in cell order.
pub proof fn law_numeric_range_reports_out_of_range<F: Fn(&str, Option<u64>, Option<u64>) -> NumericReading>(
    min: Option<u64>,
    max: Option<u64>,
    column: Seq<char>,
    cells: Seq<(usize, Seq<char>)>,
    read_number: F,
)
    ensures
        ({
            let vs = rule_violations(ValidationRule::NumericRange { min, max }, column, cells, read_number);
            let bad = cells.filter(
                |c: (usize, Seq<char>)|
                    !blank(c.1) && !(number_reading(read_number, trimmed(c.1), min, max) is InRange),
            );
            &&& reports_cells(vs, bad, "numeric_range"@, column)
            &&& forall|i: int|
                0 <= i < vs.len() ==> (#[trigger] vs[i]).message == match number_reading(
                    read_number,
                    trimmed(bad[i].1),
                    min,
                    max,
                ) {
                    NumericReadingView::NotANumber => "Value '"@ + bad[i].1 + "' in column '"@ + column
                        + "' at row "@ + decimal(bad[i].0 as nat) + " is not a valid number"@,
                    NumericReadingView::BelowMin { number, bound } => "Value "@ + number
                        + " in column '"@ + column + "' at row "@ + decimal(bad[i].0 as nat)
                        + " is below the minimum of "@ + bound,
                    NumericReadingView::AboveMax { number, bound } => "Value "@ + number
                        + " in column '"@ + column + "' at row "@ + decimal(bad[i].0 as nat)
                        + " exceeds the maximum of "@ + bound,
                    NumericReadingView::InRange => seq![],
                }
        }),
{
    let pred = |c: (usize, Seq<char>)|
        !blank(c.1) && !(number_reading(read_number, trimmed(c.1), min, max) is InRange);
    lemma_collect_filter(cells, numeric_range_check(column, min, max, read_number), pred);
}

/// The cell at position `j` repeats the text of an earlier cell and is not
/// blank.
pub open spec fn repeats_earlier(cells: Seq<(usize, Seq<char>)>, j: int) -> bool {
    !blank(cells[j].1) && exists|i: int| 0 <= i < j && #[trigger] cells[i].1 == cells[j].1
}

proof fn lemma_first_row_some(cells: Seq<(usize, Seq<char>)>, value: Seq<char>)
    requires
        first_row(cells, value) is Some,
    ensures
        exists|i0: int|
            0 <= i0 < cells.len() && #[trigger] cells[i0].1 == value && first_row(cells, value)
                == Some(cells[i0].0) && forall|i: int| 0 <= i < i0 ==> (#[trigger] cells[i]).1 != value,
    decreases cells.len(),
{
    let rest = cells.drop_last();
    if first_row(rest, value) is Some {
        lemma_first_row_some(rest, value);
        let i0 = choose|i0: int|
            0 <= i0 < rest.len() && #[trigger] rest[i0].1 == value && first_row(rest, value)
                == Some(rest[i0].0) && forall|i: int| 0 <= i < i0 ==> (#[trigger] rest[i]).1 != value;
        assert(cells[i0] == rest[i0]);
        assert forall|i: int| 0 <= i < i0 implies (#[trigger] cells[i]).1 != value by {
            assert(rest[i] == cells[i]);
        }
    } else {
        lemma_first_row_none(rest, value);
        let i0 = cells.len() - 1;
        assert(cells[i0] == cells.last());
        assert forall|i: int| 0 <= i < i0 implies (#[trigger] cells[i]).1 != value by {
            assert(rest[i] == cells[i]);
        }
    }
}

/// The positions `0, 1, .., n - 1`.
pub open spec fn positions(n: nat) -> Seq<int> {
    Seq::new(n, |j: int| j)
}

/// The positions `j` of the cells that repeat an earlier cell.
pub open spec fn repeats_in(cells: Seq<(usize, Seq<char>)>) -> spec_fn(int) -> bool {
    |j: int| repeats_earlier(cells, j)
}

/// `v` is the violation for the repeated cell at position `j < n`.
spec fn repeat_entry(column: Seq<char>, cells: Seq<(usize, Seq<char>)>, n: int, v: ViolationView, j: int) -> bool {
    &&& 0 <= j < n
    &&& repeats_earlier(cells, j)
    &&& v == duplicate_violation(column, cells[j].0, cells[j].1, first_row(cells.take(j), cells[j].1)->0)
}

proof fn lemma_duplicates_prefix(column: Seq<char>, cells: Seq<(usize, Seq<char>)>, n: int)
    requires
        0 <= n <= cells.len(),
    ensures
        duplicate_violations(column, cells.take(n)).len() == positions(n as nat).filter(
            repeats_in(cells),
        ).len(),
        forall|k: int|
            0 <= k < duplicate_violations(column, cells.take(n)).len() ==> repeat_entry(
                column,
                cells,
                n,
                #[trigger] duplicate_violations(column, cells.take(n))[k],
                positions(n as nat).filter(repeats_in(cells))[k],
            ),
    decreases n,
{
    reveal(Seq::filter);
    let pred = repeats_in(cells);
    if n > 0 {
        lemma_duplicates_prefix(column, cells, n - 1);
        let prefix = cells.take(n - 1);
        let whole = cells.take(n);
        assert(whole.drop_last() =~= prefix);
        assert(whole.last() == cells[n - 1]);
        let ids = positions(n as nat);
        let ids0 = positions((n - 1) as nat);
        assert(ids.drop_last() =~= ids0);
        assert(ids.last() == n - 1);
        let v = cells[n - 1].1;
        lemma_first_row_none(prefix, v);
        if exists|i: int| 0 <= i < n - 1 && #[trigger] cells[i].1 == v {
            let i = choose|i: int| 0 <= i < n - 1 && #[trigger] cells[i].1 == v;
            assert(prefix[i] == cells[i]);
        }
        if first_row(prefix, v) is None {
            assert forall|i: int| 0 <= i < n - 1 implies #[trigger] cells[i].1 != v by {
                assert(prefix[i] == cells[i]);
            }
        }
        assert(pred(n - 1) == (!blank(v) && first_row(prefix, v) is Some));
        let vs0 = duplicate_violations(column, prefix);
        let d0 = ids0.filter(pred);
        let vs = duplicate_violations(column, whole);
        let d = ids.filter(pred);
        assert(d == if pred(n - 1) { d0.push(n - 1) } else { d0 });
        assert(vs == if pred(n - 1) {
            vs0.push(duplicate_violation(column, cells[n - 1].0, v, first_row(prefix, v)->0))
        } else {
            vs0
        });
        assert forall|k: int| 0 <= k < vs.len() implies repeat_entry(
            column,
            cells,
            n,
            #[trigger] vs[k],
            d[k],
        ) by {
            if k < vs0.len() {
                assert(vs[k] == vs0[k]);
                assert(d[k] == d0[k]);
                assert(repeat_entry(column, cells, n - 1, vs0[k], d0[k]));
            } else {
                assert(d[k] == n - 1);
            }
        }
    }
}

/// A repeated cell's text was first seen at the first cell holding it.
proof fn lemma_first_seen(cells: Seq<(usize, Seq<char>)>, j: int)
    requires
        0 <= j < cells.len(),
        repeats_earlier(cells, j),
    ensures
        exists|i0: int|
            0 <= i0 < j && #[trigger] cells[i0].1 == cells[j].1 && (forall|i: int|
                0 <= i < i0 ==> (#[trigger] cells[i]).1 != cells[j].1) && first_row(
                cells.take(j),
                cells[j].1,
            ) == Some(cells[i0].0),
{
    let pre = cells.take(j);
    let v = cells[j].1;
    let i = choose|i: int| 0 <= i < j && #[trigger] cells[i].1 == v;
    assert(pre[i] == cells[i]);
    lemma_first_row_none(pre, v);
    lemma_first_row_some(pre, v);
    let i0 = choose|i0: int|
        0 <= i0 < pre.len() && #[trigger] pre[i0].1 == v && first_row(pre, v) == Some(pre[i0].0)
            && forall|ii: int| 0 <= ii < i0 ==> (#[trigger] pre[ii]).1 != v;
    assert(pre[i0] == cells[i0]);
    assert forall|ii: int| 0 <= ii < i0 implies (#[trigger] cells[ii]).1 != v by {
        assert(pre[ii] == cells[ii]);
    }
}

/// `v` reports the cell at position `j` as a repeat: the cell is not
/// blank and its text occurs in an earlier cell, and `v` names the rule, the
/// column, the cell's row and text, and the row of the first cell holding
/// that text.
pub open spec fn reports_repeat(
    v: ViolationView,
    column: Seq<char>,
    cells: Seq<(usize, Seq<char>)>,
    j: int,
) -> bool {
    &&& 0 <= j < cells.len()
    &&& repeats_earlier(cells, j)
    &&& v.rule == "no_duplicates"@
    &&& v.column == column
    &&& v.row == cells[j].0
    &&& v.value == cells[j].1
    &&& exists|i0: int|
        0 <= i0 < j && #[trigger] cells[i0].1 == cells[j].1 && (forall|i: int|
            0 <= i < i0 ==> (#[trigger] cells[i]).1 != cells[j].1) && v.message == "Duplicate value '"@
            + cells[j].1 + "' in column '"@ + column + "' at row "@ + decimal(cells[j].0 as nat)
            + " (first seen at row "@ + decimal(cells[i0].0 as nat) + ")"@
}

/// `no_duplicates` reports exactly the non-blank cells whose text occurs in
/// an earlier cell, one violation each, in cell order; each names its row
/// and its text, and the row where that text was first seen.
pub proof fn law_no_duplicates_reports_repeats<F: Fn(&str, Option<u64>, Option<u64>) -> NumericReading>(
    column: Seq<char>,
    cells: Seq<(usize, Seq<char>)>,
    read_number: F,
)
    ensures
        rule_violations(ValidationRule::NoDuplicates, column, cells, read_number).len() == positions(
            cells.len(),
        ).filter(repeats_in(cells)).len(),
        forall|k: int|
            0 <= k < rule_violations(ValidationRule::NoDuplicates, column, cells, read_number).len()
                ==> reports_repeat(
                #[trigger] rule_violations(ValidationRule::NoDuplicates, column, cells, read_number)[k],
                column,
                cells,
                positions(cells.len()).filter(repeats_in(cells))[k],
            ),
{
    let n = cells.len() as int;
    lemma_duplicates_prefix(column, cells, n);
    assert(cells.take(n) =~= cells);
    let dups = positions(cells.len()).filter(repeats_in(cells));
    assert forall|k: int|
        0 <= k < rule_violations(ValidationRule::NoDuplicates, column, cells, read_number).len()
            implies reports_repeat(
            #[trigger] rule_violations(ValidationRule::NoDuplicates, column, cells, read_number)[k],
            column,
            cells,
            dups[k],
        ) by {
        assert(repeat_entry(column, cells, n, duplicate_violations(column, cells.take(n))[k], dups[k]));
        lemma_first_seen(cells, dups[k]);
    }
}

/// Row numbers and lengths are written in decimal as `usize`'s `Display`
/// writes them: ASCII digits whose value is the number, with no leading
/// zero.
pub proof fn law_decimal_writes_value(n: nat)
    ensures
        decimal(n).len() > 0,
        forall|i: int| 0 <= i < decimal(n).len() ==> is_digit(#[trigger] decimal(n)[i]),
        digits_value(decimal(n)) == n,
        decimal(n)[0] == '0' ==> n == 0 && decimal(n).len() == 1,
    decreases n,
{
    if n >= 10 {
        law_decimal_writes_value(n / 10);
        let s = decimal(n / 10);
        let d = (n % 10) as nat;
        assert(decimal(n) == s.push(digit_char(d)));
        assert(digit_char(d) as nat == d + 48);
        assert(s.push(digit_char(d)).drop_last() =~= s);
        assert(n == (n / 10) * 10 + d) by (nonlinear_arith)
            requires
                d == n % 10,
        ;
        assert(digits_value(s.push(digit_char(d))) == digits_value(s) * 10 + d);
        assert(digits_value(s) * 10 == (n / 10) * 10);
        assert(digits_value(decimal(n)) == n);
        assert forall|i: int| 0 <= i < decimal(n).len() implies is_digit(#[trigger] decimal(n)[i]) by {
            if i < s.len() {
                assert(decimal(n)[i] == s[i]);
            }
        }
        assert(decimal(n)[0] == s[0]);
        assert(n / 10 > 0) by (nonlinear_arith)
            requires
                n >= 10,
        ;
    } else {
        assert(digit_char(n) as nat == n + 48);
        assert(seq![digit_char(n)].drop_last() =~= Seq::<char>::empty());
        assert(digits_value(Seq::<char>::empty()) == 0);
        assert(digits_value(seq![digit_char(n)]) == n);
    }
}

/// The `integer` rule accepts exactly the texts of `i64` values: the
/// decimal digits of a number up to `i64::MAX`, optionally after `+`, and
/// of a magnitude up to 2^63 after `-`; no larger number, and no text with
/// any character other than a leading sign and digits.
pub proof fn law_integer_texts(n: nat, s: Seq<char>, i: int)
    ensures
        parses_as_i64(decimal(n)) == (n <= 0x7fff_ffff_ffff_ffff),
        parses_as_i64(seq!['+'] + decimal(n)) == (n <= 0x7fff_ffff_ffff_ffff),
        parses_as_i64(seq!['-'] + decimal(n)) == (n <= 0x8000_0000_0000_0000),
        0 <= i < s.len() && !is_digit(s[i]) && !(i == 0 && (s[0] == '+' || s[0] == '-'))
            ==> !parses_as_i64(s),
        s.len() == 0 ==> !parses_as_i64(s),
{
    law_decimal_writes_value(n);
    let d = decimal(n);
    assert(!has_sign(d)) by {
        assert(is_digit(d[0]));
    }
    let plus = seq!['+'] + d;
    let minus = seq!['-'] + d;
    assert(plus.drop_first() =~= d);
    assert(minus.drop_first() =~= d);
    assert(has_sign(plus) && has_sign(minus));
    if 0 <= i < s.len() && !is_digit(s[i]) && !(i == 0 && (s[0] == '+' || s[0] == '-')) {
        if has_sign(s) {
            assert(unsigned_part(s)[i - 1] == s[i]);
        } else {
            assert(unsigned_part(s)[i] == s[i]);
        }
    }
}

} // verus!
