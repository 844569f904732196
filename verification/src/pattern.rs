//! Regular expressions, compiled by the `regex` crate.
//!
//! A [`CompiledRegex`] remembers the pattern it was compiled from, so that
//! what it matches can be stated over that pattern.

use vstd::prelude::*;

verus! {

#[verifier::external_type_specification]
#[verifier::external_body]
pub struct ExRegex(regex::Regex);

/// What `regex::Regex::new(pattern)` reports: `None` when the pattern
/// compiles, otherwise the text (`Display`) of the error it returns.
pub uninterp spec fn regex_compile_error(pattern: Seq<char>) -> Option<Seq<char>>;

/// Whether the regex compiled from `pattern` matches anywhere in `text`
/// (`regex::Regex::is_match`).
pub uninterp spec fn regex_is_match(pattern: Seq<char>, text: Seq<char>) -> bool;

/// A regex together with the pattern it was compiled from.
///
/// The fields are private and `compile` is the only way to build one, so
/// `regex` is always the compilation of `source`.
pub struct CompiledRegex {
    source: String,
    regex: regex::Regex,
}

impl CompiledRegex {
    /// The pattern this regex was compiled from.
    pub closed spec fn pattern(&self) -> Seq<char> {
        self.source@
    }

    /// Compiles `pattern` with `regex::Regex::new`.
    ///
    /// Trusted: the result is `Ok` exactly when `regex_compile_error` says the
    /// pattern compiles, and an error carries the `Display` text of
    /// `regex::Error`.
    #[verifier::external_body]
    pub(crate) fn compile(pattern: &str) -> (r: Result<CompiledRegex, String>)
        ensures
            match r {
                Ok(c) => regex_compile_error(pattern@) is None && c.pattern() == pattern@,
                Err(e) => regex_compile_error(pattern@) == Some(e@),
            },
    {
        match regex::Regex::new(pattern) {
            Ok(regex) => Ok(CompiledRegex { source: pattern.to_string(), regex }),
            Err(e) => Err(e.to_string()),
        }
    }

    /// Whether the regex matches anywhere in `text` (`regex::Regex::is_match`).
    ///
    /// Trusted: the answer is `regex_is_match` of the source pattern and the
    /// text.
    #[verifier::external_body]
    pub(crate) fn is_match(&self, text: &str) -> (b: bool)
        ensures
            b == regex_is_match(self.pattern(), text@),
    {
        self.regex.is_match(text)
    }
}

} // verus!
