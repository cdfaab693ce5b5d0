//! Regular expressions from the `regex` crate, each kept with its source text.
use vstd::prelude::*;

verus! {

#[verifier::external_type_specification]
#[verifier::external_body]
pub struct ExRegex(regex::Regex);

#[verifier::external_type_specification]
#[verifier::external_body]
pub struct ExRegexError(regex::Error);

/// Whether `regex::Regex::new` accepts the pattern.
pub uninterp spec fn regex_valid(pattern: Seq<char>) -> bool;

/// Whether `regex::Regex::is_match` finds a match of the pattern in the haystack.
pub uninterp spec fn regex_matches(pattern: Seq<char>, haystack: Seq<char>) -> bool;

/// What `regex::Regex::replace_all` with an empty replacement leaves of the haystack.
pub uninterp spec fn regex_delete_all(pattern: Seq<char>, haystack: Seq<char>) -> Seq<char>;

/// Calls `regex::Regex::new`. Claims only that it succeeds exactly on the patterns
/// named valid; which patterns those are is the `regex` crate's syntax, not stated here.
#[verifier::external_body]
fn compile_regex(pattern: &str) -> (r: Result<regex::Regex, regex::Error>)
    ensures
        r.is_ok() == regex_valid(pattern@),
{
    regex::Regex::new(pattern)
}

/// A compiled regular expression together with the pattern it was compiled from.
pub struct Pattern {
    source: String,
    compiled: regex::Regex,
}

impl View for Pattern {
    type V = Seq<char>;

    closed spec fn view(&self) -> Seq<char> {
        self.source@
    }
}

/// Why a filter rule could not be built.
#[derive(Debug, PartialEq, Eq)]
pub enum RuleError {
    /// The pattern is not a regular expression that the `regex` crate accepts.
    InvalidPattern(String),
}

impl Pattern {
    /// Compiles `pattern`; fails exactly when the `regex` crate refuses it.
    pub fn new(pattern: &str) -> (r: Result<Pattern, RuleError>)
        ensures
            r.is_ok() == regex_valid(pattern@),
            r matches Ok(p) ==> p@ == pattern@,
            r matches Err(RuleError::InvalidPattern(s)) ==> s@ == pattern@,
    {
        match compile_regex(pattern) {
            Ok(compiled) => Ok(Pattern { source: pattern.to_owned(), compiled }),
            Err(_) => Err(RuleError::InvalidPattern(pattern.to_owned())),
        }
    }

    /// The source text of the pattern.
    pub fn as_str(&self) -> (r: &str)
        ensures
            r@ == self@,
    {
        self.source.as_str()
    }

    /// Calls `regex::Regex::is_match`. Every `Pattern` is built by `Pattern::new`, so the
    /// compiled regex is that of `self@`; the result is named, not stated.
    #[verifier::external_body]
    pub(crate) fn is_match(&self, haystack: &str) -> (r: bool)
        ensures
            r == regex_matches(self@, haystack@),
    {
        self.compiled.is_match(haystack)
    }

    /// Calls `regex::Regex::replace_all` with an empty replacement: every non-overlapping
    /// match is removed. The result is named, not stated.
    #[verifier::external_body]
    pub(crate) fn delete_all(&self, haystack: &str) -> (r: String)
        ensures
            r@ == regex_delete_all(self@, haystack@),
    {
        self.compiled.replace_all(haystack, "").into_owned()
    }
}

} // verus!
