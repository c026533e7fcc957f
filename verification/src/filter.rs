//! Text filters for the lists of the explorer. A filter is a regular
//! expression that is matched without regard to case.
//!
//! Compiling and matching are the work of the `regex` crate. What they answer
//! is named here and taken on trust.

use regex::RegexBuilder;
use vstd::prelude::*;

verus! {

#[verifier::external_type_specification]
#[verifier::external_body]
pub struct ExRegex(regex::Regex);

/// Whether `pattern` compiles as a case-insensitive regular expression.
pub uninterp spec fn filter_is_valid(pattern: Seq<char>) -> bool;

/// Whether the case-insensitive regular expression `pattern` matches
/// somewhere in `text`.
pub uninterp spec fn filter_matches(pattern: Seq<char>, text: Seq<char>) -> bool;

/// A compiled filter. It is made by `compile` only, so its regular
/// expression is the one that its pattern compiles to.
pub struct Filter {
    pattern: String,
    regex: regex::Regex,
}

impl Filter {
    /// The pattern that the filter was compiled from.
    pub closed spec fn pattern(&self) -> Seq<char> {
        self.pattern@
    }

    /// Compiles `pattern` as a case-insensitive regular expression.
    ///
    /// Trusted: this is `regex::RegexBuilder::build`, on a builder for
    /// `pattern` with `case_insensitive(true)`. The contract names whether the
    /// build succeeds; it says nothing of which patterns are valid.
    #[verifier::external_body]
    pub(crate) fn compile(pattern: &str) -> (r: Option<Filter>)
        ensures
            r is Some <==> filter_is_valid(pattern@),
            r matches Some(f) ==> f.pattern() == pattern@,
    {
        match RegexBuilder::new(pattern).case_insensitive(true).build() {
            Ok(regex) => Some(Filter { pattern: pattern.to_owned(), regex }),
            Err(_) => None,
        }
    }

    /// Whether the filter matches somewhere in `text`.
    ///
    /// Trusted: this is `regex::Regex::is_match` on the compiled expression.
    /// The contract names the answer; it says nothing of what matches.
    #[verifier::external_body]
    pub(crate) fn matches(&self, text: &str) -> (r: bool)
        ensures
            r == filter_matches(self.pattern(), text@),
    {
        self.regex.is_match(text)
    }
}

} // verus!
