//! Pre-compiled regular expressions.
//!
//! The `matches` operator only ever runs patterns that were compiled at
//! program-compile time. A `CompiledRegex` pairs the pattern source with
//! the compiled matcher; its view is the pattern. What compilation accepts
//! and what a match returns are named by `regex_valid` and `regex_match`:
//! both depend on the pattern (and the text) alone.

use vstd::prelude::*;

verus! {

/// The compiled matcher type of the regex crate, declared so that a
/// `CompiledRegex` can hold one; Verus sees nothing inside it.
#[verifier::external_type_specification]
#[verifier::external_body]
pub struct ExRegex(regex::Regex);

/// Whether the regex crate accepts `pattern`.
pub uninterp spec fn regex_valid(pattern: Seq<char>) -> bool;

/// Whether the pattern matches anywhere within the text (unanchored).
pub uninterp spec fn regex_match(pattern: Seq<char>, text: Seq<char>) -> bool;

/// A regular expression compiled ahead of evaluation, together with its
/// pattern source. The view of a `CompiledRegex` is its pattern.
#[derive(Debug)]
pub struct CompiledRegex {
    pattern: std::string::String,
    regex: regex::Regex,
}

impl View for CompiledRegex {
    type V = Seq<char>;

    closed spec fn view(&self) -> Seq<char> {
        self.pattern@
    }
}

impl CompiledRegex {
    /// Relies on regex::Regex::new: whether a pattern compiles is a
    /// function of the pattern alone; on failure the error's rendering is
    /// returned.
    #[verifier::external_body]
    pub fn new(pattern: &str) -> (r: Result<CompiledRegex, std::string::String>)
        ensures
            r is Ok <==> regex_valid(pattern@),
            r is Ok ==> r->Ok_0@ == pattern@,
    {
        match regex::Regex::new(pattern) {
            Ok(re) => Ok(CompiledRegex { pattern: pattern.to_owned(), regex: re }),
            Err(e) => Err(format!("{}", e)),
        }
    }

    /// Relies on regex::Regex::is_match: whether a compiled pattern
    /// matches anywhere within the text is a function of the pattern and
    /// the text alone.
    #[verifier::external_body]
    pub fn is_match(&self, text: &str) -> (r: bool)
        ensures
            r == regex_match(self@, text@),
    {
        self.regex.is_match(text)
    }

    /// The pattern this regex was compiled from.
    pub fn pattern(&self) -> (r: &str)
        ensures
            r@ == self@,
    {
        self.pattern.as_str()
    }
}

impl PartialEq for CompiledRegex {
    /// Two compiled regexes are equal when their patterns are.
    fn eq(&self, other: &CompiledRegex) -> (r: bool) {
        crate::text::str_eq(self.pattern.as_str(), other.pattern.as_str())
    }
}

impl vstd::std_specs::cmp::PartialEqSpecImpl for CompiledRegex {
    open spec fn obeys_eq_spec() -> bool {
        true
    }

    open spec fn eq_spec(&self, other: &CompiledRegex) -> bool {
        self@ == other@
    }
}

} // verus!
