//! Case-insensitive regex matching, through the `regex` crate.

use vstd::prelude::*;

verus! {

#[verifier::external_type_specification]
#[verifier::external_body]
pub struct ExRegex(regex::Regex);

/// Whether the case-insensitive regex compiled from `pattern` matches
/// `line`: a function of the two texts alone.
pub uninterp spec fn regex_match(pattern: Seq<char>, line: Seq<char>) -> bool;

/// Whether `pattern` compiles as a case-insensitive regex: a function
/// of the pattern text alone.
pub uninterp spec fn regex_compiles(pattern: Seq<char>) -> bool;

/// The engine's message for a pattern that does not compile: a function
/// of the pattern text alone.
pub uninterp spec fn regex_error_text(pattern: Seq<char>) -> Seq<char>;

/// A compiled case-insensitive pattern, remembering its source text.
pub struct CompiledPattern {
    re: regex::Regex,
    pattern: String,
}

impl CompiledPattern {
    /// The pattern the regex was compiled from.
    pub closed spec fn src(&self) -> Seq<char> {
        self.pattern@
    }

    /// Relies on `regex::RegexBuilder::new`, `case_insensitive` and
    /// `build`: compilation succeeds or fails as a function of the
    /// pattern text alone, a compiled value carries the pattern it was
    /// built from, and the error's display text is likewise a function
    /// of the pattern.
    #[verifier::external_body]
    pub(crate) fn compile(pattern: &str) -> (r: Result<CompiledPattern, String>)
        ensures
            r is Ok <==> regex_compiles(pattern@),
            r is Ok ==> r.unwrap().src() == pattern@,
            r is Err ==> r->Err_0@ == regex_error_text(pattern@),
    {
        match regex::RegexBuilder::new(pattern).case_insensitive(true).build() {
            Ok(re) => Ok(CompiledPattern { re, pattern: pattern.to_string() }),
            Err(e) => Err(e.to_string()),
        }
    }

    /// Relies on `regex::Regex::is_match`: deterministic in the pattern
    /// and the haystack.
    #[verifier::external_body]
    pub(crate) fn is_match(&self, line: &str) -> (r: bool)
        ensures
            r == regex_match(self.src(), line@),
    {
        self.re.is_match(line)
    }
}

} // verus!
