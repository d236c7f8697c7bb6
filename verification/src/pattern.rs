//! Caller-supplied regular expressions, compiled and searched by the `regex`
//! crate. What a pattern matches is the `regex` crate's business: the two
//! names below stand for its verdicts, and the library only decides what to
//! do with them.

use vstd::prelude::*;

verus! {

#[verifier::external_type_specification]
#[verifier::external_body]
pub struct ExRegex(regex::Regex);

#[verifier::external_type_specification]
#[verifier::external_body]
pub struct ExRegexError(regex::Error);

/// Whether `regex::Regex::new` accepts `pattern` (valid syntax, and a
/// compiled form within the crate's default size limit).
pub uninterp spec fn regex_compiles(pattern: Seq<char>) -> bool;

/// Whether the regex compiled from `pattern` finds a match anywhere in
/// `haystack` (`regex::Regex::is_match`).
pub uninterp spec fn regex_finds(pattern: Seq<char>, haystack: Seq<char>) -> bool;

/// A regular expression compiled from a known pattern text.
pub(crate) struct Pattern {
    regex: regex::Regex,
    source: Ghost<Seq<char>>,
}

impl Pattern {
    /// The pattern text this regex was compiled from.
    pub(crate) closed spec fn source(&self) -> Seq<char> {
        self.source@
    }

    /// Compiles `pattern` with `regex::Regex::new`. The contract claims that
    /// the call succeeds exactly when [`regex_compiles`] holds of the text,
    /// and that the result remembers that text; why a pattern is refused
    /// (the error's content) is left unsaid.
    #[verifier::external_body]
    pub(crate) fn compile(pattern: &str) -> (r: Result<Pattern, regex::Error>)
        ensures
            r is Ok <==> regex_compiles(pattern@),
            r matches Ok(p) ==> p.source() == pattern@,
    {
        match regex::Regex::new(pattern) {
            Ok(regex) => Ok(Pattern { regex, source: Ghost(pattern@) }),
            Err(e) => Err(e),
        }
    }

    /// Searches `haystack` with `regex::Regex::is_match`. The contract claims
    /// that the answer is [`regex_finds`] of the pattern text and the
    /// haystack.
    #[verifier::external_body]
    pub(crate) fn is_match(&self, haystack: &str) -> (r: bool)
        ensures
            r == regex_finds(self.source(), haystack@),
    {
        self.regex.is_match(haystack)
    }
}

} // verus!
