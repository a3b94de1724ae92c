//! Compiled file-name patterns, backed by the `regex` crate.

use vstd::prelude::*;

verus! {

#[verifier::external_type_specification]
#[verifier::external_body]
pub struct ExRegex(regex::Regex);

/// Whether `regex::Regex::new` accepts the pattern (it is well formed and
/// within the default size limit).
pub uninterp spec fn pattern_compiles(pattern: Seq<char>) -> bool;

/// Whether a regex compiled from `pattern` finds a match anywhere in `text`.
pub uninterp spec fn pattern_is_match(pattern: Seq<char>, text: Seq<char>) -> bool;

/// A compiled pattern together with the text it was compiled from.
///
/// The only way to obtain one is `Pattern::compile`, so the matcher it
/// holds is always the regex compiled from `source`.
pub struct Pattern {
    source: String,
    matcher: regex::Regex,
}

impl Pattern {
    /// The text the pattern was compiled from.
    pub closed spec fn view(&self) -> Seq<char> {
        self.source@
    }

    /// Relies on `regex::Regex::new`: it succeeds exactly on the patterns
    /// that `pattern_compiles` names.
    #[verifier::external_body]
    pub(crate) fn compile(source: &str) -> (r: Option<Pattern>)
        ensures
            r.is_some() == pattern_compiles(source@),
            r matches Some(p) ==> p@ == source@,
    {
        match regex::Regex::new(source) {
            Ok(matcher) => Some(Pattern { source: source.to_string(), matcher }),
            Err(_) => None,
        }
    }

    /// Relies on `regex::Regex::is_match`: true if and only if the regex
    /// matches somewhere in `text`.
    #[verifier::external_body]
    pub(crate) fn is_match(&self, text: &str) -> (r: bool)
        ensures
            r == pattern_is_match(self@, text@),
    {
        self.matcher.is_match(text)
    }
}

} // verus!
