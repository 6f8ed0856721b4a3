//! Compiled regular expressions, as used by regex-mode searches.
use vstd::prelude::*;

verus! {

#[verifier::external_type_specification]
#[verifier::external_body]
pub struct ExRegex(regex::Regex);

#[verifier::external_type_specification]
#[verifier::external_body]
pub struct ExRegexError(regex::Error);

/// Whether `regex::Regex::new` accepts the pattern text.
pub uninterp spec fn pattern_compiles(p: Seq<char>) -> bool;

/// Whether the regular expression `p` matches somewhere in `hay`.
pub uninterp spec fn pattern_matches(p: Seq<char>, hay: Seq<char>) -> bool;

/// A regular expression together with the text it was compiled from.
pub struct Pattern {
    source: Ghost<Seq<char>>,
    re: regex::Regex,
}

impl Pattern {
    /// The pattern text this value was compiled from.
    pub closed spec fn source(&self) -> Seq<char> {
        self.source@
    }

    /// Compiles `p`; `None` exactly when the text is not a valid pattern.
    pub fn compile(p: &str) -> (r: Option<Pattern>)
        ensures
            r is Some <==> pattern_compiles(p@),
            r matches Some(q) ==> q.source() == p@,
    {
        match compile_regex(p) {
            Ok(re) => Some(Pattern { source: Ghost(p@), re }),
            Err(_) => None,
        }
    }

    /// Whether the pattern matches somewhere in `hay`.
    pub fn is_match(&self, hay: &str) -> (r: bool)
        ensures
            r == pattern_matches(self.source(), hay@),
    {
        regex_is_match(self, hay)
    }
}

/// Relies on `regex::Regex::new`: succeeds exactly on pattern text that the
/// crate accepts, which depends on the text alone.
#[verifier::external_body]
fn compile_regex(p: &str) -> (r: Result<regex::Regex, regex::Error>)
    ensures
        r is Ok <==> pattern_compiles(p@),
{
    regex::Regex::new(p)
}

/// Relies on `regex::Regex::is_match`: whether the expression, compiled from
/// the pattern's source text, matches anywhere in `hay`.
#[verifier::external_body]
fn regex_is_match(p: &Pattern, hay: &str) -> (r: bool)
    ensures
        r == pattern_matches(p.source(), hay@),
{
    p.re.is_match(hay)
}

} // verus!
