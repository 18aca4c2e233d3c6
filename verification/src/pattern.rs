//! Compiled regular expressions for the user-configurable parts of the ID grammar
//! (`[id] slug_pattern`), backed by the `regex` crate.
use vstd::prelude::*;

verus! {

#[verifier::external_type_specification]
#[verifier::external_body]
pub struct ExRegex(regex::Regex);

/// Whether `regex::Regex::new` accepts the pattern (syntax and size limit).
pub uninterp spec fn regex_valid(pattern: Seq<char>) -> bool;

/// Whether the regex compiled from `pattern` matches somewhere in `haystack`.
pub uninterp spec fn regex_matches(pattern: Seq<char>, haystack: Seq<char>) -> bool;

/// A regex together with the pattern text it was compiled from.
pub struct CompiledRegex {
    source: String,
    re: regex::Regex,
}

impl CompiledRegex {
    pub closed spec fn source(&self) -> Seq<char> {
        self.source@
    }
}

/// Compiles `pattern` with `regex::Regex::new`; `None` when the crate rejects it.
/// Claims: success exactly when the pattern is valid (a fact of the pattern text
/// alone), and the result remembers the pattern it came from.
#[verifier::external_body]
pub(crate) fn regex_new(pattern: &str) -> (r: Option<CompiledRegex>)
    ensures
        r is Some <==> regex_valid(pattern@),
        r matches Some(c) ==> c.source() == pattern@,
{
    match regex::Regex::new(pattern) {
        Ok(re) => Some(CompiledRegex { source: pattern.to_string(), re }),
        Err(_) => None,
    }
}

/// `regex::Regex::is_match`: whether the regex matches anywhere in `haystack`.
/// Claims only that the answer is a function of the pattern and the haystack.
#[verifier::external_body]
pub(crate) fn regex_is_match(re: &CompiledRegex, haystack: &str) -> (r: bool)
    ensures
        r == regex_matches(re.source(), haystack@),
{
    re.re.is_match(haystack)
}

} // verus!
