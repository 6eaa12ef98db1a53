//! Regular expressions.
use vstd::prelude::*;

verus! {

/// What `regex::Regex::new` says of a pattern: nothing where it is one, else the error's text.
pub uninterp spec fn pattern_fault(pattern: Seq<char>) -> Option<Seq<char>>;

/// Whether a pattern is found in a text, by `regex::Regex::is_match`.
pub uninterp spec fn pattern_found(pattern: Seq<char>, text: Seq<char>) -> bool;

/// `regex::Regex::new`, of which only the error is kept. Whether a pattern is accepted, and the
/// error's text where it is not, depend on the pattern alone; which patterns those are is left
/// unsaid.
#[verifier::external_body]
pub(crate) fn fault_of(pattern: &str) -> (r: Option<String>)
    ensures
        match r {
            Some(e) => pattern_fault(pattern@) == Some(e@),
            None => pattern_fault(pattern@) is None,
        },
{
    regex::Regex::new(pattern).err().map(|e| e.to_string())
}

/// `regex::Regex::is_match` of an accepted pattern on a text. The answer depends on the two
/// alone; for which texts it is yes is left unsaid.
#[verifier::external_body]
pub(crate) fn found_in(pattern: &str, text: &str) -> (r: bool)
    requires
        pattern_fault(pattern@) is None,
    ensures
        r == pattern_found(pattern@, text@),
{
    regex::Regex::new(pattern).unwrap().is_match(text)
}

} // verus!
