//! Texts in lower and upper case, and matching that ignores case.

use vstd::prelude::*;
use vstd::string::*;

use crate::text::{contains_text, has_substring};

verus! {

/// What `str::to_lowercase` gives for a text.
pub uninterp spec fn lowercase(s: Seq<char>) -> Seq<char>;

/// Calls `str::to_lowercase`. Its result, which Unicode's case tables determine,
/// depends on the text alone; it is called `lowercase` here.
#[verifier::external_body]
pub(crate) fn lowered(s: &str) -> (r: String)
    ensures
        r@ == lowercase(s@),
{
    s.to_lowercase()
}

/// What `str::to_uppercase` gives for a text.
pub uninterp spec fn uppercase(s: Seq<char>) -> Seq<char>;

/// Calls `str::to_uppercase`. Its result, which Unicode's case tables determine,
/// depends on the text alone; it is called `uppercase` here.
#[verifier::external_body]
pub(crate) fn uppered(s: &str) -> (r: String)
    ensures
        r@ == uppercase(s@),
{
    s.to_uppercase()
}

/// `needle` is a substring of `hay` if case is ignored.
pub open spec fn holds_ignoring_case(hay: Seq<char>, needle: Seq<char>) -> bool {
    has_substring(lowercase(hay), lowercase(needle))
}

/// Whether `needle` is a substring of `hay` if case is ignored.
pub fn contains_ignoring_case(hay: &str, needle: &str) -> (r: bool)
    ensures
        r == holds_ignoring_case(hay@, needle@),
{
    let h = lowered(hay);
    let n = lowered(needle);
    contains_text(h.as_str(), n.as_str())
}

} // verus!
