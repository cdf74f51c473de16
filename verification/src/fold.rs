//! Lowercase folding, which the standard library computes.

use vstd::prelude::*;

verus! {

/// The lowercase form that `str::to_lowercase` gives a text: a function of
/// the text alone, fixed by the Unicode tables of the standard library.
pub uninterp spec fn lowercase_of(s: Seq<char>) -> Seq<char>;

/// The lowercase form of `s`.
///
/// Trusted: calls `str::to_lowercase`. The contract gives the result its
/// name, [`lowercase_of`], and says that the empty text stays empty; nothing
/// else is claimed of the characters that the result holds.
#[verifier::external_body]
pub(crate) fn to_lowercase(s: &str) -> (r: String)
    ensures
        r@ == lowercase_of(s@),
        s@.len() == 0 ==> r@.len() == 0,
{
    s.to_lowercase()
}

} // verus!
