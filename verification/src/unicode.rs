//! Unicode case mapping, which the standard library computes from its
//! Unicode tables.
use vstd::prelude::*;

verus! {

/// Unicode lower-casing of a text, as `str::to_lowercase` computes it.
pub uninterp spec fn lowercase(s: Seq<char>) -> Seq<char>;

/// Calls `str::to_lowercase`. The contract claims only that the result is a
/// function of the text's characters alone (the Unicode tables of the
/// standard library fix it); it says nothing of which characters change.
#[verifier::external_body]
pub(crate) fn to_lowercase(s: &str) -> (r: String)
    ensures
        r@ == lowercase(s@),
{
    s.to_lowercase()
}

} // verus!
