//! Case folding used by candidate derivation.

use vstd::prelude::*;

verus! {

/// The uppercase form of a sequence of characters, as Unicode defines it.
/// The full mapping takes pages to state, so it is left abstract; the
/// wrapper below ties it to what the standard library computes.
pub uninterp spec fn upper_of(s: Seq<char>) -> Seq<char>;

/// Relies on str::to_uppercase: the result is the Unicode uppercase form of
/// the input, a function of the characters alone (locale-independent).
#[verifier::external_body]
pub(crate) fn to_upper(s: &str) -> (r: String)
    ensures
        r@ == upper_of(s@),
{
    s.to_uppercase()
}

} // verus!
