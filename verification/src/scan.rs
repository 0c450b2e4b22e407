//! Positions in a byte document: skipping whitespace and guarding end
//! positions, the small pieces every walk over the package index shares.

use vstd::prelude::*;

verus! {

/// JSON whitespace.
pub open spec fn is_ws_b(b: u8) -> bool {
    b == 32 || b == 9 || b == 10 || b == 13
}

/// The first position at or after `i` holding no whitespace; never
/// before `i`.
pub open spec fn sp_ws(s: Seq<u8>, i: int) -> int
    decreases s.len() - i,
{
    if 0 <= i < s.len() && is_ws_b(s[i]) {
        let k = sp_ws(s, i + 1);
        if k > i {
            k
        } else {
            i + 1
        }
    } else {
        i
    }
}

/// Skipping whitespace never moves backwards.
pub broadcast proof fn lemma_sp_ws_ge(s: Seq<u8>, i: int)
    ensures
        #[trigger] sp_ws(s, i) >= i,
{
}

/// Skipping whitespace never runs past the end.
pub broadcast proof fn lemma_sp_ws_le(s: Seq<u8>, i: int)
    ensures
        i <= s.len() ==> #[trigger] sp_ws(s, i) <= s.len(),
    decreases s.len() - i,
{
    if 0 <= i < s.len() && is_ws_b(s[i]) {
        lemma_sp_ws_le(s, i + 1);
    }
}

/// An end position is only meaningful when it lies beyond the start.
pub open spec fn sp_guard(i: int, r: Option<int>) -> Option<int> {
    match r {
        Some(e) => if e > i {
            Some(e)
        } else {
            None
        },
        None => None,
    }
}

} // verus!
