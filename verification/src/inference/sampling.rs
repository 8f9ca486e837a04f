//! Picking the next token without chance.

use vstd::prelude::*;

use crate::inference::score::{greater, is_greater, is_nan, order_key};

verus! {

/// Bits of the single-precision number 0.000001.
pub const GREEDY_BELOW_BITS: u32 = 0x3586_37bd;

/// Whether a temperature is so low that the best token is picked without chance.
pub fn is_greedy(temperature_bits: u32) -> (r: bool)
    ensures
        r == greater(GREEDY_BELOW_BITS, temperature_bits),
{
    is_greater(GREEDY_BELOW_BITS, temperature_bits)
}

/// The place of the best among the first `n` scores: a later one has to be greater to
/// take over.
pub open spec fn best_of(scores: Seq<u32>, n: int) -> int
    decreases n,
{
    if n <= 1 {
        0
    } else {
        let b = best_of(scores, n - 1);
        if greater(scores[n - 1], scores[b]) {
            n - 1
        } else {
            b
        }
    }
}

/// The token with the highest score, given by its bits.
pub fn greedy_token(scores: &[u32]) -> (r: u32)
    requires
        0 < scores@.len() <= u32::MAX,
    ensures
        r == best_of(scores@, scores@.len() as int),
        r < scores@.len(),
{
    let mut best: usize = 0;
    let mut i: usize = 1;
    while i < scores.len()
        invariant
            0 < scores@.len() <= u32::MAX,
            best < i <= scores@.len(),
            best == best_of(scores@, i as int),
        decreases scores@.len() - i,
    {
        if is_greater(scores[i], scores[best]) {
            best = i;
        }
        i += 1;
    }
    best as u32
}

/// Of scores that are all numbers, the best is one that no other exceeds, and the first
/// such.
pub proof fn law_greedy_is_first_maximum(scores: Seq<u32>, n: int)
    requires
        0 < n <= scores.len(),
        forall|i: int| 0 <= i < n ==> !is_nan(#[trigger] scores[i]),
    ensures
        0 <= best_of(scores, n) < n,
        forall|i: int| 0 <= i < n ==> order_key(#[trigger] scores[i]) <= order_key(scores[best_of(scores, n)]),
        forall|i: int|
            0 <= i < best_of(scores, n) ==> order_key(#[trigger] scores[i]) < order_key(scores[best_of(scores, n)]),
    decreases n,
{
    if n > 1 {
        law_greedy_is_first_maximum(scores, n - 1);
        assert(!is_nan(scores[n - 1]));
        assert(!is_nan(scores[best_of(scores, n - 1)]));
    }
}

} // verus!
