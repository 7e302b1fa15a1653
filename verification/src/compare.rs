//! Lane-wise unsigned comparison of vectors of 16-bit words.
//!
//! A vector is held as an array of its lanes. The comparisons answer in the
//! usual mask form: a lane of all ones where the comparison holds, zero
//! where it does not. Unsigned `a >= b` is computed as `max(a, b) == a`.
use vstd::prelude::*;

verus! {

/// The mask lane for one unsigned comparison `a >= b`.
pub open spec fn ge_mask(a: u16, b: u16) -> u16 {
    if a >= b {
        0xFFFF
    } else {
        0
    }
}

/// One lane: `0xFFFF` when `max(a, b) == a`, else `0`.
fn cmpge_lane(a: u16, b: u16) -> (m: u16)
    ensures
        m == ge_mask(a, b),
        a >= b ==> m == 0xFFFFu16,
        a < b ==> m == 0u16,
{
    let max = if a >= b {
        a
    } else {
        b
    };
    if max == a {
        0xFFFF
    } else {
        0
    }
}

/// Lane-wise unsigned `a >= b` over sixteen 16-bit lanes.
pub fn _mm256_cmpge_epu16(a: [u16; 16], b: [u16; 16]) -> (res: [u16; 16])
    ensures
        forall|i: int| 0 <= i < 16 ==> #[trigger] res[i] == ge_mask(a[i], b[i]),
        forall|i: int| 0 <= i < 16 ==> #[trigger] res[i] == (if a[i] >= b[i] {
            0xFFFFu16
        } else {
            0u16
        }),
{
    let mut res = [0u16; 16];
    for i in 0..16
        invariant
            forall|k: int| 0 <= k < i ==> #[trigger] res[k] == ge_mask(a[k], b[k]),
    {
        res[i] = cmpge_lane(a[i], b[i]);
    }
    res
}

/// Lane-wise unsigned `a >= b` over eight 16-bit lanes.
pub fn _mm_cmpge_epu16(a: [u16; 8], b: [u16; 8]) -> (res: [u16; 8])
    ensures
        forall|i: int| 0 <= i < 8 ==> #[trigger] res[i] == ge_mask(a[i], b[i]),
        forall|i: int| 0 <= i < 8 ==> #[trigger] res[i] == (if a[i] >= b[i] {
            0xFFFFu16
        } else {
            0u16
        }),
{
    let mut res = [0u16; 8];
    for i in 0..8
        invariant
            forall|k: int| 0 <= k < i ==> #[trigger] res[k] == ge_mask(a[k], b[k]),
    {
        res[i] = cmpge_lane(a[i], b[i]);
    }
    res
}

/// A comparison mask lane is all ones exactly when `a >= b` as unsigned
/// integers, and zero exactly when `a < b`; it is never anything else.
pub proof fn lemma_ge_mask_law(a: u16, b: u16)
    ensures
        ge_mask(a, b) == 0xFFFFu16 <==> a >= b,
        ge_mask(a, b) == 0u16 <==> a < b,
        ge_mask(a, b) == 0xFFFFu16 || ge_mask(a, b) == 0u16,
{
}

/// Comparing both ways: at least one of `a >= b` and `b >= a` holds, and
/// both hold exactly when `a == b`; every word is `>=` itself and `>= 0`,
/// and `0xFFFF` is `>=` every word.
pub proof fn lemma_ge_mask_order(a: u16, b: u16)
    ensures
        ge_mask(a, b) == 0xFFFFu16 || ge_mask(b, a) == 0xFFFFu16,
        (ge_mask(a, b) == 0xFFFFu16 && ge_mask(b, a) == 0xFFFFu16) <==> a == b,
        ge_mask(a, a) == 0xFFFFu16,
        ge_mask(a, 0) == 0xFFFFu16,
        ge_mask(0xFFFFu16, a) == 0xFFFFu16,
        (a) < (b) ==> ge_mask(a, b) == 0u16,
{
}

/// Over whole vectors: lane `i` of `_mm256_cmpge_epu16(a, b)` is all ones
/// exactly when `a[i] >= b[i]` as unsigned integers, and zero otherwise; and
/// swapping the operands gives all ones in every lane where the first call
/// gave zero.
pub proof fn lemma_cmpge_vectors(a: [u16; 16], b: [u16; 16], res: [u16; 16], swapped: [u16; 16])
    requires
        forall|i: int| 0 <= i < 16 ==> #[trigger] res[i] == ge_mask(a[i], b[i]),
        forall|i: int| 0 <= i < 16 ==> #[trigger] swapped[i] == ge_mask(b[i], a[i]),
    ensures
        forall|i: int| 0 <= i < 16 ==> (#[trigger] res[i] == 0xFFFFu16 <==> a[i] >= b[i]),
        forall|i: int| 0 <= i < 16 ==> (#[trigger] res[i] == 0u16 <==> a[i] < b[i]),
        forall|i: int| 0 <= i < 16 ==> (#[trigger] res[i] == 0u16 ==> swapped[i] == 0xFFFFu16),
{
}

} // verus!
