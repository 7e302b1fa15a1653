//! Operations on one lane of eight 16-bit candidates: decoding a single
//! group, comparison with `q`, comparison masks and their population count,
//! and packing the accepted candidates to the front of the lane through the
//! table-driven byte shuffle before the lane is stored.
use vstd::prelude::*;

use crate::idx::{bit_of, lemma_idx_row, lemma_rank_step, lemma_row_entry, rank, row_byte, row_entry, IDX};
use crate::params::KYBER_Q;
use crate::spec::{
    accepted, fill_word, high_candidate, is_accepted, lemma_accepted_len,
    lemma_accepted_prefix, lemma_accepted_push, low_candidate, packed_lane,
};

verus! {

/// Bit `k` of a mask.
pub open spec fn mask_bit(mask: u32, k: int) -> bool {
    (mask >> (k as u32)) & 1u32 == 1u32
}

/// Number of set bits among the low `n` bits of `mask`.
pub open spec fn set_bits(mask: u32, n: nat) -> nat
    decreases n,
{
    if n == 0 {
        0
    } else {
        set_bits(mask, (n - 1) as nat) + if mask_bit(mask, n - 1) {
            1nat
        } else {
            0nat
        }
    }
}

/// The mask bits of a lane tell which of its candidates are accepted.
pub open spec fn lane_mask_matches(mask: u32, lane: Seq<u16>) -> bool {
    forall|j: int| 0 <= j < 8 ==> (#[trigger] mask_bit(mask, j) <==> is_accepted(lane[j]))
}

proof fn lemma_decode_group(b0: u8, b1: u8, b2: u8)
    ensures
        ((b0 >> 0u8) as u16 | ((b1 as u16) << 8u16) & 0xFFFu16) == low_candidate(b0, b1),
        ((b1 >> 4u8) as u16 | ((b2 as u16) << 4u16)) == high_candidate(b1, b2),
{
    assert(((b0 >> 0u8) as u16 | ((b1 as u16) << 8u16) & 0xFFFu16) == (b0 + 256 * (b1 % 16)))
        by (bit_vector);
    assert(((b1 >> 4u8) as u16 | ((b2 as u16) << 4u16)) == (b1 / 16 + 16 * b2)) by (bit_vector);
}

/// Decodes the two 12-bit candidates of the group at `buf[pos..pos + 3]`.
pub fn decode_group(buf: &[u8], pos: usize) -> (vals: (u16, u16))
    requires
        pos + 3 <= buf@.len(),
    ensures
        vals.0 == low_candidate(buf@[pos as int], buf@[pos + 1]),
        vals.1 == high_candidate(buf@[pos + 1], buf@[pos + 2]),
{
    let b0 = buf[pos];
    let b1 = buf[pos + 1];
    let b2 = buf[pos + 2];
    let val0 = (b0 >> 0) as u16 | ((b1 as u16) << 8) & 0xFFF;
    let val1 = (b1 >> 4) as u16 | ((b2 as u16) << 4);
    proof {
        lemma_decode_group(b0, b1, b2);
    }
    (val0, val1)
}

/// Compares each candidate with `q`: `0xFFFF` where it is below `q`, else `0`.
pub fn compare_lane(f: &[u16; 8]) -> (g: [u16; 8])
    ensures
        forall|i: int| 0 <= i < 8 ==> #[trigger] g@[i] == if is_accepted(f@[i]) {
            0xFFFFu16
        } else {
            0u16
        },
{
    let mut g = [0u16; 8];
    for i in 0..8
        invariant
            forall|k: int| 0 <= k < i ==> #[trigger] g@[k] == if is_accepted(f@[k]) {
                0xFFFFu16
            } else {
                0u16
            },
    {
        g[i] = if (f[i] as usize) < KYBER_Q {
            0xFFFF
        } else {
            0
        };
    }
    g
}

proof fn lemma_set_mask_bit(mask: u32, b: u32, j: u32, k: u32)
    requires
        j < 32,
        k < 32,
        b <= 1,
    ensures
        k != j ==> (mask_bit(mask | (b << j), k as int) == mask_bit(mask, k as int)),
        k == j ==> (mask_bit(mask | (b << j), k as int) == (mask_bit(mask, k as int) || b == 1)),
{
    assert(k != j ==> ((((mask | (b << j)) >> k) & 1u32 == 1u32) == (((mask >> k) & 1u32) == 1u32)))
        by (bit_vector)
        requires
            j < 32,
            k < 32,
            b <= 1,
    ;
    assert(k == j ==> ((((mask | (b << j)) >> k) & 1u32 == 1u32) == (((mask >> k) & 1u32) == 1u32
        || b == 1))) by (bit_vector)
        requires
            j < 32,
            k < 32,
            b <= 1,
    ;
}

proof fn lemma_zero_mask(k: u32)
    requires
        k < 32,
    ensures
        !mask_bit(0, k as int),
{
    assert(((0u32 >> k) & 1u32) == 0u32) by (bit_vector);
}

proof fn lemma_word_bit(w: u16, s: u16)
    requires
        s < 16,
    ensures
        ((w >> s) & 1u16) as u32 <= 1,
        (((w >> s) & 1u16) as u32 == 1) == ((w >> s) & 1u16 == 1u16),
{
    assert(((w >> s) & 1u16) <= 1u16) by (bit_vector);
}

/// Sets bits `shift..shift + 8` of `good` (which are clear) to the sign
/// bits of the 8 words of `g`.
fn or_lane_sign_bits(good: u32, g: &[u16; 8], shift: u32) -> (res: u32)
    requires
        shift <= 24,
        forall|k: int| shift <= k < 32 ==> !#[trigger] mask_bit(good, k),
    ensures
        forall|k: int| 0 <= k < shift ==> (#[trigger] mask_bit(res, k) == mask_bit(good, k)),
        forall|j: int| 0 <= j < 8 ==> (#[trigger] mask_bit(res, shift + j) == ((g@[j] >> 15u16)
            & 1u16 == 1u16)),
        forall|k: int| shift + 8 <= k < 32 ==> !#[trigger] mask_bit(res, k),
{
    let mut res = good;
    for j in 0..8
        invariant
            shift <= 24,
            forall|k: int| 0 <= k < shift ==> (#[trigger] mask_bit(res, k) == mask_bit(good, k)),
            forall|i: int| 0 <= i < j ==> (#[trigger] mask_bit(res, shift + i) == ((g@[i] >> 15u16)
                & 1u16 == 1u16)),
            forall|k: int| shift + j <= k < 32 ==> !#[trigger] mask_bit(res, k),
    {
        let b = ((g[j] >> 15) & 1) as u32;
        let ghost before = res;
        proof {
            lemma_word_bit(g@[j as int], 15);
        }
        res = res | (b << (shift + j as u32));
        proof {
            assert forall|k: int| 0 <= k < 32 implies #[trigger] mask_bit(res, k) == if k == shift
                + j {
                b == 1
            } else {
                mask_bit(before, k)
            } by {
                lemma_set_mask_bit(before, b, (shift + j) as u32, k as u32);
            }
        }
    }
    res
}

/// The byte mask of the two registers `(g0lo, g0hi)` and `(g1lo, g1hi)` of
/// comparison words, packed to signed bytes lane by lane: bits `0..8` come
/// from `g0lo`, `8..16` from `g1lo`, `16..24` from `g0hi`, `24..32` from
/// `g1hi`, each bit the sign of its word.
pub fn packed_sign_mask(g0lo: &[u16; 8], g0hi: &[u16; 8], g1lo: &[u16; 8], g1hi: &[u16; 8]) -> (good:
    u32)
    ensures
        forall|j: int| 0 <= j < 8 ==> (#[trigger] mask_bit(good, j) == ((g0lo@[j] >> 15u16)
            & 1u16 == 1u16)),
        forall|j: int| 0 <= j < 8 ==> (#[trigger] mask_bit(good, 8 + j) == ((g1lo@[j] >> 15u16)
            & 1u16 == 1u16)),
        forall|j: int| 0 <= j < 8 ==> (#[trigger] mask_bit(good, 16 + j) == ((g0hi@[j] >> 15u16)
            & 1u16 == 1u16)),
        forall|j: int| 0 <= j < 8 ==> (#[trigger] mask_bit(good, 24 + j) == ((g1hi@[j] >> 15u16)
            & 1u16 == 1u16)),
{
    proof {
        assert forall|k: int| 0 <= k < 32 implies !#[trigger] mask_bit(0, k) by {
            lemma_zero_mask(k as u32);
        }
    }
    let m0 = or_lane_sign_bits(0, g0lo, 0);
    let m1 = or_lane_sign_bits(m0, g1lo, 8);
    let m2 = or_lane_sign_bits(m1, g0hi, 16);
    let m3 = or_lane_sign_bits(m2, g1hi, 24);
    proof {
        assert forall|j: int| 0 <= j < 8 implies #[trigger] mask_bit(m3, j) == mask_bit(m0, 0 + j) by {
            assert(mask_bit(m3, j) == mask_bit(m2, j));
            assert(mask_bit(m2, j) == mask_bit(m1, j));
        }
        assert forall|j: int| 0 <= j < 8 implies #[trigger] mask_bit(m3, 8 + j) == mask_bit(m1, 8 + j)
            by {
            assert(mask_bit(m3, 8 + j) == mask_bit(m2, 8 + j));
        }
    }
    m3
}

/// The byte mask of a register of 8 comparison words: bit `2j` is the sign of
/// the low byte of word `j`, bit `2j + 1` the sign of its high byte.
pub fn byte_sign_mask(t: &[u16; 8]) -> (m: u32)
    ensures
        forall|j: int| 0 <= j < 8 ==> (#[trigger] mask_bit(m, 2 * j) == ((t@[j] >> 7u16) & 1u16
            == 1u16)),
        forall|j: int| 0 <= j < 8 ==> (#[trigger] mask_bit(m, 2 * j + 1) == ((t@[j] >> 15u16)
            & 1u16 == 1u16)),
        forall|k: int| 16 <= k < 32 ==> !#[trigger] mask_bit(m, k),
{
    let mut m: u32 = 0;
    proof {
        assert forall|k: int| 0 <= k < 32 implies !#[trigger] mask_bit(0, k) by {
            lemma_zero_mask(k as u32);
        }
    }
    for j in 0..8
        invariant
            forall|i: int| 0 <= i < j ==> (#[trigger] mask_bit(m, 2 * i) == ((t@[i] >> 7u16) & 1u16
                == 1u16)),
            forall|i: int| 0 <= i < j ==> (#[trigger] mask_bit(m, 2 * i + 1) == ((t@[i] >> 15u16)
                & 1u16 == 1u16)),
            forall|k: int| 2 * j <= k < 32 ==> !#[trigger] mask_bit(m, k),
    {
        let lo = ((t[j] >> 7) & 1) as u32;
        let hi = ((t[j] >> 15) & 1) as u32;
        proof {
            lemma_word_bit(t@[j as int], 7);
            lemma_word_bit(t@[j as int], 15);
        }
        let ghost m0 = m;
        m = m | (lo << (2 * j as u32));
        let ghost m1 = m;
        proof {
            assert forall|k: int| 0 <= k < 32 implies #[trigger] mask_bit(m1, k) == if k == 2 * j {
                lo == 1
            } else {
                mask_bit(m0, k)
            } by {
                lemma_set_mask_bit(m0, lo, (2 * j) as u32, k as u32);
            }
        }
        m = m | (hi << (2 * j as u32 + 1));
        proof {
            assert forall|k: int| 0 <= k < 32 implies #[trigger] mask_bit(m, k) == if k == 2 * j
                + 1 {
                hi == 1
            } else {
                mask_bit(m1, k)
            } by {
                lemma_set_mask_bit(m1, hi, (2 * j + 1) as u32, k as u32);
            }
            assert forall|i: int| 0 <= i < j + 1 implies (#[trigger] mask_bit(m, 2 * i) == ((t@[i]
                >> 7u16) & 1u16 == 1u16)) by {
                assert(mask_bit(m, 2 * i) == mask_bit(m1, 2 * i));
            }
        }
    }
    m
}

/// Gathers the even bits of `a` (bits `0, 2, .., 14`) into bits `0..8`, as
/// a parallel bit extract with the selector `0x5555` does.
pub fn gather_even_bits(a: u32) -> (res: u32)
    ensures
        forall|j: int| 0 <= j < 8 ==> (#[trigger] mask_bit(res, j) == mask_bit(a, 2 * j)),
        forall|k: int| 8 <= k < 32 ==> !#[trigger] mask_bit(res, k),
        res < 256,
{
    let mut res: u32 = 0;
    proof {
        assert forall|k: int| 0 <= k < 32 implies !#[trigger] mask_bit(0, k) by {
            lemma_zero_mask(k as u32);
        }
    }
    for j in 0..8
        invariant
            forall|i: int| 0 <= i < j ==> (#[trigger] mask_bit(res, i) == mask_bit(a, 2 * i)),
            forall|k: int| j <= k < 32 ==> !#[trigger] mask_bit(res, k),
            res < 256,
    {
        let b = (a >> (2 * j as u32)) & 1;
        proof {
            lemma_bit_value(a, (2 * j) as u32);
        }
        let ghost before = res;
        proof {
            lemma_or_bit_below_byte(res, b, j as u32);
        }
        res = res | (b << (j as u32));
        proof {
            assert forall|k: int| 0 <= k < 32 implies #[trigger] mask_bit(res, k) == if k == j {
                b == 1
            } else {
                mask_bit(before, k)
            } by {
                lemma_set_mask_bit(before, b, j as u32, k as u32);
            }
        }
    }
    res
}

proof fn lemma_or_bit_below_byte(r: u32, b: u32, j: u32)
    requires
        r < 256,
        b <= 1,
        j < 8,
    ensures
        r | (b << j) < 256,
{
    assert(r | (b << j) < 256) by (bit_vector)
        requires
            r < 256,
            b <= 1,
            j < 8,
    ;
}

proof fn lemma_bit_value(a: u32, k: u32)
    requires
        k < 32,
    ensures
        (a >> k) & 1u32 <= 1,
{
    assert((a >> k) & 1u32 <= 1u32) by (bit_vector);
}

/// Number of set bits among the low 8 bits of `m`.
pub fn popcount_byte(m: u32) -> (n: u32)
    ensures
        n == set_bits(m, 8),
{
    let mut n: u32 = 0;
    for j in 0..8
        invariant
            n == set_bits(m, j as nat),
            n <= j,
    {
        if (m >> (j as u32)) & 1 == 1 {
            n = n + 1;
        }
        assert(set_bits(m, (j + 1) as nat) == set_bits(m, j as nat) + if mask_bit(m, j as int) {
            1nat
        } else {
            0nat
        });
    }
    n
}

/// When the mask tells which candidates are accepted, its set bits count them.
pub proof fn lemma_set_bits_accepted(m: u32, lane: Seq<u16>, n: nat)
    requires
        lane.len() == 8,
        n <= 8,
        lane_mask_matches(m, lane),
    ensures
        set_bits(m, n) == accepted(lane.take(n as int)).len(),
    decreases n,
{
    if n == 0 {
        assert(lane.take(0) =~= Seq::<u16>::empty());
    } else {
        lemma_set_bits_accepted(m, lane, (n - 1) as nat);
        assert(lane.take(n as int) =~= lane.take(n - 1).push(lane[n - 1]));
        lemma_accepted_push(lane.take(n - 1), lane[n - 1]);
        assert(mask_bit(m, n - 1) <==> is_accepted(lane[n - 1]));
    }
}

proof fn lemma_mask_bits_arith(m: u32)
    by (bit_vector)
    requires
        m < 256,
    ensures
        ((m >> 0u32) & 1u32 == 1u32) == (m % 2 == 1),
        ((m >> 1u32) & 1u32 == 1u32) == ((m / 2) % 2 == 1),
        ((m >> 2u32) & 1u32 == 1u32) == ((m / 4) % 2 == 1),
        ((m >> 3u32) & 1u32 == 1u32) == ((m / 8) % 2 == 1),
        ((m >> 4u32) & 1u32 == 1u32) == ((m / 16) % 2 == 1),
        ((m >> 5u32) & 1u32 == 1u32) == ((m / 32) % 2 == 1),
        ((m >> 6u32) & 1u32 == 1u32) == ((m / 64) % 2 == 1),
        ((m >> 7u32) & 1u32 == 1u32) == ((m / 128) % 2 == 1),
{
}

/// For a mask byte, bit `j` counted arithmetically is its mask bit.
proof fn lemma_bit_of_mask(m: u32, j: int)
    requires
        m < 256,
        0 <= j < 8,
    ensures
        (bit_of(m as int, j) == 1) == mask_bit(m, j),
{
    lemma_mask_bits_arith(m);
    if j == 0 {
        assert(mask_bit(m, 0) == ((m >> 0u32) & 1u32 == 1u32));
    } else if j == 1 {
        assert(mask_bit(m, 1) == ((m >> 1u32) & 1u32 == 1u32));
    } else if j == 2 {
        assert(mask_bit(m, 2) == ((m >> 2u32) & 1u32 == 1u32));
    } else if j == 3 {
        assert(mask_bit(m, 3) == ((m >> 3u32) & 1u32 == 1u32));
    } else if j == 4 {
        assert(mask_bit(m, 4) == ((m >> 4u32) & 1u32 == 1u32));
    } else if j == 5 {
        assert(mask_bit(m, 5) == ((m >> 5u32) & 1u32 == 1u32));
    } else if j == 6 {
        assert(mask_bit(m, 6) == ((m >> 6u32) & 1u32 == 1u32));
    } else {
        assert(mask_bit(m, 7) == ((m >> 7u32) & 1u32 == 1u32));
    }
}

/// The two ways of counting the set bits of a mask byte agree.
proof fn lemma_rank_set_bits(m: u32, j: nat)
    requires
        m < 256,
        j <= 8,
    ensures
        rank(m as int, j as int) == set_bits(m, j),
    decreases j,
{
    lemma_rank_step(m as int, 0);
    if j > 0 {
        lemma_rank_set_bits(m, (j - 1) as nat);
        lemma_rank_step(m as int, j - 1);
        lemma_bit_of_mask(m, j - 1);
    }
}

/// The candidate of a lane at a set bit `j` of its mask is the accepted
/// coefficient numbered by the set bits below `j`.
proof fn lemma_accepted_at_set_bit(m: u32, lane: Seq<u16>, j: int)
    requires
        lane.len() == 8,
        lane_mask_matches(m, lane),
        0 <= j < 8,
        mask_bit(m, j),
    ensures
        set_bits(m, j as nat) < accepted(lane).len(),
        accepted(lane)[set_bits(m, j as nat) as int] == lane[j] as i16,
{
    lemma_set_bits_accepted(m, lane, j as nat);
    assert(lane.take(j + 1) =~= lane.take(j).push(lane[j]));
    lemma_accepted_push(lane.take(j), lane[j]);
    lemma_accepted_prefix(lane, j + 1);
    let a = accepted(lane.take(j + 1));
    assert(accepted(lane).take(a.len() as int)[set_bits(m, j as nat) as int] == a[set_bits(
        m,
        j as nat,
    ) as int]);
}

proof fn lemma_row_bytes(row: u64)
    by (bit_vector)
    ensures
        (row >> 0u64) & 0xFFu64 == row % 0x100,
        (row >> 8u64) & 0xFFu64 == (row / 0x100) % 0x100,
        (row >> 16u64) & 0xFFu64 == (row / 0x1_0000) % 0x100,
        (row >> 24u64) & 0xFFu64 == (row / 0x100_0000) % 0x100,
        (row >> 32u64) & 0xFFu64 == (row / 0x1_0000_0000) % 0x100,
        (row >> 40u64) & 0xFFu64 == (row / 0x100_0000_0000) % 0x100,
        (row >> 48u64) & 0xFFu64 == (row / 0x1_0000_0000_0000) % 0x100,
        (row >> 56u64) & 0xFFu64 == (row / 0x100_0000_0000_0000) % 0x100,
{
}

/// Loads row `m` of the packing table into the low 8 bytes of a 16-byte
/// register and clears the high 8 bytes.
pub fn load_row(m: u32) -> (c: [u8; 16])
    requires
        m < 256,
    ensures
        forall|k: int| 0 <= k < 8 ==> #[trigger] c@[k] == row_byte(IDX[m as int], k),
        forall|k: int| 8 <= k < 16 ==> #[trigger] c@[k] == 0,
{
    let row = IDX[m as usize];
    proof {
        lemma_row_bytes(row);
    }
    let mut c = [0u8; 16];
    c[0] = ((row >> 0) & 0xFF) as u8;
    c[1] = ((row >> 8) & 0xFF) as u8;
    c[2] = ((row >> 16) & 0xFF) as u8;
    c[3] = ((row >> 24) & 0xFF) as u8;
    c[4] = ((row >> 32) & 0xFF) as u8;
    c[5] = ((row >> 40) & 0xFF) as u8;
    c[6] = ((row >> 48) & 0xFF) as u8;
    c[7] = ((row >> 56) & 0xFF) as u8;
    c
}

/// Adds one to each byte, wrapping around.
pub fn add_one_epi8(a: &[u8; 16]) -> (b: [u8; 16])
    ensures
        forall|i: int| 0 <= i < 16 ==> #[trigger] b@[i] == if a@[i] == 255 {
            0
        } else {
            a@[i] + 1
        },
{
    let mut b = [0u8; 16];
    for i in 0..16
        invariant
            forall|k: int| 0 <= k < i ==> #[trigger] b@[k] == if a@[k] == 255 {
                0
            } else {
                a@[k] + 1
            },
    {
        b[i] = a[i].wrapping_add(1);
    }
    b
}

/// Interleaves the low 8 bytes of `a` and `b`: `a[0], b[0], a[1], b[1], ..`.
pub fn unpacklo_epi8(a: &[u8; 16], b: &[u8; 16]) -> (c: [u8; 16])
    ensures
        forall|i: int| 0 <= i < 8 ==> #[trigger] c@[2 * i] == a@[i] && c@[2 * i + 1] == b@[i],
{
    let mut c = [0u8; 16];
    for t in 0..16
        invariant
            forall|u: int| 0 <= u < t ==> #[trigger] c@[u] == if u % 2 == 0 {
                a@[u / 2]
            } else {
                b@[u / 2]
            },
    {
        c[t] = if t % 2 == 0 {
            a[t / 2]
        } else {
            b[t / 2]
        };
    }
    assert forall|i: int| 0 <= i < 8 implies #[trigger] c@[2 * i] == a@[i] && c@[2 * i + 1] == b@[
        i] by {
        assert((2 * i) / 2 == i && (2 * i) % 2 == 0);
        assert((2 * i + 1) / 2 == i && (2 * i + 1) % 2 == 1);
    }
    c
}

/// Byte shuffle of a 16-byte register: byte `i` of the result is `0` when
/// the control byte `c[i]` has its high bit set, else byte `c[i] & 15` of `v`.
pub fn shuffle_epi8(v: &[u8; 16], c: &[u8; 16]) -> (out: [u8; 16])
    ensures
        forall|i: int| 0 <= i < 16 ==> #[trigger] out@[i] == if c@[i] & 0x80u8 != 0 {
            0u8
        } else {
            v@[(c@[i] & 0x0Fu8) as int]
        },
{
    let mut out = [0u8; 16];
    for i in 0..16
        invariant
            forall|k: int| 0 <= k < i ==> #[trigger] out@[k] == if c@[k] & 0x80u8 != 0 {
                0u8
            } else {
                v@[(c@[k] & 0x0Fu8) as int]
            },
    {
        let ci = c[i];
        proof {
            lemma_low_nibble(ci);
        }
        out[i] = if ci & 0x80 != 0 {
            0
        } else {
            v[(ci & 0x0F) as usize]
        };
    }
    out
}

pub proof fn lemma_low_nibble(c: u8)
    by (bit_vector)
    ensures
        c & 0x0Fu8 < 16,
        c < 16 ==> (c & 0x80u8 == 0u8 && c & 0x0Fu8 == c),
        c == 255u8 ==> c & 0x80u8 != 0u8,
{
}

/// The 16 little-endian bytes of a lane of 8 words.
pub fn lane_bytes(lane: &[u16; 8]) -> (b: [u8; 16])
    ensures
        forall|j: int| 0 <= j < 8 ==> #[trigger] b@[2 * j] == (lane@[j] & 0xFFu16) as u8 && b@[2
            * j + 1] == (lane@[j] >> 8u16) as u8,
{
    let mut b = [0u8; 16];
    for t in 0..16
        invariant
            forall|u: int| 0 <= u < t ==> #[trigger] b@[u] == if u % 2 == 0 {
                (lane@[u / 2] & 0xFFu16) as u8
            } else {
                (lane@[u / 2] >> 8u16) as u8
            },
    {
        b[t] = if t % 2 == 0 {
            (lane[t / 2] & 0xFF) as u8
        } else {
            (lane[t / 2] >> 8) as u8
        };
    }
    assert forall|j: int| 0 <= j < 8 implies #[trigger] b@[2 * j] == (lane@[j] & 0xFFu16) as u8
        && b@[2 * j + 1] == (lane@[j] >> 8u16) as u8 by {
        assert((2 * j) / 2 == j && (2 * j) % 2 == 0);
        assert((2 * j + 1) / 2 == j && (2 * j + 1) % 2 == 1);
    }
    b
}

/// The 8 words of a lane from its 16 little-endian bytes.
pub fn lane_words(b: &[u8; 16]) -> (w: [u16; 8])
    ensures
        forall|j: int| 0 <= j < 8 ==> #[trigger] w@[j] == (b@[2 * j] as u16 | ((b@[2 * j + 1] as u16)
            << 8u16)),
{
    let mut w = [0u16; 8];
    for j in 0..8
        invariant
            forall|k: int| 0 <= k < j ==> #[trigger] w@[k] == (b@[2 * k] as u16 | ((b@[2 * k
                + 1] as u16) << 8u16)),
    {
        w[j] = b[2 * j] as u16 | ((b[2 * j + 1] as u16) << 8);
    }
    w
}

proof fn lemma_word_bytes(w: u16)
    by (bit_vector)
    ensures
        (((w & 0xFFu16) as u8) as u16 | ((((w >> 8u16) as u8) as u16) << 8u16)) == w,
        ((0u8 as u16) | ((((w & 0xFFu16) as u8) as u16) << 8u16)) == (w & 0xFFu16) << 8u16,
{
}

/// Packs the accepted candidates of `lane`, as the mask byte `good` marks
/// them, to the front of the lane, as the table-driven byte shuffle does: row
/// `good` of the packing table gives the low control byte `2j` of each
/// accepted word `j`, the high control byte is one more, and the `0xFF`
/// padding bytes turn into control bytes that clear the low byte and copy
/// byte 0 into the high byte.
pub fn pack_lane(lane: &[u16; 8], good: u32) -> (out: [u16; 8])
    requires
        good < 256,
        lane_mask_matches(good, lane@),
    ensures
        forall|k: int| 0 <= k < 8 ==> #[trigger] out@[k] as i16 == packed_lane(lane@)[k],
{
    let lo = load_row(good);
    let hi = add_one_epi8(&lo);
    let ctl = unpacklo_epi8(&lo, &hi);
    let bytes = lane_bytes(lane);
    let packed = shuffle_epi8(&bytes, &ctl);
    let out = lane_words(&packed);
    proof {
        let m = good as int;
        let row = IDX[m];
        lemma_idx_row(m);
        lemma_rank_set_bits(good, 8);
        lemma_set_bits_accepted(good, lane@, 8);
        assert(lane@.take(8) =~= lane@);
        lemma_accepted_len(lane@);
        assert forall|k: int| 0 <= k < 8 implies #[trigger] out@[k] as i16 == packed_lane(lane@)[k]
            by {
            lemma_row_entry(m, k);
            assert(row_byte(row, k) == row_entry(m, k));
            let e = row_entry(m, k);
            lemma_low_nibble(ctl@[2 * k]);
            lemma_low_nibble(ctl@[2 * k + 1]);
            if k < rank(m, 8) {
                let j = e / 2;
                lemma_bit_of_mask(good, j);
                lemma_rank_set_bits(good, j as nat);
                lemma_accepted_at_set_bit(good, lane@, j);
                assert(ctl@[2 * k] == e && ctl@[2 * k + 1] == e + 1);
                assert(packed@[2 * k] == bytes@[2 * j]);
                assert(packed@[2 * k + 1] == bytes@[2 * j + 1]);
                lemma_word_bytes(lane@[j]);
                assert(out@[k] == lane@[j]);
                assert(set_bits(good, j as nat) == k);
                assert(packed_lane(lane@)[k] == accepted(lane@)[k]);
            } else {
                assert(ctl@[2 * k] == 255u8 && ctl@[2 * k + 1] == 0u8);
                assert(packed@[2 * k] == 0u8);
                assert(packed@[2 * k + 1] == bytes@[0]);
                lemma_word_bytes(lane@[0]);
                assert(bytes@[2 * 0int] == (lane@[0] & 0xFFu16) as u8);
                assert(out@[k] == (lane@[0] & 0xFFu16) << 8u16);
                assert(packed_lane(lane@)[k] == fill_word(lane@[0]));
            }
        }
    }
    out
}

/// Stores the 8 words of `out` to `r[ctr..ctr + 8]`.
pub fn store_lane(r: &mut [i16], ctr: usize, out: &[u16; 8])
    requires
        ctr + 8 <= old(r)@.len(),
    ensures
        final(r)@ == old(r)@.take(ctr as int) + Seq::new(8, |k: int| out@[k] as i16) + old(
            r,
        )@.skip(ctr + 8),
{
    let rlen = r.len();
    for k in 0..8
        invariant
            rlen == r@.len(),
            ctr + 8 <= old(r)@.len(),
            r@.len() == old(r)@.len(),
            forall|i: int| 0 <= i < ctr ==> #[trigger] r@[i] == old(r)@[i],
            forall|i: int| ctr <= i < ctr + k ==> #[trigger] r@[i] == out@[i - ctr] as i16,
            forall|i: int| ctr + k <= i < r@.len() ==> #[trigger] r@[i] == old(r)@[i],
    {
        r[ctr + k] = out[k] as i16;
    }
    assert(r@ =~= old(r)@.take(ctr as int) + Seq::new(8, |k: int| out@[k] as i16) + old(r)@.skip(
        ctr + 8,
    ));
}

/// Packs the accepted candidates of `lane` as `good` marks them, stores the
/// whole packed lane at `r[ctr..ctr + 8]`, and returns `ctr` advanced by the
/// number of set bits of `good`.
pub fn sample_lane(r: &mut [i16], ctr: usize, lane: &[u16; 8], good: u32) -> (new_ctr: usize)
    requires
        ctr + 8 <= old(r)@.len(),
        good < 256,
        lane_mask_matches(good, lane@),
    ensures
        new_ctr == ctr + accepted(lane@).len(),
        final(r)@ == old(r)@.take(ctr as int) + packed_lane(lane@) + old(r)@.skip(ctr + 8),
{
    let rlen = r.len();
    let out = pack_lane(lane, good);
    store_lane(r, ctr, &out);
    let n = popcount_byte(good);
    proof {
        lemma_set_bits_accepted(good, lane@, 8);
        assert(lane@.take(8) =~= lane@);
        lemma_accepted_len(lane@);
        assert(Seq::new(8, |k: int| out@[k] as i16) =~= packed_lane(lane@));
    }
    ctr + n as usize
}

} // verus!
