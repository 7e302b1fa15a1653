//! Decoding 12-bit candidates from input bytes with vector operations.
//!
//! Registers are held as arrays of bytes (`[u8; 32]` for 256 bits,
//! `[u8; 16]` for one 128-bit lane) or of 16-bit words (`[u16; 8]` for a
//! lane). A lane of 12 input bytes, four 3-byte groups, is spread over eight
//! words by a byte shuffle (word `2g` takes bytes `3g, 3g + 1`, word `2g + 1`
//! bytes `3g + 1, 3g + 2`), the odd words are shifted right by 4 and blended
//! in, and every word is masked to 12 bits.
use vstd::prelude::*;

use crate::lanes::{lane_words, lemma_low_nibble, shuffle_epi8};
use crate::spec::{candidate, high_candidate, low_candidate};

verus! {

/// The shuffle control that spreads four groups over eight words: from byte
/// 0 of the low lane and from byte 4 of the high lane.
pub const IDX8: [u8; 32] = [
    0, 1, 1, 2, 3, 4, 4, 5, 6, 7, 7, 8, 9, 10, 10, 11,
    4, 5, 5, 6, 7, 8, 8, 9, 10, 11, 11, 12, 13, 14, 14, 15,
];

/// The control `c` sends word `2g` bytes `o + 3g, o + 3g + 1` and word
/// `2g + 1` bytes `o + 3g + 1, o + 3g + 2`.
pub open spec fn spreads_groups(c: Seq<u8>, o: int) -> bool {
    forall|k: int|
        0 <= k < 8 ==> #[trigger] c[2 * k] == o + 3 * (k / 2) + k % 2 && c[2 * k + 1] == c[2 * k]
            + 1
}

/// Candidate `k` of the four groups that start at byte `o` of `v`.
pub open spec fn lane_candidate(v: Seq<u8>, o: int, k: int) -> u16 {
    let b = o + 3 * (k / 2);
    if k % 2 == 0 {
        low_candidate(v[b], v[b + 1])
    } else {
        high_candidate(v[b + 1], v[b + 2])
    }
}

/// The two lanes of the spreading control do spread the groups.
proof fn lemma_idx8_spreads()
    ensures
        spreads_groups(IDX8@.subrange(0, 16), 0),
        spreads_groups(IDX8@.subrange(16, 32), 4),
{
    assert forall|k: int| 0 <= k < 8 implies #[trigger] IDX8@.subrange(0, 16)[2 * k] == 0 + 3 * (k
        / 2) + k % 2 && IDX8@.subrange(0, 16)[2 * k + 1] == IDX8@.subrange(0, 16)[2 * k] + 1 by {
        assert(IDX8@.subrange(0, 16)[2 * k] == IDX8[2 * k]);
        assert(IDX8@.subrange(0, 16)[2 * k + 1] == IDX8[2 * k + 1]);
    }
    assert forall|k: int| 0 <= k < 8 implies #[trigger] IDX8@.subrange(16, 32)[2 * k] == 4 + 3 * (k
        / 2) + k % 2 && IDX8@.subrange(16, 32)[2 * k + 1] == IDX8@.subrange(16, 32)[2 * k] + 1 by {
        assert(IDX8@.subrange(16, 32)[2 * k] == IDX8[16 + 2 * k]);
        assert(IDX8@.subrange(16, 32)[2 * k + 1] == IDX8[16 + 2 * k + 1]);
    }
}

/// Loads 16 bytes from `buf[pos..]`.
pub fn loadu_si128(buf: &[u8], pos: usize) -> (v: [u8; 16])
    requires
        pos + 16 <= buf@.len(),
    ensures
        forall|i: int| 0 <= i < 16 ==> #[trigger] v@[i] == buf@[pos + i],
{
    let mut v = [0u8; 16];
    let len = buf.len();
    for i in 0..16
        invariant
            len == buf@.len(),
            pos + 16 <= buf@.len(),
            forall|k: int| 0 <= k < i ==> #[trigger] v@[k] == buf@[pos + k],
    {
        v[i] = buf[pos + i];
    }
    v
}

/// Loads 32 bytes from `buf[pos..]`.
pub fn loadu_si256(buf: &[u8], pos: usize) -> (v: [u8; 32])
    requires
        pos + 32 <= buf@.len(),
    ensures
        forall|i: int| 0 <= i < 32 ==> #[trigger] v@[i] == buf@[pos + i],
{
    let mut v = [0u8; 32];
    let len = buf.len();
    for i in 0..32
        invariant
            len == buf@.len(),
            pos + 32 <= buf@.len(),
            forall|k: int| 0 <= k < i ==> #[trigger] v@[k] == buf@[pos + k],
    {
        v[i] = buf[pos + i];
    }
    v
}

proof fn lemma_permute_selectors()
    by (bit_vector)
    ensures
        (0x94u8 >> 0u8) & 3u8 == 0u8,
        (0x94u8 >> 2u8) & 3u8 == 1u8,
        (0x94u8 >> 4u8) & 3u8 == 1u8,
        (0x94u8 >> 6u8) & 3u8 == 2u8,
{
}

proof fn lemma_selector_bound(imm: u8, s: u8)
    by (bit_vector)
    ensures
        (imm >> s) & 3u8 < 4,
{
}

/// Permutes the four 64-bit quarters of a 256-bit register: quarter `q` of
/// the result is quarter `(imm >> 2q) & 3` of `a`.
pub fn permute4x64(a: &[u8; 32], imm: u8) -> (p: [u8; 32])
    ensures
        forall|i: int| 0 <= i < 32 ==> #[trigger] p@[i] == a@[8 * ((imm >> (2 * (i / 8)) as u8)
            & 3u8) + i % 8],
{
    let mut p = [0u8; 32];
    for i in 0..32
        invariant
            forall|k: int| 0 <= k < i ==> #[trigger] p@[k] == a@[8 * ((imm >> (2 * (k / 8)) as u8)
                & 3u8) + k % 8],
    {
        let s = ((imm >> (2 * (i / 8)) as u8) & 3) as usize;
        proof {
            lemma_selector_bound(imm, (2 * (i / 8)) as u8);
        }
        p[i] = a[8 * s + i % 8];
    }
    p
}

/// Lane `half` (0 low, 1 high) of a 256-bit register.
pub fn extract_lane(a: &[u8; 32], half: usize) -> (v: [u8; 16])
    requires
        half < 2,
    ensures
        forall|i: int| 0 <= i < 16 ==> #[trigger] v@[i] == a@[16 * half + i],
{
    let mut v = [0u8; 16];
    for i in 0..16
        invariant
            half < 2,
            forall|k: int| 0 <= k < i ==> #[trigger] v@[k] == a@[16 * half + k],
    {
        v[i] = a[16 * half + i];
    }
    v
}

/// Shifts each word right by `n`.
pub fn srli_epi16(w: &[u16; 8], n: u16) -> (out: [u16; 8])
    requires
        n < 16,
    ensures
        forall|j: int| 0 <= j < 8 ==> #[trigger] out@[j] == w@[j] >> n,
{
    let mut out = [0u16; 8];
    for j in 0..8
        invariant
            n < 16,
            forall|k: int| 0 <= k < j ==> #[trigger] out@[k] == w@[k] >> n,
    {
        out[j] = w[j] >> n;
    }
    out
}

/// Word `j` of the result is word `j` of `b` where bit `j` of `imm` is set,
/// else word `j` of `a`.
pub fn blend_epi16(a: &[u16; 8], b: &[u16; 8], imm: u8) -> (out: [u16; 8])
    ensures
        forall|j: int| 0 <= j < 8 ==> #[trigger] out@[j] == if (imm >> j as u8) & 1u8 == 1u8 {
            b@[j]
        } else {
            a@[j]
        },
{
    let mut out = [0u16; 8];
    for j in 0..8
        invariant
            forall|k: int| 0 <= k < j ==> #[trigger] out@[k] == if (imm >> k as u8) & 1u8 == 1u8 {
                b@[k]
            } else {
                a@[k]
            },
    {
        out[j] = if (imm >> j as u8) & 1 == 1 {
            b[j]
        } else {
            a[j]
        };
    }
    out
}

/// Masks each word with `m`.
pub fn and_epi16(a: &[u16; 8], m: u16) -> (out: [u16; 8])
    ensures
        forall|j: int| 0 <= j < 8 ==> #[trigger] out@[j] == a@[j] & m,
{
    let mut out = [0u16; 8];
    for j in 0..8
        invariant
            forall|k: int| 0 <= k < j ==> #[trigger] out@[k] == a@[k] & m,
    {
        out[j] = a[j] & m;
    }
    out
}

proof fn lemma_blend_0xaa()
    by (bit_vector)
    ensures
        (0xAAu8 >> 0u8) & 1u8 == 0u8,
        (0xAAu8 >> 1u8) & 1u8 == 1u8,
        (0xAAu8 >> 2u8) & 1u8 == 0u8,
        (0xAAu8 >> 3u8) & 1u8 == 1u8,
        (0xAAu8 >> 4u8) & 1u8 == 0u8,
        (0xAAu8 >> 5u8) & 1u8 == 1u8,
        (0xAAu8 >> 6u8) & 1u8 == 0u8,
        (0xAAu8 >> 7u8) & 1u8 == 1u8,
{
}

proof fn lemma_spread_words(b0: u8, b1: u8, b2: u8)
    by (bit_vector)
    ensures
        ((b0 as u16 | ((b1 as u16) << 8u16)) & 0xFFFu16) == (b0 + 256 * (b1 % 16)),
        (((b1 as u16 | ((b2 as u16) << 8u16)) >> 4u16) & 0xFFFu16) == (b1 / 16 + 16 * b2),
{
}

/// Decodes the four groups that the control `c` picks from the lane `v`:
/// shuffle, shift the odd words right by 4, blend, mask to 12 bits.
fn decode_spread(v: &[u8; 16], c: &[u8; 16], Ghost(o): Ghost<int>) -> (f: [u16; 8])
    requires
        0 <= o <= 4,
        spreads_groups(c@, o),
    ensures
        forall|k: int| 0 <= k < 8 ==> #[trigger] f@[k] == lane_candidate(v@, o, k),
{
    let s = shuffle_epi8(v, c);
    let w = lane_words(&s);
    let g = srli_epi16(&w, 4);
    let b = blend_epi16(&w, &g, 0xAA);
    let f = and_epi16(&b, 0xFFF);
    proof {
        lemma_blend_0xaa();
        assert forall|k: int| 0 <= k < 8 implies #[trigger] f@[k] == lane_candidate(v@, o, k) by {
            let base = o + 3 * (k / 2);
            lemma_low_nibble(c@[2 * k]);
            lemma_low_nibble(c@[2 * k + 1]);
            assert(s@[2 * k] == v@[c@[2 * k] as int]);
            assert(s@[2 * k + 1] == v@[c@[2 * k + 1] as int]);
            lemma_spread_words(v@[base], v@[base + 1], v@[base + 2]);
            if k % 2 == 0 {
                assert((0xAAu8 >> k as u8) & 1u8 == 0u8) by {
                    assert(k == 0 || k == 2 || k == 4 || k == 6);
                }
            } else {
                assert((0xAAu8 >> k as u8) & 1u8 == 1u8) by {
                    assert(k == 1 || k == 3 || k == 5 || k == 7);
                }
            }
        }
    }
    f
}

/// Candidate `k` of the groups at byte `o` of a lane loaded from `buf[base..]`
/// is candidate `2 * ((base + o) / 3) + k` of `buf`.
proof fn lemma_lane_candidate(buf: Seq<u8>, v: Seq<u8>, base: int, o: int, k: int)
    requires
        0 <= o <= 4,
        0 <= k < 8,
        0 <= base,
        (base + o) % 3 == 0,
        v.len() == 16,
        forall|i: int| 0 <= i < 16 ==> #[trigger] v[i] == buf[base + i],
    ensures
        lane_candidate(v, o, k) == candidate(buf, 2 * ((base + o) / 3) + k),
{
    let g = (base + o) / 3 + k / 2;
    let b = o + 3 * (k / 2);
    assert(base + b == 3 * g);
    assert((2 * ((base + o) / 3) + k) / 2 == g);
    assert((2 * ((base + o) / 3) + k) % 2 == k % 2);
    assert(v[b] == buf[base + b]);
    assert(v[b + 1] == buf[base + b + 1]);
    assert(v[b + 2] == buf[base + b + 2]);
}

/// Decodes the 16 candidates of the 8 groups at `buf[pos..pos + 24]` as a
/// 256-bit register of two lanes: a 32-byte load, the quarter permutation
/// `0x94` (quarters 0, 1, 1, 2), then per lane the spreading shuffle,
/// shift, blend and mask.
pub fn decode_register(buf: &[u8], pos: usize) -> (f: ([u16; 8], [u16; 8]))
    requires
        pos % 3 == 0,
        pos + 32 <= buf@.len(),
    ensures
        forall|k: int| 0 <= k < 8 ==> #[trigger] f.0@[k] == candidate(buf@, 2 * (pos / 3) + k),
        forall|k: int| 0 <= k < 8 ==> #[trigger] f.1@[k] == candidate(buf@, 2 * (pos / 3) + 8 + k),
{
    let a = loadu_si256(buf, pos);
    let p = permute4x64(&a, 0x94);
    let lo = extract_lane(&p, 0);
    let hi = extract_lane(&p, 1);
    let clo = extract_lane(&IDX8, 0);
    let chi = extract_lane(&IDX8, 1);
    proof {
        lemma_idx8_spreads();
        assert(clo@ =~= IDX8@.subrange(0, 16));
        assert(chi@ =~= IDX8@.subrange(16, 32));
        lemma_permute_selectors();
        assert forall|i: int| 0 <= i < 16 implies #[trigger] lo@[i] == buf@[pos + i] by {
            assert(p@[i] == a@[8 * ((0x94u8 >> (2 * (i / 8)) as u8) & 3u8) + i % 8]);
            if i < 8 {
                assert((0x94u8 >> (2 * (i / 8)) as u8) & 3u8 == 0u8);
            } else {
                assert((0x94u8 >> (2 * (i / 8)) as u8) & 3u8 == 1u8);
            }
        }
        assert forall|i: int| 0 <= i < 16 implies #[trigger] hi@[i] == buf@[pos + 8 + i] by {
            assert(p@[16 + i] == a@[8 * ((0x94u8 >> (2 * ((16 + i) / 8)) as u8) & 3u8) + (16 + i)
                % 8]);
            if i < 8 {
                assert((0x94u8 >> (2 * ((16 + i) / 8)) as u8) & 3u8 == 1u8);
            } else {
                assert((0x94u8 >> (2 * ((16 + i) / 8)) as u8) & 3u8 == 2u8);
            }
        }
    }
    let f0 = decode_spread(&lo, &clo, Ghost(0));
    let f1 = decode_spread(&hi, &chi, Ghost(4));
    proof {
        assert forall|k: int| 0 <= k < 8 implies #[trigger] f0@[k] == candidate(
            buf@,
            2 * (pos / 3) + k,
        ) by {
            lemma_lane_candidate(buf@, lo@, pos as int, 0, k);
        }
        assert forall|k: int| 0 <= k < 8 implies #[trigger] f1@[k] == candidate(
            buf@,
            2 * (pos / 3) + 8 + k,
        ) by {
            lemma_lane_candidate(buf@, hi@, pos + 8, 4, k);
            assert((pos + 8 + 4) / 3 == pos / 3 + 4);
        }
    }
    (f0, f1)
}

/// Decodes the 8 candidates of the 4 groups at `buf[pos..pos + 12]` as one
/// lane: a 16-byte load, then the spreading shuffle (the low lane of the
/// control), shift, blend and mask.
pub fn decode_lane(buf: &[u8], pos: usize) -> (f: [u16; 8])
    requires
        pos % 3 == 0,
        pos + 16 <= buf@.len(),
    ensures
        forall|k: int| 0 <= k < 8 ==> #[trigger] f@[k] == candidate(buf@, 2 * (pos / 3) + k),
{
    let v = loadu_si128(buf, pos);
    let c = extract_lane(&IDX8, 0);
    proof {
        lemma_idx8_spreads();
        assert(c@ =~= IDX8@.subrange(0, 16));
    }
    let f = decode_spread(&v, &c, Ghost(0));
    proof {
        assert forall|k: int| 0 <= k < 8 implies #[trigger] f@[k] == candidate(
            buf@,
            2 * (pos / 3) + k,
        ) by {
            lemma_lane_candidate(buf@, v@, pos as int, 0, k);
        }
    }
    f
}

} // verus!
