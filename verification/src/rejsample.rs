//! Rejection sampling of polynomial coefficients, eight candidates to a lane.
//!
//! The sampler works through its input in three phases: blocks of 48 bytes
//! (32 candidates in four lanes of eight), then blocks of 12 bytes (one
//! lane), then single 3-byte groups. For each lane it compares the candidates
//! with `q`, gathers the results in a bit mask, packs the accepted candidates
//! to the front of the lane and stores the whole lane at the end of the
//! output, advancing the end by the number of accepted candidates.
use vstd::prelude::*;

use crate::decode::{decode_lane, decode_register};
use crate::lanes::{
    byte_sign_mask, compare_lane, decode_group, gather_even_bits, lane_mask_matches, mask_bit,
    packed_sign_mask, sample_lane,
};
use crate::params::{lemma_buflen_value, KYBER_N, KYBER_Q, REJ_UNIFORM_AVX_BUFLEN};
use crate::spec::{
    accepted, accepted_count, candidate, candidate_count, candidates, fill_word, is_accepted,
    last_lane, lemma_accepted_append, lemma_accepted_in_range, lemma_accepted_len,
    lemma_accepted_prefix, lemma_accepted_push, lemma_candidates_take, narrow_end, output_tail,
    packed_lane, sampled, sampled_count, sampled_output, wide_blocks_from,
};

verus! {

/// Where the sampler stands after reading `buf[0..pos]` with `ctr`
/// coefficients written, when its last lane store ended at `end` with filler
/// `fill`: the output holds the coefficients accepted so far, cut to the
/// polynomial's size, then the filler up to `end`, then what it held before.
spec fn output_state(
    buf: Seq<u8>,
    orig: Seq<i16>,
    r: Seq<i16>,
    pos: int,
    ctr: int,
    end: int,
    fill: i16,
) -> bool {
    let done = accepted(candidates(buf, (2 * (pos / 3)) as nat));
    &&& 0 <= pos <= REJ_UNIFORM_AVX_BUFLEN
    &&& pos % 3 == 0
    &&& 0 <= ctr <= KYBER_N
    &&& ctr <= done.len()
    &&& ctr < KYBER_N ==> ctr == done.len()
    &&& end <= ctr + 8
    &&& end <= KYBER_N
    &&& orig.len() >= KYBER_N
    &&& r == done.take(ctr) + output_tail(orig, ctr, end, fill)
}

/// The candidates of the groups after the first `g` extend the first `2g`.
proof fn lemma_candidates_extend(buf: Seq<u8>, g: nat, f: Seq<u16>)
    requires
        forall|i: int| 0 <= i < f.len() ==> #[trigger] f[i] == candidate(buf, 2 * g + i),
    ensures
        candidates(buf, 2 * g + f.len()) == candidates(buf, 2 * g) + f,
{
    assert(candidates(buf, 2 * g + f.len()) =~= candidates(buf, 2 * g) + f);
}

/// Storing a packed lane of the next 8 candidates at `ctr` moves the state
/// 12 bytes on, with the lane's store as the last one.
proof fn lemma_lane_step(
    buf: Seq<u8>,
    orig: Seq<i16>,
    r: Seq<i16>,
    r2: Seq<i16>,
    pos: int,
    ctr: int,
    end: int,
    fill: i16,
    lane: Seq<u16>,
)
    requires
        output_state(buf, orig, r, pos, ctr, end, fill),
        ctr + 8 <= KYBER_N,
        pos + 12 <= REJ_UNIFORM_AVX_BUFLEN,
        lane.len() == 8,
        forall|i: int| 0 <= i < 8 ==> #[trigger] lane[i] == candidate(buf, 2 * (pos / 3) + i),
        r2 == r.take(ctr) + packed_lane(lane) + r.skip(ctr + 8),
    ensures
        output_state(buf, orig, r2, pos + 12, ctr + accepted(lane).len(), ctr + 8, fill_word(lane[0])),
{
    let g = (pos / 3) as nat;
    let done = accepted(candidates(buf, 2 * g));
    lemma_candidates_extend(buf, g, lane);
    lemma_accepted_append(candidates(buf, 2 * g), lane);
    lemma_accepted_len(lane);
    assert((pos + 12) / 3 == g + 4);
    assert(done.take(ctr) =~= done);
    let a = accepted(lane).len();
    let tail = output_tail(orig, ctr, end, fill);
    assert(r.take(ctr) =~= done);
    assert(r.skip(ctr + 8) =~= orig.skip(ctr + 8)) by {
        if end > ctr {
            assert(tail.skip(8) =~= orig.skip(ctr + 8));
        } else {
            assert(tail.skip(8) =~= orig.skip(ctr + 8));
        }
    }
    let done2 = accepted(candidates(buf, 2 * g + 8));
    assert(done2 =~= done + accepted(lane));
    assert(done2.take(ctr + a) =~= done2);
    assert(r2 =~= done2.take(ctr + a) + output_tail(orig, ctr + a, ctr + 8, fill_word(lane[0])));
}

/// Writing one coefficient at `ctr` appends it to the output prefix and
/// shortens the filler behind it by one slot.
proof fn lemma_scalar_write(
    done: Seq<i16>,
    orig: Seq<i16>,
    ctr: int,
    end: int,
    fill: i16,
    v: i16,
)
    requires
        done.len() == ctr,
        0 <= ctr < orig.len(),
        end <= orig.len(),
    ensures
        (done + output_tail(orig, ctr, end, fill)).update(ctr, v) == done.push(v) + output_tail(
            orig,
            ctr + 1,
            end,
            fill,
        ),
{
    assert((done + output_tail(orig, ctr, end, fill)).update(ctr, v) =~= done.push(v)
        + output_tail(orig, ctr + 1, end, fill));
}

/// One block of the first phase: 48 bytes at `pos`, as two 256-bit registers
/// of 16 candidates each, stored lane by lane in input order.
fn sample_wide_block(
    r: &mut [i16],
    ctr: usize,
    buf: &[u8],
    pos: usize,
    Ghost(orig): Ghost<Seq<i16>>,
    Ghost(end): Ghost<int>,
    Ghost(fill): Ghost<i16>,
) -> (new_ctr: usize)
    requires
        output_state(buf@, orig, old(r)@, pos as int, ctr as int, end, fill),
        ctr + 32 <= KYBER_N,
        pos + 48 <= REJ_UNIFORM_AVX_BUFLEN,
        buf@.len() >= REJ_UNIFORM_AVX_BUFLEN + 8,
        old(r)@.len() == orig.len(),
    ensures
        output_state(
            buf@,
            orig,
            final(r)@,
            pos + 48,
            new_ctr as int,
            (accepted_count(buf@, (2 * (pos / 3) + 24) as nat) + 8) as int,
            fill_word(candidate(buf@, 2 * (pos / 3) + 24)),
        ),
        final(r)@.len() == old(r)@.len(),
{
    // The two registers: candidates 0..16 and 16..32 of the block, each as a
    // low and a high lane.
    let (f0lo, f0hi) = decode_register(buf, pos);
    let (f1lo, f1hi) = decode_register(buf, pos + 24);
    let g0lo = compare_lane(&f0lo);
    let g0hi = compare_lane(&f0hi);
    let g1lo = compare_lane(&f1lo);
    let g1hi = compare_lane(&f1hi);
    let good = packed_sign_mask(&g0lo, &g0hi, &g1lo, &g1hi);
    let m0 = (good >> 0) & 0xFF;
    let m1 = (good >> 16) & 0xFF;
    let m2 = (good >> 8) & 0xFF;
    let m3 = (good >> 24) & 0xFF;
    proof {
        lemma_lane_masks(good, m0, m1, m2, m3, g0lo@, g0hi@, g1lo@, g1hi@, f0lo@, f0hi@, f1lo@, f1hi@);
        assert((pos + 12) / 3 == pos / 3 + 4);
        assert((pos + 24) / 3 == pos / 3 + 8);
        assert((pos + 36) / 3 == pos / 3 + 12);
    }
    let ghost r0 = r@;
    let c1 = sample_lane(r, ctr, &f0lo, m0);
    proof {
        lemma_lane_step(buf@, orig, r0, r@, pos as int, ctr as int, end, fill, f0lo@);
        lemma_accepted_len(f0lo@);
    }
    let ghost r1 = r@;
    let c2 = sample_lane(r, c1, &f0hi, m1);
    proof {
        lemma_lane_step(buf@, orig, r1, r@, pos + 12, c1 as int, ctr + 8, fill_word(f0lo@[0]), f0hi@);
        lemma_accepted_len(f0hi@);
    }
    let ghost r2 = r@;
    let c3 = sample_lane(r, c2, &f1lo, m2);
    proof {
        lemma_lane_step(buf@, orig, r2, r@, pos + 24, c2 as int, c1 + 8, fill_word(f0hi@[0]), f1lo@);
        lemma_accepted_len(f1lo@);
    }
    let ghost r3 = r@;
    let c4 = sample_lane(r, c3, &f1hi, m3);
    proof {
        lemma_lane_step(buf@, orig, r3, r@, pos + 36, c3 as int, c2 + 8, fill_word(f1lo@[0]), f1hi@);
        let g = (pos / 3) as nat;
        assert(2 * ((pos + 36) / 3) == 2 * g + 24);
        assert(f1hi@[0] == candidate(buf@, (2 * g + 24) as int));
    }
    c4
}

/// The lane masks cut from a packed sign mask tell which candidates of each
/// lane are accepted.
proof fn lemma_lane_masks(
    good: u32,
    m0: u32,
    m1: u32,
    m2: u32,
    m3: u32,
    g0lo: Seq<u16>,
    g0hi: Seq<u16>,
    g1lo: Seq<u16>,
    g1hi: Seq<u16>,
    f0lo: Seq<u16>,
    f0hi: Seq<u16>,
    f1lo: Seq<u16>,
    f1hi: Seq<u16>,
)
    requires
        m0 == (good >> 0u32) & 0xFFu32,
        m1 == (good >> 16u32) & 0xFFu32,
        m2 == (good >> 8u32) & 0xFFu32,
        m3 == (good >> 24u32) & 0xFFu32,
        forall|j: int| 0 <= j < 8 ==> (#[trigger] mask_bit(good, j) == ((g0lo[j] >> 15u16) & 1u16
            == 1u16)),
        forall|j: int| 0 <= j < 8 ==> (#[trigger] mask_bit(good, 8 + j) == ((g1lo[j] >> 15u16)
            & 1u16 == 1u16)),
        forall|j: int| 0 <= j < 8 ==> (#[trigger] mask_bit(good, 16 + j) == ((g0hi[j] >> 15u16)
            & 1u16 == 1u16)),
        forall|j: int| 0 <= j < 8 ==> (#[trigger] mask_bit(good, 24 + j) == ((g1hi[j] >> 15u16)
            & 1u16 == 1u16)),
        forall|i: int| 0 <= i < 8 ==> #[trigger] g0lo[i] == if is_accepted(f0lo[i]) {
            0xFFFFu16
        } else {
            0u16
        },
        forall|i: int| 0 <= i < 8 ==> #[trigger] g0hi[i] == if is_accepted(f0hi[i]) {
            0xFFFFu16
        } else {
            0u16
        },
        forall|i: int| 0 <= i < 8 ==> #[trigger] g1lo[i] == if is_accepted(f1lo[i]) {
            0xFFFFu16
        } else {
            0u16
        },
        forall|i: int| 0 <= i < 8 ==> #[trigger] g1hi[i] == if is_accepted(f1hi[i]) {
            0xFFFFu16
        } else {
            0u16
        },
    ensures
        m0 < 256 && m1 < 256 && m2 < 256 && m3 < 256,
        lane_mask_matches(m0, f0lo),
        lane_mask_matches(m1, f0hi),
        lane_mask_matches(m2, f1lo),
        lane_mask_matches(m3, f1hi),
{
    lemma_sign_bits();
    assert(m0 < 256 && m1 < 256 && m2 < 256 && m3 < 256) by (bit_vector)
        requires
            m0 == (good >> 0u32) & 0xFFu32,
            m1 == (good >> 16u32) & 0xFFu32,
            m2 == (good >> 8u32) & 0xFFu32,
            m3 == (good >> 24u32) & 0xFFu32,
    ;
    assert forall|j: int| 0 <= j < 8 implies (#[trigger] mask_bit(m0, j) <==> is_accepted(f0lo[j]))
        by {
        lemma_lane_bit(good, 0, j as u32);
    }
    assert forall|j: int| 0 <= j < 8 implies (#[trigger] mask_bit(m1, j) <==> is_accepted(f0hi[j]))
        by {
        lemma_lane_bit(good, 16, j as u32);
    }
    assert forall|j: int| 0 <= j < 8 implies (#[trigger] mask_bit(m2, j) <==> is_accepted(f1lo[j]))
        by {
        lemma_lane_bit(good, 8, j as u32);
    }
    assert forall|j: int| 0 <= j < 8 implies (#[trigger] mask_bit(m3, j) <==> is_accepted(f1hi[j]))
        by {
        lemma_lane_bit(good, 24, j as u32);
    }
}

/// The sign bit, and bit 7, of a comparison word.
proof fn lemma_sign_bits()
    ensures
        (0xFFFFu16 >> 15u16) & 1u16 == 1u16,
        (0u16 >> 15u16) & 1u16 == 0u16,
        (0xFFFFu16 >> 7u16) & 1u16 == 1u16,
        (0u16 >> 7u16) & 1u16 == 0u16,
{
    assert((0xFFFFu16 >> 15u16) & 1u16 == 1u16) by (bit_vector);
    assert((0u16 >> 15u16) & 1u16 == 0u16) by (bit_vector);
    assert((0xFFFFu16 >> 7u16) & 1u16 == 1u16) by (bit_vector);
    assert((0u16 >> 7u16) & 1u16 == 0u16) by (bit_vector);
}

proof fn lemma_lane_bit(good: u32, s: u32, k: u32)
    requires
        s <= 24,
        k < 8,
    ensures
        mask_bit((good >> s) & 0xFFu32, k as int) == mask_bit(good, s + k),
{
    assert((((((good >> s) & 0xFFu32) >> k) & 1u32) == 1u32) == ((((good >> ((s + k) as u32))
        & 1u32) == 1u32))) by (bit_vector)
        requires
            s <= 24,
            k < 8,
    ;
}

/// One block of the second phase: 12 bytes at `pos`, one lane of 8
/// candidates.
fn sample_narrow_block(
    r: &mut [i16],
    ctr: usize,
    buf: &[u8],
    pos: usize,
    Ghost(orig): Ghost<Seq<i16>>,
    Ghost(end): Ghost<int>,
    Ghost(fill): Ghost<i16>,
) -> (new_ctr: usize)
    requires
        output_state(buf@, orig, old(r)@, pos as int, ctr as int, end, fill),
        ctr + 8 <= KYBER_N,
        pos + 12 <= REJ_UNIFORM_AVX_BUFLEN,
        buf@.len() >= REJ_UNIFORM_AVX_BUFLEN + 8,
        old(r)@.len() == orig.len(),
    ensures
        output_state(
            buf@,
            orig,
            final(r)@,
            pos + 12,
            new_ctr as int,
            (accepted_count(buf@, (2 * (pos / 3)) as nat) + 8) as int,
            fill_word(candidate(buf@, 2 * (pos / 3))),
        ),
        final(r)@.len() == old(r)@.len(),
{
    let f = decode_lane(buf, pos);
    let t = compare_lane(&f);
    let bytes = byte_sign_mask(&t);
    let good = gather_even_bits(bytes);
    proof {
        lemma_sign_bits();
        assert forall|j: int| 0 <= j < 8 implies (#[trigger] mask_bit(good, j) <==> is_accepted(
            f@[j],
        )) by {
            assert(mask_bit(bytes, 2 * j) == ((t@[j] >> 7u16) & 1u16 == 1u16));
        }
    }
    let ghost r0 = r@;
    let c = sample_lane(r, ctr, &f, good);
    proof {
        lemma_lane_step(buf@, orig, r0, r@, pos as int, ctr as int, end, fill, f@);
        let g = (pos / 3) as nat;
        assert(accepted(candidates(buf@, 2 * g)).len() == ctr);
        assert(f@[0] == candidate(buf@, (2 * g) as int));
    }
    c
}

/// Fills `r` with uniformly sampled coefficients in `[0, q)` drawn from the
/// XOF output `buf`, and returns how many it wrote.
///
/// The first `REJ_UNIFORM_AVX_BUFLEN` bytes of `buf` are read as 3-byte
/// groups, each holding two little-endian 12-bit candidates; the candidates
/// below `q` are written to `r[0..]` in input order until `KYBER_N` of them
/// are written or the input is used up. The vector loads of the block
/// phases read up to 8 bytes past `REJ_UNIFORM_AVX_BUFLEN`, so `buf` must
/// hold them; their values make no difference. The block phases store whole lanes
/// of 8 words, so past the returned count `r` holds, up to the end of the
/// last lane store, the filler word of that lane (see `sampled_output`), and
/// beyond it what it held before.
pub fn rej_uniform_avx(r: &mut [i16], buf: &[u8]) -> (ctr: usize)
    requires
        old(r)@.len() >= KYBER_N,
        buf@.len() >= REJ_UNIFORM_AVX_BUFLEN + 8,
    ensures
        ctr == sampled_count(buf@),
        ctr <= KYBER_N,
        final(r)@ == sampled_output(buf@, old(r)@),
        final(r)@.len() == old(r)@.len(),
        final(r)@.take(ctr as int) == sampled(buf@).take(ctr as int),
        forall|i: int| 0 <= i < ctr ==> 0 <= #[trigger] final(r)@[i] < KYBER_Q,
{
    let mut ctr: usize = 0;
    let mut pos: usize = 0;
    let ghost orig = r@;
    let ghost mut end: int = 0;
    let ghost mut fill: i16 = 0;
    proof {
        lemma_buflen_value();
        assert(candidates(buf@, 0) =~= Seq::<u16>::empty());
        assert(r@ =~= accepted(candidates(buf@, 0)).take(0) + output_tail(orig, 0, 0, fill));
    }
    while ctr <= KYBER_N - 32 && pos <= REJ_UNIFORM_AVX_BUFLEN - 48
        invariant
            REJ_UNIFORM_AVX_BUFLEN == 504,
            buf@.len() >= REJ_UNIFORM_AVX_BUFLEN + 8,
            orig.len() >= KYBER_N,
            r@.len() == orig.len(),
            output_state(buf@, orig, r@, pos as int, ctr as int, end, fill),
            pos % 48 == 0,
            wide_blocks_from(buf@, 0) == wide_blocks_from(buf@, (pos / 48) as nat),
            pos > 0 ==> end == accepted_count(buf@, (2 * (pos / 3) - 8) as nat) + 8 && fill
                == fill_word(candidate(buf@, 2 * (pos / 3) - 8)),
        decreases REJ_UNIFORM_AVX_BUFLEN - pos,
    {
        proof {
            let k = (pos / 48) as nat;
            assert(2 * (pos / 3) == 32 * k);
            assert(wide_blocks_from(buf@, k) == wide_blocks_from(buf@, k + 1));
        }
        ctr = sample_wide_block(r, ctr, buf, pos, Ghost(orig), Ghost(end), Ghost(fill));
        proof {
            end = (accepted_count(buf@, (2 * (pos / 3) + 24) as nat) + 8) as int;
            fill = fill_word(candidate(buf@, 2 * (pos / 3) + 24));
            assert(2 * ((pos + 48) / 3) - 8 == 2 * (pos / 3) + 24);
            assert((pos + 48) / 48 == pos / 48 + 1);
        }
        pos += 48;
    }
    let ghost p1 = pos;
    proof {
        let k = (pos / 48) as nat;
        assert(2 * (pos / 3) == 32 * k);
        if pos == 0 {
            assert(candidates(buf@, 0) =~= Seq::<u16>::empty());
        }
        assert(wide_blocks_from(buf@, k) == k);
        assert(p1 == 48 * wide_blocks_from(buf@, 0));
    }
    while ctr <= KYBER_N - 8 && pos <= REJ_UNIFORM_AVX_BUFLEN - 12
        invariant
            REJ_UNIFORM_AVX_BUFLEN == 504,
            buf@.len() >= REJ_UNIFORM_AVX_BUFLEN + 8,
            orig.len() >= KYBER_N,
            r@.len() == orig.len(),
            output_state(buf@, orig, r@, pos as int, ctr as int, end, fill),
            p1 == 48 * wide_blocks_from(buf@, 0),
            p1 >= 48,
            p1 <= pos,
            (pos - p1) % 12 == 0,
            narrow_end(buf@, p1 as nat) == narrow_end(buf@, pos as nat),
            pos == p1 ==> end == accepted_count(buf@, (2 * p1 / 3 - 8) as nat) + 8 && fill
                == fill_word(candidate(buf@, 2 * p1 / 3 - 8)),
            pos > p1 ==> end == accepted_count(buf@, (2 * (pos - 12) / 3) as nat) + 8 && fill
                == fill_word(candidate(buf@, 2 * (pos - 12) / 3)),
        decreases REJ_UNIFORM_AVX_BUFLEN - pos,
    {
        proof {
            assert(2 * pos / 3 == 2 * (pos / 3));
            assert(narrow_end(buf@, pos as nat) == narrow_end(buf@, (pos + 12) as nat));
        }
        ctr = sample_narrow_block(r, ctr, buf, pos, Ghost(orig), Ghost(end), Ghost(fill));
        proof {
            end = (accepted_count(buf@, (2 * (pos / 3)) as nat) + 8) as int;
            fill = fill_word(candidate(buf@, 2 * (pos / 3)));
            assert(2 * (pos + 12 - 12) / 3 == 2 * (pos / 3));
        }
        pos += 12;
    }
    proof {
        assert(2 * pos / 3 == 2 * (pos / 3));
        assert(narrow_end(buf@, pos as nat) == pos);
        assert(2 * p1 / 3 - 8 >= 0);
        assert(end == accepted_count(buf@, last_lane(buf@)) + 8);
        assert(fill == fill_word(candidate(buf@, last_lane(buf@) as int)));
    }
    while ctr < KYBER_N && pos <= REJ_UNIFORM_AVX_BUFLEN - 3
        invariant
            REJ_UNIFORM_AVX_BUFLEN == 504,
            buf@.len() >= REJ_UNIFORM_AVX_BUFLEN + 8,
            orig.len() >= KYBER_N,
            r@.len() == orig.len(),
            output_state(buf@, orig, r@, pos as int, ctr as int, end, fill),
            end == accepted_count(buf@, last_lane(buf@)) + 8,
            fill == fill_word(candidate(buf@, last_lane(buf@) as int)),
        decreases REJ_UNIFORM_AVX_BUFLEN - pos,
    {
        let ghost g = (pos / 3) as nat;
        let ghost done = accepted(candidates(buf@, 2 * g));
        let (val0, val1) = decode_group(buf, pos);
        pos += 3;
        proof {
            assert(candidate(buf@, (2 * g) as int) == val0);
            assert(candidate(buf@, (2 * g + 1) as int) == val1);
            assert(candidates(buf@, 2 * g + 1) =~= candidates(buf@, 2 * g).push(val0));
            assert(candidates(buf@, 2 * g + 2) =~= candidates(buf@, 2 * g + 1).push(val1));
            lemma_accepted_push(candidates(buf@, 2 * g), val0);
            lemma_accepted_push(candidates(buf@, 2 * g + 1), val1);
            assert(pos / 3 == g + 1);
            assert(done.take(ctr as int) =~= done);
        }
        if (val0 as usize) < KYBER_Q {
            proof {
                lemma_scalar_write(done, orig, ctr as int, end, fill, val0 as i16);
            }
            r[ctr] = val0 as i16;
            ctr += 1;
        }
        let ghost mid = accepted(candidates(buf@, 2 * g + 1));
        proof {
            assert(mid.len() == ctr);
            assert(r@ == mid + output_tail(orig, ctr as int, end, fill));
        }
        if (val1 as usize) < KYBER_Q && ctr < KYBER_N {
            proof {
                lemma_scalar_write(mid, orig, ctr as int, end, fill, val1 as i16);
            }
            r[ctr] = val1 as i16;
            ctr += 1;
        }
        proof {
            let done2 = accepted(candidates(buf@, 2 * g + 2));
            assert(ctr <= done2.len());
            assert(ctr < KYBER_N ==> ctr == done2.len());
            if ctr == done2.len() {
                assert(done2.take(ctr as int) =~= done2);
                assert(r@ == done2 + output_tail(orig, ctr as int, end, fill));
            } else {
                assert(done2.take(ctr as int) =~= mid);
                assert(r@ == mid + output_tail(orig, ctr as int, end, fill));
            }
            assert(r@ == done2.take(ctr as int) + output_tail(orig, ctr as int, end, fill));
        }
    }
    proof {
        let g = (pos / 3) as nat;
        let all = candidates(buf@, candidate_count());
        let done = accepted(candidates(buf@, 2 * g));
        assert(candidate_count() == 336);
        lemma_candidates_take(buf@, 2 * g, candidate_count());
        lemma_accepted_prefix(all, 2 * g as int);
        lemma_accepted_in_range(all);
        if ctr < KYBER_N {
            assert(pos == REJ_UNIFORM_AVX_BUFLEN);
            assert(all =~= candidates(buf@, 2 * g));
        }
        assert(done.take(ctr as int) =~= sampled(buf@).take(ctr as int));
        assert(r@.take(ctr as int) =~= sampled(buf@).take(ctr as int));
        assert forall|i: int| 0 <= i < ctr implies 0 <= #[trigger] r@[i] < KYBER_Q by {
            assert(r@[i] == r@.take(ctr as int)[i]);
            assert(sampled(buf@).take(ctr as int)[i] == sampled(buf@)[i]);
        }
    }
    ctr
}

} // verus!
