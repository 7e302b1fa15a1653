//! The mathematical model of uniform rejection sampling.
//!
//! The input bytes are read as a sequence of 3-byte groups; each group
//! `(b0, b1, b2)` holds two little-endian 12-bit candidates. A candidate is
//! accepted when it is below `q`; the accepted candidates, in input order,
//! are the sampled coefficients.
use vstd::prelude::*;

use crate::params::{lemma_buflen_value, KYBER_N, KYBER_Q, REJ_UNIFORM_AVX_BUFLEN};

verus! {

/// The first candidate of a group: bits 0..12 of `b0 | b1 << 8`.
pub open spec fn low_candidate(b0: u8, b1: u8) -> u16 {
    (b0 + 256 * (b1 % 16)) as u16
}

/// The second candidate of a group: bits 12..24 of `b0 | b1 << 8 | b2 << 16`.
pub open spec fn high_candidate(b1: u8, b2: u8) -> u16 {
    (b1 / 16 + 16 * b2) as u16
}

/// The `i`-th 12-bit candidate that `buf` encodes: candidate `2g` and `2g + 1`
/// come from bytes `3g`, `3g + 1` and `3g + 2`.
pub open spec fn candidate(buf: Seq<u8>, i: int) -> u16 {
    let g = i / 2;
    if i % 2 == 0 {
        low_candidate(buf[3 * g], buf[3 * g + 1])
    } else {
        high_candidate(buf[3 * g + 1], buf[3 * g + 2])
    }
}

/// The first `n` candidates of `buf`.
pub open spec fn candidates(buf: Seq<u8>, n: nat) -> Seq<u16> {
    Seq::new(n, |i: int| candidate(buf, i))
}

/// Whether a candidate is a coefficient in `[0, q)`.
pub open spec fn is_accepted(v: u16) -> bool {
    v < KYBER_Q
}

/// The accepted candidates of `s`, in order, as coefficients.
pub open spec fn accepted(s: Seq<u16>) -> Seq<i16>
    decreases s.len(),
{
    if s.len() == 0 {
        Seq::empty()
    } else {
        let rest = accepted(s.drop_last());
        if is_accepted(s.last()) {
            rest.push(s.last() as i16)
        } else {
            rest
        }
    }
}

/// Number of candidates that the sampler's input holds.
pub open spec fn candidate_count() -> nat {
    (2 * REJ_UNIFORM_AVX_BUFLEN / 3) as nat
}

/// Every coefficient that the first `REJ_UNIFORM_AVX_BUFLEN` bytes of `buf`
/// yield, before the polynomial's capacity is taken into account.
pub open spec fn sampled(buf: Seq<u8>) -> Seq<i16> {
    accepted(candidates(buf, candidate_count()))
}

/// How many coefficients one sampling call produces: all that the input
/// yields, but at most a polynomial's worth.
pub open spec fn sampled_count(buf: Seq<u8>) -> nat {
    if sampled(buf).len() < KYBER_N {
        sampled(buf).len()
    } else {
        KYBER_N as nat
    }
}

/// How many of the first `n` candidates of `buf` are accepted.
pub open spec fn accepted_count(buf: Seq<u8>, n: nat) -> nat {
    accepted(candidates(buf, n)).len()
}

/// The number of 48-byte blocks the first phase reads, given that it has read
/// `k`: it goes on while a whole block of input is left and 32 more
/// coefficients fit in the polynomial.
pub open spec fn wide_blocks_from(buf: Seq<u8>, k: nat) -> nat
    decreases REJ_UNIFORM_AVX_BUFLEN - 48 * k,
{
    if 48 * k + 48 <= REJ_UNIFORM_AVX_BUFLEN && accepted_count(buf, 32 * k) + 32 <= KYBER_N {
        wide_blocks_from(buf, k + 1)
    } else {
        k
    }
}

/// The byte offset at which the second phase stops, given that it stands at
/// `pos`: it reads 12-byte blocks while one is left and 8 more coefficients
/// fit in the polynomial.
pub open spec fn narrow_end(buf: Seq<u8>, pos: nat) -> nat
    decreases REJ_UNIFORM_AVX_BUFLEN - pos,
{
    if pos + 12 <= REJ_UNIFORM_AVX_BUFLEN && accepted_count(buf, 2 * pos / 3) + 8 <= KYBER_N {
        narrow_end(buf, pos + 12)
    } else {
        pos
    }
}

/// The index of the first candidate of the last 8-candidate lane that the two
/// block phases store: the last lane of the last 12-byte block if the second
/// phase reads any, else the last lane of the last 48-byte block.
pub open spec fn last_lane(buf: Seq<u8>) -> nat {
    let p1 = 48 * wide_blocks_from(buf, 0);
    let p2 = narrow_end(buf, p1);
    if p2 > p1 {
        (2 * (p2 - 12) / 3) as nat
    } else {
        (2 * p1 / 3 - 8) as nat
    }
}

/// The word that a lane store writes in the slots past the lane's accepted
/// candidates: the low byte of the lane's first word, moved to the high byte.
pub open spec fn fill_word(first: u16) -> i16 {
    ((first & 0xFFu16) << 8u16) as i16
}

/// A lane of 8 candidates as the block phases store it: the accepted
/// candidates packed to the front, the remaining slots filled with
/// `fill_word` of the lane's first candidate.
pub open spec fn packed_lane(lane: Seq<u16>) -> Seq<i16> {
    accepted(lane) + Seq::new((8 - accepted(lane).len()) as nat, |i: int| fill_word(lane[0]))
}

/// The output slice after `ctr` coefficients are in place, when the last lane
/// store ended at `end` with filler `fill`: the filler up to `end`, then the
/// slice as it was.
pub open spec fn output_tail(orig: Seq<i16>, ctr: int, end: int, fill: i16) -> Seq<i16> {
    if end > ctr {
        Seq::new((end - ctr) as nat, |i: int| fill) + orig.skip(end)
    } else {
        orig.skip(ctr)
    }
}

/// The whole output slice after one sampling call on `buf`, when it held
/// `orig` before: the sampled coefficients, then what the last lane store left
/// past them, then `orig`.
pub open spec fn sampled_output(buf: Seq<u8>, orig: Seq<i16>) -> Seq<i16> {
    let ctr = sampled_count(buf);
    let lane = last_lane(buf);
    sampled(buf).take(ctr as int) + output_tail(
        orig,
        ctr as int,
        (accepted_count(buf, lane) + 8) as int,
        fill_word(candidate(buf, lane as int)),
    )
}

/// The two candidates of a group are its 24 bits cut in two: each is below
/// `2^12`, and the first plus `2^12` times the second is the little-endian
/// value of the three bytes.
pub proof fn lemma_group_candidates(b0: u8, b1: u8, b2: u8)
    ensures
        low_candidate(b0, b1) < 4096,
        high_candidate(b1, b2) < 4096,
        low_candidate(b0, b1) + 4096 * high_candidate(b1, b2) == b0 + 256 * b1 + 65536 * b2,
{
}

/// A candidate is accepted exactly when it is below `q = 3329`.
pub proof fn lemma_is_accepted(v: u16)
    ensures
        is_accepted(v) <==> v < 3329,
{
}

/// Appending one candidate appends it to the accepted sequence exactly when
/// it is below `q`.
pub proof fn lemma_accepted_push(s: Seq<u16>, v: u16)
    ensures
        accepted(s.push(v)) == (if is_accepted(v) {
            accepted(s).push(v as i16)
        } else {
            accepted(s)
        }),
{
    assert(s.push(v).drop_last() =~= s);
}

/// Filtering distributes over concatenation: sampling two pieces of input one
/// after the other gives what sampling them at once gives.
pub proof fn lemma_accepted_append(s: Seq<u16>, t: Seq<u16>)
    ensures
        accepted(s + t) == accepted(s) + accepted(t),
    decreases t.len(),
{
    if t.len() == 0 {
        assert(s + t =~= s);
        assert(accepted(s) + accepted(t) =~= accepted(s));
    } else {
        lemma_accepted_append(s, t.drop_last());
        assert((s + t).drop_last() =~= s + t.drop_last());
        if is_accepted(t.last()) {
            assert(accepted(s + t) =~= accepted(s) + accepted(t));
        } else {
            assert(accepted(s + t) =~= accepted(s) + accepted(t));
        }
    }
}

/// No more coefficients come out than candidates go in.
pub proof fn lemma_accepted_len(s: Seq<u16>)
    ensures
        accepted(s).len() <= s.len(),
    decreases s.len(),
{
    if s.len() > 0 {
        lemma_accepted_len(s.drop_last());
    }
}

/// Every coefficient that comes out lies in `[0, q)`.
pub proof fn lemma_accepted_in_range(s: Seq<u16>)
    ensures
        forall|i: int| 0 <= i < accepted(s).len() ==> 0 <= #[trigger] accepted(s)[i] < KYBER_Q,
    decreases s.len(),
{
    if s.len() > 0 {
        let rest = s.drop_last();
        lemma_accepted_in_range(rest);
        assert forall|i: int| 0 <= i < accepted(s).len() implies 0 <= #[trigger] accepted(s)[i]
            < KYBER_Q by {
            if i < accepted(rest).len() {
                assert(accepted(s)[i] == accepted(rest)[i]);
            }
        }
    }
}

/// Sampling a prefix of the candidates gives a prefix of what sampling all of
/// them gives.
pub proof fn lemma_accepted_prefix(s: Seq<u16>, n: int)
    requires
        0 <= n <= s.len(),
    ensures
        accepted(s.take(n)).len() <= accepted(s).len(),
        accepted(s).take(accepted(s.take(n)).len() as int) == accepted(s.take(n)),
{
    assert(s =~= s.take(n) + s.skip(n));
    lemma_accepted_append(s.take(n), s.skip(n));
    assert(accepted(s).take(accepted(s.take(n)).len() as int) =~= accepted(s.take(n)));
}

/// The first `m` candidates are a prefix of the first `n`.
pub proof fn lemma_candidates_take(buf: Seq<u8>, m: nat, n: nat)
    requires
        m <= n,
    ensures
        candidates(buf, n).take(m as int) == candidates(buf, m),
{
    assert(candidates(buf, n).take(m as int) =~= candidates(buf, m));
}

/// Inputs with the same candidates count alike up to any point within them.
proof fn lemma_accepted_count_agree(a: Seq<u8>, b: Seq<u8>, n: nat)
    requires
        candidates(a, candidate_count()) == candidates(b, candidate_count()),
        n <= candidate_count(),
    ensures
        accepted_count(a, n) == accepted_count(b, n),
        candidates(a, n) == candidates(b, n),
{
    lemma_candidates_take(a, n, candidate_count());
    lemma_candidates_take(b, n, candidate_count());
}

/// Inputs with the same candidates run the first phase alike.
proof fn lemma_wide_blocks_agree(a: Seq<u8>, b: Seq<u8>, k: nat)
    requires
        candidates(a, candidate_count()) == candidates(b, candidate_count()),
    ensures
        wide_blocks_from(a, k) == wide_blocks_from(b, k),
    decreases REJ_UNIFORM_AVX_BUFLEN - 48 * k,
{
    lemma_buflen_value();
    if 48 * k + 48 <= REJ_UNIFORM_AVX_BUFLEN {
        lemma_accepted_count_agree(a, b, 32 * k);
        lemma_wide_blocks_agree(a, b, k + 1);
    }
}

/// Inputs with the same candidates run the second phase alike.
proof fn lemma_narrow_end_agree(a: Seq<u8>, b: Seq<u8>, pos: nat)
    requires
        candidates(a, candidate_count()) == candidates(b, candidate_count()),
    ensures
        narrow_end(a, pos) == narrow_end(b, pos),
    decreases REJ_UNIFORM_AVX_BUFLEN - pos,
{
    lemma_buflen_value();
    if pos + 12 <= REJ_UNIFORM_AVX_BUFLEN {
        lemma_accepted_count_agree(a, b, (2 * pos / 3) as nat);
        lemma_narrow_end_agree(a, b, pos + 12);
    }
}

/// The sampler reads no byte past `REJ_UNIFORM_AVX_BUFLEN`: two inputs that
/// agree on their first `REJ_UNIFORM_AVX_BUFLEN` bytes sample alike and leave
/// the output slice alike.
pub proof fn lemma_sampled_reads_buflen_prefix(a: Seq<u8>, b: Seq<u8>, orig: Seq<i16>)
    requires
        a.len() >= REJ_UNIFORM_AVX_BUFLEN,
        b.len() >= REJ_UNIFORM_AVX_BUFLEN,
        a.take(REJ_UNIFORM_AVX_BUFLEN as int) == b.take(REJ_UNIFORM_AVX_BUFLEN as int),
    ensures
        sampled(a) == sampled(b),
        sampled_count(a) == sampled_count(b),
        sampled_output(a, orig) == sampled_output(b, orig),
{
    lemma_buflen_value();
    assert forall|k: int| 0 <= k < REJ_UNIFORM_AVX_BUFLEN implies a[k] == b[k] by {
        let n = REJ_UNIFORM_AVX_BUFLEN as int;
        assert(a.take(n)[k] == a[k]);
        assert(b.take(n)[k] == b[k]);
        assert(a.take(n)[k] == b.take(n)[k]);
    }
    assert(candidates(a, candidate_count()) =~= candidates(b, candidate_count()));
    lemma_wide_blocks_agree(a, b, 0);
    let p1 = 48 * wide_blocks_from(a, 0);
    lemma_narrow_end_agree(a, b, p1);
    let lane = last_lane(a);
    assert(last_lane(b) == lane);
    assert(lane < candidate_count()) by {
        lemma_wide_blocks_bound(a, 0);
        lemma_narrow_end_bound(a, p1);
    }
    lemma_accepted_count_agree(a, b, lane);
    assert(candidates(a, candidate_count())[lane as int] == candidates(b, candidate_count())[lane as int]);
}

/// The first phase reads at most 10 blocks, and at least one more than
/// `k` when one fits.
proof fn lemma_wide_blocks_bound(buf: Seq<u8>, k: nat)
    requires
        48 * k <= REJ_UNIFORM_AVX_BUFLEN,
    ensures
        k <= wide_blocks_from(buf, k),
        48 * wide_blocks_from(buf, k) <= REJ_UNIFORM_AVX_BUFLEN,
        k == 0 ==> wide_blocks_from(buf, k) >= 1,
    decreases REJ_UNIFORM_AVX_BUFLEN - 48 * k,
{
    lemma_buflen_value();
    if k == 0 {
        assert(candidates(buf, 0) =~= Seq::<u16>::empty());
    }
    if 48 * k + 48 <= REJ_UNIFORM_AVX_BUFLEN {
        lemma_wide_blocks_bound(buf, k + 1);
    }
}

/// The second phase stays within the input and moves in 12-byte steps.
proof fn lemma_narrow_end_bound(buf: Seq<u8>, pos: nat)
    requires
        pos <= REJ_UNIFORM_AVX_BUFLEN,
    ensures
        pos <= narrow_end(buf, pos) <= REJ_UNIFORM_AVX_BUFLEN,
        (narrow_end(buf, pos) - pos) % 12 == 0,
    decreases REJ_UNIFORM_AVX_BUFLEN - pos,
{
    if pos + 12 <= REJ_UNIFORM_AVX_BUFLEN {
        lemma_narrow_end_bound(buf, pos + 12);
    }
}

} // verus!
