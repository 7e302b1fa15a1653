use lib::compare::{_mm256_cmpge_epu16, _mm_cmpge_epu16};
use lib::params::{KYBER_N, KYBER_Q, REJ_UNIFORM_AVX_BUFLEN, REJ_UNIFORM_AVX_NBLOCKS, XOF_BLOCKBYTES};
use lib::rejsample::rej_uniform_avx;

/// Straightforward group-by-group sampling, for comparison.
fn reference(buf: &[u8]) -> Vec<i16> {
    let mut out = Vec::new();
    let mut pos = 0;
    while out.len() < KYBER_N && pos + 3 <= REJ_UNIFORM_AVX_BUFLEN {
        let v0 = (buf[pos] as u16) | (((buf[pos + 1] as u16) & 0x0F) << 8);
        let v1 = ((buf[pos + 1] as u16) >> 4) | ((buf[pos + 2] as u16) << 4);
        pos += 3;
        if (v0 as usize) < KYBER_Q {
            out.push(v0 as i16);
        }
        if (v1 as usize) < KYBER_Q && out.len() < KYBER_N {
            out.push(v1 as i16);
        }
    }
    out
}

/// Input length the sampler needs: its vector loads reach 8 bytes past the
/// sampled bytes.
const INPUT_LEN: usize = REJ_UNIFORM_AVX_BUFLEN + 8;

fn candidate_pair(buf: &[u8], pos: usize) -> (u16, u16) {
    let v0 = (buf[pos] as u16) | (((buf[pos + 1] as u16) & 0x0F) << 8);
    let v1 = ((buf[pos + 1] as u16) >> 4) | ((buf[pos + 2] as u16) << 4);
    (v0, v1)
}

/// Writes 8 words at `r[ctr..]`: the accepted candidates of the lane at
/// `buf[pos..pos + 12]`, then the lane's first word with its low byte moved
/// up; returns the advanced count.
fn lane_store(r: &mut [i16], ctr: usize, buf: &[u8], pos: usize) -> usize {
    let mut words = Vec::new();
    for g in 0..4 {
        let (v0, v1) = candidate_pair(buf, pos + 3 * g);
        words.push(v0);
        words.push(v1);
    }
    let kept: Vec<u16> = words.iter().copied().filter(|&v| (v as usize) < KYBER_Q).collect();
    let filler = ((words[0] & 0xFF) << 8) as i16;
    for k in 0..8 {
        r[ctr + k] = if k < kept.len() { kept[k] as i16 } else { filler };
    }
    ctr + kept.len()
}

/// The whole output slice of a sampling call, lane stores included.
fn reference_output(buf: &[u8], init: &[i16]) -> (usize, Vec<i16>) {
    let mut r = init.to_vec();
    let mut ctr = 0;
    let mut pos = 0;
    while ctr + 32 <= KYBER_N && pos + 48 <= REJ_UNIFORM_AVX_BUFLEN {
        for lane in 0..4 {
            ctr = lane_store(&mut r, ctr, buf, pos + 12 * lane);
        }
        pos += 48;
    }
    while ctr + 8 <= KYBER_N && pos + 12 <= REJ_UNIFORM_AVX_BUFLEN {
        ctr = lane_store(&mut r, ctr, buf, pos);
        pos += 12;
    }
    while ctr < KYBER_N && pos + 3 <= REJ_UNIFORM_AVX_BUFLEN {
        let (v0, v1) = candidate_pair(buf, pos);
        pos += 3;
        if (v0 as usize) < KYBER_Q {
            r[ctr] = v0 as i16;
            ctr += 1;
        }
        if (v1 as usize) < KYBER_Q && ctr < KYBER_N {
            r[ctr] = v1 as i16;
            ctr += 1;
        }
    }
    (ctr, r)
}

fn pseudo_random_bytes(seed: u64, n: usize) -> Vec<u8> {
    let mut state = seed;
    (0..n)
        .map(|_| {
            state = state.wrapping_mul(6364136223846793005).wrapping_add(1442695040888963407);
            (state >> 33) as u8
        })
        .collect()
}

fn run(buf: &[u8], rlen: usize, fill: i16) -> (usize, Vec<i16>) {
    let mut r = vec![fill; rlen];
    let ctr = rej_uniform_avx(&mut r, buf);
    (ctr, r)
}

fn check_against_reference(buf: &[u8], rlen: usize) {
    let expected = reference(buf);
    let (ctr, r) = run(buf, rlen, -7);
    assert_eq!(ctr, expected.len());
    assert_eq!(&r[..ctr], &expected[..]);
    assert!(r[..ctr].iter().all(|&x| x >= 0 && (x as usize) < KYBER_Q));
    let (ref_ctr, ref_r) = reference_output(buf, &vec![-7i16; rlen]);
    assert_eq!(ctr, ref_ctr);
    assert_eq!(r, ref_r);
    assert!(r[KYBER_N..].iter().all(|&x| x == -7));
}

#[test]
fn buffer_length_constants() {
    assert_eq!(XOF_BLOCKBYTES, 168);
    assert_eq!(REJ_UNIFORM_AVX_NBLOCKS, 3);
    assert_eq!(REJ_UNIFORM_AVX_BUFLEN, 504);
}

#[test]
fn all_zero_input_fills_the_polynomial_with_zeros() {
    let buf = vec![0u8; INPUT_LEN];
    let (ctr, r) = run(&buf, KYBER_N, 5);
    assert_eq!(ctr, KYBER_N);
    assert!(r.iter().all(|&x| x == 0));
}

#[test]
fn all_ones_input_yields_nothing_but_the_last_lane_filler() {
    let buf = vec![0xFFu8; INPUT_LEN];
    let (ctr, r) = run(&buf, KYBER_N, 5);
    assert_eq!(ctr, 0);
    // The last lane stored holds 0xFFF first: its filler is 0xFF00.
    assert!(r[..8].iter().all(|&x| x == -256));
    assert!(r[8..].iter().all(|&x| x == 5));
}

#[test]
fn one_group_decodes_little_endian_12_bit_values() {
    let mut buf = vec![0xFFu8; INPUT_LEN];
    buf[0] = 0x01;
    buf[1] = 0x23;
    buf[2] = 0x45;
    let (ctr, r) = run(&buf, KYBER_N, -1);
    assert_eq!(ctr, 2);
    assert_eq!(r[0], 0x301);
    assert_eq!(r[1], 0x452);
    assert!(r[2..10].iter().all(|&x| x == -256));
    assert!(r[10..].iter().all(|&x| x == -1));
}

#[test]
fn candidates_at_the_modulus_are_rejected() {
    let mut buf = vec![0xFFu8; INPUT_LEN];
    // 0xD00 = 3328 is accepted, 0xD01 = 3329 is not.
    buf[0] = 0x00;
    buf[1] = 0x0D;
    buf[2] = 0xFF;
    buf[3] = 0x01;
    buf[4] = 0x0D;
    buf[5] = 0xFF;
    // high candidate of the last group: 0xD00 >> 4 = 0xD0, low nibble 0.
    buf[501] = 0xFF;
    buf[502] = 0x0F;
    buf[503] = 0xD0;
    let (ctr, r) = run(&buf, KYBER_N, -1);
    assert_eq!(ctr, 2);
    assert_eq!(r[0], 3328);
    assert_eq!(r[1], 3328);
}

#[test]
fn last_group_is_read() {
    let mut buf = vec![0xFFu8; INPUT_LEN];
    buf[501] = 0x07;
    buf[502] = 0xF0;
    buf[503] = 0x00;
    let (ctr, r) = run(&buf, KYBER_N, -1);
    assert_eq!(ctr, 2);
    assert_eq!(r[0], 7);
    assert_eq!(r[1], 15);
}

#[test]
fn bytes_past_the_buffer_length_are_ignored() {
    // The vector loads read up to 8 bytes past the sampled bytes; those, and
    // anything further, make no difference.
    let base = pseudo_random_bytes(11, REJ_UNIFORM_AVX_BUFLEN);
    let mut a = base.clone();
    a.extend_from_slice(&[0u8; 8]);
    let mut b = base.clone();
    b.extend_from_slice(&[0x55u8; 40]);
    let mut c = base.clone();
    c.extend_from_slice(&[0xFFu8; 8]);
    assert_eq!(run(&a, KYBER_N, 0), run(&b, KYBER_N, 0));
    assert_eq!(run(&a, KYBER_N, 0), run(&c, KYBER_N, 0));
}

#[test]
fn filler_is_the_low_byte_of_the_last_lane_moved_up() {
    // Only the first group is accepted; the last lane stored starts with the
    // low candidate of bytes 492, 493: 0x234, whose low byte is 0x34.
    let mut buf = vec![0xFFu8; INPUT_LEN];
    buf[0] = 0x05;
    buf[1] = 0x00;
    buf[2] = 0x00;
    buf[492] = 0x34;
    buf[493] = 0xF2;
    let (ctr, r) = run(&buf, KYBER_N + 4, 1);
    assert_eq!(ctr, 3);
    assert_eq!(&r[..3], &[5, 0, 0x234]);
    // That lane was stored at offset 2, so its filler reaches index 10.
    assert!(r[3..10].iter().all(|&x| x == 0x3400));
    assert!(r[10..].iter().all(|&x| x == 1));
}

#[test]
fn output_past_a_full_polynomial_is_untouched() {
    let buf = vec![0u8; INPUT_LEN];
    let (ctr, r) = run(&buf, KYBER_N + 10, 9);
    assert_eq!(ctr, KYBER_N);
    assert!(r[..KYBER_N].iter().all(|&x| x == 0));
    assert!(r[KYBER_N..].iter().all(|&x| x == 9));
}

#[test]
fn cap_reached_inside_a_group_drops_its_second_value() {
    // 128 groups hold 256 candidates; reject exactly one of them, so that
    // the 129th group's first candidate fills the polynomial.
    let mut buf = vec![0u8; INPUT_LEN];
    for i in 0..REJ_UNIFORM_AVX_BUFLEN {
        buf[i] = (i % 7) as u8;
    }
    buf[30] = 0xFF;
    buf[31] = 0x0F;
    buf[384] = 0x11;
    buf[385] = 0x22;
    buf[386] = 0x03;
    let expected = reference(&buf);
    assert_eq!(expected.len(), KYBER_N);
    assert_eq!(expected[KYBER_N - 1], 0x211);
    let (ctr, r) = run(&buf, KYBER_N, -1);
    assert_eq!(ctr, KYBER_N);
    assert_eq!(r[KYBER_N - 1], 0x211);
    assert_eq!(&r[..], &expected[..]);
}

#[test]
fn matches_group_by_group_sampling_on_pseudo_random_input() {
    for seed in 0..200u64 {
        let buf = pseudo_random_bytes(seed, INPUT_LEN);
        check_against_reference(&buf, KYBER_N);
    }
}

#[test]
fn matches_group_by_group_sampling_when_input_runs_short() {
    // Mostly rejected candidates: the input runs out before the polynomial fills.
    for seed in 0..100u64 {
        let mut buf = pseudo_random_bytes(seed, INPUT_LEN);
        for (i, b) in buf.iter_mut().enumerate() {
            if i % 3 != 0 {
                *b |= 0xE0;
            }
        }
        let expected = reference(&buf);
        assert!(expected.len() < KYBER_N);
        check_against_reference(&buf, KYBER_N + 3);
    }
}

#[test]
fn cmpge_over_sixteen_lanes() {
    let mut a = [0u16; 16];
    let mut b = [0u16; 16];
    for i in 0..16 {
        a[i] = (i as u16) * 4096;
        b[i] = 30000;
    }
    b[0] = 0;
    b[15] = 0xFFFF;
    a[15] = 0xFFFF;
    let m = _mm256_cmpge_epu16(a, b);
    for i in 0..16 {
        let expected = if a[i] >= b[i] { 0xFFFF } else { 0 };
        assert_eq!(m[i], expected);
    }
    assert_eq!(m[0], 0xFFFF);
    assert_eq!(m[1], 0);
    assert_eq!(m[8], 0xFFFF);
    assert_eq!(m[15], 0xFFFF);
}

#[test]
fn cmpge_over_eight_lanes_is_unsigned() {
    let a = [0x8000u16, 1, 2, 3, 0, 0xFFFF, 7, 7];
    let b = [0x7FFFu16, 2, 2, 1, 0x8000, 0, 8, 6];
    let m = _mm_cmpge_epu16(a, b);
    assert_eq!(m, [0xFFFF, 0, 0xFFFF, 0xFFFF, 0, 0xFFFF, 0, 0xFFFF]);
}
