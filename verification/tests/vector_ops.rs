use lib::decode::{blend_epi16, decode_lane, decode_register, permute4x64, IDX8};
use lib::lanes::{byte_sign_mask, gather_even_bits, load_row, pack_lane, popcount_byte, shuffle_epi8};

#[test]
fn packing_table_row_lists_set_bits() {
    // 0b1010_0101: words 0, 2, 5, 7.
    let c = load_row(0xA5);
    assert_eq!(&c[..8], &[0, 4, 10, 14, 0xFF, 0xFF, 0xFF, 0xFF]);
    assert_eq!(&c[8..], &[0u8; 8]);
    assert_eq!(&load_row(0)[..8], &[0xFFu8; 8]);
    assert_eq!(&load_row(0xFF)[..8], &[0, 2, 4, 6, 8, 10, 12, 14]);
}

#[test]
fn shuffle_clears_bytes_whose_control_has_the_high_bit() {
    let mut v = [0u8; 16];
    for i in 0..16 {
        v[i] = 100 + i as u8;
    }
    let mut c = [0u8; 16];
    c[0] = 0x80;
    c[1] = 0x13; // low nibble 3
    c[2] = 15;
    let out = shuffle_epi8(&v, &c);
    assert_eq!(out[0], 0);
    assert_eq!(out[1], 103);
    assert_eq!(out[2], 115);
    assert_eq!(out[3], 100);
}

#[test]
fn pack_lane_fills_with_the_first_low_byte_moved_up() {
    let lane = [0x0ABCu16, 5, 4000, 7, 0x0FFF, 9, 3328, 3329];
    // accepted: 0xABC (2748), 5, 7, 9, 3328
    let good = 0b0110_1011u32;
    let out = pack_lane(&lane, good);
    assert_eq!(out, [0x0ABC, 5, 7, 9, 3328, 0xBC00, 0xBC00, 0xBC00]);
    assert_eq!(popcount_byte(good), 5);
}

#[test]
fn quarter_permutation_0x94_repeats_the_second_quarter() {
    let mut a = [0u8; 32];
    for i in 0..32 {
        a[i] = i as u8;
    }
    let p = permute4x64(&a, 0x94);
    let expected: Vec<u8> = (0..8).chain(8..16).chain(8..16).chain(16..24).collect();
    assert_eq!(&p[..], &expected[..]);
}

#[test]
fn blend_0xaa_takes_odd_words_from_the_second() {
    let a = [1u16, 2, 3, 4, 5, 6, 7, 8];
    let b = [10u16, 20, 30, 40, 50, 60, 70, 80];
    assert_eq!(blend_epi16(&a, &b, 0xAA), [1, 20, 3, 40, 5, 60, 7, 80]);
}

#[test]
fn spreading_control_and_decoders_give_12_bit_candidates() {
    assert_eq!(&IDX8[..6], &[0, 1, 1, 2, 3, 4]);
    let mut buf = vec![0u8; 40];
    // groups: 01 23 45 -> 0x301, 0x452 ; 67 89 AB -> 0x967, 0xAB8
    buf[0..6].copy_from_slice(&[0x01, 0x23, 0x45, 0x67, 0x89, 0xAB]);
    buf[12..15].copy_from_slice(&[0xFF, 0xFF, 0x0F]);
    let lane = decode_lane(&buf, 0);
    assert_eq!(&lane[..4], &[0x301, 0x452, 0x967, 0xAB8]);
    let (lo, hi) = decode_register(&buf, 0);
    assert_eq!(lo, lane);
    assert_eq!(&hi[..2], &[0xFFF, 0x0FF]);
}

#[test]
fn byte_mask_and_even_bit_gather() {
    let t = [0xFFFFu16, 0, 0xFFFF, 0, 0, 0, 0, 0xFFFF];
    let m = byte_sign_mask(&t);
    assert_eq!(m, 0b1100_0000_0011_0011);
    assert_eq!(gather_even_bits(m), 0b1000_0101);
}
