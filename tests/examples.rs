use bit_doubler::chunks::double_array_sisd_opt_rayon;
use bit_doubler::lookups::{double_array_lookup_u16, double_array_lookup_u4, double_array_lookup_u8};
use bit_doubler::multipliers::{double_array_ben, double_array_benk};
use bit_doubler::opt::{double_array_sisd_opt, double_array_sisd_opt_64, double_array_sisd_opt_iter};
use bit_doubler::scalar::double_array_sisd;
use bit_doubler::squares::{
    double_array_sisd_laura, double_array_sisd_laura_orig, double_array_sisd_laura_u32,
};
use bit_doubler::vector::{
    double_array_lookup_avx512_u4, double_array_lookup_avx_u4, double_array_lookup_neon_u4,
    double_array_lookup_neon_u4_unrolled, double_array_simd, double_array_simd_laura,
};

/// Doubles by reading the input as a bitstream, most significant bit first.
fn bitstream_double(input: &[u8]) -> Vec<u8> {
    let mut out = vec![0u8; input.len() * 2];
    for t in 0..input.len() * 16 {
        let src = t / 2;
        let bit = (input[src / 8] >> (7 - src % 8)) & 1;
        out[t / 8] |= bit << (7 - t % 8);
    }
    out
}

#[test]
fn single_byte_example() {
    let input = vec![0b1010_0000u8];
    let expected = vec![0b1100_1100u8, 0b0000_0000];
    assert_eq!(double_array_sisd(&input), expected);
    assert_eq!(double_array_sisd_opt(&input), expected);
    assert_eq!(double_array_sisd_opt_iter(&input), expected);
    assert_eq!(double_array_sisd_laura_orig(&input), expected);
    assert_eq!(double_array_sisd_laura(&input), expected);
    assert_eq!(double_array_ben(&input), expected);
    assert_eq!(double_array_lookup_u4(&input), expected);
    assert_eq!(double_array_lookup_u8(&input), expected);
    assert_eq!(double_array_lookup_u16(&input), expected);
    assert_eq!(double_array_lookup_avx_u4(&input), expected);
    assert_eq!(double_array_lookup_avx512_u4(&input), expected);
    assert_eq!(double_array_lookup_neon_u4(&input), expected);
    assert_eq!(double_array_lookup_neon_u4_unrolled(&input), expected);
    assert_eq!(double_array_simd(&input), expected);
    assert_eq!(double_array_simd_laura(&input), expected);
    assert_eq!(double_array_sisd_opt_rayon(&input), expected);
}

#[test]
fn four_byte_example_every_kernel() {
    let input = vec![0xFFu8, 0x00, 0xFF, 0x00];
    let expected = vec![0xFFu8, 0xFF, 0x00, 0x00, 0xFF, 0xFF, 0x00, 0x00];
    assert_eq!(double_array_sisd(&input), expected);
    assert_eq!(double_array_sisd_opt(&input), expected);
    assert_eq!(double_array_sisd_opt_iter(&input), expected);
    assert_eq!(double_array_sisd_opt_64(&input), expected);
    assert_eq!(double_array_sisd_laura_orig(&input), expected);
    assert_eq!(double_array_sisd_laura(&input), expected);
    assert_eq!(double_array_sisd_laura_u32(&input), expected);
    assert_eq!(double_array_ben(&input), expected);
    assert_eq!(double_array_benk(&input), expected);
    assert_eq!(double_array_lookup_u4(&input), expected);
    assert_eq!(double_array_lookup_u8(&input), expected);
    assert_eq!(double_array_lookup_u16(&input), expected);
    assert_eq!(double_array_lookup_avx_u4(&input), expected);
    assert_eq!(double_array_lookup_avx512_u4(&input), expected);
    assert_eq!(double_array_lookup_neon_u4(&input), expected);
    assert_eq!(double_array_lookup_neon_u4_unrolled(&input), expected);
    assert_eq!(double_array_simd(&input), expected);
    assert_eq!(double_array_simd_laura(&input), expected);
    assert_eq!(double_array_sisd_opt_rayon(&input), expected);
}

#[test]
fn empty_input_gives_empty_output() {
    let input: Vec<u8> = Vec::new();
    assert!(double_array_sisd(&input).is_empty());
    assert!(double_array_sisd_opt(&input).is_empty());
    assert!(double_array_sisd_opt_iter(&input).is_empty());
    assert!(double_array_sisd_opt_64(&input).is_empty());
    assert!(double_array_sisd_laura_orig(&input).is_empty());
    assert!(double_array_sisd_laura(&input).is_empty());
    assert!(double_array_sisd_laura_u32(&input).is_empty());
    assert!(double_array_ben(&input).is_empty());
    assert!(double_array_benk(&input).is_empty());
    assert!(double_array_lookup_u4(&input).is_empty());
    assert!(double_array_lookup_u8(&input).is_empty());
    assert!(double_array_lookup_u16(&input).is_empty());
    assert!(double_array_lookup_avx_u4(&input).is_empty());
    assert!(double_array_lookup_avx512_u4(&input).is_empty());
    assert!(double_array_lookup_neon_u4_unrolled(&input).is_empty());
    assert!(double_array_simd(&input).is_empty());
    assert!(double_array_simd_laura(&input).is_empty());
    assert!(double_array_sisd_opt_rayon(&input).is_empty());
}

#[test]
fn exact_values_of_single_bytes() {
    assert_eq!(double_array_sisd(&vec![0x01]), vec![0x00, 0x03]);
    assert_eq!(double_array_sisd(&vec![0x80]), vec![0xC0, 0x00]);
    assert_eq!(double_array_sisd(&vec![0x5A]), vec![0x33, 0xCC]);
    assert_eq!(double_array_sisd(&vec![0xFF]), vec![0xFF, 0xFF]);
    assert_eq!(double_array_sisd(&vec![0x12, 0x34]), vec![0x03, 0x0C, 0x0F, 0x30]);
}

#[test]
fn every_byte_matches_the_bitstream_reading() {
    let input: Vec<u8> = (0..=255u8).collect();
    assert_eq!(double_array_sisd(&input), bitstream_double(&input));
    assert_eq!(double_array_ben(&input), bitstream_double(&input));
    assert_eq!(double_array_sisd_laura(&input), bitstream_double(&input));
    assert_eq!(double_array_sisd_laura_orig(&input), bitstream_double(&input));
    assert_eq!(double_array_benk(&input), bitstream_double(&input));
    assert_eq!(double_array_sisd_laura_u32(&input), bitstream_double(&input));
}

#[test]
fn word_kernels_keep_byte_order() {
    let input = vec![0x01u8, 0x02, 0x04, 0x80];
    let expected = vec![0x00u8, 0x03, 0x00, 0x0C, 0x00, 0x30, 0xC0, 0x00];
    assert_eq!(double_array_benk(&input), expected);
    assert_eq!(double_array_sisd_opt_64(&input), expected);
    assert_eq!(double_array_sisd_laura_u32(&input), expected);
}

#[test]
fn pair_table_handles_an_odd_last_byte() {
    let input = vec![0xF0u8, 0x0F, 0xA5];
    assert_eq!(double_array_lookup_u16(&input), vec![0xFF, 0x00, 0x00, 0xFF, 0xCC, 0x33]);
}
