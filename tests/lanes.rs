use bit_doubler::chunks::split_into_chunks;
use bit_doubler::dump::array_bits;
use bit_doubler::generate::generate_array;
use bit_doubler::lanes::{shuffle, splat, zip_hi, zip_lo};
use bit_doubler::scalar::double_array_sisd;
use bit_doubler::vector::{
    double_array_lanes, double_array_lanes_into, double_array_lookup_neon_u4_slice,
    throughput_test, LaneKernel,
};

const KERNELS: [LaneKernel; 3] =
    [LaneKernel::TableLookup, LaneKernel::BitInterleave, LaneKernel::MaskedSquares];

#[test]
fn single_byte_takes_the_byte_path() {
    for kernel in KERNELS {
        for regs in 1..=4 {
            assert_eq!(double_array_lanes(kernel, &[0b1010_0000], 0, regs), vec![0b1100_1100, 0]);
            assert_eq!(double_array_lanes(kernel, &[0b1010_0000], 1, regs), vec![0b1100_1100, 0]);
        }
    }
}

#[test]
fn any_head_and_step_gives_the_same_result() {
    let input = generate_array(150);
    let expected = double_array_sisd(&input);
    for kernel in KERNELS {
        for regs in 1..=4 {
            for head in [0usize, 1, 3, 15, 16, 17, 63, 149, 150, 1000] {
                assert_eq!(double_array_lanes(kernel, &input, head, regs), expected);
            }
        }
    }
}

#[test]
fn writes_into_a_given_buffer() {
    let input = generate_array(70);
    let expected = double_array_sisd(&input);
    let mut out = vec![0xAAu8; 140];
    double_array_lookup_neon_u4_slice(&input, &mut out);
    assert_eq!(out, expected);
    let mut out = vec![0x55u8; 140];
    double_array_lanes_into(LaneKernel::MaskedSquares, &input, &mut out, 5, 2);
    assert_eq!(out, expected);
}

#[test]
fn register_operations() {
    let table: [u8; 16] = core::array::from_fn(|i| i as u8 * 2);
    let mut idx = splat(3);
    idx[1] = 15;
    idx[2] = 16;
    let r = shuffle(&table, &idx);
    assert_eq!(r[0], 6);
    assert_eq!(r[1], 30);
    assert_eq!(r[2], 0);
    let a: [u8; 16] = core::array::from_fn(|i| i as u8);
    let b: [u8; 16] = core::array::from_fn(|i| 100 + i as u8);
    assert_eq!(zip_lo(&a, &b)[..4], [0, 100, 1, 101]);
    assert_eq!(zip_hi(&a, &b)[..4], [8, 108, 9, 109]);
}

#[test]
fn byte_duplication_baseline() {
    assert_eq!(throughput_test(&[1, 2, 3]), vec![1, 1, 2, 2, 3, 3]);
    assert!(throughput_test(&[]).is_empty());
}

#[test]
fn chunk_split_examples() {
    let data: Vec<u32> = (0..10).collect();
    let chunks = split_into_chunks(&data, 3);
    assert_eq!(chunks, vec![&data[0..4], &data[4..8], &data[8..10]]);
    let chunks = split_into_chunks(&data, 8);
    assert_eq!(chunks.len(), 8);
    assert_eq!(chunks[0], &data[0..2]);
    assert_eq!(chunks[4], &data[8..10]);
    assert!(chunks[5].is_empty() && chunks[7].is_empty());
    let chunks = split_into_chunks(&data, 1);
    assert_eq!(chunks, vec![&data[..]]);
    let empty: [u8; 0] = [];
    assert_eq!(split_into_chunks(&empty, 4).len(), 4);
}

#[test]
fn bits_of_a_sequence() {
    assert_eq!(array_bits(&[0b1010_0001]), vec![1, 0, 1, 0, 0, 0, 0, 1]);
    assert_eq!(array_bits(&[0xFF, 0x00]).len(), 16);
    let input = generate_array(9);
    let doubled = double_array_sisd(&input);
    let bits = array_bits(&input);
    let doubled_bits = array_bits(&doubled);
    for t in 0..doubled_bits.len() {
        assert_eq!(doubled_bits[t], bits[t / 2]);
    }
}
