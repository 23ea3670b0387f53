use bit_doubler::chunks::{double_array_lookup_neon_u4_multithread, expand_parallel};
use bit_doubler::expander::{check_kernel, first_mismatch, BitExpander};
use bit_doubler::generate::generate_array;
use bit_doubler::scalar::double_array_sisd;
use bit_doubler::vector::LaneKernel;

fn all_kernels() -> Vec<BitExpander> {
    vec![
        BitExpander::Scalar,
        BitExpander::Spread16,
        BitExpander::Spread16Append,
        BitExpander::Spread64,
        BitExpander::FourSquares,
        BitExpander::ThreeSquares,
        BitExpander::WordSquares,
        BitExpander::Multiply,
        BitExpander::WordMultiply,
        BitExpander::Lookup4,
        BitExpander::Lookup8,
        BitExpander::Lookup16,
        BitExpander::Lanes(LaneKernel::TableLookup),
        BitExpander::Lanes(LaneKernel::BitInterleave),
        BitExpander::Lanes(LaneKernel::MaskedSquares),
        BitExpander::Chunked,
    ]
}

fn pool(threads: usize) -> rayon::ThreadPool {
    rayon::ThreadPoolBuilder::new().num_threads(threads).build().unwrap()
}

#[test]
fn every_length_up_to_130_doubles_and_agrees() {
    for len in 0..=130usize {
        let input = generate_array(len);
        assert_eq!(input.len(), len);
        let expected = double_array_sisd(&input);
        assert_eq!(expected.len(), 2 * len);
        for kernel in all_kernels() {
            if !kernel.accepts_len(len) {
                assert!(len % 4 != 0);
                continue;
            }
            let out = kernel.expand(&input);
            assert_eq!(out.len(), 2 * len, "{:?} at length {}", kernel, len);
            assert_eq!(out, expected, "{:?} at length {}", kernel, len);
            assert_eq!(check_kernel(kernel, &input), None);
        }
    }
}

#[test]
fn generated_input_through_every_kernel() {
    let input = generate_array(1024);
    let expected = double_array_sisd(&input);
    assert_eq!(expected.len(), 2048);
    let mut outputs: Vec<Vec<u8>> = Vec::new();
    for kernel in all_kernels() {
        outputs.push(kernel.expand(&input));
    }
    let workers = pool(8);
    for n in [1usize, 4, 8] {
        outputs.push(expand_parallel(&input, &workers, n));
    }
    for out in &outputs {
        assert_eq!(out.len(), 2048);
        assert_eq!(out, &expected);
    }
}

#[test]
fn chunked_dispatch_for_every_chunk_count() {
    let workers = pool(4);
    for len in [0usize, 1, 2, 7, 16, 17, 33, 100] {
        let input = generate_array(len);
        let expected = double_array_sisd(&input);
        for n in 1..=len.max(1) + 3 {
            assert_eq!(expand_parallel(&input, &workers, n), expected, "len {} chunks {}", len, n);
        }
        assert_eq!(double_array_lookup_neon_u4_multithread(&input, &workers), expected);
    }
}

#[test]
fn chunked_dispatch_fills_the_output() {
    let workers = pool(2);
    let input = vec![0xFFu8; 40];
    let out = expand_parallel(&input, &workers, 3);
    assert_eq!(out, vec![0xFFu8; 80]);
    let input = vec![0x0Fu8, 0xF0, 0x81];
    assert_eq!(expand_parallel(&input, &workers, 2), vec![0x00, 0xFF, 0xFF, 0x00, 0xC0, 0x03]);
}

#[test]
fn generated_arrays_repeat() {
    let a = generate_array(64);
    let b = generate_array(64);
    assert_eq!(a, b);
    assert_eq!(generate_array(0), Vec::<u8>::new());
    assert_eq!(&generate_array(100)[..64], &a[..]);
}

#[test]
fn mismatch_offsets() {
    assert_eq!(first_mismatch(&[1, 2, 3], &[1, 2, 3]), None);
    assert_eq!(first_mismatch(&[1, 2, 3], &[1, 9, 3]), Some(1));
    assert_eq!(first_mismatch(&[1, 2], &[1, 2, 3]), Some(2));
    assert_eq!(first_mismatch(&[], &[]), None);
    assert_eq!(first_mismatch(&[7], &[]), Some(0));
}

#[test]
fn word_kernels_refuse_partial_groups() {
    assert!(!BitExpander::Spread64.accepts_len(5));
    assert!(!BitExpander::WordSquares.accepts_len(2));
    assert!(!BitExpander::WordMultiply.accepts_len(7));
    assert!(BitExpander::WordMultiply.accepts_len(8));
    assert!(BitExpander::Lookup16.accepts_len(7));
}
