//! Word-parallel kernels: bits are spread apart by mask-and-shift steps of
//! halving width, then every bit is copied onto its left neighbour.
use vstd::prelude::*;
use crate::model::{
    double_byte, double_word, doubled, doubled_at, lemma_doubled_byte_step,
    lemma_doubled_full,
};
use crate::pack::{
    be_u32_at, zeroed_doubled, lemma_double_byte_split, lemma_doubled_word_step, load_be_u32, push_be_u64,
};

verus! {

/// Spreads the bits of a byte in a 16-bit word, with a first step that moves
/// the (empty) high byte out of the way.
fn spread_u16_full(b: u8) -> (r: u16)
    ensures
        r == double_byte(b),
{
    let num: u16 = b as u16;
    let num: u16 = num & 0b0000_0000_1111_1111 | (num & 0b1111_1111_0000_0000) << 8;
    let num: u16 = num & 0b0000_1111_0000_1111 | (num & 0b1111_0000_1111_0000) << 4;
    let num: u16 = num & 0b0011_0011_0011_0011 | (num & 0b1100_1100_1100_1100) << 2;
    let num: u16 = num & 0b0101_0101_0101_0101 | (num & 0b1010_1010_1010_1010) << 1;
    let num: u16 = num | num << 1;
    assert(num == double_byte(b)) by (bit_vector)
        requires
            num == ({
                let n = b as u16;
                let n = n & 0x00ffu16 | (n & 0xff00u16) << 8u16;
                let n = n & 0x0f0fu16 | (n & 0xf0f0u16) << 4u16;
                let n = n & 0x3333u16 | (n & 0xccccu16) << 2u16;
                let n = n & 0x5555u16 | (n & 0xaaaau16) << 1u16;
                n | n << 1u16
            }),
    ;
    num
}

/// Spreads the bits of a byte in a 16-bit word in three steps.
fn spread_u16(b: u8) -> (r: u16)
    ensures
        r == double_byte(b),
{
    let num: u16 = b as u16;
    let num: u16 = num & 0b0000_1111_0000_1111 | (num & 0b1111_0000_1111_0000) << 4;
    let num: u16 = num & 0b0011_0011_0011_0011 | (num & 0b1100_1100_1100_1100) << 2;
    let num: u16 = num & 0b0101_0101_0101_0101 | (num & 0b1010_1010_1010_1010) << 1;
    let num: u16 = num | num << 1;
    assert(num == double_byte(b)) by (bit_vector)
        requires
            num == ({
                let n = b as u16;
                let n = n & 0x0f0fu16 | (n & 0xf0f0u16) << 4u16;
                let n = n & 0x3333u16 | (n & 0xccccu16) << 2u16;
                let n = n & 0x5555u16 | (n & 0xaaaau16) << 1u16;
                n | n << 1u16
            }),
    ;
    num
}

/// Spreads the bits of a big-endian 32-bit word in a 64-bit word.
fn spread_u64(x: u32) -> (r: u64)
    ensures
        r == double_word(x),
{
    let num: u64 = x as u64;
    let num: u64 = num & 0x0000_ffff_0000_ffff | (num & 0xffff_0000_ffff_0000) << 16;
    let num: u64 = num & 0x00ff_00ff_00ff_00ff | (num & 0xff00_ff00_ff00_ff00) << 8;
    let num: u64 = num & 0x0f0f_0f0f_0f0f_0f0f | (num & 0xf0f0_f0f0_f0f0_f0f0) << 4;
    let num: u64 = num & 0x3333_3333_3333_3333 | (num & 0xcccc_cccc_cccc_cccc) << 2;
    let num: u64 = num & 0x5555_5555_5555_5555 | (num & 0xaaaa_aaaa_aaaa_aaaa) << 1;
    let num: u64 = num | num << 1;
    assert(num == double_word(x)) by (bit_vector)
        requires
            num == ({
                let n = x as u64;
                let n = n & 0x0000_ffff_0000_ffffu64 | (n & 0xffff_0000_ffff_0000u64) << 16u64;
                let n = n & 0x00ff_00ff_00ff_00ffu64 | (n & 0xff00_ff00_ff00_ff00u64) << 8u64;
                let n = n & 0x0f0f_0f0f_0f0f_0f0fu64 | (n & 0xf0f0_f0f0_f0f0_f0f0u64) << 4u64;
                let n = n & 0x3333_3333_3333_3333u64 | (n & 0xcccc_cccc_cccc_ccccu64) << 2u64;
                let n = n & 0x5555_5555_5555_5555u64 | (n & 0xaaaa_aaaa_aaaa_aaaau64) << 1u64;
                n | n << 1u64
            }),
    ;
    num
}

/// Doubles every bit of `array` with a 16-bit mask-and-shift spread per byte,
/// writing each output byte exactly once into a buffer of the final size.
pub fn double_array_sisd_opt(array: &Vec<u8>) -> (r: Vec<u8>)
    ensures
        r@ == doubled(array@),
        r@.len() == 2 * array@.len(),
{
    let size = array.len();
    let mut doubled_array: Vec<u8> = zeroed_doubled(size);
    let out_len = doubled_array.len();
    let mut i: usize = 0;
    while i < size
        invariant
            size == array@.len(),
            out_len == 2 * size,
            i <= size,
            doubled_array@.len() == 2 * size,
            doubled_array@.subrange(0, 2 * i) == doubled(array@).subrange(0, 2 * i),
        decreases size - i,
    {
        let num = spread_u16_full(array[i]);
        proof {
            lemma_double_byte_split(array@[i as int]);
            lemma_doubled_byte_step(array@, i as int);
        }
        let ghost before = doubled_array@;
        doubled_array[i * 2 + 1] = (#[verifier::truncate] ((num & 0b0000_0000_1111_1111) as u8));
        doubled_array[i * 2] = (#[verifier::truncate] (((num & 0b1111_1111_0000_0000) >> 8) as u8));
        assert((num & 0x00ffu16) as u8 == num as u8 && ((num & 0xff00u16) >> 8u16) as u8 == (num
            >> 8u16) as u8) by (bit_vector);
        assert(doubled_array@.subrange(0, 2 * i) =~= before.subrange(0, 2 * i));
        assert(doubled_array@.subrange(0, 2 * i + 2) =~= doubled_array@.subrange(0, 2 * i).push(
            doubled_array@[2 * i],
        ).push(doubled_array@[2 * i + 1]));
        i = i + 1;
    }
    proof {
        lemma_doubled_full(array@);
    }
    assert(doubled_array@ =~= doubled_array@.subrange(0, 2 * size as int));
    doubled_array
}

/// Doubles every bit of `array`, spreading each byte in a 16-bit word and
/// emitting its two bytes, most significant first.
pub fn double_array_sisd_opt_iter(array: &[u8]) -> (r: Vec<u8>)
    ensures
        r@ == doubled(array@),
        r@.len() == 2 * array@.len(),
{
    let mut doubled_array: Vec<u8> = Vec::new();
    let mut i: usize = 0;
    while i < array.len()
        invariant
            i <= array@.len(),
            doubled_array@ == doubled(array@).subrange(0, 2 * i),
        decreases array@.len() - i,
    {
        let num = spread_u16(array[i]);
        proof {
            lemma_double_byte_split(array@[i as int]);
            lemma_doubled_byte_step(array@, i as int);
        }
        assert(((num & 0xff00u16) >> 8u16) as u8 == (num >> 8u16) as u8 && (num & 0x00ffu16) as u8
            == num as u8) by (bit_vector);
        doubled_array.push((#[verifier::truncate] (((num & 0b1111_1111_0000_0000) >> 8) as u8)));
        doubled_array.push((#[verifier::truncate] ((num & 0b0000_0000_1111_1111) as u8)));
        i = i + 1;
    }
    proof {
        lemma_doubled_full(array@);
    }
    doubled_array
}

/// Doubles every bit of `array`, four bytes at a time: each group is read as a
/// big-endian word, spread in a 64-bit word and written back big-endian.
pub fn double_array_sisd_opt_64(array: &Vec<u8>) -> (r: Vec<u8>)
    requires
        array@.len() % 4 == 0,
    ensures
        r@ == doubled(array@),
        r@.len() == 2 * array@.len(),
{
    let size = array.len();
    let mut doubled_array: Vec<u8> = Vec::new();
    let mut i: usize = 0;
    while i < size
        invariant
            size == array@.len(),
            size % 4 == 0,
            i % 4 == 0,
            i <= size,
            doubled_array@ == doubled(array@).subrange(0, 2 * i),
        decreases size - i,
    {
        let num = spread_u64(load_be_u32(array.as_slice(), i));
        proof {
            lemma_doubled_word_step(array@, i as int);
        }
        push_be_u64(&mut doubled_array, num);
        i = i + 4;
    }
    proof {
        lemma_doubled_full(array@);
    }
    doubled_array
}

/// Doubles every bit of `array` into `doubled_array`, which must be exactly
/// twice as long, with a 16-bit mask-and-shift spread per byte.
pub fn double_array_sisd_opt_into(array: &[u8], doubled_array: &mut [u8])
    requires
        old(doubled_array)@.len() == 2 * array@.len(),
    ensures
        final(doubled_array)@ == doubled(array@),
{
    let size = array.len();
    let out_len = doubled_array.len();
    let mut i: usize = 0;
    while i < size
        invariant
            size == array@.len(),
            out_len == doubled_array@.len(),
            i <= size,
            doubled_array@.len() == 2 * size,
            forall|k: int| 0 <= k < 2 * i ==> #[trigger] doubled_array@[k] == doubled_at(array@, k),
        decreases size - i,
    {
        let num = spread_u16_full(array[i]);
        proof {
            lemma_double_byte_split(array@[i as int]);
        }
        assert((num & 0x00ffu16) as u8 == num as u8 && ((num & 0xff00u16) >> 8u16) as u8 == (num
            >> 8u16) as u8) by (bit_vector);
        doubled_array[i * 2 + 1] = (#[verifier::truncate] ((num & 0b0000_0000_1111_1111) as u8));
        doubled_array[i * 2] = (#[verifier::truncate] (((num & 0b1111_1111_0000_0000) >> 8) as u8));
        assert((2 * i + 1) / 2 == i as int);
        i = i + 1;
    }
    assert(doubled_array@ =~= doubled(array@));
}

} // verus!
