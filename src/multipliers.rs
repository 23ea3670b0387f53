//! Multiply-based kernels: wide multiplications by fixed constants place
//! copies of each input bit where the doubled output needs them.
use vstd::prelude::*;
use crate::model::{double_byte, double_word, doubled, lemma_doubled_byte_step, lemma_doubled_full};
use crate::pack::{
    lemma_double_byte_split, lemma_doubled_word_step, load_be_u32, push_be_u16, push_be_u64,
};

verus! {

proof fn lemma_wrapping_mul(a: u64, b: u64)
    ensures
        vstd::wrapping::u64_specs::wrapping_mul(a, b) == (a * b) as u64,
{
    assert(vstd::wrapping::u64_specs::wrapping_mul(a, b) == (a * b) as u64) by (bit_vector);
}

proof fn lemma_replicate_select(x: u8)
    ensures
        ({
            let s = ((x as u64) * 0x0101010101010101u64) as u64 & 0x8040201008040201u64;
            let p = (s * 0x0102040810204081u64) as u64;
            (((p >> 49u64) & 0x5555u64) | ((p >> 48u64) & 0xaaaau64)) as u16 == double_byte(x)
        }),
{
    assert({
        let s = ((x as u64) * 0x0101010101010101u64) as u64 & 0x8040201008040201u64;
        let p = (s * 0x0102040810204081u64) as u64;
        (((p >> 49u64) & 0x5555u64) | ((p >> 48u64) & 0xaaaau64)) as u16 == double_byte(x)
    }) by (bit_vector);
}

/// Doubles one byte: a multiplication replicates it into all eight byte
/// lanes, a mask keeps bit `7 - j` of lane `j`, and a second multiplication
/// gathers the kept bits, once shifted for the even and once for the odd
/// output positions.
fn double_multiply(x: u8) -> (r: u16)
    ensures
        r == double_byte(x),
{
    let spread: u64 = ((x as u64) * 0x0101010101010101u64) & 0x8040201008040201u64;
    let gathered: u64 = spread.wrapping_mul(0x0102040810204081u64);
    proof {
        lemma_wrapping_mul(spread, 0x0102040810204081u64);
        lemma_replicate_select(x);
    }
    let a: u64 = (gathered >> 49) & 0x5555;
    let b: u64 = (gathered >> 48) & 0xAAAA;
    (a | b) as u16
}

proof fn lemma_six_squares(x: u32)
    ensures
        ({
            let y0 = (x as u64) & 290456853u64;
            let y1 = (x as u64) & 580913706u64;
            let y2 = (x as u64) & 1140936768u64;
            let y3 = (x as u64) & 2281873536u64;
            let y4 = (x as u64) & 262144u64;
            let y5 = (x as u64) & 524288u64;
            let res = ((y0 * y0) as u64 & 72357760713425169u64) | ((y1 * y1) as u64
                & 289431042853700676u64) | ((y2 * y2) as u64 & 1157425108814401536u64) | ((y3
                * y3) as u64 & 4629700435257606144u64) | ((y4 * y4) as u64 & 68719476736u64) | ((
            y5 * y5) as u64 & 274877906944u64);
            &&& y0 * y0 <= 0xffff_ffff_ffff_ffff
            &&& y1 * y1 <= 0xffff_ffff_ffff_ffff
            &&& y2 * y2 <= 0xffff_ffff_ffff_ffff
            &&& y3 * y3 <= 0xffff_ffff_ffff_ffff
            &&& y4 * y4 <= 0xffff_ffff_ffff_ffff
            &&& y5 * y5 <= 0xffff_ffff_ffff_ffff
            &&& (res | (res << 1u64)) == double_word(x)
        }),
{
    assert({
        let y0 = (x as u64) & 290456853u64;
        let y1 = (x as u64) & 580913706u64;
        let y2 = (x as u64) & 1140936768u64;
        let y3 = (x as u64) & 2281873536u64;
        let y4 = (x as u64) & 262144u64;
        let y5 = (x as u64) & 524288u64;
        let res = ((y0 * y0) as u64 & 72357760713425169u64) | ((y1 * y1) as u64
            & 289431042853700676u64) | ((y2 * y2) as u64 & 1157425108814401536u64) | ((y3 * y3) as u64
            & 4629700435257606144u64) | ((y4 * y4) as u64 & 68719476736u64) | ((y5 * y5) as u64
            & 274877906944u64);
        &&& y0 * y0 <= 0xffff_ffff_ffff_ffff
        &&& y1 * y1 <= 0xffff_ffff_ffff_ffff
        &&& y2 * y2 <= 0xffff_ffff_ffff_ffff
        &&& y3 * y3 <= 0xffff_ffff_ffff_ffff
        &&& y4 * y4 <= 0xffff_ffff_ffff_ffff
        &&& y5 * y5 <= 0xffff_ffff_ffff_ffff
        &&& (res | (res << 1u64)) == double_word(x)
    }) by (bit_vector);
}

/// Doubles a big-endian 32-bit word: six masked squares put bit `j` at bit
/// `2j`, and a final shift-or copies it to bit `2j + 1`.
fn double_u32(x: u32) -> (r: u64)
    ensures
        r == double_word(x),
{
    let m1_0 = 290456853u64;
    let m1_1 = 580913706u64;
    let m1_2 = 1140936768u64;
    let m1_3 = 2281873536u64;
    let m1_4 = 262144u64;
    let m1_5 = 524288u64;
    let m2_0 = 72357760713425169u64;
    let m2_1 = 289431042853700676u64;
    let m2_2 = 1157425108814401536u64;
    let m2_3 = 4629700435257606144u64;
    let m2_4 = 68719476736u64;
    let m2_5 = 274877906944u64;
    proof {
        lemma_six_squares(x);
    }
    let y0 = (x as u64) & m1_0;
    let y1 = (x as u64) & m1_1;
    let y2 = (x as u64) & m1_2;
    let y3 = (x as u64) & m1_3;
    let y4 = (x as u64) & m1_4;
    let y5 = (x as u64) & m1_5;
    let mut res: u64 = (y0 * y0) & m2_0;
    res = res | ((y1 * y1) & m2_1);
    res = res | ((y2 * y2) & m2_2);
    res = res | ((y3 * y3) & m2_3);
    res = res | ((y4 * y4) & m2_4);
    res = res | ((y5 * y5) & m2_5);
    res | (res << 1)
}

/// Doubles every bit of `array` four bytes at a time: each group is read as a
/// big-endian word, doubled from six masked squares and written back
/// big-endian.
pub fn double_array_benk(array: &[u8]) -> (r: Vec<u8>)
    requires
        array@.len() % 4 == 0,
    ensures
        r@ == doubled(array@),
        r@.len() == 2 * array@.len(),
{
    let mut doubled_array: Vec<u8> = Vec::new();
    let mut i: usize = 0;
    while i < array.len()
        invariant
            array@.len() % 4 == 0,
            i % 4 == 0,
            i <= array@.len(),
            doubled_array@ == doubled(array@).subrange(0, 2 * i),
        decreases array@.len() - i,
    {
        let num = double_u32(load_be_u32(array, i));
        proof {
            lemma_doubled_word_step(array@, i as int);
        }
        push_be_u64(&mut doubled_array, num);
        i = i + 4;
    }
    proof {
        lemma_doubled_full(array@);
    }
    doubled_array
}

/// Doubles every bit of `array` byte by byte with the replicate, select and
/// gather multiplications.
pub fn double_array_ben(array: &[u8]) -> (r: Vec<u8>)
    ensures
        r@ == doubled(array@),
        r@.len() == 2 * array@.len(),
{
    let mut doubled_array: Vec<u8> = Vec::new();
    let mut i: usize = 0;
    while i < array.len()
        invariant
            i <= array@.len(),
            doubled_array@ == doubled(array@).subrange(0, 2 * i),
        decreases array@.len() - i,
    {
        let num = double_multiply(array[i]);
        proof {
            lemma_double_byte_split(array@[i as int]);
            lemma_doubled_byte_step(array@, i as int);
        }
        push_be_u16(&mut doubled_array, num);
        i = i + 1;
    }
    proof {
        lemma_doubled_full(array@);
    }
    doubled_array
}

} // verus!
