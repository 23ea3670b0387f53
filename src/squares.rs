//! Masked-square kernels. Squaring a value whose set bits are far enough
//! apart puts a copy of bit `j` at bit `2j`, plus cross terms; a mask keeps
//! the copies, and multiplying by 3 doubles each one.
use vstd::prelude::*;
use crate::model::{double_byte, double_word, doubled, lemma_doubled_byte_step, lemma_doubled_full};
use crate::pack::{
    lemma_double_byte_split, lemma_doubled_word_step, load_be_u32, push_be_u16, push_be_u64,
};

verus! {

proof fn lemma_four_squares(b: u8)
    ensures
        ({
            let x1 = (b & 0x88u8) as u16;
            let x2 = (b & 0x44u8) as u16;
            let x3 = (b & 0x22u8) as u16;
            let x4 = (b & 0x11u8) as u16;
            let a1 = ((x1 * x1) as u16 & 0x4040u16) * 3;
            let a2 = ((x2 * x2) as u16 & 0x1010u16) * 3;
            let a3 = ((x3 * x3) as u16 & 0x0404u16) * 3;
            let a4 = ((x4 * x4) as u16 & 0x0101u16) * 3;
            &&& x1 * x1 <= 0xffff
            &&& x2 * x2 <= 0xffff
            &&& x3 * x3 <= 0xffff
            &&& x4 * x4 <= 0xffff
            &&& a1 <= 0xffff
            &&& a2 <= 0xffff
            &&& a3 <= 0xffff
            &&& a4 <= 0xffff
            &&& a1 + a2 <= 0xffff
            &&& a1 + a2 + a3 <= 0xffff
            &&& a1 + a2 + a3 + a4 == double_byte(b)
        }),
{
    assert({
        let x1 = (b & 0x88u8) as u16;
        let x2 = (b & 0x44u8) as u16;
        let x3 = (b & 0x22u8) as u16;
        let x4 = (b & 0x11u8) as u16;
        let a1 = ((x1 * x1) as u16 & 0x4040u16) * 3;
        let a2 = ((x2 * x2) as u16 & 0x1010u16) * 3;
        let a3 = ((x3 * x3) as u16 & 0x0404u16) * 3;
        let a4 = ((x4 * x4) as u16 & 0x0101u16) * 3;
        &&& x1 * x1 <= 0xffff
        &&& x2 * x2 <= 0xffff
        &&& x3 * x3 <= 0xffff
        &&& x4 * x4 <= 0xffff
        &&& a1 <= 0xffff
        &&& a2 <= 0xffff
        &&& a3 <= 0xffff
        &&& a4 <= 0xffff
        &&& a1 + a2 <= 0xffff
        &&& a1 + a2 + a3 <= 0xffff
        &&& a1 + a2 + a3 + a4 == double_byte(b)
    }) by (bit_vector);
}

/// Doubles one byte from four masked squares, each tripled on its own.
fn double_four_squares(b: u8) -> (r: u16)
    ensures
        r == double_byte(b),
{
    let n1 = 0b10001000u8;
    let n2 = 0b01000100u8;
    let n3 = 0b00100010u8;
    let n4 = 0b00010001u8;
    let m1 = 0b0100000001000000u16;
    let m2 = 0b0001000000010000u16;
    let m3 = 0b0000010000000100u16;
    let m4 = 0b0000000100000001u16;
    proof {
        lemma_four_squares(b);
    }
    let x1 = (b & n1) as u16;
    let x2 = (b & n2) as u16;
    let x3 = (b & n3) as u16;
    let x4 = (b & n4) as u16;
    let mut a: u16 = ((x1 * x1) & m1) * 3;
    a = a + ((x2 * x2) & m2) * 3;
    a = a + ((x3 * x3) & m3) * 3;
    a = a + ((x4 * x4) & m4) * 3;
    a
}

proof fn lemma_three_squares(b: u8)
    ensures
        ({
            let x1 = (b & 0xa8u8) as u16;
            let x2 = (b & 0x42u8) as u16;
            let x3 = (b & 0x15u8) as u16;
            let a1 = (x1 * x1) as u16 & 0x4440u16;
            let a2 = (x2 * x2) as u16 & 0x1004u16;
            let a3 = (x3 * x3) as u16 & 0x0111u16;
            &&& x1 * x1 <= 0xffff
            &&& x2 * x2 <= 0xffff
            &&& x3 * x3 <= 0xffff
            &&& a1 + a2 <= 0xffff
            &&& a1 + a2 + a3 <= 0xffff
            &&& (a1 + a2 + a3) * 3 == double_byte(b)
        }),
{
    assert({
        let x1 = (b & 0xa8u8) as u16;
        let x2 = (b & 0x42u8) as u16;
        let x3 = (b & 0x15u8) as u16;
        let a1 = (x1 * x1) as u16 & 0x4440u16;
        let a2 = (x2 * x2) as u16 & 0x1004u16;
        let a3 = (x3 * x3) as u16 & 0x0111u16;
        &&& x1 * x1 <= 0xffff
        &&& x2 * x2 <= 0xffff
        &&& x3 * x3 <= 0xffff
        &&& a1 + a2 <= 0xffff
        &&& a1 + a2 + a3 <= 0xffff
        &&& (a1 + a2 + a3) * 3 == double_byte(b)
    }) by (bit_vector);
}

/// Doubles one byte from three masked squares, tripled once at the end.
fn double_three_squares(b: u8) -> (r: u16)
    ensures
        r == double_byte(b),
{
    let n1 = 0b10101000u8;
    let n2 = 0b01000010u8;
    let n3 = 0b00010101u8;
    let m1 = 0b0100010001000000u16;
    let m2 = 0b0001000000000100u16;
    let m3 = 0b0000000100010001u16;
    proof {
        lemma_three_squares(b);
    }
    let x1 = (b & n1) as u16;
    let x2 = (b & n2) as u16;
    let x3 = (b & n3) as u16;
    let mut a: u16 = (x1 * x1) & m1;
    a = a + ((x2 * x2) & m2);
    a = a + ((x3 * x3) & m3);
    a = a * 3;
    a
}

proof fn lemma_word_squares(x: u32)
    ensures
        ({
            let y1 = (x & 0b00001001001001000001001001001001u32) as u64;
            let y2 = (x & 0b10010010010010010010000000010010u32) as u64;
            let y3 = (x & 0b00100100100100000100100100100100u32) as u64;
            let y4 = (x & 0b01000000000000101000010010000000u32) as u64;
            let a1 = ((y1 * y1) as u64
                & 0b0000000001000001000001000001000000000001000001000001000001000001u64) * 3;
            let a2 = ((y2 * y2) as u64
                & 0b0100000100000100000100000100000100000100000000000000000100000100u64) * 3;
            let a3 = ((y3 * y3) as u64
                & 0b0000010000010000010000010000000000010000010000010000010000010000u64) * 3;
            let a4 = ((y4 * y4) as u64
                & 0b0001000000000000000000000000010001000000000100000100000000000000u64) * 3;
            &&& y1 * y1 <= 0xffff_ffff_ffff_ffff
            &&& y2 * y2 <= 0xffff_ffff_ffff_ffff
            &&& y3 * y3 <= 0xffff_ffff_ffff_ffff
            &&& y4 * y4 <= 0xffff_ffff_ffff_ffff
            &&& a1 <= 0xffff_ffff_ffff_ffff
            &&& a2 <= 0xffff_ffff_ffff_ffff
            &&& a3 <= 0xffff_ffff_ffff_ffff
            &&& a4 <= 0xffff_ffff_ffff_ffff
            &&& a1 + a2 <= 0xffff_ffff_ffff_ffff
            &&& a1 + a2 + a3 <= 0xffff_ffff_ffff_ffff
            &&& a1 + a2 + a3 + a4 == double_word(x)
        }),
{
    assert({
        let y1 = (x & 0b00001001001001000001001001001001u32) as u64;
        let y2 = (x & 0b10010010010010010010000000010010u32) as u64;
        let y3 = (x & 0b00100100100100000100100100100100u32) as u64;
        let y4 = (x & 0b01000000000000101000010010000000u32) as u64;
        let a1 = ((y1 * y1) as u64
            & 0b0000000001000001000001000001000000000001000001000001000001000001u64) * 3;
        let a2 = ((y2 * y2) as u64
            & 0b0100000100000100000100000100000100000100000000000000000100000100u64) * 3;
        let a3 = ((y3 * y3) as u64
            & 0b0000010000010000010000010000000000010000010000010000010000010000u64) * 3;
        let a4 = ((y4 * y4) as u64
            & 0b0001000000000000000000000000010001000000000100000100000000000000u64) * 3;
        &&& y1 * y1 <= 0xffff_ffff_ffff_ffff
        &&& y2 * y2 <= 0xffff_ffff_ffff_ffff
        &&& y3 * y3 <= 0xffff_ffff_ffff_ffff
        &&& y4 * y4 <= 0xffff_ffff_ffff_ffff
        &&& a1 <= 0xffff_ffff_ffff_ffff
        &&& a2 <= 0xffff_ffff_ffff_ffff
        &&& a3 <= 0xffff_ffff_ffff_ffff
        &&& a4 <= 0xffff_ffff_ffff_ffff
        &&& a1 + a2 <= 0xffff_ffff_ffff_ffff
        &&& a1 + a2 + a3 <= 0xffff_ffff_ffff_ffff
        &&& a1 + a2 + a3 + a4 == double_word(x)
    }) by (bit_vector);
}

/// Doubles a big-endian 32-bit word from four masked squares in 64 bits.
fn double_word_squares(x: u32) -> (r: u64)
    ensures
        r == double_word(x),
{
    let n1 = 0b00001001001001000001001001001001u32;
    let n2 = 0b10010010010010010010000000010010u32;
    let n3 = 0b00100100100100000100100100100100u32;
    let n4 = 0b01000000000000101000010010000000u32;
    let m1 = 0b0000000001000001000001000001000000000001000001000001000001000001u64;
    let m2 = 0b0100000100000100000100000100000100000100000000000000000100000100u64;
    let m3 = 0b0000010000010000010000010000000000010000010000010000010000010000u64;
    let m4 = 0b0001000000000000000000000000010001000000000100000100000000000000u64;
    proof {
        lemma_word_squares(x);
    }
    let y1 = (x & n1) as u64;
    let y2 = (x & n2) as u64;
    let y3 = (x & n3) as u64;
    let y4 = (x & n4) as u64;
    let mut a: u64 = ((y1 * y1) & m1) * 3;
    a = a + ((y2 * y2) & m2) * 3;
    a = a + ((y3 * y3) & m3) * 3;
    a = a + ((y4 * y4) & m4) * 3;
    a
}

/// Doubles every bit of `array` byte by byte, from four masked squares per byte.
pub fn double_array_sisd_laura_orig(array: &Vec<u8>) -> (r: Vec<u8>)
    ensures
        r@ == doubled(array@),
        r@.len() == 2 * array@.len(),
{
    let size = array.len();
    let mut doubled_array: Vec<u8> = Vec::new();
    let mut i: usize = 0;
    while i < size
        invariant
            size == array@.len(),
            i <= size,
            doubled_array@ == doubled(array@).subrange(0, 2 * i),
        decreases size - i,
    {
        let a = double_four_squares(array[i]);
        proof {
            lemma_double_byte_split(array@[i as int]);
            lemma_doubled_byte_step(array@, i as int);
        }
        push_be_u16(&mut doubled_array, a);
        i = i + 1;
    }
    proof {
        lemma_doubled_full(array@);
    }
    doubled_array
}

/// Doubles every bit of `array` byte by byte, from three masked squares per byte.
pub fn double_array_sisd_laura(array: &Vec<u8>) -> (r: Vec<u8>)
    ensures
        r@ == doubled(array@),
        r@.len() == 2 * array@.len(),
{
    let size = array.len();
    let mut doubled_array: Vec<u8> = Vec::new();
    let mut i: usize = 0;
    while i < size
        invariant
            size == array@.len(),
            i <= size,
            doubled_array@ == doubled(array@).subrange(0, 2 * i),
        decreases size - i,
    {
        let a = double_three_squares(array[i]);
        proof {
            lemma_double_byte_split(array@[i as int]);
            lemma_doubled_byte_step(array@, i as int);
        }
        push_be_u16(&mut doubled_array, a);
        i = i + 1;
    }
    proof {
        lemma_doubled_full(array@);
    }
    doubled_array
}

/// Doubles every bit of `array` four bytes at a time: each group is read as a
/// big-endian word and doubled from four masked squares in 64 bits.
pub fn double_array_sisd_laura_u32(array: &Vec<u8>) -> (r: Vec<u8>)
    requires
        array@.len() % 4 == 0,
    ensures
        r@ == doubled(array@),
        r@.len() == 2 * array@.len(),
{
    let size = array.len();
    let mut doubled_array: Vec<u8> = Vec::new();
    let mut i: usize = 0;
    while i < size
        invariant
            size == array@.len(),
            size % 4 == 0,
            i % 4 == 0,
            i <= size,
            doubled_array@ == doubled(array@).subrange(0, 2 * i),
        decreases size - i,
    {
        let a = double_word_squares(load_be_u32(array.as_slice(), i));
        proof {
            lemma_doubled_word_step(array@, i as int);
        }
        push_be_u64(&mut doubled_array, a);
        i = i + 4;
    }
    proof {
        lemma_doubled_full(array@);
    }
    doubled_array
}

} // verus!
