//! Moving doubled words in and out of byte sequences, most significant byte first.
use vstd::prelude::*;
use crate::model::{double_byte, double_word, doubled, doubled_at, doubled_high, doubled_low};

verus! {

/// The four bytes `s[i..i + 4]` read as a big-endian word.
pub open spec fn be_u32_at(s: Seq<u8>, i: int) -> u32 {
    ((s[i] as u32) << 24u32) | ((s[i + 1] as u32) << 16u32) | ((s[i + 2] as u32) << 8u32) | (s[i
        + 3] as u32)
}

/// The eight bytes of `w`, most significant first.
pub open spec fn be_bytes_u64(w: u64) -> Seq<u8> {
    seq![
        (w >> 56u64) as u8,
        (w >> 48u64) as u8,
        (w >> 40u64) as u8,
        (w >> 32u64) as u8,
        (w >> 24u64) as u8,
        (w >> 16u64) as u8,
        (w >> 8u64) as u8,
        w as u8,
    ]
}

/// Reads `array[i..i + 4]` as a big-endian word.
pub fn load_be_u32(array: &[u8], i: usize) -> (r: u32)
    requires
        i + 4 <= array@.len(),
    ensures
        r == be_u32_at(array@, i as int),
{
    ((array[i] as u32) << 24) | ((array[i + 1] as u32) << 16) | ((array[i + 2] as u32) << 8) | (
    array[i + 3] as u32)
}

/// A zero-filled buffer of `2 * n` bytes, to receive the doubling of `n` bytes.
pub fn zeroed_doubled(n: usize) -> (r: Vec<u8>)
    ensures
        r@.len() == 2 * n,
{
    let mut r: Vec<u8> = Vec::new();
    let mut i: usize = 0;
    while i < n
        invariant
            i <= n,
            r@.len() == 2 * i,
        decreases n - i,
    {
        r.push(0);
        r.push(0);
        i = i + 1;
    }
    r
}

/// Appends the two bytes of `w`, most significant first.
pub fn push_be_u16(out: &mut Vec<u8>, w: u16)
    ensures
        final(out)@ == old(out)@.push((w >> 8u16) as u8).push(w as u8),
{
    out.push((w >> 8) as u8);
    out.push(w as u8);
}

/// Appends the eight bytes of `w`, most significant first.
pub fn push_be_u64(out: &mut Vec<u8>, w: u64)
    ensures
        final(out)@ == old(out)@ + be_bytes_u64(w),
{
    let ghost start = out@;
    out.push((w >> 56) as u8);
    out.push((w >> 48) as u8);
    out.push((w >> 40) as u8);
    out.push((w >> 32) as u8);
    out.push((w >> 24) as u8);
    out.push((w >> 16) as u8);
    out.push((w >> 8) as u8);
    out.push(w as u8);
    assert(out@ =~= start + be_bytes_u64(w));
}

/// The two bytes of `double_byte(b)` are the two output bytes of `b`.
pub proof fn lemma_double_byte_split(b: u8)
    ensures
        (double_byte(b) >> 8u16) as u8 == doubled_high(b),
        double_byte(b) as u8 == doubled_low(b),
{
    assert((double_byte(b) >> 8u16) as u8 == doubled_high(b)) by (bit_vector);
    assert(double_byte(b) as u8 == doubled_low(b)) by (bit_vector);
}

/// The bytes of the doubled image of the word at `i` are output bytes
/// `2i .. 2i + 8` of the doubled sequence.
pub proof fn lemma_double_word_bytes(s: Seq<u8>, i: int)
    requires
        0 <= i,
        i + 4 <= s.len(),
    ensures
        be_bytes_u64(double_word(be_u32_at(s, i))) == doubled(s).subrange(2 * i, 2 * i + 8),
{
    let b0 = s[i];
    let b1 = s[i + 1];
    let b2 = s[i + 2];
    let b3 = s[i + 3];
    let x = be_u32_at(s, i);
    assert(x == ((b0 as u32) << 24u32) | ((b1 as u32) << 16u32) | ((b2 as u32) << 8u32) | (
    b3 as u32));
    let w = double_word(x);
    assert({
        let x = ((b0 as u32) << 24u32) | ((b1 as u32) << 16u32) | ((b2 as u32) << 8u32) | (
        b3 as u32);
        let w = double_word(x);
        &&& (w >> 56u64) as u8 == doubled_high(b0)
        &&& (w >> 48u64) as u8 == doubled_low(b0)
        &&& (w >> 40u64) as u8 == doubled_high(b1)
        &&& (w >> 32u64) as u8 == doubled_low(b1)
        &&& (w >> 24u64) as u8 == doubled_high(b2)
        &&& (w >> 16u64) as u8 == doubled_low(b2)
        &&& (w >> 8u64) as u8 == doubled_high(b3)
        &&& w as u8 == doubled_low(b3)
    }) by (bit_vector);
    let d = doubled(s);
    assert(d[2 * i] == doubled_at(s, 2 * i));
    assert((2 * i + 1) / 2 == i);
    assert((2 * i + 2) / 2 == i + 1);
    assert((2 * i + 3) / 2 == i + 1);
    assert((2 * i + 4) / 2 == i + 2);
    assert((2 * i + 5) / 2 == i + 2);
    assert((2 * i + 6) / 2 == i + 3);
    assert((2 * i + 7) / 2 == i + 3);
    assert(be_bytes_u64(w) =~= d.subrange(2 * i, 2 * i + 8));
}

/// The doubling of the first `i + 4` bytes extends that of the first `i` bytes
/// by the bytes of the doubled word at `i`.
pub proof fn lemma_doubled_word_step(s: Seq<u8>, i: int)
    requires
        0 <= i,
        i + 4 <= s.len(),
    ensures
        doubled(s).subrange(0, 2 * i + 8) == doubled(s).subrange(0, 2 * i) + be_bytes_u64(
            double_word(be_u32_at(s, i)),
        ),
{
    lemma_double_word_bytes(s, i);
    assert(doubled(s).subrange(0, 2 * i + 8) =~= doubled(s).subrange(0, 2 * i) + doubled(
        s,
    ).subrange(2 * i, 2 * i + 8));
}

} // verus!
