//! Register kernels. The input is cut into a head handled one byte at a
//! time, a body of whole 16-byte registers, and a tail shorter than the
//! registers of one step, again handled one byte at a time.
use vstd::prelude::*;
use crate::lanes::{
    and, and_wide, load, or, or_wide, shl, shl_wide, shr, shuffle, splat, square_wide, store,
    store_wide_be, widen, zip_hi, zip_lo, Lanes, WideLanes,
};
use crate::lookups::NibbleTable;
use crate::model::{
    double_byte, doubled, doubled_at, doubled_high, doubled_low, lemma_nibble_keys, spread_nibble,
};
use crate::pack::{lemma_double_byte_split, zeroed_doubled};

verus! {

/// How a register kernel turns 16 input bytes into 32 output bytes.
#[derive(Clone, Copy, Debug, PartialEq, Eq)]
pub enum LaneKernel {
    /// Split each byte into nibbles and look each one up in a register that
    /// holds the nibble table, then interleave the two results.
    TableLookup,
    /// Spread the bits of each nibble apart inside its lane, then interleave
    /// the high and low results.
    BitInterleave,
    /// Widen each byte to 16 bits and double it from three masked squares.
    MaskedSquares,
}

/// `after` is `before` with output bytes `from .. to` written with the doubling of `s`.
pub open spec fn written(before: Seq<u8>, after: Seq<u8>, s: Seq<u8>, from: int, to: int) -> bool {
    &&& after.len() == before.len()
    &&& forall|k: int|
        0 <= k < before.len() ==> #[trigger] after[k] == if from <= k < to {
            doubled_at(s, k)
        } else {
            before[k]
        }
}

/// The output bytes `2 * at + m` of the doubling.
proof fn lemma_block_pos(s: Seq<u8>, at: int, m: int)
    requires
        0 <= at,
        0 <= m < 32,
        at + 16 <= s.len(),
    ensures
        doubled_at(s, 2 * at + m) == if m % 2 == 0 {
            doubled_high(s[at + m / 2])
        } else {
            doubled_low(s[at + m / 2])
        },
{
    assert((2 * at + m) / 2 == at + m / 2);
    assert((2 * at + m) % 2 == m % 2);
}

/// Stores two registers that hold output bytes `2 * at .. 2 * at + 32`.
fn store_pair(out: &mut [u8], array: &[u8], at: usize, out0: &Lanes, out1: &Lanes)
    requires
        old(out)@.len() == 2 * array@.len(),
        at + 16 <= array@.len(),
        forall|m: int| 0 <= m < 16 ==> #[trigger] out0[m] == doubled_at(array@, 2 * at + m),
        forall|m: int| 0 <= m < 16 ==> #[trigger] out1[m] == doubled_at(array@, 2 * at + 16 + m),
    ensures
        written(old(out)@, final(out)@, array@, 2 * at, 2 * at + 32),
{
    let ghost start = out@;
    let out_len = out.len();
    store(out, 2 * at, out0);
    store(out, 2 * at + 16, out1);
    assert forall|k: int| 0 <= k < start.len() implies #[trigger] out@[k] == if 2 * at <= k < 2
        * at + 32 {
        doubled_at(array@, k)
    } else {
        start[k]
    } by {
        if 2 * at <= k < 2 * at + 16 {
            assert(out0[k - 2 * at] == doubled_at(array@, 2 * at + (k - 2 * at)));
        } else if 2 * at + 16 <= k < 2 * at + 32 {
            assert(out1[k - (2 * at + 16)] == doubled_at(
                array@,
                2 * at + 16 + (k - (2 * at + 16)),
            ));
        }
    }
}

/// One register by table lookup.
fn lookup_block(table: &Lanes, array: &[u8], out: &mut [u8], at: usize)
    requires
        forall|k: int| 0 <= k < 16 ==> #[trigger] table[k] == spread_nibble(k as u8),
        old(out)@.len() == 2 * array@.len(),
        at + 16 <= array@.len(),
    ensures
        written(old(out)@, final(out)@, array@, 2 * at, 2 * at + 32),
{
    let input = load(array, at);
    let mask = splat(0x0f);
    let input_lo = and(&input, &mask);
    let input_hi = shr(&input, 4);
    let output_lo = shuffle(table, &input_lo);
    let output_hi = shuffle(table, &input_hi);
    let out0 = zip_lo(&output_hi, &output_lo);
    let out1 = zip_hi(&output_hi, &output_lo);
    assert forall|j: int| 0 <= j < 16 implies #[trigger] output_hi[j] == doubled_high(
        array@[at + j],
    ) && output_lo[j] == doubled_low(array@[at + j]) by {
        lemma_nibble_keys(input[j]);
        assert(table[(input[j] >> 4u8) as int] == spread_nibble(((input[j] >> 4u8) as int) as u8));
        assert(table[(input[j] & 0x0fu8) as int] == spread_nibble(
            ((input[j] & 0x0fu8) as int) as u8,
        ));
    }
    assert forall|m: int| 0 <= m < 16 implies #[trigger] out0[m] == doubled_at(
        array@,
        2 * at + m,
    ) by {
        lemma_block_pos(array@, at as int, m);
        assert(output_hi[m / 2] == doubled_high(array@[at + m / 2]));
    }
    assert forall|m: int| 0 <= m < 16 implies #[trigger] out1[m] == doubled_at(
        array@,
        2 * at + 16 + m,
    ) by {
        lemma_block_pos(array@, at as int, 16 + m);
        assert(output_hi[8 + m / 2] == doubled_high(array@[at + 8 + m / 2]));
    }
    store_pair(out, array, at, &out0, &out1);
}

/// Spreads the nibble in each lane: bit `j` lands on bits `2j` and `2j + 1`.
fn spread_lanes(a: &Lanes) -> (r: Lanes)
    requires
        forall|i: int| 0 <= i < 16 ==> #[trigger] a[i] < 16,
    ensures
        forall|i: int| 0 <= i < 16 ==> #[trigger] r[i] == spread_nibble(a[i]),
{
    let t = and(&or(a, &shl(a, 2)), &splat(0x33));
    let u = and(&or(&t, &shl(&t, 1)), &splat(0x55));
    let r = or(&u, &shl(&u, 1));
    assert forall|i: int| 0 <= i < 16 implies #[trigger] r[i] == spread_nibble(a[i]) by {
        let n = a[i];
        assert(n < 16 ==> ({
            let t = (n | (n << 2u8)) & 0x33u8;
            let u = (t | (t << 1u8)) & 0x55u8;
            (u | (u << 1u8)) == spread_nibble(n)
        })) by (bit_vector);
    }
    r
}

/// One register by spreading bits inside the lanes.
fn interleave_block(array: &[u8], out: &mut [u8], at: usize)
    requires
        old(out)@.len() == 2 * array@.len(),
        at + 16 <= array@.len(),
    ensures
        written(old(out)@, final(out)@, array@, 2 * at, 2 * at + 32),
{
    let input = load(array, at);
    let mask = splat(0x0f);
    let input_lo = and(&input, &mask);
    let input_hi = shr(&input, 4);
    assert forall|j: int| 0 <= j < 16 implies #[trigger] input_lo[j] < 16 by {
        assert(mask[j] == 0x0f);
        lemma_nibble_keys(input[j]);
    }
    assert forall|j: int| 0 <= j < 16 implies #[trigger] input_hi[j] < 16 by {
        lemma_nibble_keys(input[j]);
    }
    let output_lo = spread_lanes(&input_lo);
    let output_hi = spread_lanes(&input_hi);
    let out0 = zip_lo(&output_hi, &output_lo);
    let out1 = zip_hi(&output_hi, &output_lo);
    assert forall|j: int| 0 <= j < 16 implies #[trigger] output_hi[j] == doubled_high(
        array@[at + j],
    ) && output_lo[j] == doubled_low(array@[at + j]) by {
        lemma_nibble_keys(input[j]);
    }
    assert forall|m: int| 0 <= m < 16 implies #[trigger] out0[m] == doubled_at(
        array@,
        2 * at + m,
    ) by {
        lemma_block_pos(array@, at as int, m);
        assert(output_hi[m / 2] == doubled_high(array@[at + m / 2]));
    }
    assert forall|m: int| 0 <= m < 16 implies #[trigger] out1[m] == doubled_at(
        array@,
        2 * at + 16 + m,
    ) by {
        lemma_block_pos(array@, at as int, 16 + m);
        assert(output_hi[8 + m / 2] == doubled_high(array@[at + 8 + m / 2]));
    }
    store_pair(out, array, at, &out0, &out1);
}

proof fn lemma_lane_squares(b: u8)
    ensures
        ({
            let x = b as u16;
            let a = ((x & 0xa8u16) * (x & 0xa8u16)) as u16 & 0x4440u16;
            let c = ((x & 0x42u16) * (x & 0x42u16)) as u16 & 0x1004u16;
            let d = ((x & 0x15u16) * (x & 0x15u16)) as u16 & 0x0111u16;
            let v = (a | c) | d;
            (v | (v << 1u16)) == double_byte(b)
        }),
{
    assert({
        let x = b as u16;
        let a = ((x & 0xa8u16) * (x & 0xa8u16)) as u16 & 0x4440u16;
        let c = ((x & 0x42u16) * (x & 0x42u16)) as u16 & 0x1004u16;
        let d = ((x & 0x15u16) * (x & 0x15u16)) as u16 & 0x0111u16;
        let v = (a | c) | d;
        (v | (v << 1u16)) == double_byte(b)
    }) by (bit_vector);
}

/// One register by masked squares on widened lanes.
fn squares_block(array: &[u8], out: &mut [u8], at: usize)
    requires
        old(out)@.len() == 2 * array@.len(),
        at + 16 <= array@.len(),
    ensures
        written(old(out)@, final(out)@, array@, 2 * at, 2 * at + 32),
{
    let input = widen(&load(array, at));
    let a = and_wide(&square_wide(&and_wide(&input, 0b10101000)), 0b0100010001000000);
    let b = and_wide(&square_wide(&and_wide(&input, 0b01000010)), 0b0001000000000100);
    let c = and_wide(&square_wide(&and_wide(&input, 0b00010101)), 0b0000000100010001);
    let v = or_wide(&or_wide(&a, &b), &c);
    let v: WideLanes = or_wide(&v, &shl_wide(&v, 1));
    assert forall|j: int| 0 <= j < 16 implies #[trigger] v[j] == double_byte(array@[at + j]) by {
        lemma_lane_squares(array@[at + j]);
    }
    let ghost start = out@;
    let out_len = out.len();
    store_wide_be(out, 2 * at, &v);
    assert forall|k: int| 0 <= k < start.len() implies #[trigger] out@[k] == if 2 * at <= k < 2
        * at + 32 {
        doubled_at(array@, k)
    } else {
        start[k]
    } by {
        if 2 * at <= k < 2 * at + 32 {
            let m = k - 2 * at;
            lemma_block_pos(array@, at as int, m);
            lemma_double_byte_split(array@[at + m / 2]);
            assert(v[m / 2] == double_byte(array@[at + m / 2]));
        }
    }
}

/// One register with the chosen kernel.
fn expand_block(kernel: LaneKernel, table: &Lanes, array: &[u8], out: &mut [u8], at: usize)
    requires
        forall|k: int| 0 <= k < 16 ==> #[trigger] table[k] == spread_nibble(k as u8),
        old(out)@.len() == 2 * array@.len(),
        at + 16 <= array@.len(),
    ensures
        written(old(out)@, final(out)@, array@, 2 * at, 2 * at + 32),
{
    match kernel {
        LaneKernel::TableLookup => lookup_block(table, array, out, at),
        LaneKernel::BitInterleave => interleave_block(array, out, at),
        LaneKernel::MaskedSquares => squares_block(array, out, at),
    }
}

/// One byte through the nibble table.
fn expand_byte(table: &Lanes, array: &[u8], out: &mut [u8], i: usize)
    requires
        forall|k: int| 0 <= k < 16 ==> #[trigger] table[k] == spread_nibble(k as u8),
        old(out)@.len() == 2 * array@.len(),
        i < array@.len(),
    ensures
        written(old(out)@, final(out)@, array@, 2 * i, 2 * i + 2),
{
    let x = array[i];
    let out_len = out.len();
    proof {
        lemma_nibble_keys(x);
        assert(table[(x >> 4u8) as int] == spread_nibble(((x >> 4u8) as int) as u8));
        assert(table[(x & 0x0fu8) as int] == spread_nibble(((x & 0x0fu8) as int) as u8));
        assert((2 * i + 1) / 2 == i as int);
    }
    out[2 * i] = table[(x >> 4) as usize];
    out[2 * i + 1] = table[(x & 0b1111) as usize];
}

/// Doubles every bit of `array` into `doubled_array` with register kernel
/// `kernel`: the first `head` bytes (all of them, if fewer) one at a time,
/// then steps of `regs` whole registers, then the rest one at a time. The
/// result does not depend on `head` or `regs`.
pub fn double_array_lanes_into(
    kernel: LaneKernel,
    array: &[u8],
    doubled_array: &mut [u8],
    head: usize,
    regs: usize,
)
    requires
        old(doubled_array)@.len() == 2 * array@.len(),
        1 <= regs <= 4,
    ensures
        final(doubled_array)@ == doubled(array@),
{
    let table = NibbleTable::new();
    let lookup = table.entries();
    let n = array.len();
    let head_end: usize = if head < n {
        head
    } else {
        n
    };
    let mut i: usize = 0;
    while i < head_end
        invariant
            forall|k: int| 0 <= k < 16 ==> #[trigger] lookup[k] == spread_nibble(k as u8),
            n == array@.len(),
            head_end <= n,
            i <= head_end,
            doubled_array@.len() == 2 * n,
            forall|k: int| 0 <= k < 2 * i ==> #[trigger] doubled_array@[k] == doubled_at(array@, k),
        decreases head_end - i,
    {
        expand_byte(&lookup, array, doubled_array, i);
        i = i + 1;
    }
    let step: usize = 16 * regs;
    while n - i >= step
        invariant
            forall|k: int| 0 <= k < 16 ==> #[trigger] lookup[k] == spread_nibble(k as u8),
            n == array@.len(),
            i <= n,
            1 <= regs <= 4,
            step == 16 * regs,
            doubled_array@.len() == 2 * n,
            forall|k: int| 0 <= k < 2 * i ==> #[trigger] doubled_array@[k] == doubled_at(array@, k),
        decreases n - i,
    {
        let mut r: usize = 0;
        while r < regs
            invariant
                forall|k: int| 0 <= k < 16 ==> #[trigger] lookup[k] == spread_nibble(k as u8),
                n == array@.len(),
                i + step <= n,
                r <= regs,
                step == 16 * regs,
                doubled_array@.len() == 2 * n,
                forall|k: int|
                    0 <= k < 2 * (i + 16 * r) ==> #[trigger] doubled_array@[k] == doubled_at(
                        array@,
                        k,
                    ),
            decreases regs - r,
        {
            expand_block(kernel, &lookup, array, doubled_array, i + 16 * r);
            r = r + 1;
        }
        i = i + step;
    }
    while i < n
        invariant
            forall|k: int| 0 <= k < 16 ==> #[trigger] lookup[k] == spread_nibble(k as u8),
            n == array@.len(),
            i <= n,
            doubled_array@.len() == 2 * n,
            forall|k: int| 0 <= k < 2 * i ==> #[trigger] doubled_array@[k] == doubled_at(array@, k),
        decreases n - i,
    {
        expand_byte(&lookup, array, doubled_array, i);
        i = i + 1;
    }
    assert(doubled_array@ =~= doubled(array@));
}

/// Doubles every bit of `array` with register kernel `kernel`, as
/// [`double_array_lanes_into`] does, into a new buffer.
pub fn double_array_lanes(kernel: LaneKernel, array: &[u8], head: usize, regs: usize) -> (r: Vec<
    u8,
>)
    requires
        1 <= regs <= 4,
    ensures
        r@ == doubled(array@),
        r@.len() == 2 * array@.len(),
{
    let mut doubled_array: Vec<u8> = zeroed_doubled(array.len());
    double_array_lanes_into(kernel, array, doubled_array.as_mut_slice(), head, regs);
    doubled_array
}

/// Doubles every bit of `array` with the nibble table held in one 128-bit
/// register, one register per step.
pub fn double_array_lookup_avx_u4(array: &[u8]) -> (r: Vec<u8>)
    ensures
        r@ == doubled(array@),
        r@.len() == 2 * array@.len(),
{
    double_array_lanes(LaneKernel::TableLookup, array, 0, 1)
}

/// Doubles every bit of `array` with the nibble table in each 128-bit lane
/// of a 512-bit register, four lanes (64 input bytes) per step.
pub fn double_array_lookup_avx512_u4(array: &[u8]) -> (r: Vec<u8>)
    ensures
        r@ == doubled(array@),
        r@.len() == 2 * array@.len(),
{
    double_array_lanes(LaneKernel::TableLookup, array, 0, 4)
}

/// Doubles every bit of `array` by table lookup in one 128-bit register per step.
pub fn double_array_lookup_neon_u4(array: &[u8]) -> (r: Vec<u8>)
    ensures
        r@ == doubled(array@),
        r@.len() == 2 * array@.len(),
{
    double_array_lanes(LaneKernel::TableLookup, array, 0, 1)
}

/// Doubles every bit of `array` by table lookup, two 128-bit registers per step.
pub fn double_array_lookup_neon_u4_unrolled(array: &[u8]) -> (r: Vec<u8>)
    ensures
        r@ == doubled(array@),
        r@.len() == 2 * array@.len(),
{
    double_array_lanes(LaneKernel::TableLookup, array, 0, 2)
}

/// Doubles every bit of `array` by table lookup into `doubled_array`, which
/// must be exactly twice as long.
pub fn double_array_lookup_neon_u4_slice(array: &[u8], doubled_array: &mut [u8])
    requires
        old(doubled_array)@.len() == 2 * array@.len(),
    ensures
        final(doubled_array)@ == doubled(array@),
{
    double_array_lanes_into(LaneKernel::TableLookup, array, doubled_array, 0, 1);
}

/// Doubles every bit of `array` by spreading the bits of each nibble inside
/// its lane and interleaving the high and low results.
pub fn double_array_simd(array: &Vec<u8>) -> (r: Vec<u8>)
    ensures
        r@ == doubled(array@),
        r@.len() == 2 * array@.len(),
{
    double_array_lanes(LaneKernel::BitInterleave, array.as_slice(), 0, 1)
}

/// Doubles every bit of `array` from masked squares on widened lanes, 32
/// input bytes per step.
pub fn double_array_simd_laura(array: &Vec<u8>) -> (r: Vec<u8>)
    ensures
        r@ == doubled(array@),
        r@.len() == 2 * array@.len(),
{
    double_array_lanes(LaneKernel::MaskedSquares, array.as_slice(), 0, 2)
}

/// A bandwidth baseline, not a doubling: writes every byte of `array` twice,
/// so that it moves as many bytes as a kernel does.
pub fn throughput_test(array: &[u8]) -> (r: Vec<u8>)
    ensures
        r@.len() == 2 * array@.len(),
        forall|k: int| 0 <= k < r@.len() ==> #[trigger] r@[k] == array@[k / 2],
{
    let mut doubled_array: Vec<u8> = Vec::new();
    let mut i: usize = 0;
    while i < array.len()
        invariant
            i <= array@.len(),
            doubled_array@.len() == 2 * i,
            forall|k: int| 0 <= k < 2 * i ==> #[trigger] doubled_array@[k] == array@[k / 2],
        decreases array@.len() - i,
    {
        doubled_array.push(array[i]);
        doubled_array.push(array[i]);
        assert((2 * i + 1) / 2 == i as int);
        i = i + 1;
    }
    doubled_array
}

} // verus!
