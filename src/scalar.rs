//! The reference kernel: one bit at a time.
use vstd::prelude::*;
use crate::model::{doubled, doubled_at, doubled_below, doubled_high, doubled_low};

verus! {

/// Adding bit `j` of `b`, twice, to the output byte it belongs to extends
/// `doubled_below(b, j)` to `doubled_below(b, j + 1)`.
proof fn lemma_bit_step(b: u8, j: u8, hi: u8, lo: u8)
    requires
        j < 8,
        ((hi as u16) << 8u16) | (lo as u16) == doubled_below(b, j),
    ensures
        ({
            let bit = (b >> j) & 1u8;
            let sh0 = ((j * 2) % 8) as u8;
            let sh1 = ((j * 2 + 1) % 8) as u8;
            if j < 4 {
                let lo2 = lo | (bit << sh0) | (bit << sh1);
                ((hi as u16) << 8u16) | (lo2 as u16) == doubled_below(b, (j + 1) as u8)
            } else {
                let hi2 = hi | (bit << sh0) | (bit << sh1);
                ((hi2 as u16) << 8u16) | (lo as u16) == doubled_below(b, (j + 1) as u8)
            }
        }),
{
    assert({
        let bit = (b >> j) & 1u8;
        let sh0 = ((j * 2) % 8) as u8;
        let sh1 = ((j * 2 + 1) % 8) as u8;
        if j < 4 {
            let lo2 = lo | (bit << sh0) | (bit << sh1);
            ((hi as u16) << 8u16) | (lo2 as u16) == doubled_below(b, (j + 1) as u8)
        } else {
            let hi2 = hi | (bit << sh0) | (bit << sh1);
            ((hi2 as u16) << 8u16) | (lo as u16) == doubled_below(b, (j + 1) as u8)
        }
    }) by (bit_vector)
        requires
            j < 8,
            ((hi as u16) << 8u16) | (lo as u16) == doubled_below(b, j),
    ;
}

proof fn lemma_doubled_below_ends(b: u8, hi: u8, lo: u8)
    ensures
        ((0u8 as u16) << 8u16) | (0u8 as u16) == doubled_below(b, 0),
        ((hi as u16) << 8u16) | (lo as u16) == doubled_below(b, 8) ==> hi == doubled_high(b) && lo
            == doubled_low(b),
{
    assert(((0u8 as u16) << 8u16) | (0u8 as u16) == doubled_below(b, 0)) by (bit_vector);
    assert(((hi as u16) << 8u16) | (lo as u16) == doubled_below(b, 8) ==> hi == doubled_high(b)
        && lo == doubled_low(b)) by (bit_vector);
}

/// Doubles every bit of `array`, one bit at a time. This is the reference
/// that every other kernel agrees with.
pub fn double_array_sisd(array: &Vec<u8>) -> (r: Vec<u8>)
    ensures
        r@ == doubled(array@),
        r@.len() == 2 * array@.len(),
{
    let size = array.len();
    let mut doubled_array: Vec<u8> = Vec::new();
    let mut i: usize = 0;
    while i < size
        invariant
            size == array@.len(),
            i <= size,
            doubled_array@.len() == 2 * i,
            forall|k: int| 0 <= k < 2 * i ==> doubled_array@[k] == doubled_at(array@, k),
        decreases size - i,
    {
        let b = array[i];
        let mut hi: u8 = 0;
        let mut lo: u8 = 0;
        proof {
            lemma_doubled_below_ends(b, hi, lo);
        }
        let mut j: u8 = 0;
        while j < 8
            invariant
                j <= 8,
                ((hi as u16) << 8u16) | (lo as u16) == doubled_below(b, j),
            decreases 8 - j,
        {
            proof {
                lemma_bit_step(b, j, hi, lo);
            }
            let bit = (b >> j) & 1;
            if j < 4 {
                lo = lo | (bit << ((j * 2) % 8)) | (bit << ((j * 2 + 1) % 8));
            } else {
                hi = hi | (bit << ((j * 2) % 8)) | (bit << ((j * 2 + 1) % 8));
            }
            j = j + 1;
        }
        proof {
            lemma_doubled_below_ends(b, hi, lo);
        }
        doubled_array.push(hi);
        doubled_array.push(lo);
        i = i + 1;
    }
    assert(doubled_array@ =~= doubled(array@));
    doubled_array
}

} // verus!
