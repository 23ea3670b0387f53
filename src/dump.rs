//! What the console dumps show: the bits of a byte sequence.
use vstd::prelude::*;
use crate::model::{bit, stream_bit};

verus! {

/// The bits of `array` as a bitstream, most significant bit of each byte
/// first, one 0 or 1 per bit.
pub fn array_bits(array: &[u8]) -> (r: Vec<u8>)
    ensures
        r@.len() == 8 * array@.len(),
        forall|t: int|
            0 <= t < r@.len() ==> #[trigger] r@[t] == if stream_bit(array@, t) {
                1u8
            } else {
                0u8
            },
{
    let mut bits: Vec<u8> = Vec::new();
    let mut i: usize = 0;
    while i < array.len()
        invariant
            i <= array@.len(),
            bits@.len() == 8 * i,
            forall|t: int|
                0 <= t < 8 * i ==> #[trigger] bits@[t] == if stream_bit(array@, t) {
                    1u8
                } else {
                    0u8
                },
        decreases array@.len() - i,
    {
        let mut j: u8 = 0;
        while j < 8
            invariant
                i < array@.len(),
                j <= 8,
                bits@.len() == 8 * i + j,
                forall|t: int|
                    0 <= t < 8 * i + j ==> #[trigger] bits@[t] == if stream_bit(array@, t) {
                        1u8
                    } else {
                        0u8
                    },
            decreases 8 - j,
        {
            let b = array[i];
            let v: u8 = ((b << j) & 0b1000_0000) >> 7;
            proof {
                let t = 8 * i + j;
                assert(t / 8 == i as int);
                assert(t % 8 == j as int);
                assert(v == if bit(b, (7 - j) as u8) {
                    1u8
                } else {
                    0u8
                }) by (bit_vector)
                    requires
                        j < 8,
                        v == ((b << j) & 0x80u8) >> 7u8,
                ;
            }
            bits.push(v);
            j = j + 1;
        }
        i = i + 1;
    }
    bits
}

} // verus!
