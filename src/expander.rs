//! Every kernel behind one capability, and the harness that checks a kernel
//! against the reference byte for byte.
use vstd::prelude::*;
use crate::chunks::double_array_sisd_opt_rayon;
use crate::lookups::{double_array_lookup_u16, double_array_lookup_u4, double_array_lookup_u8};
use crate::model::doubled;
use crate::multipliers::{double_array_ben, double_array_benk};
use crate::opt::{double_array_sisd_opt, double_array_sisd_opt_64, double_array_sisd_opt_iter};
use crate::scalar::double_array_sisd;
use crate::squares::{double_array_sisd_laura, double_array_sisd_laura_orig, double_array_sisd_laura_u32};
use crate::vector::{double_array_lanes, LaneKernel};

verus! {

/// The kernels, each computing the same doubling.
#[derive(Clone, Copy, Debug, PartialEq, Eq)]
pub enum BitExpander {
    /// One bit at a time; the reference.
    Scalar,
    /// Mask-and-shift spread of each byte in 16 bits, into a buffer of the final size.
    Spread16,
    /// Mask-and-shift spread of each byte in 16 bits, appended byte by byte.
    Spread16Append,
    /// Mask-and-shift spread of each big-endian 32-bit word in 64 bits.
    Spread64,
    /// Four masked squares per byte.
    FourSquares,
    /// Three masked squares per byte.
    ThreeSquares,
    /// Four masked squares per big-endian 32-bit word.
    WordSquares,
    /// Replicate, select and gather multiplications per byte.
    Multiply,
    /// Six masked squares per big-endian 32-bit word.
    WordMultiply,
    /// Nibble table.
    Lookup4,
    /// Byte table.
    Lookup8,
    /// Byte-pair table.
    Lookup16,
    /// Register kernel.
    Lanes(LaneKernel),
    /// Mask-and-shift spread in eight chunks on the global worker pool.
    Chunked,
}

impl BitExpander {
    /// How many input bytes the kernel takes at a time: the input length must
    /// be a multiple of it.
    pub open spec fn group(&self) -> nat {
        match self {
            BitExpander::Spread64 | BitExpander::WordSquares | BitExpander::WordMultiply => 4,
            _ => 1,
        }
    }

    /// Whether the kernel takes an input of `len` bytes: a whole number of groups.
    pub open spec fn accepts(&self, len: nat) -> bool {
        len % self.group() == 0
    }

    /// Whether the kernel takes an input of `len` bytes.
    pub fn accepts_len(&self, len: usize) -> (r: bool)
        ensures
            r == self.accepts(len as nat),
    {
        let group: usize = match self {
            BitExpander::Spread64 | BitExpander::WordSquares | BitExpander::WordMultiply => 4,
            _ => 1,
        };
        len % group == 0
    }

    /// Doubles every bit of `array` with this kernel.
    pub fn expand(&self, array: &Vec<u8>) -> (r: Vec<u8>)
        requires
            self.accepts(array@.len()),
        ensures
            r@ == doubled(array@),
            r@.len() == 2 * array@.len(),
    {
        match self {
            BitExpander::Scalar => double_array_sisd(array),
            BitExpander::Spread16 => double_array_sisd_opt(array),
            BitExpander::Spread16Append => double_array_sisd_opt_iter(array.as_slice()),
            BitExpander::Spread64 => double_array_sisd_opt_64(array),
            BitExpander::FourSquares => double_array_sisd_laura_orig(array),
            BitExpander::ThreeSquares => double_array_sisd_laura(array),
            BitExpander::WordSquares => double_array_sisd_laura_u32(array),
            BitExpander::Multiply => double_array_ben(array.as_slice()),
            BitExpander::WordMultiply => double_array_benk(array.as_slice()),
            BitExpander::Lookup4 => double_array_lookup_u4(array.as_slice()),
            BitExpander::Lookup8 => double_array_lookup_u8(array.as_slice()),
            BitExpander::Lookup16 => double_array_lookup_u16(array.as_slice()),
            BitExpander::Lanes(kernel) => double_array_lanes(*kernel, array.as_slice(), 0, 1),
            BitExpander::Chunked => double_array_sisd_opt_rayon(array.as_slice()),
        }
    }
}

/// The first offset at which `a` and `b` differ (an offset one of them does
/// not reach counts as a difference), or `None` where they are equal.
pub fn first_mismatch(a: &[u8], b: &[u8]) -> (r: Option<usize>)
    ensures
        r.is_none() <==> a@ == b@,
        r matches Some(k) ==> {
            &&& k <= a@.len()
            &&& k <= b@.len()
            &&& a@.subrange(0, k as int) == b@.subrange(0, k as int)
            &&& (k == a@.len() || k == b@.len() || a@[k as int] != b@[k as int])
        },
{
    let mut i: usize = 0;
    while i < a.len() && i < b.len()
        invariant
            i <= a@.len(),
            i <= b@.len(),
            a@.subrange(0, i as int) == b@.subrange(0, i as int),
        decreases a@.len() - i,
    {
        if a[i] != b[i] {
            assert(a@[i as int] != b@[i as int]);
            return Some(i);
        }
        assert(a@.subrange(0, i + 1) =~= a@.subrange(0, i as int).push(a@[i as int]));
        assert(b@.subrange(0, i + 1) =~= b@.subrange(0, i as int).push(b@[i as int]));
        i = i + 1;
    }
    if a.len() == b.len() {
        assert(a@ =~= a@.subrange(0, i as int));
        assert(b@ =~= b@.subrange(0, i as int));
        None
    } else {
        Some(i)
    }
}

/// Runs `kernel` and the reference on `array` and reports the first offset
/// at which they differ. It never finds one.
pub fn check_kernel(kernel: BitExpander, array: &Vec<u8>) -> (r: Option<usize>)
    requires
        kernel.accepts(array@.len()),
    ensures
        r.is_none(),
{
    let expected = double_array_sisd(array);
    let got = kernel.expand(array);
    first_mismatch(got.as_slice(), expected.as_slice())
}

} // verus!
