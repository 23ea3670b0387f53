//! A portable model of 128-bit vector registers and the operations the
//! register kernels are built from. A register holds 16 byte lanes (or 16
//! lanes of 16 bits, from 16 widened bytes); every operation acts on all
//! lanes at once and is stated lane by lane.
use vstd::prelude::*;

verus! {

/// Sixteen byte lanes.
pub type Lanes = [u8; 16];

/// Sixteen 16-bit lanes.
pub type WideLanes = [u16; 16];

/// Every lane holds `v`.
pub fn splat(v: u8) -> (r: Lanes)
    ensures
        forall|i: int| 0 <= i < 16 ==> #[trigger] r[i] == v,
{
    let mut r: Lanes = [0u8; 16];
    let mut i: usize = 0;
    while i < 16
        invariant
            i <= 16,
            forall|j: int| 0 <= j < i ==> #[trigger] r[j] == v,
        decreases 16 - i,
    {
        r[i] = v;
        i = i + 1;
    }
    r
}

/// Loads `src[at..at + 16]`.
pub fn load(src: &[u8], at: usize) -> (r: Lanes)
    requires
        at + 16 <= src@.len(),
    ensures
        forall|i: int| 0 <= i < 16 ==> #[trigger] r[i] == src@[at + i],
{
    let mut r: Lanes = [0u8; 16];
    let n = src.len();
    let mut i: usize = 0;
    while i < 16
        invariant
            i <= 16,
            n == src@.len(),
            at + 16 <= src@.len(),
            forall|j: int| 0 <= j < i ==> #[trigger] r[j] == src@[at + j],
        decreases 16 - i,
    {
        r[i] = src[at + i];
        i = i + 1;
    }
    r
}

/// Lane-wise `a & b`.
pub fn and(a: &Lanes, b: &Lanes) -> (r: Lanes)
    ensures
        forall|i: int| 0 <= i < 16 ==> #[trigger] r[i] == a[i] & b[i],
{
    let mut r: Lanes = [0u8; 16];
    let mut i: usize = 0;
    while i < 16
        invariant
            i <= 16,
            forall|j: int| 0 <= j < i ==> #[trigger] r[j] == a[j] & b[j],
        decreases 16 - i,
    {
        r[i] = a[i] & b[i];
        i = i + 1;
    }
    r
}

/// Lane-wise `a | b`.
pub fn or(a: &Lanes, b: &Lanes) -> (r: Lanes)
    ensures
        forall|i: int| 0 <= i < 16 ==> #[trigger] r[i] == a[i] | b[i],
{
    let mut r: Lanes = [0u8; 16];
    let mut i: usize = 0;
    while i < 16
        invariant
            i <= 16,
            forall|j: int| 0 <= j < i ==> #[trigger] r[j] == a[j] | b[j],
        decreases 16 - i,
    {
        r[i] = a[i] | b[i];
        i = i + 1;
    }
    r
}

/// Lane-wise `a << k`, bits shifted out of a lane are lost.
pub fn shl(a: &Lanes, k: u8) -> (r: Lanes)
    requires
        k < 8,
    ensures
        forall|i: int| 0 <= i < 16 ==> #[trigger] r[i] == a[i] << k,
{
    let mut r: Lanes = [0u8; 16];
    let mut i: usize = 0;
    while i < 16
        invariant
            i <= 16,
            k < 8,
            forall|j: int| 0 <= j < i ==> #[trigger] r[j] == a[j] << k,
        decreases 16 - i,
    {
        r[i] = a[i] << k;
        i = i + 1;
    }
    r
}

/// Lane-wise `a >> k`.
pub fn shr(a: &Lanes, k: u8) -> (r: Lanes)
    requires
        k < 8,
    ensures
        forall|i: int| 0 <= i < 16 ==> #[trigger] r[i] == a[i] >> k,
{
    let mut r: Lanes = [0u8; 16];
    let mut i: usize = 0;
    while i < 16
        invariant
            i <= 16,
            k < 8,
            forall|j: int| 0 <= j < i ==> #[trigger] r[j] == a[j] >> k,
        decreases 16 - i,
    {
        r[i] = a[i] >> k;
        i = i + 1;
    }
    r
}

/// Table lookup inside a register: lane `i` takes lane `idx[i]` of `table`,
/// or zero where that index is out of range.
pub fn shuffle(table: &Lanes, idx: &Lanes) -> (r: Lanes)
    ensures
        forall|i: int|
            0 <= i < 16 ==> #[trigger] r[i] == if idx[i] < 16 {
                table[idx[i] as int]
            } else {
                0u8
            },
{
    let mut r: Lanes = [0u8; 16];
    let mut i: usize = 0;
    while i < 16
        invariant
            i <= 16,
            forall|j: int|
                0 <= j < i ==> #[trigger] r[j] == if idx[j] < 16 {
                    table[idx[j] as int]
                } else {
                    0u8
                },
        decreases 16 - i,
    {
        if idx[i] < 16 {
            r[i] = table[idx[i] as usize];
        } else {
            r[i] = 0;
        }
        i = i + 1;
    }
    r
}

/// Interleaves the low halves of `a` and `b`: `a[0], b[0], a[1], b[1], ...`.
pub fn zip_lo(a: &Lanes, b: &Lanes) -> (r: Lanes)
    ensures
        forall|i: int|
            0 <= i < 16 ==> #[trigger] r[i] == if i % 2 == 0 {
                a[i / 2]
            } else {
                b[i / 2]
            },
{
    let mut r: Lanes = [0u8; 16];
    let mut i: usize = 0;
    while i < 8
        invariant
            i <= 8,
            forall|j: int|
                0 <= j < 2 * i ==> #[trigger] r[j] == if j % 2 == 0 {
                    a[j / 2]
                } else {
                    b[j / 2]
                },
        decreases 8 - i,
    {
        r[2 * i] = a[i];
        r[2 * i + 1] = b[i];
        i = i + 1;
    }
    r
}

/// Interleaves the high halves of `a` and `b`: `a[8], b[8], a[9], b[9], ...`.
pub fn zip_hi(a: &Lanes, b: &Lanes) -> (r: Lanes)
    ensures
        forall|i: int|
            0 <= i < 16 ==> #[trigger] r[i] == if i % 2 == 0 {
                a[8 + i / 2]
            } else {
                b[8 + i / 2]
            },
{
    let mut r: Lanes = [0u8; 16];
    let mut i: usize = 0;
    while i < 8
        invariant
            i <= 8,
            forall|j: int|
                0 <= j < 2 * i ==> #[trigger] r[j] == if j % 2 == 0 {
                    a[8 + j / 2]
                } else {
                    b[8 + j / 2]
                },
        decreases 8 - i,
    {
        r[2 * i] = a[8 + i];
        r[2 * i + 1] = b[8 + i];
        i = i + 1;
    }
    r
}

/// Writes the 16 lanes of `r` to `out[at..at + 16]`.
pub fn store(out: &mut [u8], at: usize, r: &Lanes)
    requires
        at + 16 <= old(out)@.len(),
    ensures
        final(out)@.len() == old(out)@.len(),
        forall|k: int|
            0 <= k < old(out)@.len() ==> #[trigger] final(out)@[k] == if at <= k < at + 16 {
                r[k - at]
            } else {
                old(out)@[k]
            },
{
    let ghost start = out@;
    let n = out.len();
    let mut i: usize = 0;
    while i < 16
        invariant
            i <= 16,
            n == start.len(),
            at + 16 <= start.len(),
            out@.len() == start.len(),
            forall|k: int|
                0 <= k < start.len() ==> #[trigger] out@[k] == if at <= k < at + i {
                    r[k - at]
                } else {
                    start[k]
                },
        decreases 16 - i,
    {
        out[at + i] = r[i];
        i = i + 1;
    }
}

/// Widens each byte lane to 16 bits.
pub fn widen(a: &Lanes) -> (r: WideLanes)
    ensures
        forall|i: int| 0 <= i < 16 ==> #[trigger] r[i] == a[i] as u16,
{
    let mut r: WideLanes = [0u16; 16];
    let mut i: usize = 0;
    while i < 16
        invariant
            i <= 16,
            forall|j: int| 0 <= j < i ==> #[trigger] r[j] == a[j] as u16,
        decreases 16 - i,
    {
        r[i] = a[i] as u16;
        i = i + 1;
    }
    r
}

/// Lane-wise `a & m` on 16-bit lanes, with the same `m` in every lane.
pub fn and_wide(a: &WideLanes, m: u16) -> (r: WideLanes)
    ensures
        forall|i: int| 0 <= i < 16 ==> #[trigger] r[i] == a[i] & m,
{
    let mut r: WideLanes = [0u16; 16];
    let mut i: usize = 0;
    while i < 16
        invariant
            i <= 16,
            forall|j: int| 0 <= j < i ==> #[trigger] r[j] == a[j] & m,
        decreases 16 - i,
    {
        r[i] = a[i] & m;
        i = i + 1;
    }
    r
}

/// Lane-wise `a | b` on 16-bit lanes.
pub fn or_wide(a: &WideLanes, b: &WideLanes) -> (r: WideLanes)
    ensures
        forall|i: int| 0 <= i < 16 ==> #[trigger] r[i] == a[i] | b[i],
{
    let mut r: WideLanes = [0u16; 16];
    let mut i: usize = 0;
    while i < 16
        invariant
            i <= 16,
            forall|j: int| 0 <= j < i ==> #[trigger] r[j] == a[j] | b[j],
        decreases 16 - i,
    {
        r[i] = a[i] | b[i];
        i = i + 1;
    }
    r
}

/// Lane-wise `a << k` on 16-bit lanes, bits shifted out of a lane are lost.
pub fn shl_wide(a: &WideLanes, k: u16) -> (r: WideLanes)
    requires
        k < 16,
    ensures
        forall|i: int| 0 <= i < 16 ==> #[trigger] r[i] == a[i] << k,
{
    let mut r: WideLanes = [0u16; 16];
    let mut i: usize = 0;
    while i < 16
        invariant
            i <= 16,
            k < 16,
            forall|j: int| 0 <= j < i ==> #[trigger] r[j] == a[j] << k,
        decreases 16 - i,
    {
        r[i] = a[i] << k;
        i = i + 1;
    }
    r
}

proof fn lemma_wrapping_mul_u16(a: u16, b: u16)
    ensures
        vstd::wrapping::u16_specs::wrapping_mul(a, b) == (a * b) as u16,
{
    assert(vstd::wrapping::u16_specs::wrapping_mul(a, b) == (a * b) as u16) by (bit_vector);
}

/// Lane-wise square on 16-bit lanes, keeping the low 16 bits of each product.
pub fn square_wide(a: &WideLanes) -> (r: WideLanes)
    ensures
        forall|i: int| 0 <= i < 16 ==> #[trigger] r[i] == (a[i] * a[i]) as u16,
{
    let mut r: WideLanes = [0u16; 16];
    let mut i: usize = 0;
    while i < 16
        invariant
            i <= 16,
            forall|j: int| 0 <= j < i ==> #[trigger] r[j] == (a[j] * a[j]) as u16,
        decreases 16 - i,
    {
        proof {
            lemma_wrapping_mul_u16(a[i as int], a[i as int]);
        }
        r[i] = a[i].wrapping_mul(a[i]);
        i = i + 1;
    }
    r
}

/// Writes the 16-bit lanes of `r` to `out[at..at + 32]`, each most significant byte first.
pub fn store_wide_be(out: &mut [u8], at: usize, r: &WideLanes)
    requires
        at + 32 <= old(out)@.len(),
    ensures
        final(out)@.len() == old(out)@.len(),
        forall|k: int|
            0 <= k < old(out)@.len() ==> #[trigger] final(out)@[k] == if at <= k < at + 32 {
                if (k - at) % 2 == 0 {
                    (r[(k - at) / 2] >> 8u16) as u8
                } else {
                    r[(k - at) / 2] as u8
                }
            } else {
                old(out)@[k]
            },
{
    let ghost start = out@;
    let n = out.len();
    let mut i: usize = 0;
    while i < 16
        invariant
            i <= 16,
            n == start.len(),
            at + 32 <= start.len(),
            out@.len() == start.len(),
            forall|k: int|
                0 <= k < start.len() ==> #[trigger] out@[k] == if at <= k < at + 2 * i {
                    if (k - at) % 2 == 0 {
                        (r[(k - at) / 2] >> 8u16) as u8
                    } else {
                        r[(k - at) / 2] as u8
                    }
                } else {
                    start[k]
                },
        decreases 16 - i,
    {
        out[at + 2 * i] = (r[i] >> 8) as u8;
        out[at + 2 * i + 1] = r[i] as u8;
        i = i + 1;
    }
}

} // verus!
