//! The mathematical meaning of bit doubling, shared by every kernel.
//!
//! A doubled sequence is twice as long as its source. Output byte `2i` holds
//! the four high bits of input byte `i`, each repeated twice; output byte
//! `2i + 1` holds the four low bits, each repeated twice. Read as a bitstream
//! (most significant bit of each byte first), the output is the input stream
//! with every bit written twice.
use vstd::prelude::*;

verus! {

/// Bit `p` of `b`, counting from the least significant bit.
pub open spec fn bit(b: u8, p: u8) -> bool {
    (b >> p) & 1u8 == 1u8
}

/// Repeats each of the four low bits of `n`: bit `j` lands on bits `2j` and `2j + 1`.
pub open spec fn spread_nibble(n: u8) -> u8 {
    (if n & 1u8 != 0u8 { 0x03u8 } else { 0u8 }) | (if n & 2u8 != 0u8 { 0x0cu8 } else { 0u8 }) | (
    if n & 4u8 != 0u8 {
        0x30u8
    } else {
        0u8
    }) | (if n & 8u8 != 0u8 { 0xc0u8 } else { 0u8 })
}

/// The first of the two output bytes of `b`: its high nibble, doubled.
pub open spec fn doubled_high(b: u8) -> u8 {
    spread_nibble(b >> 4u8)
}

/// The second of the two output bytes of `b`: its low nibble, doubled.
pub open spec fn doubled_low(b: u8) -> u8 {
    spread_nibble(b & 0x0fu8)
}

/// The two output bytes of `b` read as one big-endian 16-bit word.
pub open spec fn double_byte(b: u8) -> u16 {
    ((doubled_high(b) as u16) << 8u16) | (doubled_low(b) as u16)
}

/// The doubled image of a big-endian 32-bit word: four doubled bytes, most significant first.
pub open spec fn double_word(x: u32) -> u64 {
    ((double_byte((x >> 24u32) as u8) as u64) << 48u64) | ((double_byte((x >> 16u32) as u8) as u64)
        << 32u64) | ((double_byte((x >> 8u32) as u8) as u64) << 16u64) | (double_byte(
        x as u8,
    ) as u64)
}

/// Output byte `k` of doubling `s`.
pub open spec fn doubled_at(s: Seq<u8>, k: int) -> u8 {
    if k % 2 == 0 {
        doubled_high(s[k / 2])
    } else {
        doubled_low(s[k / 2])
    }
}

/// The low `2 * j` bits of the doubled image of `b`: its first `j` bits, doubled.
pub open spec fn doubled_below(b: u8, j: u8) -> u16 {
    double_byte(b) & (((1u32 << (2 * j) as u32) - 1) as u16)
}

/// Both halves of a byte are keys of the nibble table, and its two output
/// bytes are those halves doubled.
pub proof fn lemma_nibble_keys(b: u8)
    ensures
        b >> 4u8 < 16,
        b & 0x0fu8 < 16,
        doubled_high(b) == spread_nibble(b >> 4u8),
        doubled_low(b) == spread_nibble(b & 0x0fu8),
{
    assert(b >> 4u8 < 16 && b & 0x0fu8 < 16) by (bit_vector);
}

/// The bit-doubled image of `s`.
pub open spec fn doubled(s: Seq<u8>) -> Seq<u8> {
    Seq::new(2 * s.len(), |k: int| doubled_at(s, k))
}

/// Bit `t` of `s` read as a bitstream, most significant bit of each byte first.
pub open spec fn stream_bit(s: Seq<u8>, t: int) -> bool {
    bit(s[t / 8], (7 - t % 8) as u8)
}

/// Every bit of a doubled nibble repeats the bit of the nibble at half its position.
pub proof fn lemma_spread_nibble_bits(b: u8, q: u8)
    requires
        q < 8,
    ensures
        bit(doubled_high(b), q) == bit(b, (4 + q / 2) as u8),
        bit(doubled_low(b), q) == bit(b, q / 2),
{
    assert(bit(doubled_high(b), q) == bit(b, (4 + q / 2) as u8)) by (bit_vector)
        requires
            q < 8,
    ;
    assert(bit(doubled_low(b), q) == bit(b, q / 2)) by (bit_vector)
        requires
            q < 8,
    ;
}

/// Doubling yields a sequence of twice the length.
pub proof fn lemma_doubled_len(s: Seq<u8>)
    ensures
        doubled(s).len() == 2 * s.len(),
{
}

/// Doubling the empty sequence gives the empty sequence.
pub proof fn lemma_doubled_empty()
    ensures
        doubled(Seq::<u8>::empty()) == Seq::<u8>::empty(),
{
    assert(doubled(Seq::<u8>::empty()) =~= Seq::<u8>::empty());
}

/// Read as a bitstream, a doubled sequence is its source stream with every bit
/// written twice, in the source's order.
pub proof fn lemma_doubled_bitstream(s: Seq<u8>)
    ensures
        doubled(s).len() == 2 * s.len(),
        forall|t: int|
            0 <= t < 16 * s.len() ==> #[trigger] stream_bit(doubled(s), t) == stream_bit(s, t / 2),
{
    assert forall|t: int| 0 <= t < 16 * s.len() implies #[trigger] stream_bit(doubled(s), t)
        == stream_bit(s, t / 2) by {
        let k = t / 8;
        let r = t % 16;
        assert(t == 16 * (t / 16) + r);
        assert(k == 2 * (t / 16) + r / 8);
        assert(k / 2 == t / 16);
        assert((t / 2) / 8 == t / 16);
        assert((t / 2) % 8 == r / 2);
        assert(t % 8 == r % 8);
        assert(0 <= k < 2 * s.len());
        let q = (7 - t % 8) as u8;
        lemma_spread_nibble_bits(s[k / 2], q);
        if r < 8 {
            assert(k % 2 == 0);
        } else {
            assert(k % 2 == 1);
        }
    }
}

/// Doubling distributes over concatenation.
pub proof fn lemma_doubled_concat(a: Seq<u8>, b: Seq<u8>)
    ensures
        doubled(a + b) == doubled(a) + doubled(b),
{
    let l = doubled(a + b);
    let r = doubled(a) + doubled(b);
    assert forall|k: int| 0 <= k < l.len() implies l[k] == r[k] by {
        if k >= 2 * a.len() {
            assert((k - 2 * a.len()) / 2 == k / 2 - a.len());
            assert((k - 2 * a.len()) % 2 == k % 2);
        }
    }
    assert(l =~= r);
}

/// Doubling any partition of a sequence piece by piece, then joining the
/// pieces, gives the doubling of the whole sequence.
pub proof fn lemma_doubled_partition(parts: Seq<Seq<u8>>)
    ensures
        doubled(parts.flatten()) == parts.map_values(|p: Seq<u8>| doubled(p)).flatten(),
    decreases parts.len(),
{
    if parts.len() == 0 {
        assert(doubled(parts.flatten()) =~= Seq::<u8>::empty());
        assert(parts.map_values(|p: Seq<u8>| doubled(p)).flatten() =~= Seq::<u8>::empty());
    } else {
        let rest = parts.drop_first();
        lemma_doubled_partition(rest);
        lemma_doubled_concat(parts.first(), rest.flatten());
        let m = parts.map_values(|p: Seq<u8>| doubled(p));
        assert(m.drop_first() =~= rest.map_values(|p: Seq<u8>| doubled(p)));
    }
}

/// The doubling of the first `i + 1` bytes extends that of the first `i` bytes
/// by the two output bytes of byte `i`.
pub proof fn lemma_doubled_byte_step(s: Seq<u8>, i: int)
    requires
        0 <= i < s.len(),
    ensures
        doubled(s).subrange(0, 2 * i + 2) == doubled(s).subrange(0, 2 * i).push(
            doubled_high(s[i]),
        ).push(doubled_low(s[i])),
{
    assert((2 * i + 1) / 2 == i);
    assert(doubled(s).subrange(0, 2 * i + 2) =~= doubled(s).subrange(0, 2 * i).push(
        doubled_high(s[i]),
    ).push(doubled_low(s[i])));
}

/// The doubling of a whole sequence is its doubling's full prefix.
pub proof fn lemma_doubled_full(s: Seq<u8>)
    ensures
        doubled(s).subrange(0, 2 * s.len() as int) == doubled(s),
{
    assert(doubled(s).subrange(0, 2 * s.len() as int) =~= doubled(s));
}

} // verus!
