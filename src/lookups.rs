//! Table-driven kernels. A table maps every key of 4, 8 or 16 bits to its
//! doubled image; a table is built once, never changed, and can be shared.
use vstd::prelude::*;
use crate::model::{
    double_byte, doubled, doubled_below, doubled_high, doubled_low, lemma_doubled_byte_step,
    lemma_doubled_full, lemma_nibble_keys, spread_nibble,
};
use crate::pack::{lemma_double_byte_split, push_be_u16};

verus! {

/// The doubled image of a big-endian pair of bytes, as one 32-bit word.
pub open spec fn double_pair(x: u16) -> u32 {
    ((double_byte((x >> 8u16) as u8) as u32) << 16u32) | (double_byte(x as u8) as u32)
}

/// The 16 doubled nibbles.
pub struct NibbleTable {
    entries: [u8; 16],
}

/// The 256 doubled bytes.
pub struct ByteTable {
    entries: Vec<u16>,
}

/// The 65536 doubled byte pairs.
pub struct PairTable {
    entries: Vec<u32>,
}

impl View for NibbleTable {
    type V = Seq<u8>;

    closed spec fn view(&self) -> Seq<u8> {
        self.entries@
    }
}

impl View for ByteTable {
    type V = Seq<u16>;

    closed spec fn view(&self) -> Seq<u16> {
        self.entries@
    }
}

impl View for PairTable {
    type V = Seq<u32>;

    closed spec fn view(&self) -> Seq<u32> {
        self.entries@
    }
}

impl NibbleTable {
    /// Entry `k` is nibble `k` doubled, for each of the 16 keys.
    pub open spec fn wf(&self) -> bool {
        &&& self@.len() == 16
        &&& forall|k: int| 0 <= k < 16 ==> #[trigger] self@[k] == spread_nibble(k as u8)
    }

    /// The table, written out.
    pub fn new() -> (t: NibbleTable)
        ensures
            t.wf(),
    {
        let entries: [u8; 16] = [
            0b00000000,
            0b00000011,
            0b00001100,
            0b00001111,
            0b00110000,
            0b00110011,
            0b00111100,
            0b00111111,
            0b11000000,
            0b11000011,
            0b11001100,
            0b11001111,
            0b11110000,
            0b11110011,
            0b11111100,
            0b11111111,
        ];
        assert({
            &&& spread_nibble(0u8) == 0x00u8
            &&& spread_nibble(1u8) == 0x03u8
            &&& spread_nibble(2u8) == 0x0cu8
            &&& spread_nibble(3u8) == 0x0fu8
            &&& spread_nibble(4u8) == 0x30u8
            &&& spread_nibble(5u8) == 0x33u8
            &&& spread_nibble(6u8) == 0x3cu8
            &&& spread_nibble(7u8) == 0x3fu8
            &&& spread_nibble(8u8) == 0xc0u8
            &&& spread_nibble(9u8) == 0xc3u8
            &&& spread_nibble(10u8) == 0xccu8
            &&& spread_nibble(11u8) == 0xcfu8
            &&& spread_nibble(12u8) == 0xf0u8
            &&& spread_nibble(13u8) == 0xf3u8
            &&& spread_nibble(14u8) == 0xfcu8
            &&& spread_nibble(15u8) == 0xffu8
        }) by (bit_vector);
        let t = NibbleTable { entries };
        assert forall|k: int| 0 <= k < 16 implies #[trigger] t@[k] == spread_nibble(k as u8) by {
            assert(t@[k] == entries[k]);
        }
        t
    }

    /// The doubled image of nibble `k`.
    pub fn get(&self, k: u8) -> (r: u8)
        requires
            self.wf(),
            k < 16,
        ensures
            r == spread_nibble(k),
    {
        self.entries[k as usize]
    }

    /// The 16 entries, in key order.
    pub fn entries(&self) -> (r: [u8; 16])
        ensures
            r@ == self@,
    {
        self.entries
    }
}

proof fn lemma_byte_bit_step(x: u8, j: u16, res: u16)
    requires
        j < 8,
        res == doubled_below(x, j as u8),
    ensures
        ({
            let bit = ((x as u16) >> j) & 1u16;
            (res | (bit << (j * 2) as u16) | (bit << (j * 2 + 1) as u16)) == doubled_below(x, (j + 1) as u8)
        }),
{
    assert({
        let bit = ((x as u16) >> j) & 1u16;
        (res | (bit << (j * 2) as u16) | (bit << (j * 2 + 1) as u16)) == doubled_below(x, (j + 1) as u8)
    }) by (bit_vector)
        requires
            j < 8,
            res == doubled_below(x, j as u8),
    ;
}

proof fn lemma_byte_ends(x: u8)
    ensures
        0u16 == doubled_below(x, 0),
        doubled_below(x, 8) == double_byte(x),
{
    assert(0u16 == doubled_below(x, 0) && doubled_below(x, 8) == double_byte(x))
        by (bit_vector);
}

impl ByteTable {
    /// Entry `k` is byte `k` doubled, for each of the 256 keys.
    pub open spec fn wf(&self) -> bool {
        &&& self@.len() == 256
        &&& forall|k: int| 0 <= k < 256 ==> #[trigger] self@[k] == double_byte(k as u8)
    }

    /// Builds the table, doubling each key one bit at a time.
    pub fn new() -> (t: ByteTable)
        ensures
            t.wf(),
    {
        let mut entries: Vec<u16> = Vec::new();
        let mut x: u16 = 0;
        while x < 256
            invariant
                x <= 256,
                entries@.len() == x,
                forall|k: int| 0 <= k < x ==> #[trigger] entries@[k] == double_byte(k as u8),
            decreases 256 - x,
        {
            let mut res: u16 = 0;
            let mut j: u16 = 0;
            proof {
                lemma_byte_ends(x as u8);
            }
            while j < 8
                invariant
                    x < 256,
                    j <= 8,
                    res == doubled_below(x as u8, j as u8),
                decreases 8 - j,
            {
                proof {
                    lemma_byte_bit_step(x as u8, j, res);
                }
                assert((x as u8) as u16 == x);
                let bit: u16 = (x >> j) & 1;
                res = res | (bit << (j * 2)) | (bit << (j * 2 + 1));
                j = j + 1;
            }
            proof {
                lemma_byte_ends(x as u8);
            }
            entries.push(res);
            x = x + 1;
        }
        ByteTable { entries }
    }

    /// The doubled image of byte `k`.
    pub fn get(&self, k: u8) -> (r: u16)
        requires
            self.wf(),
        ensures
            r == double_byte(k),
    {
        self.entries[k as usize]
    }

    /// The 256 entries, in key order.
    pub fn entries(&self) -> (r: &[u16])
        ensures
            r@ == self@,
    {
        self.entries.as_slice()
    }
}

/// The doubled image of pair `x`, bit by bit: the `j` low bits of `x`, doubled.
pub open spec fn pair_doubled_below(x: u32, j: u32) -> u32 {
    double_pair(x as u16) & (((1u64 << (2 * j) as u64) - 1) as u32)
}

proof fn lemma_pair_bit_step(x: u32, j: u32, res: u32)
    requires
        x < 0x10000,
        j < 16,
        res == pair_doubled_below(x, j),
    ensures
        ({
            let bit = (x >> j) & 1u32;
            (res | (bit << (j * 2) as u32) | (bit << (j * 2 + 1) as u32)) == pair_doubled_below(
                x,
                (j + 1) as u32,
            )
        }),
{
    assert({
        let bit = (x >> j) & 1u32;
        (res | (bit << (j * 2) as u32) | (bit << (j * 2 + 1) as u32)) == pair_doubled_below(
            x,
            (j + 1) as u32,
        )
    }) by (bit_vector)
        requires
            x < 0x10000,
            j < 16,
            res == pair_doubled_below(x, j),
    ;
}

proof fn lemma_pair_ends(x: u32)
    ensures
        0u32 == pair_doubled_below(x, 0),
        pair_doubled_below(x, 16) == double_pair(x as u16),
{
    assert(0u32 == pair_doubled_below(x, 0) && pair_doubled_below(x, 16) == double_pair(x as u16))
        by (bit_vector);
}

impl PairTable {
    /// Entry `k` is the pair `k` doubled, for each of the 65536 keys.
    pub open spec fn wf(&self) -> bool {
        &&& self@.len() == 0x10000
        &&& forall|k: int| 0 <= k < 0x10000 ==> #[trigger] self@[k] == double_pair(k as u16)
    }

    /// Builds the table, doubling each key one bit at a time.
    pub fn new() -> (t: PairTable)
        ensures
            t.wf(),
    {
        let mut entries: Vec<u32> = Vec::new();
        let mut x: u32 = 0;
        while x < 0x10000
            invariant
                x <= 0x10000,
                entries@.len() == x,
                forall|k: int| 0 <= k < x ==> #[trigger] entries@[k] == double_pair(k as u16),
            decreases 0x10000 - x,
        {
            let mut res: u32 = 0;
            let mut j: u32 = 0;
            proof {
                lemma_pair_ends(x);
            }
            while j < 16
                invariant
                    x < 0x10000,
                    j <= 16,
                    res == pair_doubled_below(x, j),
                decreases 16 - j,
            {
                proof {
                    lemma_pair_bit_step(x, j, res);
                }
                let bit: u32 = (x >> j) & 1;
                res = res | (bit << (j * 2)) | (bit << (j * 2 + 1));
                j = j + 1;
            }
            proof {
                lemma_pair_ends(x);
            }
            entries.push(res);
            x = x + 1;
        }
        PairTable { entries }
    }

    /// The doubled image of pair `k`.
    pub fn get(&self, k: u16) -> (r: u32)
        requires
            self.wf(),
        ensures
            r == double_pair(k),
    {
        self.entries[k as usize]
    }

    /// The 65536 entries, in key order.
    pub fn entries(&self) -> (r: &[u32])
        ensures
            r@ == self@,
    {
        self.entries.as_slice()
    }
}

/// Two well-formed byte tables are identical: each entry is fixed by its key
/// alone, so building the table again, in any order, gives the same table.
pub proof fn lemma_byte_tables_agree(a: &ByteTable, b: &ByteTable)
    requires
        a.wf(),
        b.wf(),
    ensures
        a@ == b@,
{
    assert(a@ =~= b@);
}

/// Two well-formed nibble tables are identical.
pub proof fn lemma_nibble_tables_agree(a: &NibbleTable, b: &NibbleTable)
    requires
        a.wf(),
        b.wf(),
    ensures
        a@ == b@,
{
    assert(a@ =~= b@);
}

/// Two well-formed pair tables are identical.
pub proof fn lemma_pair_tables_agree(a: &PairTable, b: &PairTable)
    requires
        a.wf(),
        b.wf(),
    ensures
        a@ == b@,
{
    assert(a@ =~= b@);
}

/// The doubling of the first `i + 2` bytes extends that of the first `i` bytes
/// by the four bytes of the doubled pair at `i`.
proof fn lemma_doubled_pair_step(s: Seq<u8>, i: int)
    requires
        0 <= i,
        i + 2 <= s.len(),
    ensures
        ({
            let v = double_pair((((s[i] as u16) << 8u16) | (s[i + 1] as u16)) as u16);
            doubled(s).subrange(0, 2 * i + 4) == doubled(s).subrange(0, 2 * i).push(
                (v >> 24u32) as u8,
            ).push((v >> 16u32) as u8).push((v >> 8u32) as u8).push(v as u8)
        }),
{
    let b0 = s[i];
    let b1 = s[i + 1];
    assert({
        let v = double_pair((((b0 as u16) << 8u16) | (b1 as u16)) as u16);
        &&& (v >> 24u32) as u8 == doubled_high(b0)
        &&& (v >> 16u32) as u8 == doubled_low(b0)
        &&& (v >> 8u32) as u8 == doubled_high(b1)
        &&& v as u8 == doubled_low(b1)
    }) by (bit_vector);
    lemma_doubled_byte_step(s, i);
    lemma_doubled_byte_step(s, i + 1);
}

/// The low half of a doubled pair whose high byte is zero is the doubled low byte.
proof fn lemma_pair_low_byte(b: u8)
    ensures
        (double_pair(b as u16) >> 8u32) as u8 == doubled_high(b),
        double_pair(b as u16) as u8 == doubled_low(b),
{
    assert((double_pair(b as u16) >> 8u32) as u8 == doubled_high(b) && double_pair(b as u16) as u8
        == doubled_low(b)) by (bit_vector);
}

/// Doubles every bit of `array` with a nibble table: each byte becomes its
/// doubled high nibble followed by its doubled low nibble.
pub fn double_array_lookup_u4_with(table: &NibbleTable, array: &[u8]) -> (r: Vec<u8>)
    requires
        table.wf(),
    ensures
        r@ == doubled(array@),
        r@.len() == 2 * array@.len(),
{
    let mut doubled_array: Vec<u8> = Vec::new();
    let mut i: usize = 0;
    while i < array.len()
        invariant
            table.wf(),
            i <= array@.len(),
            doubled_array@ == doubled(array@).subrange(0, 2 * i),
        decreases array@.len() - i,
    {
        let x = array[i];
        proof {
            lemma_nibble_keys(x);
            lemma_doubled_byte_step(array@, i as int);
        }
        doubled_array.push(table.get(x >> 4));
        doubled_array.push(table.get(x & 0b0000_1111));
        i = i + 1;
    }
    proof {
        lemma_doubled_full(array@);
    }
    doubled_array
}

/// Doubles every bit of `array` with a freshly written nibble table.
pub fn double_array_lookup_u4(array: &[u8]) -> (r: Vec<u8>)
    ensures
        r@ == doubled(array@),
        r@.len() == 2 * array@.len(),
{
    let table = NibbleTable::new();
    double_array_lookup_u4_with(&table, array)
}

/// Doubles every bit of `array` with a byte table: each byte becomes the two
/// bytes of its entry, most significant first.
pub fn double_array_lookup_u8_with(table: &ByteTable, array: &[u8]) -> (r: Vec<u8>)
    requires
        table.wf(),
    ensures
        r@ == doubled(array@),
        r@.len() == 2 * array@.len(),
{
    let mut doubled_array: Vec<u8> = Vec::new();
    let mut i: usize = 0;
    while i < array.len()
        invariant
            table.wf(),
            i <= array@.len(),
            doubled_array@ == doubled(array@).subrange(0, 2 * i),
        decreases array@.len() - i,
    {
        let v = table.get(array[i]);
        proof {
            lemma_double_byte_split(array@[i as int]);
            lemma_doubled_byte_step(array@, i as int);
        }
        push_be_u16(&mut doubled_array, v);
        i = i + 1;
    }
    proof {
        lemma_doubled_full(array@);
    }
    doubled_array
}

/// Doubles every bit of `array` with a freshly built byte table.
pub fn double_array_lookup_u8(array: &[u8]) -> (r: Vec<u8>)
    ensures
        r@ == doubled(array@),
        r@.len() == 2 * array@.len(),
{
    let table = ByteTable::new();
    double_array_lookup_u8_with(&table, array)
}

/// Doubles every bit of `array` with a pair table: each two bytes, read as a
/// big-endian key, become the four bytes of its entry, most significant first.
/// A last odd byte is looked up alone, as a key below 256, and gives the low
/// two bytes of its entry.
pub fn double_array_lookup_u16_with(table: &PairTable, array: &[u8]) -> (r: Vec<u8>)
    requires
        table.wf(),
    ensures
        r@ == doubled(array@),
        r@.len() == 2 * array@.len(),
{
    let mut doubled_array: Vec<u8> = Vec::new();
    let mut i: usize = 0;
    while array.len() - i >= 2
        invariant
            table.wf(),
            i <= array@.len(),
            doubled_array@ == doubled(array@).subrange(0, 2 * i),
        decreases array@.len() - i,
    {
        let key: u16 = ((array[i] as u16) << 8) | (array[i + 1] as u16);
        let v = table.get(key);
        proof {
            lemma_doubled_pair_step(array@, i as int);
        }
        doubled_array.push((v >> 24) as u8);
        doubled_array.push((v >> 16) as u8);
        doubled_array.push((v >> 8) as u8);
        doubled_array.push(v as u8);
        i = i + 2;
    }
    if i < array.len() {
        let b = array[i];
        let v = table.get(b as u16);
        proof {
            lemma_pair_low_byte(b);
            lemma_doubled_byte_step(array@, i as int);
        }
        doubled_array.push((v >> 8) as u8);
        doubled_array.push(v as u8);
        i = i + 1;
    }
    proof {
        lemma_doubled_full(array@);
    }
    doubled_array
}

/// Doubles every bit of `array` with a freshly built pair table.
pub fn double_array_lookup_u16(array: &[u8]) -> (r: Vec<u8>)
    ensures
        r@ == doubled(array@),
        r@.len() == 2 * array@.len(),
{
    let table = PairTable::new();
    double_array_lookup_u16_with(&table, array)
}

} // verus!
