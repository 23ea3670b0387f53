use bit_doubler::lookups::{
    double_array_lookup_u16_with, double_array_lookup_u4_with, double_array_lookup_u8_with,
    ByteTable, NibbleTable, PairTable,
};
use bit_doubler::scalar::double_array_sisd;

#[test]
fn tables_built_twice_are_identical() {
    assert_eq!(NibbleTable::new().entries(), NibbleTable::new().entries());
    assert_eq!(ByteTable::new().entries(), ByteTable::new().entries());
    assert_eq!(PairTable::new().entries(), PairTable::new().entries());
}

#[test]
fn table_entries_depend_on_the_key() {
    let nibbles = NibbleTable::new();
    assert_eq!(nibbles.get(0b1010), 0b1100_1100);
    assert_eq!(nibbles.get(0b0001), 0b0000_0011);
    let bytes = ByteTable::new();
    assert_eq!(bytes.get(0b1010_0000), 0b1100_1100_0000_0000);
    assert_eq!(bytes.get(0xFF), 0xFFFF);
    let pairs = PairTable::new();
    assert_eq!(pairs.get(0x8001), 0xC000_0003);
    assert_eq!(pairs.get(0x00FF), 0x0000_FFFF);
    for k in 0..=255u8 {
        assert_eq!(pairs.get(k as u16), bytes.get(k) as u32);
        assert_eq!(bytes.get(k) >> 8, nibbles.get(k >> 4) as u16);
        assert_eq!(bytes.get(k) & 0xFF, nibbles.get(k & 0x0F) as u16);
    }
}

#[test]
fn shared_tables_serve_many_calls() {
    let nibbles = NibbleTable::new();
    let bytes = ByteTable::new();
    let pairs = PairTable::new();
    for len in 0..40usize {
        let input: Vec<u8> = (0..len).map(|i| (i * 37 + 11) as u8).collect();
        let expected = double_array_sisd(&input);
        assert_eq!(double_array_lookup_u4_with(&nibbles, &input), expected);
        assert_eq!(double_array_lookup_u8_with(&bytes, &input), expected);
        assert_eq!(double_array_lookup_u16_with(&pairs, &input), expected);
    }
}
