use slmp::bytes::{
    bits_to_u16, bits_to_u8, div_ceil, from_le_bytes, to_le_bytes, u16_to_bits, u8_to_bits,
};

#[test]
fn bits_of_a_byte() {
    assert_eq!(u8_to_bits(0x05), [true, false, true, false, false, false, false, false]);
    assert_eq!(u8_to_bits(0x80), [false, false, false, false, false, false, false, true]);
    assert_eq!(bits_to_u8([false, true, false, false, false, false, true, false]), 0x42);
}

#[test]
fn bytes_survive_bits() {
    for n in 0..=255u8 {
        let bits = u8_to_bits(n);
        for i in 0..8 {
            assert_eq!(bits[i], (n >> i) & 1 == 1);
        }
        assert_eq!(bits_to_u8(bits), n);
    }
}

#[test]
fn words_swap_in_bits() {
    let bits = u16_to_bits(0x0102);
    assert!(bits[1] && bits[8]);
    assert_eq!(bits.iter().filter(|b| **b).count(), 2);
    for n in [0u16, 1, 0x0102, 0x8001, 0xABCD, 0xFFFF] {
        let bits = u16_to_bits(n);
        for i in 0..16 {
            assert_eq!(bits[i], (n >> i) & 1 == 1);
        }
        assert_eq!(bits_to_u16(bits), n.swap_bytes());
    }
}

#[test]
fn rounded_up_quotients() {
    assert_eq!(div_ceil(0, 8), 0);
    assert_eq!(div_ceil(1, 8), 1);
    assert_eq!(div_ceil(8, 8), 1);
    assert_eq!(div_ceil(9, 8), 2);
    assert_eq!(div_ceil(usize::MAX, 1), usize::MAX);
}

#[test]
fn little_endian_words() {
    for n in [0u16, 1, 0x00FF, 0x0100, 0xC059, 0xFFFF] {
        assert_eq!(to_le_bytes(n), n.to_le_bytes());
        assert_eq!(from_le_bytes(to_le_bytes(n)[0], to_le_bytes(n)[1]), n);
    }
}
