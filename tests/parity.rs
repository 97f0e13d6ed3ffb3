use data_onion::{correct_byte, parse_parity_buffer};

#[test]
fn test_correct_byte() {
    assert_eq!(correct_byte(0b11), Some(0b1));
    assert_eq!(correct_byte(0b10110010), Some(0b1011001));
    assert_eq!(correct_byte(0b01), None);
}

#[test]
fn test_parse_parity_buffer() {
    let b = &[
        0b10000001u8,
        0b11000000u8,
        0b11100001u8,
        0b11110000u8,
        0b10000001u8,
        0b11000000u8,
        0b11100001u8,
        0b11110000u8,
    ];
    let out = &[
        0b10000001u8,
        0b10000011u8,
        0b10000111u8,
        0b10001000u8,
        0b00011000u8,
        0b00111000u8,
        0b01111000u8,
    ];
    assert_eq!(parse_parity_buffer(b), out);
}

#[test]
fn parity_every_byte() {
    for b in 0..=255u8 {
        let data = b >> 1;
        let good = (data.count_ones() % 2) as u8 == (b & 1);
        assert_eq!(correct_byte(b), if good { Some(data) } else { None });
    }
}

#[test]
fn parity_mismatch_contributes_nothing() {
    let good = [
        0b10000001u8,
        0b11000000u8,
        0b11100001u8,
        0b11110000u8,
        0b10000001u8,
        0b11000000u8,
        0b11100001u8,
        0b11110000u8,
    ];
    let mut mixed = good.to_vec();
    mixed.insert(3, 0b00000001);
    mixed.insert(0, 0b11111110);
    assert_eq!(parse_parity_buffer(&mixed), parse_parity_buffer(&good));
}

#[test]
fn parity_incomplete_group_dropped() {
    assert_eq!(parse_parity_buffer(&[0b10000001]), Vec::<u8>::new());
    assert_eq!(parse_parity_buffer(&[]), Vec::<u8>::new());
    // Two valid bytes give 14 bits: one byte, six bits dropped.
    assert_eq!(parse_parity_buffer(&[0b10000001, 0b11000000]), vec![0b10000001]);
}
