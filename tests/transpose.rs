use data_onion::{flip_and_rotate, flip_and_rotate_buffer};

#[test]
fn test_flip_and_rotate() {
    assert_eq!(flip_and_rotate(180), 240);
}

#[test]
fn flip_and_rotate_twice_is_not_identity() {
    assert_eq!(flip_and_rotate(flip_and_rotate(180)), 210);
    assert_ne!(flip_and_rotate(flip_and_rotate(180)), 180);
}

#[test]
fn flip_and_rotate_edges() {
    // 0x00 ^ 0x55 = 0x55, rotated right: 0xAA.
    assert_eq!(flip_and_rotate(0x00), 0xAA);
    // 0x55 ^ 0x55 = 0, rotated: 0.
    assert_eq!(flip_and_rotate(0x55), 0x00);
    // 0xFF ^ 0x55 = 0xAA, rotated right: 0x55.
    assert_eq!(flip_and_rotate(0xFF), 0x55);
}

#[test]
fn flip_and_rotate_whole_buffer() {
    assert_eq!(flip_and_rotate_buffer(&[180, 0x00, 0xFF]), vec![240, 0xAA, 0x55]);
    assert_eq!(flip_and_rotate_buffer(&[]), Vec::<u8>::new());
}
