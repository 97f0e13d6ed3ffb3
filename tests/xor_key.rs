use data_onion::{decode_xor_encoded_payload, xor};

#[test]
fn test_xor() {
    let k = &[0b01010101];
    let v = &[0b00110011, 0b00110011];
    let expected = &[0b01100110, 0b01100110];

    assert_eq!(xor(k, v), expected);
}

#[test]
fn xor_empty_key_gives_nothing() {
    assert_eq!(xor(&[], &[1, 2, 3]), Vec::<u8>::new());
}

#[test]
fn xor_key_cycles() {
    assert_eq!(xor(&[1, 2], &[0, 0, 0, 0, 0]), vec![1, 2, 1, 2, 1]);
}

fn sample_key() -> Vec<u8> {
    (0..32u32).map(|m| (m * 37 + 11) as u8 ^ 0xA7).collect()
}

fn sample_plaintext() -> Vec<u8> {
    let mut p = b"==[ Layer 4/6: Network Traffic ]".to_vec();
    p.extend_from_slice(b"\n\nSome text that comes before the payload marker.\n\n");
    p.extend_from_slice(b"==[ Payload ]");
    p.extend(std::iter::repeat(b'=').take(47));
    p.extend_from_slice(b"\n\n<~ payload bytes follow here ~>\n");
    p
}

#[test]
fn xor_recovers_key_and_plaintext() {
    let key = sample_key();
    let plain = sample_plaintext();
    let cipher = xor(&key, &plain);
    assert_eq!(decode_xor_encoded_payload(&cipher), Some(plain));
}

#[test]
fn xor_recovery_without_run_fails() {
    assert_eq!(decode_xor_encoded_payload(&[]), None);
    assert_eq!(decode_xor_encoded_payload(&[7u8; 46]), None);
    let ramp: Vec<u8> = (0..200u32).map(|i| i as u8).collect();
    assert_eq!(decode_xor_encoded_payload(&ramp), None);
}

#[test]
fn xor_recovery_is_repeatable() {
    let cipher = xor(&sample_key(), &sample_plaintext());
    assert_eq!(
        decode_xor_encoded_payload(&cipher),
        decode_xor_encoded_payload(&cipher)
    );
}
