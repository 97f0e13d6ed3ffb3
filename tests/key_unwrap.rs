use aes::cipher::generic_array::GenericArray;
use aes::cipher::{BlockEncrypt, KeyInit, KeyIvInit, StreamCipher};
use data_onion::{decode_aes_payload, AesError};

fn wrap(kek: &[u8; 32], key: &[u8; 32]) -> Vec<u8> {
    let cipher = aes::Aes256::new(GenericArray::from_slice(kek));
    let mut a = [0xA6u8; 8];
    let mut r: Vec<[u8; 8]> = key.chunks(8).map(|c| c.try_into().unwrap()).collect();
    for j in 0..6u64 {
        for i in 1..=4usize {
            let mut block = GenericArray::clone_from_slice(&[a.as_slice(), r[i - 1].as_slice()].concat());
            cipher.encrypt_block(&mut block);
            let t = 4 * j + i as u64;
            let msb = u64::from_be_bytes(block[..8].try_into().unwrap()) ^ t;
            a = msb.to_be_bytes();
            r[i - 1] = block[8..].try_into().unwrap();
        }
    }
    let mut out = a.to_vec();
    for b in r {
        out.extend_from_slice(&b);
    }
    out
}

fn ctr(key: &[u8], nonce: &[u8], data: &[u8]) -> Vec<u8> {
    let mut c = ctr::Ctr128BE::<aes::Aes256>::new(
        GenericArray::from_slice(key),
        GenericArray::from_slice(nonce),
    );
    let mut d = data.to_vec();
    c.apply_keystream(&mut d);
    d
}

#[test]
fn aes_payload_round_trip() {
    let kek: [u8; 32] = core::array::from_fn(|i| i as u8);
    let content_key: [u8; 32] = core::array::from_fn(|i| (0x11 * (i % 16)) as u8 ^ (i / 16) as u8);
    let nonce: [u8; 16] = core::array::from_fn(|i| 0xF0 | i as u8);
    let plain = b"The quick brown fox jumps over the lazy dog, twice over.".to_vec();

    let mut input = kek.to_vec();
    input.extend_from_slice(&[0xA6; 8]);
    input.extend(wrap(&kek, &content_key));
    input.extend_from_slice(&nonce);
    let encrypted = ctr(&content_key, &nonce, &plain);
    assert_ne!(encrypted, plain);
    input.extend(encrypted);

    assert_eq!(decode_aes_payload(&input), Ok(plain));
}

#[test]
fn aes_rfc3394_vector() {
    // RFC 3394, 4.6: 256 bits of key data wrapped with a 256-bit KEK.
    let kek: [u8; 32] = core::array::from_fn(|i| i as u8);
    let key: [u8; 32] = [
        0x00, 0x11, 0x22, 0x33, 0x44, 0x55, 0x66, 0x77, 0x88, 0x99, 0xAA, 0xBB, 0xCC, 0xDD, 0xEE,
        0xFF, 0x00, 0x01, 0x02, 0x03, 0x04, 0x05, 0x06, 0x07, 0x08, 0x09, 0x0A, 0x0B, 0x0C, 0x0D,
        0x0E, 0x0F,
    ];
    let wrapped = wrap(&kek, &key);
    let expected: [u8; 40] = [
        0x28, 0xC9, 0xF4, 0x04, 0xC4, 0xB8, 0x10, 0xF4, 0xCB, 0xCC, 0xB3, 0x5C, 0xFB, 0x87, 0xF8,
        0x26, 0x3F, 0x57, 0x86, 0xE2, 0xD8, 0x0E, 0xD3, 0x26, 0xCB, 0xC7, 0xF0, 0xE7, 0x1A, 0x99,
        0xF4, 0x3B, 0xFB, 0x98, 0x8B, 0x9B, 0x7A, 0x02, 0xDD, 0x21,
    ];
    assert_eq!(wrapped, expected.to_vec());

    let nonce = [0u8; 16];
    let plain = vec![0x5Au8; 33];
    let mut input = kek.to_vec();
    input.extend_from_slice(&[0; 8]);
    input.extend_from_slice(&expected);
    input.extend_from_slice(&nonce);
    input.extend(ctr(&key, &nonce, &plain));
    assert_eq!(decode_aes_payload(&input), Ok(plain));
}

#[test]
fn aes_empty_payload() {
    let kek = [7u8; 32];
    let key = [9u8; 32];
    let mut input = kek.to_vec();
    input.extend_from_slice(&[0; 8]);
    input.extend(wrap(&kek, &key));
    input.extend_from_slice(&[1u8; 16]);
    assert_eq!(decode_aes_payload(&input), Ok(vec![]));
}

#[test]
fn aes_short_input_is_error() {
    assert_eq!(decode_aes_payload(&[0u8; 95]), Err(AesError::ShortInput));
    assert_eq!(decode_aes_payload(&[]), Err(AesError::ShortInput));
}
