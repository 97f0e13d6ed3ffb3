//! Byte-transform stages that peel nested encodings off a payload: Ascii85
//! decoding, bit transposition, parity repacking, repeating-key XOR
//! recovery, IPv4/UDP payload extraction, key unwrap with counter-mode
//! decryption, and a small bytecode machine.
pub mod ascii85;
pub mod bytes;
pub mod ipv4_udp;
pub mod key_unwrap;
pub mod parity;
pub mod tomtel;
pub mod transpose;
pub mod xor_key;

pub use ascii85::{decode_ascii85_str, decode_sequence, DecodeError, DecodeErrorKind};
pub use ipv4_udp::{parse_ip_payload, PacketError};
pub use key_unwrap::{decode_aes_payload, AesError};
pub use parity::{correct_byte, parse_parity_buffer};
pub use tomtel::{run_payload_program, TomtelVm, VmError};
pub use transpose::{flip_and_rotate, flip_and_rotate_buffer};
pub use xor_key::{decode_xor_encoded_payload, xor};
