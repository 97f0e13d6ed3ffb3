//! Key unwrap (RFC 3394 style, AES-256) followed by AES-256 counter-mode
//! decryption of the payload.
use crate::bytes::append_range;
use aes::cipher::generic_array::GenericArray;
use aes::cipher::{BlockDecryptMut, KeyInit, KeyIvInit, StreamCipher};
use vstd::prelude::*;
use vstd::slice::slice_subrange;

verus! {

/// What AES-256 decryption of the 16-byte `block` under the 32-byte `key`
/// yields.
pub uninterp spec fn aes256_decrypt_block(key: Seq<u8>, block: Seq<u8>) -> Seq<u8>;

/// What XOR-ing `data` with the AES-256 keystream of a 128-bit big-endian
/// counter, started at `nonce`, under `key` yields.
pub uninterp spec fn aes256_ctr_apply(key: Seq<u8>, nonce: Seq<u8>, data: Seq<u8>) -> Seq<u8>;

/// Relies on ecb::Decryptor<Aes256>::decrypt_padded_vec_mut with
/// NoPadding: one AES-256 block decrypted in codebook mode; it fails only on
/// an input that is not a whole number of blocks.
#[verifier::external_body]
fn aes256_ecb_decrypt(kek: &[u8], block: &[u8]) -> (r: Option<Vec<u8>>)
    requires
        kek@.len() == 32,
        block@.len() == 16,
    ensures
        r is Some,
        r->Some_0@ == aes256_decrypt_block(kek@, block@),
        r->Some_0@.len() == 16,
{
    let cipher = ecb::Decryptor::<aes::Aes256>::new(kek.into());
    cipher.decrypt_padded_vec_mut::<aes::cipher::block_padding::NoPadding>(block).ok()
}

/// Relies on ctr::Ctr128BE<Aes256>::try_apply_keystream on a fresh cipher:
/// the data XOR-ed with the keystream, same length; a fresh 128-bit counter
/// never runs out for a buffer that fits in memory.
#[verifier::external_body]
fn aes256_ctr_decrypt(key: &[u8], nonce: &[u8], data: &[u8]) -> (r: Option<Vec<u8>>)
    requires
        key@.len() == 32,
        nonce@.len() == 16,
    ensures
        r is Some,
        r->Some_0@ == aes256_ctr_apply(key@, nonce@, data@),
        r->Some_0@.len() == data@.len(),
{
    let mut cipher = ctr::Ctr128BE::<aes::Aes256>::new(
        GenericArray::from_slice(key),
        GenericArray::from_slice(nonce),
    );
    let mut out = data.to_vec();
    match cipher.try_apply_keystream(&mut out) {
        Ok(()) => Some(out),
        Err(_) => None,
    }
}

/// Why the payload could not be decrypted.
#[derive(Debug, Clone, Copy, PartialEq, Eq)]
pub enum AesError {
    /// The input is shorter than the 96 bytes of keys, nonce and wrapped key.
    ShortInput,
    /// A cipher operation failed.
    CipherFailure,
}

/// The 64-bit round counter `t` of round `k` (0-based, 24 rounds): `j` runs
/// from 5 down to 0, and for each `j`, `i` from 4 down to 1; `t = 4 * j + i`.
pub open spec fn round_t(k: int) -> int {
    4 * (5 - k / 4) + (4 - k % 4)
}

/// The key block `R[i - 1]` that round `k` works on, as `i`.
pub open spec fn round_i(k: int) -> int {
    4 - k % 4
}

/// `A XOR t` for a big-endian 8-byte `A` and `0 <= t < 256`: only the last
/// byte changes.
pub open spec fn xor_counter(a: Seq<u8>, t: int) -> Seq<u8> {
    a.update(7, (a[7] ^ (t as u8)) as u8)
}

/// One unwrap round on the 40-byte state `A || R0 || R1 || R2 || R3`:
/// decrypt `(A XOR t) || R[i - 1]` and split the result back into `A` and
/// `R[i - 1]`.
pub open spec fn unwrap_round(kek: Seq<u8>, st: Seq<u8>, k: int) -> Seq<u8> {
    let i = round_i(k);
    let block = xor_counter(st.take(8), round_t(k)) + st.subrange(8 * i, 8 * i + 8);
    let out = aes256_decrypt_block(kek, block);
    out.take(8) + st.subrange(8, 8 * i) + out.subrange(8, 16) + st.subrange(8 * i + 8, 40)
}

/// The state after rounds `k..24`.
pub open spec fn unwrap_rounds(kek: Seq<u8>, st: Seq<u8>, k: int) -> Seq<u8>
    decreases 24 - k,
{
    if k >= 24 {
        st
    } else {
        unwrap_rounds(kek, unwrap_round(kek, st, k), k + 1)
    }
}

/// The 32-byte content key that unwrapping `wrapped` under `kek` recovers:
/// `R0 || R1 || R2 || R3` after all 24 rounds.
pub open spec fn unwrapped_key(kek: Seq<u8>, wrapped: Seq<u8>) -> Seq<u8> {
    unwrap_rounds(kek, wrapped, 0).subrange(8, 40)
}

/// Unwraps the 40-byte `wrapped_key` under the 32-byte `kek`.
fn unwrap_key(kek: &[u8], wrapped_key: &[u8]) -> (r: Result<Vec<u8>, AesError>)
    requires
        kek@.len() == 32,
        wrapped_key@.len() == 40,
    ensures
        r is Ok,
        r->Ok_0@ == unwrapped_key(kek@, wrapped_key@),
        r->Ok_0@.len() == 32,
{
    let mut st: Vec<u8> = Vec::new();
    append_range(&mut st, wrapped_key, 0, 40);
    assert(st@ == wrapped_key@);
    let mut k: usize = 0;
    while k < 24
        invariant
            kek@.len() == 32,
            k <= 24,
            st@.len() == 40,
            unwrap_rounds(kek@, st@, k as int) == unwrap_rounds(kek@, wrapped_key@, 0),
        decreases 24 - k,
    {
        let i: usize = 4 - k % 4;
        let t: u8 = (4 * (5 - k / 4) + i) as u8;
        let mut block: Vec<u8> = Vec::new();
        append_range(&mut block, st.as_slice(), 0, 7);
        block.push(st[7] ^ t);
        append_range(&mut block, st.as_slice(), 8 * i, 8 * i + 8);
        proof {
            assert(block@ == xor_counter(st@.take(8), round_t(k as int)) + st@.subrange(
                8 * i,
                8 * i + 8,
            ));
        }
        let out = match aes256_ecb_decrypt(kek, block.as_slice()) {
            Some(v) => v,
            None => return Err(AesError::CipherFailure),
        };
        let mut next: Vec<u8> = Vec::new();
        append_range(&mut next, out.as_slice(), 0, 8);
        append_range(&mut next, st.as_slice(), 8, 8 * i);
        append_range(&mut next, out.as_slice(), 8, 16);
        append_range(&mut next, st.as_slice(), 8 * i + 8, 40);
        proof {
            assert(next@ == unwrap_round(kek@, st@, k as int));
        }
        st = next;
        k = k + 1;
    }
    let mut key: Vec<u8> = Vec::new();
    append_range(&mut key, st.as_slice(), 8, 40);
    Ok(key)
}

/// Decrypts a payload laid out as: bytes 0..32 the key-encryption key,
/// 32..40 unused, 40..80 the wrapped content key, 80..96 the counter-mode
/// nonce, 96.. the encrypted payload.
pub fn decode_aes_payload(b: &[u8]) -> (r: Result<Vec<u8>, AesError>)
    ensures
        b@.len() < 96 ==> r == Err::<Vec<u8>, AesError>(AesError::ShortInput),
        b@.len() >= 96 ==> r is Ok && r->Ok_0@ == aes256_ctr_apply(
            unwrapped_key(b@.subrange(0, 32), b@.subrange(40, 80)),
            b@.subrange(80, 96),
            b@.subrange(96, b@.len() as int),
        ),
{
    if b.len() < 96 {
        return Err(AesError::ShortInput);
    }
    let kek = slice_subrange(b, 0, 32);
    let wrapped_key = slice_subrange(b, 40, 80);
    let iv = slice_subrange(b, 80, 96);
    let payload = slice_subrange(b, 96, b.len());
    let key = unwrap_key(kek, wrapped_key)?;
    match aes256_ctr_decrypt(key.as_slice(), iv, payload) {
        Some(v) => Ok(v),
        None => Err(AesError::CipherFailure),
    }
}

} // verus!
