//! Recovery of a 32-byte repeating XOR key from a run of `=` in the
//! plaintext, and decryption with it.
use vstd::prelude::*;

verus! {

/// The period of the repeating key.
pub const KEY_LEN: usize = 32;

/// How many bytes after a 32-byte window must repeat its start.
pub const REPEAT_LEN: usize = 15;

/// The plaintext byte that fills the run the key is recovered from (`=`).
pub const FILL_BYTE: u8 = 0x3D;

/// `b` XOR-ed with `key` repeated cyclically from offset 0; empty for an
/// empty key.
pub open spec fn xor_cyclic(key: Seq<u8>, b: Seq<u8>) -> Seq<u8> {
    if key.len() == 0 {
        Seq::empty()
    } else {
        Seq::new(b.len(), |i: int| key[i % (key.len() as int)] ^ b[i])
    }
}

/// At `i` stands a 32-byte window whose first 15 bytes repeat right after
/// it, and which holds the first byte of `b`.
pub open spec fn window_matches(b: Seq<u8>, i: int) -> bool {
    &&& 0 <= i
    &&& i + 47 <= b.len()
    &&& b.subrange(i, i + 15) == b.subrange(i + 32, i + 47)
    &&& b.subrange(i, i + 32).contains(b[0])
}

/// `i` is the first position at which a window matches.
pub open spec fn first_match(b: Seq<u8>, i: int) -> bool {
    window_matches(b, i) && forall|j: int| 0 <= j < i ==> !window_matches(b, j)
}

/// The key recovered from the window at `i`: each window byte XOR `=`,
/// placed at the key position of its absolute offset, so that key byte
/// `m` comes from the window byte at offset `i + (m + 32 - i % 32) % 32`.
pub open spec fn recovered_key(b: Seq<u8>, i: int) -> Seq<u8> {
    Seq::new(32, |m: int| FILL_BYTE ^ b[i + (m + 32 - i % 32) % 32])
}

/// The recovered key is aligned to absolute offsets: the key byte used at
/// offset `i + k` of the window turns the ciphertext byte there into `=`.
pub proof fn lemma_key_aligned(b: Seq<u8>, i: int, k: int)
    requires
        window_matches(b, i),
        0 <= k < 32,
    ensures
        recovered_key(b, i)[(i + k) % 32] == FILL_BYTE ^ b[i + k],
        recovered_key(b, i)[(i + k) % 32] ^ b[i + k] == FILL_BYTE,
{
    let m = (i + k) % 32;
    assert((m + 32 - i % 32) % 32 == k) by (nonlinear_arith)
        requires
            m == (i + k) % 32,
            0 <= k < 32,
            i >= 0,
    ;
    let x = b[i + k];
    assert(FILL_BYTE ^ x ^ x == FILL_BYTE) by (bit_vector);
}

/// XOR `b` with `key` repeated cyclically.
pub fn xor(key: &[u8], b: &[u8]) -> (r: Vec<u8>)
    ensures
        r@ == xor_cyclic(key@, b@),
{
    let mut out: Vec<u8> = Vec::new();
    if key.len() == 0 {
        return out;
    }
    let mut i: usize = 0;
    while i < b.len()
        invariant
            key@.len() > 0,
            i <= b@.len(),
            out@ == xor_cyclic(key@, b@).take(i as int),
        decreases b@.len() - i,
    {
        out.push(key[i % key.len()] ^ b[i]);
        proof {
            assert(xor_cyclic(key@, b@).take(i + 1) == xor_cyclic(key@, b@).take(i as int).push(
                key@[(i as int) % (key@.len() as int)] ^ b@[i as int],
            ));
        }
        i = i + 1;
    }
    assert(xor_cyclic(key@, b@).take(i as int) == xor_cyclic(key@, b@));
    out
}

/// The key that turns the first 32 bytes of `b` into `=` bytes.
pub fn get_key_from_equal_bytes(b: &[u8]) -> (r: Vec<u8>)
    requires
        b@.len() >= 32,
    ensures
        r@ == Seq::new(32, |m: int| FILL_BYTE ^ b@[m]),
{
    let mut fill: Vec<u8> = Vec::new();
    let mut k: usize = 0;
    while k < KEY_LEN
        invariant
            k <= 32,
            fill@ == Seq::new(k as nat, |m: int| FILL_BYTE),
        decreases 32 - k,
    {
        fill.push(FILL_BYTE);
        proof {
            assert(Seq::new((k + 1) as nat, |m: int| FILL_BYTE) == Seq::new(
                k as nat,
                |m: int| FILL_BYTE,
            ).push(FILL_BYTE));
        }
        k = k + 1;
    }
    let head = vstd::slice::slice_subrange(b, 0, 32);
    let r = xor(fill.as_slice(), head);
    assert forall|m: int| 0 <= m < 32 implies r@[m] == FILL_BYTE ^ b@[m] by {
        assert(m % 32 == m);
        assert(fill@.len() == 32);
        assert(fill@[m] == FILL_BYTE);
        assert(head@[m] == b@[m]);
        assert(r@[m] == fill@[m % (fill@.len() as int)] ^ head@[m]);
    }
    assert(r@ =~= Seq::new(32, |m: int| FILL_BYTE ^ b@[m]));
    r
}

/// Whether the 15 bytes at `i` equal the 15 bytes at `i + 32`.
fn repeats_at(b: &[u8], i: usize) -> (r: bool)
    requires
        i + 47 <= b@.len(),
    ensures
        r == (b@.subrange(i as int, i + 15) == b@.subrange(i + 32, i + 47)),
{
    let len = b.len();
    let mut k: usize = 0;
    while k < REPEAT_LEN
        invariant
            len == b@.len(),
            i + 47 <= b@.len(),
            k <= 15,
            forall|m: int|
                0 <= m < k ==> #[trigger] b@.subrange(i as int, i + 15)[m] == b@.subrange(
                    i + 32,
                    i + 47,
                )[m],
        decreases 15 - k,
    {
        if b[i + k] != b[i + 32 + k] {
            assert(b@.subrange(i as int, i + 15)[k as int] != b@.subrange(i + 32, i + 47)[k as int]);
            return false;
        }
        k = k + 1;
    }
    assert(b@.subrange(i as int, i + 15) == b@.subrange(i + 32, i + 47));
    true
}

/// Whether the 32 bytes at `i` hold `x`.
fn window_holds(b: &[u8], i: usize, x: u8) -> (r: bool)
    requires
        i + 32 <= b@.len(),
    ensures
        r == b@.subrange(i as int, i + 32).contains(x),
{
    let len = b.len();
    let mut k: usize = 0;
    while k < KEY_LEN
        invariant
            len == b@.len(),
            i + 32 <= b@.len(),
            k <= 32,
            forall|m: int| 0 <= m < k ==> #[trigger] b@.subrange(i as int, i + 32)[m] != x,
        decreases 32 - k,
    {
        if b[i + k] == x {
            assert(b@.subrange(i as int, i + 32)[k as int] == x);
            return true;
        }
        k = k + 1;
    }
    assert(!b@.subrange(i as int, i + 32).contains(x));
    false
}

/// The first position of a 32-byte window whose first 15 bytes repeat right
/// after it and which holds the first byte of `b`.
pub fn find_repeated_sequence(b: &[u8]) -> (r: Option<usize>)
    ensures
        r is None <==> forall|i: int| !window_matches(b@, i),
        r is Some ==> first_match(b@, r->Some_0 as int),
{
    if b.len() < 47 {
        return None;
    }
    let start = b[0];
    let mut i: usize = 0;
    while i <= b.len() - 47
        invariant
            b@.len() >= 47,
            start == b@[0],
            i <= b@.len() - 46,
            forall|j: int| 0 <= j < i ==> !window_matches(b@, j),
        decreases b@.len() - 46 - i,
    {
        if repeats_at(b, i) && window_holds(b, i, start) {
            assert(window_matches(b@, i as int));
            return Some(i);
        }
        i = i + 1;
    }
    None
}

/// Recovers the 32-byte key from the first matching window, aligned to key
/// position 0 at offset 0, and decrypts all of `b` with it; `None` where no
/// window matches.
pub fn decode_xor_encoded_payload(b: &[u8]) -> (r: Option<Vec<u8>>)
    ensures
        r is None <==> forall|i: int| !window_matches(b@, i),
        r is Some ==> exists|i: int|
            first_match(b@, i) && r->Some_0@ == xor_cyclic(#[trigger] recovered_key(b@, i), b@),
{
    let i = match find_repeated_sequence(b) {
        Some(i) => i,
        None => return None,
    };
    let sync = i % KEY_LEN;
    let len = b.len();
    let mut seq: Vec<u8> = Vec::new();
    let mut m: usize = 0;
    while m < KEY_LEN
        invariant
            len == b@.len(),
            first_match(b@, i as int),
            sync == i % 32,
            m <= 32,
            seq@ == Seq::new(m as nat, |j: int| b@[i + (j + 32 - i % 32) % 32]),
        decreases 32 - m,
    {
        seq.push(b[i + (m + KEY_LEN - sync) % KEY_LEN]);
        proof {
            assert(Seq::new((m + 1) as nat, |j: int| b@[i + (j + 32 - i % 32) % 32]) == Seq::new(
                m as nat,
                |j: int| b@[i + (j + 32 - i % 32) % 32],
            ).push(b@[i + (m + 32 - i % 32) % 32]));
        }
        m = m + 1;
    }
    let key = get_key_from_equal_bytes(seq.as_slice());
    assert(key@ == recovered_key(b@, i as int));
    Some(xor(key.as_slice(), b))
}

} // verus!
