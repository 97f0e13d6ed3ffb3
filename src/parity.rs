//! Parity-checked repacking of 7-bit data into bytes.
use bitvec::order::Msb0;
use bitvec::vec::BitVec;
use vstd::prelude::*;

verus! {

/// A growable bit stream stored most significant bit first, on bitvec's
/// `BitVec<u8, Msb0>`.
#[verifier::external_body]
pub struct BitBuffer {
    bits: BitVec<u8, Msb0>,
}

/// The bits that a bit buffer holds, in order.
pub uninterp spec fn bit_contents(v: BitBuffer) -> Seq<bool>;

/// The most bits a bit-vector can hold.
pub const MAX_BITS: usize = usize::MAX >> 3;

/// Relies on bitvec's BitVec::new: an empty bit-vector.
#[verifier::external_body]
fn bits_new() -> (r: BitBuffer)
    ensures
        bit_contents(r) == Seq::<bool>::empty(),
{
    BitBuffer { bits: BitVec::new() }
}

/// Relies on bitvec's BitVec::push: appends one bit; it panics when the
/// length would exceed `usize::MAX >> 3`.
#[verifier::external_body]
fn bits_push(v: &mut BitBuffer, bit: bool)
    requires
        bit_contents(*old(v)).len() < MAX_BITS,
    ensures
        bit_contents(*final(v)) == bit_contents(*old(v)).push(bit),
{
    v.bits.push(bit)
}

/// Relies on bitvec's BitVec::len: the number of bits held.
#[verifier::external_body]
fn bits_len(v: &BitBuffer) -> (r: usize)
    ensures
        r as int == bit_contents(*v).len(),
{
    v.bits.len()
}

/// Relies on bitvec's BitVec::into_vec with `Msb0` order: the storage bytes
/// that hold live bits, bit `i` in byte `i / 8` at weight `2^(7 - i % 8)`;
/// the dead bits of a partly filled last byte are unspecified.
#[verifier::external_body]
fn bits_into_vec(v: BitBuffer) -> (r: Vec<u8>)
    ensures
        r@.len() == (bit_contents(v).len() + 7) / 8,
        forall|k: int|
            0 <= k < bit_contents(v).len() / 8 ==> #[trigger] r@[k] == byte_at(bit_contents(v), 8 * k),
{
    v.bits.into_vec()
}

/// The number of one bits of `x`.
pub open spec fn popcount(x: nat) -> nat
    decreases x,
{
    if x == 0 {
        0
    } else {
        x % 2 + popcount(x / 2)
    }
}

/// Bit 0 of `b` equals the parity of its top seven bits.
pub open spec fn parity_ok(b: u8) -> bool {
    popcount((b / 2) as nat) % 2 == (b % 2) as nat
}

/// The seven data bits of `v < 128`, most significant first.
pub open spec fn data_bits(v: u8) -> Seq<bool> {
    seq![
        (v / 64) % 2 == 1,
        (v / 32) % 2 == 1,
        (v / 16) % 2 == 1,
        (v / 8) % 2 == 1,
        (v / 4) % 2 == 1,
        (v / 2) % 2 == 1,
        v % 2 == 1,
    ]
}

/// The bit stream of `b`: the data bits of each byte with valid parity,
/// in order; bytes with a parity mismatch contribute nothing.
pub open spec fn parity_bits(b: Seq<u8>) -> Seq<bool>
    decreases b.len(),
{
    if b.len() == 0 {
        Seq::empty()
    } else {
        parity_bits(b.drop_last()) + if parity_ok(b.last()) {
            data_bits(b.last() / 2)
        } else {
            Seq::empty()
        }
    }
}

/// The byte whose bits, most significant first, are `s[k..k + 8]`.
pub open spec fn byte_at(s: Seq<bool>, k: int) -> u8 {
    ((if s[k] { 128int } else { 0 }) + (if s[k + 1] { 64int } else { 0 }) + (if s[k + 2] {
        32int
    } else {
        0
    }) + (if s[k + 3] { 16int } else { 0 }) + (if s[k + 4] { 8int } else { 0 }) + (if s[k + 5] {
        4int
    } else {
        0
    }) + (if s[k + 6] { 2int } else { 0 }) + (if s[k + 7] { 1int } else { 0 })) as u8
}

/// The bit stream packed into bytes, most significant bit first; an
/// incomplete last group of fewer than eight bits is dropped.
pub open spec fn pack_bits(s: Seq<bool>) -> Seq<u8> {
    Seq::new(s.len() / 8, |k: int| byte_at(s, 8 * k))
}

proof fn lemma_parity_bits_step(b: Seq<u8>, k: int)
    requires
        0 <= k < b.len(),
    ensures
        parity_bits(b.take(k + 1)) == parity_bits(b.take(k)) + if parity_ok(b[k]) {
            data_bits(b[k] / 2)
        } else {
            Seq::empty()
        },
{
    assert(b.take(k + 1).drop_last() == b.take(k));
}

/// The bits of a concatenation are the bits of its parts.
proof fn lemma_parity_bits_concat(a: Seq<u8>, c: Seq<u8>)
    ensures
        parity_bits(a + c) == parity_bits(a) + parity_bits(c),
    decreases c.len(),
{
    if c.len() == 0 {
        assert(a + c == a);
        assert(parity_bits(a) + parity_bits(c) == parity_bits(a));
    } else {
        lemma_parity_bits_concat(a, c.drop_last());
        assert((a + c).drop_last() == a + c.drop_last());
        assert((a + c).last() == c.last());
    }
}

/// Each byte contributes its seven data bits, most significant first, when
/// its bit 0 equals their parity, and nothing when it does not, whatever
/// bytes stand before and after it.
pub proof fn lemma_byte_contribution(a: Seq<u8>, x: u8, c: Seq<u8>)
    ensures
        parity_bits(a.push(x) + c) == parity_bits(a) + (if parity_ok(x) {
            data_bits(x / 2)
        } else {
            Seq::empty()
        }) + parity_bits(c),
{
    lemma_parity_bits_concat(a.push(x), c);
    assert(a.push(x).drop_last() == a);
}

/// A byte whose parity bit is wrong leaves the output unchanged.
pub proof fn lemma_mismatched_byte_dropped(a: Seq<u8>, x: u8, c: Seq<u8>)
    requires
        !parity_ok(x),
    ensures
        pack_bits(parity_bits(a.push(x) + c)) == pack_bits(parity_bits(a + c)),
{
    lemma_byte_contribution(a, x, c);
    lemma_parity_bits_concat(a, c);
    assert(parity_bits(a) + Seq::<bool>::empty() == parity_bits(a));
}

/// The seven data bits of `b` where its bit 0 equals their parity.
pub fn correct_byte(b: u8) -> (r: Option<u8>)
    ensures
        r == (if parity_ok(b) {
            Some(b / 2)
        } else {
            None
        }),
{
    let val = b / 2;
    let mut x: u8 = val;
    let mut ones: u8 = 0;
    while x > 0
        invariant
            ones as nat + popcount(x as nat) == popcount(val as nat),
            ones as nat + x as nat <= 255,
        decreases x,
    {
        assert(popcount(x as nat) == (x as nat) % 2 + popcount((x / 2) as nat));
        assert((x as nat) % 2 + (x / 2) as nat <= x as nat);
        ones = ones + x % 2;
        x = x / 2;
    }
    if b % 2 == ones % 2 {
        Some(val)
    } else {
        None
    }
}

/// Appends the seven data bits of `v`, most significant first.
fn push_data_bits(bits: &mut BitBuffer, v: u8)
    requires
        bit_contents(*old(bits)).len() + 7 <= MAX_BITS,
    ensures
        bit_contents(*final(bits)) == bit_contents(*old(bits)) + data_bits(v),
{
    bits_push(bits, (v / 64) % 2 == 1);
    bits_push(bits, (v / 32) % 2 == 1);
    bits_push(bits, (v / 16) % 2 == 1);
    bits_push(bits, (v / 8) % 2 == 1);
    bits_push(bits, (v / 4) % 2 == 1);
    bits_push(bits, (v / 2) % 2 == 1);
    bits_push(bits, v % 2 == 1);
    assert(bit_contents(*bits) == bit_contents(*old(bits)) + data_bits(v));
}

/// Keeps the seven data bits of each byte whose parity bit is right, drops
/// the other bytes, and packs the resulting bit stream into bytes, most
/// significant bit first; the incomplete last group is dropped. The bit
/// stream must fit in a bit buffer.
pub fn parse_parity_buffer(b: &[u8]) -> (r: Vec<u8>)
    requires
        7 * b@.len() <= MAX_BITS,
    ensures
        r@ == pack_bits(parity_bits(b@)),
{
    let mut bits = bits_new();
    let mut k: usize = 0;
    while k < b.len()
        invariant
            k <= b@.len(),
            7 * b@.len() <= MAX_BITS,
            bit_contents(bits) == parity_bits(b@.take(k as int)),
            bit_contents(bits).len() <= 7 * k,
        decreases b@.len() - k,
    {
        proof {
            lemma_parity_bits_step(b@, k as int);
        }
        match correct_byte(b[k]) {
            Some(v) => {
                push_data_bits(&mut bits, v);
            },
            None => {
                assert(bit_contents(bits) + Seq::<bool>::empty() == bit_contents(bits));
            },
        }
        k = k + 1;
    }
    assert(b@.take(k as int) == b@);
    let ghost all = bit_contents(bits);
    let len = bits_len(&bits);
    let packed = bits_into_vec(bits);
    let n = len / 8;
    let mut out: Vec<u8> = Vec::new();
    let mut m: usize = 0;
    while m < n
        invariant
            n == all.len() / 8,
            packed@.len() == (all.len() + 7) / 8,
            forall|j: int| 0 <= j < all.len() / 8 ==> #[trigger] packed@[j] == byte_at(all, 8 * j),
            m <= n,
            out@ == pack_bits(all).take(m as int),
        decreases n - m,
    {
        out.push(packed[m]);
        proof {
            assert(pack_bits(all).take(m + 1) == pack_bits(all).take(m as int).push(packed@[m as int]));
        }
        m = m + 1;
    }
    assert(pack_bits(all).take(m as int) == pack_bits(all));
    out
}

} // verus!
