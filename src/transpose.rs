//! Bitwise transposition: mask every other bit, then rotate right by one.
use vstd::prelude::*;

verus! {

/// The mask XOR-ed into every byte before the rotation.
pub const FLIP_MASK: u8 = 0x55;

/// Rotating `x` right by one bit: the low bit moves to the top.
pub open spec fn rotate_right_one(x: u8) -> int {
    (x as int) / 2 + ((x as int) % 2) * 128
}

/// The transform as a function on bytes.
pub open spec fn flip_rotate_spec(b: u8) -> u8 {
    rotate_right_one(b ^ FLIP_MASK) as u8
}

/// The transform is not an involution: applied twice it does not give
/// every byte back (180 becomes 240, then 210).
pub proof fn lemma_twice_is_not_identity()
    ensures
        !(forall|b: u8| #[trigger] flip_rotate_spec(flip_rotate_spec(b)) == b),
{
    assert(180u8 ^ FLIP_MASK == 225u8) by (bit_vector);
    assert(240u8 ^ FLIP_MASK == 165u8) by (bit_vector);
    assert(flip_rotate_spec(180u8) == 240u8);
    assert(flip_rotate_spec(240u8) == 210u8);
    assert(flip_rotate_spec(flip_rotate_spec(180u8)) != 180u8);
}

/// XOR the byte with `01010101`, then rotate the result right by one bit.
pub fn flip_and_rotate(b: u8) -> (r: u8)
    ensures
        r as int == rotate_right_one(b ^ FLIP_MASK),
        r == flip_rotate_spec(b),
{
    let flipped = b ^ FLIP_MASK;
    let lsb = flipped & 1u8;
    let r = (flipped >> 1u8) | (lsb << 7u8);
    assert(r as int == (flipped as int) / 2 + ((flipped as int) % 2) * 128) by (bit_vector)
        requires
            lsb == flipped & 1u8,
            r == (flipped >> 1u8) | (lsb << 7u8),
    ;
    r
}

/// Applies the transform to every byte of `b`; the length is kept.
pub fn flip_and_rotate_buffer(b: &[u8]) -> (r: Vec<u8>)
    ensures
        r@ == b@.map_values(|x: u8| flip_rotate_spec(x)),
{
    let mut out: Vec<u8> = Vec::new();
    let mut i: usize = 0;
    while i < b.len()
        invariant
            i <= b@.len(),
            out@ == b@.take(i as int).map_values(|x: u8| flip_rotate_spec(x)),
        decreases b@.len() - i,
    {
        out.push(flip_and_rotate(b[i]));
        proof {
            assert(b@.take(i + 1).map_values(|x: u8| flip_rotate_spec(x)) == b@.take(
                i as int,
            ).map_values(|x: u8| flip_rotate_spec(x)).push(flip_rotate_spec(b@[i as int])));
        }
        i = i + 1;
    }
    assert(b@.take(i as int) == b@);
    out
}

} // verus!
