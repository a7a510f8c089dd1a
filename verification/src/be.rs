//! Big-endian byte-order conversions for the fixed-width numeric fields of the
//! wire format: 32-bit values to and from four bytes, most significant first.

use vstd::prelude::*;

verus! {

/// The four big-endian bytes of a 32-bit value, most significant first.
pub open spec fn u32_be_bytes(x: u32) -> Seq<u8> {
    seq![
        ((x >> 24) & 0xff) as u8,
        ((x >> 16) & 0xff) as u8,
        ((x >> 8) & 0xff) as u8,
        (x & 0xff) as u8,
    ]
}

/// The 32-bit value denoted by four big-endian bytes.
pub open spec fn u32_of_be(b0: u8, b1: u8, b2: u8, b3: u8) -> u32 {
    ((b0 as u32) << 24) | ((b1 as u32) << 16) | ((b2 as u32) << 8) | (b3 as u32)
}

proof fn lemma_u32_be_scalar_round_trip(x: u32)
    by (bit_vector)
    ensures
        u32_of_be(
            ((x >> 24) & 0xff) as u8,
            ((x >> 16) & 0xff) as u8,
            ((x >> 8) & 0xff) as u8,
            (x & 0xff) as u8,
        ) == x,
{
}

/// Reading back the four big-endian bytes of a value yields that value.
pub proof fn lemma_u32_be_round_trip(x: u32)
    ensures
        u32_be_bytes(x).len() == 4,
        u32_of_be(u32_be_bytes(x)[0], u32_be_bytes(x)[1], u32_be_bytes(x)[2], u32_be_bytes(x)[3])
            == x,
{
    lemma_u32_be_scalar_round_trip(x);
}

proof fn lemma_u32_of_be_scalar_inverse(b0: u8, b1: u8, b2: u8, b3: u8)
    by (bit_vector)
    ensures
        ((u32_of_be(b0, b1, b2, b3) >> 24) & 0xff) as u8 == b0,
        ((u32_of_be(b0, b1, b2, b3) >> 16) & 0xff) as u8 == b1,
        ((u32_of_be(b0, b1, b2, b3) >> 8) & 0xff) as u8 == b2,
        (u32_of_be(b0, b1, b2, b3) & 0xff) as u8 == b3,
{
}

/// Writing out the value read from four big-endian bytes yields those bytes.
pub proof fn lemma_u32_of_be_inverse(b0: u8, b1: u8, b2: u8, b3: u8)
    ensures
        u32_be_bytes(u32_of_be(b0, b1, b2, b3)) == seq![b0, b1, b2, b3],
{
    lemma_u32_of_be_scalar_inverse(b0, b1, b2, b3);
    assert(u32_be_bytes(u32_of_be(b0, b1, b2, b3)) =~= seq![b0, b1, b2, b3]);
}

proof fn lemma_u32_be_bytes_fit(x: u32)
    by (bit_vector)
    ensures
        (x >> 24) & 0xff < 256,
        (x >> 16) & 0xff < 256,
        (x >> 8) & 0xff < 256,
        x & 0xff < 256,
{
}

/// Appends the four big-endian bytes of `x` to `out`.
pub fn push_u32_be(out: &mut Vec<u8>, x: u32)
    ensures
        final(out)@ == old(out)@ + u32_be_bytes(x),
{
    proof {
        lemma_u32_be_bytes_fit(x);
    }
    out.push(((x >> 24) & 0xff) as u8);
    out.push(((x >> 16) & 0xff) as u8);
    out.push(((x >> 8) & 0xff) as u8);
    out.push((x & 0xff) as u8);
    proof {
        assert(out@ =~= old(out)@ + u32_be_bytes(x));
    }
}

/// Reads the 32-bit big-endian value at offset `off` of `b`.
pub fn read_u32_be(b: &[u8], off: usize) -> (x: u32)
    requires
        off + 4 <= b@.len(),
    ensures
        x == u32_of_be(b@[off as int], b@[off + 1], b@[off + 2], b@[off + 3]),
{
    ((b[off] as u32) << 24) | ((b[off + 1] as u32) << 16) | ((b[off + 2] as u32) << 8) | (b[off
        + 3] as u32)
}

/// The bit pattern of a signed 32-bit value, as an unsigned value.
pub open spec fn i32_bits(x: i32) -> u32 {
    x as u32
}

/// The signed 32-bit value with the given bit pattern.
pub open spec fn i32_of_bits(u: u32) -> i32 {
    u as i32
}

/// Reinterpreting the bit pattern of a signed value yields that value back.
pub proof fn lemma_i32_bits_round_trip(x: i32)
    by (bit_vector)
    ensures
        i32_of_bits(i32_bits(x)) == x,
{
}

/// The bit pattern of the signed value of a bit pattern is that pattern.
pub proof fn lemma_i32_of_bits_inverse(u: u32)
    by (bit_vector)
    ensures
        i32_bits(i32_of_bits(u)) == u,
{
}

/// The bit pattern of `x`, computed executably.
pub fn i32_to_bits(x: i32) -> (u: u32)
    ensures
        u == i32_bits(x),
{
    #[verifier::truncate] (x as u32)
}

/// The signed value of bit pattern `u`, computed executably.
pub fn i32_from_bits(u: u32) -> (x: i32)
    ensures
        x == i32_of_bits(u),
{
    #[verifier::truncate] (u as i32)
}

} // verus!
