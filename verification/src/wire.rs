//! Big-endian 32-bit words, as the PNG wire format stores lengths and
//! checksums.

use vstd::prelude::*;

verus! {

/// The value of four bytes read as one big-endian 32-bit word.
pub open spec fn spec_u32_from_be(b0: u8, b1: u8, b2: u8, b3: u8) -> u32 {
    ((b0 as u32) << 24) | ((b1 as u32) << 16) | ((b2 as u32) << 8) | (b3 as u32)
}

/// The four bytes of a 32-bit word in big-endian order.
pub open spec fn spec_u32_to_be(x: u32) -> Seq<u8> {
    seq![
        ((x >> 24) & 0xff) as u8,
        ((x >> 16) & 0xff) as u8,
        ((x >> 8) & 0xff) as u8,
        (x & 0xff) as u8,
    ]
}

/// Serializing a word and reading the bytes back yields the word.
pub proof fn lemma_u32_be_round_trip(x: u32)
    ensures
        spec_u32_from_be(
            spec_u32_to_be(x)[0],
            spec_u32_to_be(x)[1],
            spec_u32_to_be(x)[2],
            spec_u32_to_be(x)[3],
        ) == x,
{
    assert(((((x >> 24) & 0xff) as u8 as u32) << 24) | ((((x >> 16) & 0xff) as u8 as u32) << 16)
        | ((((x >> 8) & 0xff) as u8 as u32) << 8) | ((x & 0xff) as u8 as u32) == x)
        by (bit_vector);
}

/// Reads the big-endian word stored at the four given bytes.
pub fn u32_from_be(b0: u8, b1: u8, b2: u8, b3: u8) -> (x: u32)
    ensures
        x == spec_u32_from_be(b0, b1, b2, b3),
{
    ((b0 as u32) << 24) | ((b1 as u32) << 16) | ((b2 as u32) << 8) | (b3 as u32)
}

/// Appends the four big-endian bytes of `x` to `out`.
pub fn push_u32_be(out: &mut Vec<u8>, x: u32)
    ensures
        final(out)@ == old(out)@ + spec_u32_to_be(x),
{
    out.push(((x >> 24) & 0xff) as u8);
    out.push(((x >> 16) & 0xff) as u8);
    out.push(((x >> 8) & 0xff) as u8);
    out.push((x & 0xff) as u8);
    assert(out@ =~= old(out)@ + spec_u32_to_be(x));
}

} // verus!
