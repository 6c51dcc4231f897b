//! Single bits of a byte: reading one, replacing one, and the facts about
//! both that the codec's proofs rest on.

use vstd::prelude::*;

verus! {

/// Bit `pos` of `byte` as 0 or 1; position 0 is the least significant bit.
pub open spec fn bit_of(byte: u8, pos: u8) -> u8 {
    (byte >> pos) & 1
}

/// `byte` with bit `pos` replaced by `bit` and every other bit kept.
pub open spec fn with_bit(byte: u8, pos: u8, bit: u8) -> u8 {
    (byte & !(1u8 << pos)) | (bit << pos)
}

/// The byte whose bit `j` is `bits[j]`, for the eight positions.
pub open spec fn byte_of_bits(bits: Seq<u8>) -> u8 {
    bits[0] | (bits[1] << 1) | (bits[2] << 2) | (bits[3] << 3) | (bits[4] << 4) | (bits[5] << 5)
        | (bits[6] << 6) | (bits[7] << 7)
}

/// Reads bit `pos` of `byte`.
pub fn get_bit(byte: u8, pos: u8) -> (bit: u8)
    requires
        pos < 8,
    ensures
        bit == bit_of(byte, pos),
        bit <= 1,
{
    proof {
        lemma_bit_is_binary(byte, pos);
    }
    (byte >> pos) & 1
}

/// Replaces bit `pos` of `byte` by `bit`.
pub fn set_bit(byte: u8, pos: u8, bit: u8) -> (out: u8)
    requires
        pos < 8,
        bit <= 1,
    ensures
        out == with_bit(byte, pos, bit),
{
    (byte & !(1u8 << pos)) | (bit << pos)
}

/// A bit is 0 or 1.
pub proof fn lemma_bit_is_binary(byte: u8, pos: u8)
    ensures
        bit_of(byte, pos) <= 1,
{
    assert((byte >> pos) & 1 <= 1) by (bit_vector);
}

/// A replaced bit reads back as what was put there.
pub proof fn lemma_with_bit_same(byte: u8, pos: u8, bit: u8)
    requires
        pos < 8,
        bit <= 1,
    ensures
        bit_of(with_bit(byte, pos, bit), pos) == bit,
{
    assert((((byte & !(1u8 << pos)) | (bit << pos)) >> pos) & 1 == bit) by (bit_vector)
        requires
            pos < 8,
            bit <= 1,
    ;
}

/// Replacing one bit leaves every other bit as it was.
pub proof fn lemma_with_bit_other(byte: u8, pos: u8, bit: u8, other: u8)
    requires
        pos < 8,
        other < 8,
        other != pos,
        bit <= 1,
    ensures
        bit_of(with_bit(byte, pos, bit), other) == bit_of(byte, other),
{
    assert((((byte & !(1u8 << pos)) | (bit << pos)) >> other) & 1 == (byte >> other) & 1)
        by (bit_vector)
        requires
            pos < 8,
            other < 8,
            other != pos,
            bit <= 1,
    ;
}

/// Putting back the bit that is already there changes nothing.
pub proof fn lemma_with_bit_unchanged(byte: u8, pos: u8)
    requires
        pos < 8,
    ensures
        with_bit(byte, pos, bit_of(byte, pos)) == byte,
{
    assert((byte & !(1u8 << pos)) | (((byte >> pos) & 1) << pos) == byte) by (bit_vector)
        requires
            pos < 8,
    ;
}

/// A byte is made of its eight bits.
pub proof fn lemma_byte_of_its_bits(byte: u8)
    ensures
        byte_of_bits(Seq::new(8, |j: int| bit_of(byte, j as u8))) == byte,
{
    assert(((byte >> 0) & 1) | (((byte >> 1) & 1) << 1) | (((byte >> 2) & 1) << 2)
        | (((byte >> 3) & 1) << 3) | (((byte >> 4) & 1) << 4) | (((byte >> 5) & 1) << 5)
        | (((byte >> 6) & 1) << 6) | (((byte >> 7) & 1) << 7) == byte) by (bit_vector);
}

} // verus!
