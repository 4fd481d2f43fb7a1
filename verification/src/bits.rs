//! Bit-level vocabulary shared by the mask builder and the packed buffer.
//!
//! A byte of the buffer holds eight rows of one column; bit 0, the least
//! significant one, is the topmost of them.

use vstd::prelude::*;

verus! {

/// Whether bit `bit` of `byte` is set.
pub open spec fn bit_is_set(byte: u8, bit: u8) -> bool {
    (byte >> bit) & 1u8 == 1u8
}

/// The value that bit `bit` contributes to a byte when it is set.
pub open spec fn bit_value(on: bool, bit: u8) -> u8 {
    if on {
        1u8 << bit
    } else {
        0u8
    }
}

/// The byte whose bits, from the least significant one up, are the eight given.
pub open spec fn pack_bits(
    b0: bool,
    b1: bool,
    b2: bool,
    b3: bool,
    b4: bool,
    b5: bool,
    b6: bool,
    b7: bool,
) -> u8 {
    bit_value(b0, 0) | bit_value(b1, 1) | bit_value(b2, 2) | bit_value(b3, 3) | bit_value(b4, 4)
        | bit_value(b5, 5) | bit_value(b6, 6) | bit_value(b7, 7)
}

/// `byte` with bit `bit` cleared and then set to the lowest bit of `raw`.
pub open spec fn with_bit(byte: u8, bit: u8, raw: u8) -> u8 {
    byte & !(1u8 << bit) | (raw << bit)
}

/// `byte` with the bits chosen by `mask` replaced by those of `fill`.
pub open spec fn merged(byte: u8, fill: u8, mask: u8) -> u8 {
    (byte & !mask) | (fill & mask)
}

/// A byte is the pack of its own bits.
pub proof fn lemma_pack_of_bits(byte: u8)
    by (bit_vector)
    ensures
        byte == pack_bits(
            bit_is_set(byte, 0),
            bit_is_set(byte, 1),
            bit_is_set(byte, 2),
            bit_is_set(byte, 3),
            bit_is_set(byte, 4),
            bit_is_set(byte, 5),
            bit_is_set(byte, 6),
            bit_is_set(byte, 7),
        ),
{
}

/// Each bit of a pack is the one that was packed.
pub proof fn lemma_bits_of_pack(
    b0: bool,
    b1: bool,
    b2: bool,
    b3: bool,
    b4: bool,
    b5: bool,
    b6: bool,
    b7: bool,
)
    by (bit_vector)
    ensures
        bit_is_set(pack_bits(b0, b1, b2, b3, b4, b5, b6, b7), 0) == b0,
        bit_is_set(pack_bits(b0, b1, b2, b3, b4, b5, b6, b7), 1) == b1,
        bit_is_set(pack_bits(b0, b1, b2, b3, b4, b5, b6, b7), 2) == b2,
        bit_is_set(pack_bits(b0, b1, b2, b3, b4, b5, b6, b7), 3) == b3,
        bit_is_set(pack_bits(b0, b1, b2, b3, b4, b5, b6, b7), 4) == b4,
        bit_is_set(pack_bits(b0, b1, b2, b3, b4, b5, b6, b7), 5) == b5,
        bit_is_set(pack_bits(b0, b1, b2, b3, b4, b5, b6, b7), 6) == b6,
        bit_is_set(pack_bits(b0, b1, b2, b3, b4, b5, b6, b7), 7) == b7,
{
}

/// Writing one bit changes that bit and no other.
pub proof fn lemma_with_bit(byte: u8, bit: u8, raw: u8, other: u8)
    by (bit_vector)
    requires
        bit < 8,
        other < 8,
        raw <= 1,
    ensures
        bit_is_set(with_bit(byte, bit, raw), other) == (if other == bit {
            raw == 1
        } else {
            bit_is_set(byte, other)
        }),
{
}

/// Merging takes the bits under the mask from `fill` and keeps the others.
pub proof fn lemma_merged(byte: u8, fill: u8, mask: u8, bit: u8)
    by (bit_vector)
    requires
        bit < 8,
    ensures
        bit_is_set(merged(byte, fill, mask), bit) == (if bit_is_set(mask, bit) {
            bit_is_set(fill, bit)
        } else {
            bit_is_set(byte, bit)
        }),
{
}

/// Merging under a full mask leaves the fill and nothing else.
pub proof fn lemma_merged_full(byte: u8, fill: u8)
    by (bit_vector)
    ensures
        merged(byte, fill, 0xffu8) == fill,
{
}

/// Shifting the largest `i8` up and inverting it leaves the lowest bits set,
/// as many as it was shifted by.
pub proof fn lemma_low_mask(count: u32, bit: u8)
    by (bit_vector)
    requires
        0 < count < 8,
        bit < 8,
    ensures
        bit_is_set((!(i8::MAX << count)) as u8, bit) <==> bit < count,
{
}

/// Every bit of `0xff` is set and none of `0x00`.
pub proof fn lemma_solid_bytes(bit: u8)
    by (bit_vector)
    requires
        bit < 8,
    ensures
        bit_is_set(0xffu8, bit),
        !bit_is_set(0x00u8, bit),
{
}

} // verus!
