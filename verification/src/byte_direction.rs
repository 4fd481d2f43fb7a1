//! Packing of pixels of one, two or four bits into bytes, by direction.
//!
//! A byte holds `8 / bits` pixels. With vertical bytes the pixels of a byte lie
//! below each other in one column, the topmost in the lowest bits. With
//! horizontal bytes they lie side by side in one row, the leftmost in the
//! highest bits.

use vstd::prelude::*;
use vstd::arithmetic::power::pow;
use crate::geometry::Point;

verus! {

/// The absolute value of a coordinate.
pub open spec fn magnitude(value: i32) -> int {
    if value < 0 {
        -value
    } else {
        value as int
    }
}

/// The mask of the lowest `bits` bits.
pub open spec fn pixel_mask(bits: u32) -> u8 {
    ((1u8 << bits) - 1) as u8
}

/// `byte` with the field of `bits` bits that starts at bit `shift` cleared,
/// and `raw` moved up by `shift` set over it.
pub open spec fn with_field(byte: u8, raw: u8, bits: u32, shift: u32) -> u8 {
    byte & !(pixel_mask(bits) << shift) | (raw << shift)
}

/// Whether a pixel format of so many bits per pixel can be packed: one, two or
/// four bits.
pub open spec fn packable(bits_per_pixel: u32) -> bool {
    bits_per_pixel == 1 || bits_per_pixel == 2 || bits_per_pixel == 4
}

/// `i32::unsigned_abs` of std: the absolute value, without wrapping or
/// panicking.
pub assume_specification[ i32::unsigned_abs ](value: i32) -> (magnitude: u32)
    ensures
        magnitude == (if value < 0 {
            -value
        } else {
            value as int
        }),
;

/// `u8::pow` of std: the base raised to the exponent. It overflows where the
/// power does not fit in a byte, which is left out.
pub assume_specification[ u8::pow ](base: u8, exponent: u32) -> (power: u8)
    requires
        pow(base as int, exponent as nat) <= u8::MAX,
    ensures
        power == pow(base as int, exponent as nat),
;

/// The powers of two that the packable formats use.
proof fn lemma_pixel_mask(bits: u32)
    requires
        packable(bits),
    ensures
        pow(2, bits as nat) == (1u8 << bits),
        pow(2, bits as nat) <= 16,
        pixel_mask(bits) == pow(2, bits as nat) - 1,
{
    reveal_with_fuel(pow, 5);
    assert(1u8 << 1u32 == 2 && 1u8 << 2u32 == 4 && 1u8 << 4u32 == 16) by (bit_vector);
}

/// Writing a field that the raw value fits into sets the field to that value
/// and leaves every bit outside the field as it was.
pub proof fn lemma_with_field(byte: u8, raw: u8, bits: u32, shift: u32)
    by (bit_vector)
    requires
        bits == 1 || bits == 2 || bits == 4,
        shift + bits <= 8,
        raw <= pixel_mask(bits),
    ensures
        (with_field(byte, raw, bits, shift) >> shift) & pixel_mask(bits) == raw,
        with_field(byte, raw, bits, shift) & !(pixel_mask(bits) << shift) == byte & !(pixel_mask(bits)
            << shift),
{
}

/// A way of packing pixels into the bytes of a buffer.
pub trait ByteDirection {
    /// Index of the byte that holds the pixel at `p`.
    spec fn byte_index(p: Point, bits_per_pixel: u32) -> int;

    /// Lowest bit of the field of the pixel at `p` within its byte.
    spec fn field_shift(p: Point, bits_per_pixel: u32) -> int;

    /// Whether the place of the pixel at `p` can be computed.
    spec fn addressable(p: Point, bits_per_pixel: u32) -> bool;

    /// Writes the raw value of a colour into the field of the pixel at `p`.
    /// The coordinates count by their absolute values.
    fn set_pixel(p: Point, raw: u8, bits_per_pixel: u32, buf: &mut [u8])
        requires
            packable(bits_per_pixel),
            Self::addressable(p, bits_per_pixel),
            0 <= Self::byte_index(p, bits_per_pixel) < old(buf)@.len(),
        ensures
            0 <= Self::field_shift(p, bits_per_pixel) <= 8 - bits_per_pixel,
            final(buf)@ == old(buf)@.update(
                Self::byte_index(p, bits_per_pixel),
                with_field(
                    old(buf)@[Self::byte_index(p, bits_per_pixel)],
                    raw,
                    bits_per_pixel,
                    Self::field_shift(p, bits_per_pixel) as u32,
                ),
            ),
    ;
}

/// Bytes that hold pixels of one column, in a buffer `W` columns wide.
pub struct VerticalByte<const W: usize>;

impl<const W: usize> ByteDirection for VerticalByte<W> {
    open spec fn byte_index(p: Point, bits_per_pixel: u32) -> int {
        (magnitude(p.y) * bits_per_pixel / 8) * W + magnitude(p.x)
    }

    open spec fn field_shift(p: Point, bits_per_pixel: u32) -> int {
        (magnitude(p.y) * bits_per_pixel % 8) / (bits_per_pixel as int) * bits_per_pixel
    }

    open spec fn addressable(p: Point, bits_per_pixel: u32) -> bool {
        magnitude(p.y) * bits_per_pixel <= u32::MAX
    }

    #[inline]
    fn set_pixel(p: Point, raw: u8, bits_per_pixel: u32, buf: &mut [u8]) {
        let color: u8 = raw;

        let x: u32 = p.x.unsigned_abs();
        let y: u32 = p.y.unsigned_abs();

        let bpp: u32 = bits_per_pixel;

        let bit_y: u32 = y * bpp;
        let byte_y: usize = bit_y as usize / 8;
        let index_in_byte: u32 = bit_y % 8 / bpp;

        proof {
            lemma_pixel_mask(bpp);
            assert(buf@.len() == buf.len());
            assert(byte_y == magnitude(p.y) * bits_per_pixel / 8);
            assert(0 <= byte_y * W) by (nonlinear_arith)
                requires
                    0 <= byte_y,
                    0 <= W,
            ;
            assert(byte_y * W + x == Self::byte_index(p, bits_per_pixel));
            assert(index_in_byte * bpp <= 8 - bpp) by (nonlinear_arith)
                requires
                    index_in_byte == (bit_y % 8) / bpp,
                    bpp == 1 || bpp == 2 || bpp == 4,
                    0 <= bit_y % 8 < 8,
            ;
        }
        let pixel_mask: u8 = 2u8.pow(bpp) - 1;
        let shift: u32 = index_in_byte * bpp;
        let mask: u8 = pixel_mask << shift;
        let color: u8 = color << shift;

        let byte_index: usize = (byte_y * W) + x as usize;

        buf[byte_index] = buf[byte_index] & !mask | color;
    }
}

/// Bytes that hold pixels of one row, in a buffer `W` pixels wide.
pub struct HorizontalByte<const W: usize>;

impl<const W: usize> ByteDirection for HorizontalByte<W> {
    open spec fn byte_index(p: Point, bits_per_pixel: u32) -> int {
        magnitude(p.x) * bits_per_pixel / 8 + magnitude(p.y) * (W * bits_per_pixel / 8)
    }

    open spec fn field_shift(p: Point, bits_per_pixel: u32) -> int {
        ((7 - magnitude(p.x) * bits_per_pixel) % 8) / (bits_per_pixel as int) * bits_per_pixel
    }

    /// The place within the byte is counted down from bit 7 without wrapping,
    /// so only the pixels of the first byte of a row can be addressed.
    open spec fn addressable(p: Point, bits_per_pixel: u32) -> bool {
        &&& magnitude(p.x) * bits_per_pixel <= 7
        &&& W * bits_per_pixel <= u32::MAX
        &&& magnitude(p.y) * (W * bits_per_pixel / 8) <= u32::MAX
    }

    fn set_pixel(p: Point, raw: u8, bits_per_pixel: u32, buf: &mut [u8]) {
        let color: u8 = raw;

        let x: u32 = p.x.unsigned_abs();
        let y: u32 = p.y.unsigned_abs();

        let bpp: u32 = bits_per_pixel;
        let bytes_per_row: u32 = W as u32 * bpp / 8;

        let bit_x: u32 = x * bpp;
        let byte_x: u32 = bit_x / 8;
        let index_in_byte: u32 = (7 - bit_x) % 8 / bpp;

        proof {
            lemma_pixel_mask(bpp);
            assert(buf@.len() == buf.len());
            assert(0 <= y * bytes_per_row) by (nonlinear_arith)
                requires
                    0 <= y,
                    0 <= bytes_per_row,
            ;
            assert(byte_x + y * bytes_per_row == Self::byte_index(p, bits_per_pixel));
            assert(index_in_byte * bpp <= 8 - bpp) by (nonlinear_arith)
                requires
                    index_in_byte == ((7 - bit_x) % 8) / (bpp as int),
                    bpp == 1 || bpp == 2 || bpp == 4,
                    0 <= (7 - bit_x) % 8 < 8,
            ;
        }
        let pixel_mask: u8 = 2u8.pow(bpp) - 1;
        let shift: u32 = index_in_byte * bpp;
        let mask: u8 = pixel_mask << shift;
        let color: u8 = color << shift;

        let byte_index: usize = (byte_x + y * bytes_per_row) as usize;

        buf[byte_index] = buf[byte_index] & !mask | color;
    }
}

} // verus!
