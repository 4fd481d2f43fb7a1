//! The two states of a monochrome pixel, and single pixels to draw.

use vstd::prelude::*;
use crate::geometry::Point;

verus! {

/// A position together with the colour to give it.
#[derive(Clone, Copy, Debug, PartialEq, Eq, Structural)]
pub struct Pixel(pub Point, pub BinaryColor);

/// Colour of a pixel on a display with one bit per pixel.
#[derive(Clone, Copy, Debug, PartialEq, Eq, Structural)]
pub enum BinaryColor {
    /// Inactive pixel.
    Off,
    /// Active pixel.
    On,
}

impl BinaryColor {
    /// Whether the pixel is active.
    pub open spec fn is_on(self) -> bool {
        self == BinaryColor::On
    }

    /// The bit that stands for the colour in the buffer.
    pub open spec fn raw(self) -> u8 {
        if self.is_on() {
            1
        } else {
            0
        }
    }

    /// The byte that shows the colour in all of its eight rows.
    pub open spec fn solid_byte(self) -> u8 {
        if self.is_on() {
            0xff
        } else {
            0x00
        }
    }
}

/// `IntoStorage::into_storage` of `embedded-graphics-core` on its own binary
/// colour: the raw one-bit value, 0 for an inactive pixel and 1 for an active one.
#[verifier::external_body]
pub(crate) fn into_storage(color: BinaryColor) -> (raw: u8)
    ensures
        raw == color.raw(),
{
    let outer = match color {
        BinaryColor::Off => embedded_graphics_core::pixelcolor::BinaryColor::Off,
        BinaryColor::On => embedded_graphics_core::pixelcolor::BinaryColor::On,
    };
    embedded_graphics_core::pixelcolor::IntoStorage::into_storage(outer)
}

} // verus!
