//! A bit-packed monochrome frame buffer for page-addressed displays.
//!
//! The display is stored one bit per pixel, eight rows to a byte. Pixels,
//! filled rectangles and streamed images are written straight into that
//! layout, clipped to the display, and the area that was drawn to is tracked so
//! that only the bytes that changed need to be sent to the hardware.

pub mod active_area;
pub mod bits;
pub mod block_iterator;
pub mod buffer;
pub mod byte_direction;
pub mod color;
pub mod frame;
pub mod geometry;
pub mod laws;
pub mod mask;

pub use active_area::ActiveArea;
pub use block_iterator::BlockIterator;
pub use buffer::PackedBuffer;
pub use byte_direction::{ByteDirection, HorizontalByte, VerticalByte};
pub use color::{BinaryColor, Pixel};
pub use geometry::{Point, Rectangle, Size};
