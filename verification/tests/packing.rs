//! Packing of multi-bit pixels by byte direction.

use embedded_graphics::pixelcolor::Gray2;
use embedded_graphics_core::pixelcolor::raw::RawData;
use embedded_graphics_core::pixelcolor::{IntoStorage, PixelColor};
use packed_display_buffer::{ByteDirection, HorizontalByte, Point, VerticalByte};

#[test]
fn set_vertical() {
    let bits = <<Gray2 as PixelColor>::Raw as RawData>::BITS_PER_PIXEL as u32;

    let mut buf = [0u8; 8];

    VerticalByte::<4>::set_pixel(Point::new(3, 0), Gray2::new(3).into_storage(), bits, &mut buf);

    assert_eq!(buf, [0, 0, 0, 0b0000_0011, 0, 0, 0, 0]);

    let mut buf = [0u8; 8];

    HorizontalByte::<4>::set_pixel(Point::new(3, 0), Gray2::new(3).into_storage(), bits, &mut buf);

    for i in buf {
        println!("{:08b}", i);
    }
    assert_eq!(buf, [0b0000_0011, 0, 0, 0, 0, 0, 0, 0]);
}

#[test]
fn vertical_keeps_neighbours() {
    let mut buf = [0xffu8; 8];

    // Two bits per pixel: row 5 lies in the second byte of its column, in bits 2 and 3.
    VerticalByte::<4>::set_pixel(Point::new(1, 5), 0b01, 2, &mut buf);

    assert_eq!(buf, [0xff, 0xff, 0xff, 0xff, 0xff, 0b1111_0111, 0xff, 0xff]);
}

#[test]
fn vertical_counts_by_magnitude() {
    let mut plain = [0u8; 8];
    let mut mirrored = [0u8; 8];

    VerticalByte::<4>::set_pixel(Point::new(2, 3), 1, 1, &mut plain);
    VerticalByte::<4>::set_pixel(Point::new(-2, -3), 1, 1, &mut mirrored);

    assert_eq!(plain, [0, 0, 0b0000_1000, 0, 0, 0, 0, 0]);
    assert_eq!(plain, mirrored);
}

#[test]
fn horizontal_fills_from_the_top_bit() {
    let mut buf = [0u8; 4];

    // Four bits per pixel, four pixels to a row: two bytes per row.
    HorizontalByte::<4>::set_pixel(Point::new(0, 1), 0xa, 4, &mut buf);
    assert_eq!(buf, [0, 0, 0xa0, 0]);

    HorizontalByte::<4>::set_pixel(Point::new(1, 1), 0x5, 4, &mut buf);
    assert_eq!(buf, [0, 0, 0xa5, 0]);
}
