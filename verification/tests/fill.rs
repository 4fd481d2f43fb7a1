//! Solid fills and single pixels.

use embedded_graphics_core::primitives::{PointsIter, Rectangle as OuterRectangle};
use packed_display_buffer::{BinaryColor, PackedBuffer, Point, Rectangle, Size};
use rand::{thread_rng, Rng};

fn random_point() -> embedded_graphics_core::geometry::Point {
    let mut rng = thread_rng();

    let x: i32 = rng.gen_range(-256..256);
    let y: i32 = rng.gen_range(-256..256);

    embedded_graphics_core::geometry::Point::new(x, y)
}

fn rectangle(outer: &OuterRectangle) -> Rectangle {
    Rectangle::new(
        Point::new(outer.top_left.x, outer.top_left.y),
        Size::new(outer.size.width, outer.size.height),
    )
}

#[test]
fn fuzz_fill() {
    for i in 0..100_000 {
        let mut disp_fill = PackedBuffer::<128, 64, 1024>::new();
        let mut disp_pixels = PackedBuffer::<128, 64, 1024>::new();

        let tl = random_point();
        let br = random_point();

        let area = OuterRectangle::with_corners(tl, br);

        // Fill pixel by pixel. Points off the display are ignored by `set_pixel`, so only the
        // part of the area on the display is walked here; `fuzz_fill_every_point` walks all of it.
        let display = OuterRectangle::new(
            embedded_graphics_core::geometry::Point::zero(),
            embedded_graphics_core::geometry::Size::new(128, 64),
        );
        for point in area.intersection(&display).points() {
            disp_pixels.set_pixel(Point::new(point.x, point.y), BinaryColor::On);
        }

        disp_fill.fill_solid(&rectangle(&area), BinaryColor::On);

        assert_eq!(disp_fill, disp_pixels, "{i}: {:?}", area);
    }
}

#[test]
fn fuzz_fill_every_point() {
    for i in 0..2_000 {
        let mut disp_fill = PackedBuffer::<128, 64, 1024>::new();
        let mut disp_pixels = PackedBuffer::<128, 64, 1024>::new();

        let tl = random_point();
        let br = random_point();

        let area = OuterRectangle::with_corners(tl, br);

        // Fill pixel by pixel
        for point in area.points() {
            disp_pixels.set_pixel(Point::new(point.x, point.y), BinaryColor::On);
        }

        disp_fill.fill_solid(&rectangle(&area), BinaryColor::On);

        assert_eq!(disp_fill, disp_pixels, "{i}: {:?}", area);
    }
}

#[test]
fn block_offset() {
    let mut disp = PackedBuffer::<132, 64, { 132 * 64 / 8 }>::new();

    disp.set_pixel(Point::new(0, 0), BinaryColor::On);
    disp.set_pixel(Point::new(0, 10), BinaryColor::On);
    disp.set_pixel(Point::new(0, 16), BinaryColor::On);
    disp.set_pixel(Point::new(0, 20), BinaryColor::On);

    let mut blocks = disp.active_blocks();

    let block1 = blocks.next().unwrap();
    let block2 = blocks.next().unwrap();
    let block3 = blocks.next().unwrap();

    assert_eq!(blocks.next(), None);

    assert_eq!(block1[0], 0b0000_0001);
    assert_eq!(block2[0], 0b0000_0100);
    assert_eq!(block3[0], 0b0001_0001);
}
