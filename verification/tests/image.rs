//! Fills from a decoded bitmap image, checked against pixel-by-pixel drawing.

use embedded_graphics_core::geometry::OriginDimensions;
use embedded_graphics_core::pixelcolor::Rgb565;
use embedded_graphics_core::primitives::Rectangle as OuterRectangle;
use packed_display_buffer::{BinaryColor, PackedBuffer, Point, Rectangle, Size};
use rand::{thread_rng, Rng};
use tinybmp::Bmp;

const IMAGE_WIDTH: u32 = 56;
const IMAGE_HEIGHT: u32 = 26;

/// A 24 bit bitmap file that shows a white ring on black.
fn logo_file() -> Vec<u8> {
    let row_len = ((IMAGE_WIDTH * 3 + 3) / 4 * 4) as usize;
    let data_len = row_len * IMAGE_HEIGHT as usize;
    let mut file = Vec::new();
    file.extend_from_slice(b"BM");
    file.extend_from_slice(&((54 + data_len) as u32).to_le_bytes());
    file.extend_from_slice(&0u32.to_le_bytes());
    file.extend_from_slice(&54u32.to_le_bytes());
    file.extend_from_slice(&40u32.to_le_bytes());
    file.extend_from_slice(&(IMAGE_WIDTH as i32).to_le_bytes());
    file.extend_from_slice(&(IMAGE_HEIGHT as i32).to_le_bytes());
    file.extend_from_slice(&1u16.to_le_bytes());
    file.extend_from_slice(&24u16.to_le_bytes());
    file.extend_from_slice(&0u32.to_le_bytes());
    file.extend_from_slice(&(data_len as u32).to_le_bytes());
    file.extend_from_slice(&2835u32.to_le_bytes());
    file.extend_from_slice(&2835u32.to_le_bytes());
    file.extend_from_slice(&0u32.to_le_bytes());
    file.extend_from_slice(&0u32.to_le_bytes());
    // Rows are stored bottom up.
    for row in (0..IMAGE_HEIGHT as i32).rev() {
        let mut written = 0;
        for column in 0..IMAGE_WIDTH as i32 {
            let dx = 2 * column - IMAGE_WIDTH as i32 + 1;
            let dy = (2 * row - IMAGE_HEIGHT as i32 + 1) * 2;
            let distance = dx * dx + dy * dy;
            let value = if distance < 52 * 52 && distance > 30 * 30 { 0xff } else { 0x00 };
            file.extend_from_slice(&[value, value, value]);
            written += 3;
        }
        while written < row_len {
            file.push(0);
            written += 1;
        }
    }
    file
}

fn color(outer: embedded_graphics_core::pixelcolor::BinaryColor) -> BinaryColor {
    if outer.is_on() {
        BinaryColor::On
    } else {
        BinaryColor::Off
    }
}

fn point(outer: embedded_graphics_core::geometry::Point) -> Point {
    Point::new(outer.x, outer.y)
}

fn rectangle(outer: &OuterRectangle) -> Rectangle {
    Rectangle::new(
        point(outer.top_left),
        Size::new(outer.size.width, outer.size.height),
    )
}

/// The pixels of the image, each with its position in the image.
fn image_pixels(
    bmp: &Bmp<Rgb565>,
) -> Vec<(
    embedded_graphics_core::geometry::Point,
    embedded_graphics_core::pixelcolor::BinaryColor,
)> {
    bmp.pixels().map(|p| (p.0, p.1.into())).collect()
}

#[test]
fn logo_has_both_colors() {
    let file = logo_file();
    let bmp: Bmp<Rgb565> = Bmp::from_slice(&file).expect("Failed to load BMP image");
    let pixels = image_pixels(&bmp);

    assert_eq!(bmp.size(), embedded_graphics_core::geometry::Size::new(56, 26));
    assert_eq!(pixels.len(), 56 * 26);
    assert!(pixels.iter().any(|p| p.1.is_on()));
    assert!(pixels.iter().any(|p| p.1.is_off()));
}

#[test]
fn contiguous_zero() {
    let mut disp_fill = PackedBuffer::<128, 64, 1024>::new();
    let mut disp_pixels = PackedBuffer::<128, 64, 1024>::new();

    let tl = embedded_graphics_core::geometry::Point::zero();

    let file = logo_file();
    let bmp: Bmp<Rgb565> = Bmp::from_slice(&file).expect("Failed to load BMP image");

    let pixels = image_pixels(&bmp);

    let area = OuterRectangle::new(tl, bmp.size());

    // Fill pixel by pixel
    for (p, c) in pixels.clone() {
        disp_pixels.set_pixel(point(p + area.top_left), color(c));
    }

    let colors: Vec<BinaryColor> = pixels.iter().map(|p| color(p.1)).collect();
    disp_fill.fill_contiguous(&rectangle(&area), &colors);

    assert_eq!(disp_fill, disp_pixels, "{:?}", area);
}

#[test]
fn fuzz_contiguous() {
    for i in 0..10_000 {
        let mut disp_fill = PackedBuffer::<128, 64, 1024>::new();
        let mut disp_pixels = PackedBuffer::<128, 64, 1024>::new();

        let tl = {
            let mut rng = thread_rng();

            let x: i32 = rng.gen_range(-60..130);
            let y: i32 = rng.gen_range(-30..70);

            embedded_graphics_core::geometry::Point::new(x, y)
        };

        let file = logo_file();
        let bmp: Bmp<Rgb565> = Bmp::from_slice(&file).expect("Failed to load BMP image");

        let pixels = image_pixels(&bmp);

        let area = OuterRectangle::new(tl, bmp.size());

        // Fill pixel by pixel
        for (p, c) in pixels.clone() {
            disp_pixels.set_pixel(point(p + area.top_left), color(c));
        }

        let colors: Vec<BinaryColor> = pixels.iter().map(|p| color(p.1)).collect();
        disp_fill.fill_contiguous(&rectangle(&area), &colors);

        assert_eq!(disp_fill, disp_pixels, "{i}: {:?}", area);
    }
}

#[test]
fn active_area_fuzz_contiguous() {
    for _ in 0..10_000 {
        let mut disp_fill = PackedBuffer::<128, 64, 1024>::new();

        let tl = {
            let mut rng = thread_rng();

            let x: i32 = rng.gen_range(-60..130);
            let y: i32 = rng.gen_range(-30..70);

            embedded_graphics_core::geometry::Point::new(x, y)
        };

        let file = logo_file();
        let bmp: Bmp<Rgb565> = Bmp::from_slice(&file).expect("Failed to load BMP image");

        let pixels = image_pixels(&bmp);

        let area = OuterRectangle::new(tl, bmp.size());

        let size = disp_fill.size();
        let visible_image = OuterRectangle::new(
            embedded_graphics_core::geometry::Point::zero(),
            embedded_graphics_core::geometry::Size::new(size.width, size.height),
        )
        .intersection(&area);

        let colors: Vec<BinaryColor> = pixels.iter().map(|p| color(p.1)).collect();
        disp_fill.fill_contiguous(&rectangle(&area), &colors);

        assert_eq!(disp_fill.active_area(), rectangle(&visible_image));
    }
}

#[test]
fn bmp() {
    let mut disp_fill = PackedBuffer::<32, 16, { 32 * 16 / 8 }>::new();
    let mut disp_pixels = PackedBuffer::<32, 16, { 32 * 16 / 8 }>::new();

    let tl = embedded_graphics_core::geometry::Point::new(-5, -5);

    let file = logo_file();
    let bmp: Bmp<Rgb565> = Bmp::from_slice(&file).expect("Failed to load BMP image");

    let pixels = image_pixels(&bmp);

    let area = OuterRectangle::new(tl, bmp.size());

    // Fill pixel by pixel
    for (p, c) in pixels.clone() {
        disp_pixels.set_pixel(point(p + area.top_left), color(c));
    }

    let colors: Vec<BinaryColor> = pixels.iter().map(|p| color(p.1)).collect();
    disp_fill.fill_contiguous(&rectangle(&area), &colors);

    assert_eq!(disp_fill, disp_pixels, "{:?}", area);
}

#[test]
fn active_area_blocks() {
    let mut disp_fill = PackedBuffer::<128, 64, { 128 * 64 / 8 }>::new();

    let tl = embedded_graphics_core::geometry::Point::new(2, 2);

    let file = logo_file();
    let bmp: Bmp<Rgb565> = Bmp::from_slice(&file).expect("Failed to load BMP image");

    let pixels = image_pixels(&bmp);

    let area = OuterRectangle::new(tl, bmp.size());

    let colors: Vec<BinaryColor> = pixels.iter().map(|p| color(p.1)).collect();
    disp_fill.fill_contiguous(&rectangle(&area), &colors);

    let mut count = 0;
    let mut blocks = disp_fill.active_blocks();
    while let Some(_) = blocks.next() {
        count += 1;
    }
    assert_eq!(count, 4);

    let mut blocks = disp_fill.active_blocks();
    while let Some(block) = blocks.next() {
        assert_eq!(block.len(), area.size.width as usize);
    }
}
