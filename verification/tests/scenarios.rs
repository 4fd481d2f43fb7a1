//! Pixels, fills and dirty blocks on concrete displays.

use packed_display_buffer::{BinaryColor, PackedBuffer, Pixel, Point, Rectangle, Size};

type Display = PackedBuffer<128, 64, 1024>;

fn rect(x: i32, y: i32, width: u32, height: u32) -> Rectangle {
    Rectangle::new(Point::new(x, y), Size::new(width, height))
}

/// The buffer that setting every pixel of `area` one by one gives.
fn pixel_by_pixel(mut display: Display, area: &Rectangle, color: BinaryColor) -> Display {
    for y in 0..area.size.height as i32 {
        for x in 0..area.size.width as i32 {
            display.set_pixel(Point::new(area.top_left.x + x, area.top_left.y + y), color);
        }
    }
    display
}

fn blocks_of(display: &Display) -> Vec<Vec<u8>> {
    let mut blocks = display.active_blocks();
    let mut all = Vec::new();
    while let Some(block) = blocks.next() {
        all.push(block.to_vec());
    }
    all
}

#[test]
fn new_buffer_is_blank() {
    let display = Display::new();

    assert_eq!(display.as_ref(), &[0u8; 1024][..]);
    assert_eq!(display.size(), Size::new(128, 64));
    assert_eq!(display.active_area(), Rectangle::zero());
    assert!(blocks_of(&display).is_empty());
}

#[test]
fn set_pixel_writes_one_bit() {
    let mut display = Display::new();

    display.set_pixel(Point::new(5, 19), BinaryColor::On);

    let mut expected = [0u8; 1024];
    expected[2 * 128 + 5] = 0b0000_1000;
    assert_eq!(display.as_ref(), &expected[..]);
    assert_eq!(display.active_area(), rect(5, 19, 1, 1));

    display.set_pixel(Point::new(5, 16), BinaryColor::On);
    display.set_pixel(Point::new(5, 19), BinaryColor::Off);

    expected[2 * 128 + 5] = 0b0000_0001;
    assert_eq!(display.as_ref(), &expected[..]);
    assert_eq!(display.active_area(), rect(5, 16, 1, 4));
}

#[test]
fn set_pixel_off_the_display_is_ignored() {
    let mut display = Display::new();

    for point in [
        Point::new(-1, 0),
        Point::new(0, -1),
        Point::new(128, 0),
        Point::new(0, 64),
        Point::new(i32::MIN, i32::MIN),
        Point::new(i32::MAX, i32::MAX),
    ] {
        display.set_pixel(point, BinaryColor::On);
    }

    assert_eq!(display, Display::new());
}

#[test]
fn set_pixel_in_the_corners() {
    let mut display = Display::new();

    display.set_pixel(Point::new(0, 0), BinaryColor::On);
    display.set_pixel(Point::new(127, 63), BinaryColor::On);

    let mut expected = [0u8; 1024];
    expected[0] = 0b0000_0001;
    expected[1023] = 0b1000_0000;
    assert_eq!(display.as_ref(), &expected[..]);
    assert_eq!(display.active_area(), rect(0, 0, 128, 64));
}

#[test]
fn fill_from_11_11_to_40_48() {
    let mut display = Display::new();

    display.fill_solid(&rect(11, 11, 29, 37), BinaryColor::On);

    let mut expected = [0u8; 1024];
    for column in 11..40 {
        expected[128 + column] = 0b1111_1000;
        expected[2 * 128 + column] = 0xff;
        expected[3 * 128 + column] = 0xff;
        expected[4 * 128 + column] = 0xff;
        expected[5 * 128 + column] = 0xff;
    }
    assert_eq!(display.as_ref(), &expected[..]);
    assert_eq!(display.active_area(), rect(11, 11, 29, 37));
}

#[test]
fn fill_ends_in_a_partial_page() {
    let mut display = Display::new();

    display.fill_solid(&rect(3, 6, 2, 13), BinaryColor::On);

    let mut expected = [0u8; 1024];
    for column in 3..5 {
        expected[column] = 0b1100_0000;
        expected[128 + column] = 0xff;
        expected[2 * 128 + column] = 0b0000_0111;
    }
    assert_eq!(display.as_ref(), &expected[..]);
}

#[test]
fn fill_merges_at_both_ends_and_overwrites_between() {
    let mut display = Display::new();
    display.clear(BinaryColor::On);

    display.fill_solid(&rect(10, 4, 3, 24), BinaryColor::Off);

    let mut expected = [0xffu8; 1024];
    for column in 10..13 {
        expected[column] = 0b0000_1111;
        expected[128 + column] = 0x00;
        expected[2 * 128 + column] = 0x00;
        expected[3 * 128 + column] = 0b1111_0000;
    }
    assert_eq!(display.as_ref(), &expected[..]);
    assert_eq!(display.active_area(), rect(10, 4, 3, 24));
}

#[test]
fn fill_is_the_same_as_pixel_by_pixel() {
    for area in [
        rect(0, 0, 128, 64),
        rect(4, 4, 117, 57),
        rect(50, 33, 11, 6),
        rect(50, 33, 1, 1),
        rect(-20, -20, 40, 40),
        rect(100, 50, 100, 100),
        rect(-5, 10, 200, 3),
        rect(7, 8, 1, 8),
        rect(7, 15, 1, 2),
    ] {
        for color in [BinaryColor::On, BinaryColor::Off] {
            let mut start = Display::new();
            start.fill_solid(&rect(0, 20, 128, 20), BinaryColor::On);

            let mut filled = Display::new();
            filled.fill_solid(&rect(0, 20, 128, 20), BinaryColor::On);
            filled.fill_solid(&area, color);

            assert_eq!(filled, pixel_by_pixel(start, &area, color), "{:?}", area);
        }
    }
}

#[test]
fn fill_twice_is_fill_once() {
    for area in [rect(11, 11, 29, 37), rect(-3, 60, 10, 10), rect(0, 0, 0, 0)] {
        let mut once = Display::new();
        once.set_pixel(Point::new(12, 12), BinaryColor::On);
        once.fill_solid(&area, BinaryColor::On);

        let mut twice = Display::new();
        twice.set_pixel(Point::new(12, 12), BinaryColor::On);
        twice.fill_solid(&area, BinaryColor::On);
        twice.fill_solid(&area, BinaryColor::On);

        assert_eq!(once, twice);
    }
}

#[test]
fn fill_off_one_edge_changes_nothing() {
    for area in [
        rect(-10, 5, 10, 10),
        rect(128, 5, 10, 10),
        rect(5, -10, 10, 10),
        rect(5, 64, 10, 10),
        rect(i32::MIN, i32::MIN, 100, 100),
        rect(i32::MAX - 100, i32::MAX - 100, 100, 100),
    ] {
        let mut display = Display::new();
        display.set_pixel(Point::new(1, 1), BinaryColor::On);
        let before = display.as_ref().to_vec();
        let area_before = display.active_area();

        display.fill_solid(&area, BinaryColor::On);

        assert_eq!(display.as_ref(), &before[..], "{:?}", area);
        assert_eq!(display.active_area(), area_before, "{:?}", area);
    }
}

#[test]
fn fill_beyond_the_coordinate_range() {
    let mut display = Display::new();
    display.fill_solid(&rect(-10, -10, u32::MAX, u32::MAX), BinaryColor::On);
    assert_eq!(display.as_ref(), &[0xffu8; 1024][..]);
    assert_eq!(display.active_area(), rect(0, 0, 128, 64));

    let mut display = Display::new();
    display.fill_solid(&rect(120, 63, u32::MAX, 1), BinaryColor::On);
    let mut expected = [0u8; 1024];
    for column in 120..128 {
        expected[7 * 128 + column] = 0b1000_0000;
    }
    assert_eq!(display.as_ref(), &expected[..]);
    assert_eq!(display.active_area(), rect(120, 63, 8, 1));

    let mut display = Display::new();
    display.fill_solid(&rect(i32::MIN, 3, u32::MAX, 2), BinaryColor::On);
    let mut expected = [0u8; 1024];
    for column in 0..128 {
        expected[column] = 0b0001_1000;
    }
    assert_eq!(display.as_ref(), &expected[..]);
    assert_eq!(display.active_area(), rect(0, 3, 128, 2));

    let mut display = Display::new();
    display.fill_solid(&rect(i32::MAX, i32::MAX, u32::MAX, u32::MAX), BinaryColor::On);
    display.fill_solid(&rect(i32::MIN, 0, 0x8000_0000, 5), BinaryColor::On);
    assert_eq!(display, Display::new());
}

#[test]
fn contiguous_fill_beyond_the_coordinate_range() {
    let mut display = Display::new();
    let on = BinaryColor::On;
    let off = BinaryColor::Off;

    // A row that starts on the display and ends far beyond the range of coordinates.
    display.fill_contiguous(&rect(126, 0, u32::MAX, 1), &[on, off, on, on]);

    let mut expected = [0u8; 1024];
    expected[126] = 0b0000_0001;
    assert_eq!(display.as_ref(), &expected[..]);
    assert_eq!(display.active_area(), rect(126, 0, 2, 1));
}

#[test]
fn fill_of_nothing_changes_nothing() {
    for area in [rect(0, 0, 0, 0), rect(10, 10, 0, 5), rect(10, 10, 5, 0), rect(-5, -5, 0, 0)] {
        let mut display = Display::new();

        display.fill_solid(&area, BinaryColor::On);
        display.fill_contiguous(&area, &[]);

        assert_eq!(display, Display::new(), "{:?}", area);
    }
}

#[test]
fn fill_of_the_whole_display_is_uniform() {
    let mut display = Display::new();

    display.fill_solid(&rect(0, 0, 128, 64), BinaryColor::On);
    assert_eq!(display.as_ref(), &[0xffu8; 1024][..]);
    assert_eq!(display.active_area(), rect(0, 0, 128, 64));

    display.fill_solid(&rect(0, 0, 128, 64), BinaryColor::Off);
    assert_eq!(display.as_ref(), &[0x00u8; 1024][..]);
}

#[test]
fn clear_leaves_the_active_area_alone() {
    let mut display = Display::new();

    display.clear(BinaryColor::On);
    assert_eq!(display.as_ref(), &[0xffu8; 1024][..]);
    assert_eq!(display.active_area(), Rectangle::zero());

    display.set_pixel(Point::new(9, 9), BinaryColor::Off);
    display.clear(BinaryColor::Off);
    assert_eq!(display.as_ref(), &[0x00u8; 1024][..]);
    assert_eq!(display.active_area(), rect(9, 9, 1, 1));
}

#[test]
fn clear_active_area_keeps_the_bytes() {
    let mut display = Display::new();

    display.fill_solid(&rect(1, 1, 5, 5), BinaryColor::On);
    let bytes = display.as_ref().to_vec();
    display.clear_active_area();

    assert_eq!(display.as_ref(), &bytes[..]);
    assert_eq!(display.active_area(), Rectangle::zero());
    assert!(blocks_of(&display).is_empty());
}

#[test]
fn contiguous_fill_places_each_color() {
    let mut display = Display::new();
    let on = BinaryColor::On;
    let off = BinaryColor::Off;

    // Three columns, two rows, starting one column left of the display.
    display.fill_contiguous(&rect(-1, 7, 3, 2), &[on, off, on, on, on, off]);

    let mut expected = [0u8; 1024];
    expected[1] = 0b1000_0000;
    expected[128] = 0b0000_0001;
    assert_eq!(display.as_ref(), &expected[..]);
    assert_eq!(display.active_area(), rect(0, 7, 2, 2));
}

#[test]
fn contiguous_fill_writes_off_pixels_too() {
    let mut display = Display::new();
    display.clear(BinaryColor::On);

    display.fill_contiguous(&rect(2, 0, 2, 1), &[BinaryColor::Off, BinaryColor::On]);

    let mut expected = [0xffu8; 1024];
    expected[2] = 0b1111_1110;
    assert_eq!(display.as_ref(), &expected[..]);
}

#[test]
fn contiguous_fill_skips_rows_above_the_display() {
    let mut display = Display::new();
    let on = BinaryColor::On;
    let off = BinaryColor::Off;

    // Two rows above the display, one on it.
    display.fill_contiguous(&rect(0, -2, 2, 3), &[on, on, on, on, off, on]);

    let mut expected = [0u8; 1024];
    expected[1] = 0b0000_0001;
    assert_eq!(display.as_ref(), &expected[..]);
    assert_eq!(display.active_area(), rect(0, 0, 2, 1));
}

#[test]
fn contiguous_fill_stops_below_the_display() {
    let mut display = Display::new();

    display.fill_contiguous(&rect(126, 62, 3, 4), &[BinaryColor::On; 12]);

    let mut expected = [0u8; 1024];
    expected[7 * 128 + 126] = 0b1100_0000;
    expected[7 * 128 + 127] = 0b1100_0000;
    assert_eq!(display.as_ref(), &expected[..]);
    assert_eq!(display.active_area(), rect(126, 62, 2, 2));
}

#[test]
fn contiguous_fill_with_too_few_colors_stops_early() {
    let mut display = Display::new();

    display.fill_contiguous(&rect(0, 0, 4, 4), &[BinaryColor::On; 6]);

    let mut expected = [0u8; 1024];
    expected[0] = 0b0000_0011;
    expected[1] = 0b0000_0011;
    expected[2] = 0b0000_0001;
    expected[3] = 0b0000_0001;
    assert_eq!(display.as_ref(), &expected[..]);
    assert_eq!(display.active_area(), rect(0, 0, 4, 4));
}

#[test]
fn contiguous_fill_with_too_many_colors_ignores_the_rest() {
    let mut display = Display::new();

    display.fill_contiguous(&rect(0, 0, 2, 1), &[BinaryColor::On; 50]);

    let mut expected = [0u8; 1024];
    expected[0] = 0b0000_0001;
    expected[1] = 0b0000_0001;
    assert_eq!(display.as_ref(), &expected[..]);
}

#[test]
fn contiguous_fill_is_the_same_as_pixel_by_pixel() {
    for (left, top) in [(0, 0), (-100, -100), (11, 16), (11, 11), (100, 48), (-7, 60)] {
        let area = rect(left, top, 37, 21);
        let colors: Vec<BinaryColor> = (0..37 * 21)
            .map(|place| if place % 3 == 0 || place % 7 == 2 { BinaryColor::On } else { BinaryColor::Off })
            .collect();

        let mut filled = Display::new();
        filled.clear(BinaryColor::On);
        filled.fill_contiguous(&area, &colors);

        let mut drawn = Display::new();
        drawn.clear(BinaryColor::On);
        let pixels: Vec<Pixel> = colors
            .iter()
            .enumerate()
            .map(|(place, color)| {
                Pixel(Point::new(left + place as i32 % 37, top + place as i32 / 37), *color)
            })
            .collect();
        drawn.draw_iter(&pixels);

        assert_eq!(filled, drawn, "{:?}", area);
    }
}

#[test]
fn draw_iter_sets_each_pixel() {
    let mut display = Display::new();

    display.draw_iter(&[
        Pixel(Point::new(0, 0), BinaryColor::On),
        Pixel(Point::new(200, 0), BinaryColor::On),
        Pixel(Point::new(0, 1), BinaryColor::On),
        Pixel(Point::new(0, 0), BinaryColor::Off),
    ]);

    let mut expected = [0u8; 1024];
    expected[0] = 0b0000_0010;
    assert_eq!(display.as_ref(), &expected[..]);
    assert_eq!(display.active_area(), rect(0, 0, 1, 2));
}

#[test]
fn active_area_is_the_bounding_box_of_all_calls() {
    let mut display = Display::new();

    display.set_pixel(Point::new(60, 30), BinaryColor::On);
    display.set_pixel(Point::new(500, 500), BinaryColor::On);
    display.fill_solid(&rect(-10, 40, 30, 10), BinaryColor::On);
    display.fill_solid(&rect(300, 0, 5, 5), BinaryColor::On);
    display.clear(BinaryColor::Off);
    assert_eq!(display.active_area(), rect(0, 30, 61, 20));

    display.clear_active_area();
    assert_eq!(display.active_area(), Rectangle::zero());

    display.fill_contiguous(&rect(120, 60, 20, 20), &[]);
    assert_eq!(display.active_area(), rect(120, 60, 8, 4));
}

#[test]
fn active_blocks_cover_the_active_area() {
    let mut display = Display::new();

    display.fill_solid(&rect(20, 6, 5, 12), BinaryColor::On);

    let blocks = blocks_of(&display);
    assert_eq!(
        blocks,
        vec![vec![0b1100_0000u8; 5], vec![0xffu8; 5], vec![0b0000_0011u8; 5]]
    );
    for block in &blocks {
        assert_eq!(block.len() as u32, display.active_area().size.width);
    }
    assert_eq!(blocks, blocks_of(&display));
}

#[test]
fn active_blocks_of_one_pixel() {
    let mut display = Display::new();

    display.set_pixel(Point::new(127, 63), BinaryColor::On);

    assert_eq!(blocks_of(&display), vec![vec![0b1000_0000u8]]);
}

#[test]
fn small_display() {
    let mut display = PackedBuffer::<3, 8, 3>::new();

    display.fill_solid(&rect(1, 2, 5, 3), BinaryColor::On);

    assert_eq!(display.as_ref(), &[0u8, 0b0001_1100, 0b0001_1100][..]);
    assert_eq!(display.active_area(), rect(1, 2, 2, 3));
}
