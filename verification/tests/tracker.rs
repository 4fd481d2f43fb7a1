//! The tracker of the drawn area and the block iterator.

use packed_display_buffer::{ActiveArea, BlockIterator, Point, Rectangle, Size};

#[test]
fn new_tracker_reports_nothing() {
    let area = ActiveArea::<128, 64>::new();

    assert_eq!(area.rectangle(), Rectangle::zero());
    assert_eq!(area.rectangle(), Rectangle::new(Point::new(0, 0), Size::new(0, 0)));
}

#[test]
fn one_point_is_a_rectangle_of_one_pixel() {
    let mut area = ActiveArea::<128, 64>::new();

    area.update_from_point(Point::new(17, 5));

    assert_eq!(area.rectangle(), Rectangle::new(Point::new(17, 5), Size::new(1, 1)));
}

#[test]
fn points_grow_the_rectangle() {
    let mut area = ActiveArea::<128, 64>::new();

    area.update_from_point(Point::new(17, 30));
    area.update_from_point(Point::new(40, 5));
    area.update_from_point(Point::new(20, 20));

    assert_eq!(area.rectangle(), Rectangle::new(Point::new(17, 5), Size::new(24, 26)));
}

#[test]
fn rectangle_is_recorded_by_its_corners() {
    let mut area = ActiveArea::<128, 64>::new();

    area.update_from_rect(Rectangle::new(Point::new(10, 20), Size::new(30, 5)));

    assert_eq!(area.rectangle(), Rectangle::new(Point::new(10, 20), Size::new(30, 5)));

    area.update_from_rect(Rectangle::new(Point::new(0, 22), Size::new(11, 40)));

    assert_eq!(area.rectangle(), Rectangle::new(Point::new(0, 20), Size::new(40, 42)));
}

#[test]
fn empty_rectangle_does_not_touch() {
    let mut area = ActiveArea::<128, 64>::new();

    area.update_from_rect(Rectangle::new(Point::new(10, 20), Size::new(0, 5)));
    area.update_from_rect(Rectangle::new(Point::new(10, 20), Size::new(5, 0)));
    area.update_from_rect(Rectangle::zero());

    assert_eq!(area.rectangle(), Rectangle::zero());
    assert_eq!(area, ActiveArea::<128, 64>::new());
}

#[test]
fn clear_forgets_everything() {
    let mut area = ActiveArea::<128, 64>::new();

    area.update_from_point(Point::new(3, 4));
    area.clear();

    assert_eq!(area.rectangle(), Rectangle::zero());
    assert_eq!(area, ActiveArea::<128, 64>::new());

    area.update_from_point(Point::new(100, 60));

    assert_eq!(area.rectangle(), Rectangle::new(Point::new(100, 60), Size::new(1, 1)));
}

#[test]
fn empty_iterator_hands_out_nothing() {
    let mut blocks = BlockIterator::empty();

    assert_eq!(blocks.num_blocks, 0);
    assert_eq!(blocks.next(), None);
    assert_eq!(blocks.next(), None);
}

#[test]
fn iterator_steps_by_the_display_width() {
    let bytes: Vec<u8> = (0..32).collect();
    let mut blocks = BlockIterator {
        buffer: &bytes,
        display_width: 8,
        buffer_idx: 10,
        block_width: 3,
        current_block: 0,
        num_blocks: 3,
    };

    assert_eq!(blocks.next(), Some(&[10u8, 11, 12][..]));
    assert_eq!(blocks.next(), Some(&[18u8, 19, 20][..]));
    assert_eq!(blocks.buffer_idx, 26);
    assert_eq!(blocks.current_block, 2);
    assert_eq!(blocks.next(), Some(&[26u8, 27, 28][..]));
    assert_eq!(blocks.next(), None);
    assert_eq!(blocks.next(), None);
    assert_eq!(blocks.current_block, 3);
}

#[test]
fn clamped_rectangle_in_range_is_itself() {
    for area in [
        Rectangle::new(Point::new(-5, 7), Size::new(10, 3)),
        Rectangle::new(Point::new(i32::MIN, i32::MIN), Size::new(i32::MAX as u32, 1)),
        Rectangle::new(Point::new(0, 0), Size::new(i32::MAX as u32, i32::MAX as u32)),
        Rectangle::new(Point::new(5, 5), Size::new(0, u32::MAX)),
        Rectangle::zero(),
    ] {
        assert_eq!(area.clamped(), area);
    }
}

#[test]
fn clamped_rectangle_out_of_range_is_cut() {
    assert_eq!(
        Rectangle::new(Point::new(-10, 4), Size::new(u32::MAX, 6)).clamped(),
        Rectangle::new(Point::new(0, 4), Size::new(i32::MAX as u32, 6))
    );
    assert_eq!(
        Rectangle::new(Point::new(1, -3), Size::new(i32::MAX as u32, 2)).clamped(),
        Rectangle::new(Point::new(1, 0), Size::new(i32::MAX as u32 - 1, 0))
    );
    assert_eq!(
        Rectangle::new(Point::new(i32::MAX, i32::MAX), Size::new(1, 1)).clamped(),
        Rectangle::new(Point::new(i32::MAX, i32::MAX), Size::new(0, 0))
    );
}
