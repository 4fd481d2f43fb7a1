//! Laws that relate the operations of the buffer to each other.
//!
//! Each law is stated over frames, the values that the contracts of the
//! buffer's operations speak of, and holds of every frame that a buffer can
//! hold.

use vstd::prelude::*;
use crate::active_area::{all_on_display, is_bounding_box, Extent};
use crate::bits::{bit_is_set, lemma_bits_of_pack, pack_bits};
use crate::color::{BinaryColor, Pixel};
use crate::frame::{lemma_rows_apart, Frame, Ink};
use crate::geometry::{Point, Rectangle};

verus! {

/// A byte packed from eight equal bits shows one colour in all its rows.
proof fn lemma_pack_solid(on: bool)
    by (bit_vector)
    ensures
        pack_bits(on, on, on, on, on, on, on, on) == (if on {
            0xffu8
        } else {
            0x00u8
        }),
{
}

impl Frame {
    /// Ink drawn over painted bytes gives what the two inks paint together,
    /// the later one over the earlier one.
    pub proof fn lemma_painted_over(self, first: Ink, second: Ink, both: Ink)
        requires
            self.wf(),
            forall|x: int, y: int|
                self.in_bounds(x, y) ==> #[trigger] both(x, y) == (match second(x, y) {
                    Some(on) => Some(on),
                    None => first(x, y),
                }),
        ensures
            (Frame { bytes: self.painted(first), ..self }).painted(second) == self.painted(both),
    {
        let base = Frame { bytes: self.painted(first), ..self };
        assert forall|index: int| 0 <= index < self.bytes.len() implies base.painted_byte(
            second,
            index,
        ) == self.painted_byte(both, index) by {
            self.lemma_cell_of_index(index);
            let x = index % (self.width as int);
            let q = index / (self.width as int);
            lemma_bits_of_pack(
                self.painted_bit(first, index, 0),
                self.painted_bit(first, index, 1),
                self.painted_bit(first, index, 2),
                self.painted_bit(first, index, 3),
                self.painted_bit(first, index, 4),
                self.painted_bit(first, index, 5),
                self.painted_bit(first, index, 6),
                self.painted_bit(first, index, 7),
            );
            assert(base.bytes[index] == self.painted_byte(first, index));
            assert forall|bit: u8| bit < 8 implies #[trigger] base.painted_bit(second, index, bit)
                == self.painted_bit(both, index, bit) by {
                assert(self.in_bounds(x, q * 8 + bit));
                assert(bit_is_set(base.bytes[index], bit) == self.painted_bit(first, index, bit));
            }
            assert(base.painted_bit(second, index, 0) == self.painted_bit(both, index, 0));
            assert(base.painted_bit(second, index, 1) == self.painted_bit(both, index, 1));
            assert(base.painted_bit(second, index, 2) == self.painted_bit(both, index, 2));
            assert(base.painted_bit(second, index, 3) == self.painted_bit(both, index, 3));
            assert(base.painted_bit(second, index, 4) == self.painted_bit(both, index, 4));
            assert(base.painted_bit(second, index, 5) == self.painted_bit(both, index, 5));
            assert(base.painted_bit(second, index, 6) == self.painted_bit(both, index, 6));
            assert(base.painted_bit(second, index, 7) == self.painted_bit(both, index, 7));
        }
        assert(base.painted(second) =~= self.painted(both));
    }

    /// The part of a rectangle that lies on the display lies on it as a whole,
    /// and holds exactly the positions of the rectangle that are on the display.
    pub proof fn lemma_clip(self, area: Rectangle)
        requires
            self.wf(),
        ensures
            self.holds(self.clip(area)) || self.clip(area).is_zero_sized(),
            self.clip(area).corner_in_range(),
            forall|x: int, y: int|
                #[trigger] self.clip(area).covers(x, y) <==> area.covers(x, y) && self.in_bounds(
                    x,
                    y,
                ),
    {
        let clip = self.clip(area);
        area.lemma_clamped();
        area.spec_clamped().lemma_intersection_covers(self.bounds());
        if !clip.is_zero_sized() {
            assert(clip.covers(clip.top_left.x as int, clip.top_left.y as int));
            assert(clip.covers(
                clip.top_left.x + clip.size.width - 1,
                clip.top_left.y + clip.size.height - 1,
            ));
        }
        assert forall|x: int, y: int| #[trigger]
            clip.covers(x, y) <==> area.covers(x, y) && self.in_bounds(x, y) by {
            assert(self.bounds().covers(x, y) <==> self.in_bounds(x, y));
        }
    }

    /// Every operation leads from a frame that a buffer can hold to another.
    pub proof fn lemma_operations_keep_wf(
        self,
        point: Point,
        area: Rectangle,
        color: BinaryColor,
        colors: Seq<BinaryColor>,
    )
        requires
            self.wf(),
        ensures
            self.set_pixel(point, color).wf(),
            self.fill_solid(area, color).wf(),
            self.fill_contiguous(area, colors).wf(),
            self.clear(color).wf(),
            self.clear_active_area().wf(),
    {
        self.lemma_clip(area);
        if self.in_bounds(point.x as int, point.y as int) {
            self.lemma_index_in_range(point.x as int, point.y as int);
        }
    }

    /// Writing a pixel of the display gives it the colour and leaves every
    /// other pixel as it was.
    pub proof fn lemma_set_pixel_pixels(self, point: Point, color: BinaryColor, x: int, y: int)
        requires
            self.wf(),
            self.in_bounds(x, y),
        ensures
            self.set_pixel(point, color).pixel(x, y) == (if point.x == x && point.y == y {
                color.is_on()
            } else {
                self.pixel(x, y)
            }),
    {
        if self.in_bounds(point.x as int, point.y as int) {
            let nothing: Ink = |px: int, py: int| None;
            let one: Ink = |px: int, py: int|
                if px == point.x && py == point.y {
                    Some(color.is_on())
                } else {
                    None
                };
            self.lemma_painted_nothing(nothing);
            self.lemma_paint_pixel(
                nothing,
                one,
                self.set_pixel(point, color).bytes,
                point.x as int,
                point.y as int,
                color,
            );
            self.lemma_painted_pixel(one, x, y);
        }
    }

    /// A streamed fill gives each pixel of the rectangle that its colours reach
    /// the colour at its place in the stream, and leaves every other pixel of
    /// the display as it was.
    pub proof fn lemma_fill_contiguous_pixels(
        self,
        area: Rectangle,
        colors: Seq<BinaryColor>,
        x: int,
        y: int,
    )
        requires
            self.wf(),
            self.in_bounds(x, y),
        ensures
            self.fill_contiguous(area, colors).pixel(x, y) == (if area.covers(x, y)
                && Self::stream_index(area, x, y) < colors.len() {
                colors[Self::stream_index(area, x, y)].is_on()
            } else {
                self.pixel(x, y)
            }),
    {
        self.lemma_clip(area);
        self.lemma_painted_pixel(Self::stream_ink(area, colors), x, y);
        if self.clip(area).is_zero_sized() {
            assert(self.clip(area).covers(x, y) <==> area.covers(x, y) && self.in_bounds(x, y));
        }
    }

    /// A solid fill gives its colour to the pixels of the rectangle and leaves
    /// every other pixel of the display as it was.
    pub proof fn lemma_fill_solid_pixels(self, area: Rectangle, color: BinaryColor, x: int, y: int)
        requires
            self.wf(),
            self.in_bounds(x, y),
        ensures
            self.fill_solid(area, color).pixel(x, y) == (if area.covers(x, y) {
                color.is_on()
            } else {
                self.pixel(x, y)
            }),
    {
        self.lemma_clip(area);
        self.lemma_painted_pixel(Self::solid_ink(self.clip(area), color), x, y);
    }

    /// Idempotence: filling the same rectangle with the same colour twice
    /// gives what filling it once gives.
    pub proof fn lemma_fill_solid_idempotent(self, area: Rectangle, color: BinaryColor)
        requires
            self.wf(),
        ensures
            self.fill_solid(area, color).fill_solid(area, color) == self.fill_solid(area, color),
    {
        let once = self.fill_solid(area, color);
        let ink = Self::solid_ink(self.clip(area), color);
        self.lemma_clip(area);
        self.lemma_painted_over(ink, ink, ink);
        assert(once.fill_solid(area, color).bytes == once.bytes);
    }

    /// A rectangle that lies off the display beyond one of its edges changes
    /// neither the bytes nor what is recorded as drawn.
    pub proof fn lemma_fill_solid_off_display(self, area: Rectangle, color: BinaryColor)
        requires
            self.wf(),
            area.top_left.x + area.size.width <= 0 || area.top_left.x >= self.width
                || area.top_left.y + area.size.height <= 0 || area.top_left.y >= self.height,
        ensures
            self.fill_solid(area, color) == self,
    {
        self.lemma_clip(area);
        let clip = self.clip(area);
        if !clip.is_zero_sized() {
            assert(clip.covers(clip.top_left.x as int, clip.top_left.y as int));
        }
        self.lemma_painted_nothing(Self::solid_ink(clip, color));
    }

    /// Filling the rectangle of the whole display gives every byte the solid
    /// byte of the colour, as clearing does, and records the whole display.
    pub proof fn lemma_fill_solid_whole_display(self, color: BinaryColor)
        requires
            self.wf(),
        ensures
            self.fill_solid(self.bounds(), color).bytes == self.clear(color).bytes,
            forall|index: int|
                0 <= index < self.bytes.len() ==> #[trigger] self.fill_solid(
                    self.bounds(),
                    color,
                ).bytes[index] == color.solid_byte(),
            self.fill_solid(self.bounds(), color).dirty == self.dirty.with_rect(self.bounds()),
    {
        self.lemma_clip(self.bounds());
        let clip = self.clip(self.bounds());
        let ink = Self::solid_ink(clip, color);
        assert forall|index: int| 0 <= index < self.bytes.len() implies self.painted_byte(
            ink,
            index,
        ) == color.solid_byte() by {
            self.lemma_cell_of_index(index);
            let x = index % (self.width as int);
            let q = index / (self.width as int);
            assert forall|bit: u8| bit < 8 implies #[trigger] self.painted_bit(ink, index, bit)
                == color.is_on() by {
                assert(self.in_bounds(x, q * 8 + bit));
                assert(clip.covers(x, q * 8 + bit));
            }
            assert(self.painted_bit(ink, index, 0) == color.is_on());
            assert(self.painted_bit(ink, index, 1) == color.is_on());
            assert(self.painted_bit(ink, index, 2) == color.is_on());
            assert(self.painted_bit(ink, index, 3) == color.is_on());
            assert(self.painted_bit(ink, index, 4) == color.is_on());
            assert(self.painted_bit(ink, index, 5) == color.is_on());
            assert(self.painted_bit(ink, index, 6) == color.is_on());
            assert(self.painted_bit(ink, index, 7) == color.is_on());
            lemma_pack_solid(color.is_on());
        }
        assert(self.fill_solid(self.bounds(), color).bytes =~= self.clear(color).bytes);
    }
}

/// Whether one of the pixels lies in column `x` and row `y`.
pub open spec fn marks(pixels: Seq<Pixel>, x: int, y: int) -> bool {
    exists|i: int| 0 <= i < pixels.len() && (#[trigger] pixels[i]).0.x == x && pixels[i].0.y == y
}

impl Frame {
    /// Whether the point of a pixel lies on the display.
    pub open spec fn shows(self, pixel: Pixel) -> bool {
        self.in_bounds(pixel.0.x as int, pixel.0.y as int)
    }

    /// Whether `grown` is what the tracker of this frame becomes by recording
    /// those of the pixels that lie on the display: it is touched if the
    /// tracker was or any was recorded, and each of its corners is either the
    /// old one or reached by a recorded point, with no recorded point beyond.
    pub open spec fn grows_to(self, pixels: Seq<Pixel>, grown: Extent) -> bool {
        let from = self.dirty;
        &&& grown.touched <==> (from.touched || exists|i: int|
            0 <= i < pixels.len() && self.shows(#[trigger] pixels[i]))
        &&& forall|i: int|
            0 <= i < pixels.len() && self.shows(#[trigger] pixels[i]) ==> grown.min.x
                <= pixels[i].0.x <= grown.max.x && grown.min.y <= pixels[i].0.y <= grown.max.y
        &&& grown.min.x <= from.min.x && grown.min.y <= from.min.y
        &&& grown.max.x >= from.max.x && grown.max.y >= from.max.y
        &&& grown.min.x == from.min.x || exists|i: int|
            0 <= i < pixels.len() && self.shows(#[trigger] pixels[i]) && pixels[i].0.x
                == grown.min.x
        &&& grown.min.y == from.min.y || exists|i: int|
            0 <= i < pixels.len() && self.shows(#[trigger] pixels[i]) && pixels[i].0.y
                == grown.min.y
        &&& grown.max.x == from.max.x || exists|i: int|
            0 <= i < pixels.len() && self.shows(#[trigger] pixels[i]) && pixels[i].0.x
                == grown.max.x
        &&& grown.max.y == from.max.y || exists|i: int|
            0 <= i < pixels.len() && self.shows(#[trigger] pixels[i]) && pixels[i].0.y
                == grown.max.y
    }

    /// Drawing pixels keeps the geometry and the well-formedness of a frame,
    /// and grows its tracker by the pixels that lie on the display.
    pub proof fn lemma_draw_tracks(self, pixels: Seq<Pixel>)
        requires
            self.wf(),
        ensures
            self.draw(pixels).wf(),
            self.draw(pixels).width == self.width,
            self.draw(pixels).height == self.height,
            self.grows_to(pixels, self.draw(pixels).dirty),
        decreases pixels.len(),
    {
        if pixels.len() > 0 {
            let front = pixels.drop_last();
            let last = pixels.last();
            let n = front.len() as int;
            self.lemma_draw_tracks(front);
            let before = self.draw(front);
            let grown = before.dirty;
            let after = self.draw(pixels).dirty;
            before.lemma_operations_keep_wf(last.0, Rectangle::spec_zero(), last.1, Seq::empty());
            assert forall|i: int| 0 <= i < n implies pixels[i] == front[i] by {}
            assert(pixels[n] == last);
            // Whatever reached a corner before still does, at the same place.
            if exists|i: int| 0 <= i < front.len() && self.shows(#[trigger] front[i]) {
                let i = choose|i: int| 0 <= i < front.len() && self.shows(#[trigger] front[i]);
                assert(pixels[i] == front[i]);
            }
            if grown.min.x != self.dirty.min.x {
                let i = choose|i: int|
                    0 <= i < front.len() && self.shows(#[trigger] front[i]) && front[i].0.x
                        == grown.min.x;
                assert(pixels[i] == front[i]);
            }
            if grown.min.y != self.dirty.min.y {
                let i = choose|i: int|
                    0 <= i < front.len() && self.shows(#[trigger] front[i]) && front[i].0.y
                        == grown.min.y;
                assert(pixels[i] == front[i]);
            }
            if grown.max.x != self.dirty.max.x {
                let i = choose|i: int|
                    0 <= i < front.len() && self.shows(#[trigger] front[i]) && front[i].0.x
                        == grown.max.x;
                assert(pixels[i] == front[i]);
            }
            if grown.max.y != self.dirty.max.y {
                let i = choose|i: int|
                    0 <= i < front.len() && self.shows(#[trigger] front[i]) && front[i].0.y
                        == grown.max.y;
                assert(pixels[i] == front[i]);
            }
            assert(after == (if self.shows(last) {
                grown.with_point(last.0)
            } else {
                grown
            }));
        }
    }
}

impl Frame {
    /// Pixels that mark every position of a rectangle on the display, and no
    /// position of the display outside it, grow the tracker as recording the
    /// part of the rectangle on the display does.
    pub proof fn lemma_draw_records_clip(self, area: Rectangle, pixels: Seq<Pixel>)
        requires
            self.wf(),
            forall|i: int|
                0 <= i < pixels.len() && self.shows(#[trigger] pixels[i]) ==> area.covers(
                    pixels[i].0.x as int,
                    pixels[i].0.y as int,
                ),
            forall|x: int, y: int|
                area.covers(x, y) && self.in_bounds(x, y) ==> #[trigger] marks(pixels, x, y),
        ensures
            self.draw(pixels).dirty == self.dirty.with_rect(self.clip(area)),
    {
        self.lemma_draw_tracks(pixels);
        self.lemma_clip(area);
        let clip = self.clip(area);
        let grown = self.draw(pixels).dirty;
        assert forall|i: int| 0 <= i < pixels.len() && self.shows(#[trigger] pixels[i]) implies
            clip.covers(pixels[i].0.x as int, pixels[i].0.y as int) by {}
        if !clip.is_zero_sized() {
            let left = clip.top_left.x as int;
            let top = clip.top_left.y as int;
            let right = clip.top_left.x + clip.size.width - 1;
            let bottom = clip.top_left.y + clip.size.height - 1;
            assert(clip.covers(left, top) && clip.covers(right, bottom));
            assert(marks(pixels, left, top));
            assert(marks(pixels, right, bottom));
            let first = choose|i: int|
                0 <= i < pixels.len() && (#[trigger] pixels[i]).0.x == left && pixels[i].0.y == top;
            let second = choose|i: int|
                0 <= i < pixels.len() && (#[trigger] pixels[i]).0.x == right && pixels[i].0.y
                    == bottom;
            assert(self.shows(pixels[first]) && self.shows(pixels[second]));
        }
    }

    /// The ink of pixels of one colour: that colour wherever one of them lies.
    pub open spec fn marks_ink(pixels: Seq<Pixel>, color: BinaryColor) -> Ink {
        |x: int, y: int|
            if marks(pixels, x, y) {
                Some(color.is_on())
            } else {
                None
            }
    }

    /// Drawing pixels of one colour paints that colour wherever one of them
    /// lies.
    pub proof fn lemma_draw_paints_marks(self, pixels: Seq<Pixel>, color: BinaryColor)
        requires
            self.wf(),
            forall|i: int| 0 <= i < pixels.len() ==> (#[trigger] pixels[i]).1 == color,
        ensures
            self.draw(pixels).bytes == self.painted(Self::marks_ink(pixels, color)),
        decreases pixels.len(),
    {
        let ink = Self::marks_ink(pixels, color);
        if pixels.len() == 0 {
            self.lemma_painted_nothing(ink);
        } else {
            let front = pixels.drop_last();
            let last = pixels.last();
            let n = front.len() as int;
            let x = last.0.x as int;
            let y = last.0.y as int;
            self.lemma_draw_paints_marks(front, color);
            self.lemma_draw_tracks(front);
            let before = Self::marks_ink(front, color);
            assert(pixels[n] == last);
            assert(marks(pixels, x, y));
            assert forall|px: int, py: int| #[trigger]
                marks(pixels, px, py) <==> (marks(front, px, py) || (px == x && py == y)) by {
                if marks(front, px, py) {
                    let i = choose|i: int|
                        0 <= i < front.len() && (#[trigger] front[i]).0.x == px && front[i].0.y
                            == py;
                    assert(pixels[i] == front[i]);
                }
                if marks(pixels, px, py) && !(px == x && py == y) {
                    let i = choose|i: int|
                        0 <= i < pixels.len() && (#[trigger] pixels[i]).0.x == px && pixels[i].0.y
                            == py;
                    assert(front[i] == pixels[i]);
                }
            }
            assert forall|px: int, py: int| self.in_bounds(px, py) implies #[trigger] ink(px, py)
                == (if px == x && py == y {
                Some(color.is_on())
            } else {
                before(px, py)
            }) by {
                assert(marks(pixels, px, py) <==> (marks(front, px, py) || (px == x && py == y)));
            }
            if self.in_bounds(x, y) {
                self.lemma_paint_pixel(before, ink, self.draw(pixels).bytes, x, y, color);
            } else {
                self.lemma_painted_same(before, ink);
            }
        }
    }

    /// Equivalence of a solid fill and single pixels: filling a rectangle gives
    /// the frame that setting each of its pixels on the display gives, one by
    /// one and in any order, whether or not positions off the display or
    /// repeated positions are among them.
    pub proof fn lemma_fill_solid_is_draw(
        self,
        area: Rectangle,
        color: BinaryColor,
        pixels: Seq<Pixel>,
    )
        requires
            self.wf(),
            forall|i: int| 0 <= i < pixels.len() ==> (#[trigger] pixels[i]).1 == color,
            forall|i: int|
                0 <= i < pixels.len() && self.shows(#[trigger] pixels[i]) ==> area.covers(
                    pixels[i].0.x as int,
                    pixels[i].0.y as int,
                ),
            forall|x: int, y: int|
                area.covers(x, y) && self.in_bounds(x, y) ==> #[trigger] marks(pixels, x, y),
        ensures
            self.draw(pixels) == self.fill_solid(area, color),
    {
        self.lemma_draw_tracks(pixels);
        self.lemma_draw_records_clip(area, pixels);
        self.lemma_draw_paints_marks(pixels, color);
        self.lemma_clip(area);
        let clip = self.clip(area);
        assert forall|x: int, y: int| self.in_bounds(x, y) implies Self::marks_ink(pixels, color)(
            x,
            y,
        ) == Self::solid_ink(clip, color)(x, y) by {
            if marks(pixels, x, y) {
                let i = choose|i: int|
                    0 <= i < pixels.len() && (#[trigger] pixels[i]).0.x == x && pixels[i].0.y == y;
                assert(self.shows(pixels[i]));
            }
            assert(clip.covers(x, y) <==> area.covers(x, y) && self.in_bounds(x, y));
        }
        self.lemma_painted_same(Self::marks_ink(pixels, color), Self::solid_ink(clip, color));
    }
}

impl Frame {
    /// The position that the colour at place `place` of a stream over `area`
    /// belongs to.
    pub open spec fn stream_point(area: Rectangle, place: int) -> Point {
        Point {
            x: (area.top_left.x + place % (area.size.width as int)) as i32,
            y: (area.top_left.y + place / (area.size.width as int)) as i32,
        }
    }

    /// The first `count` colours of a stream over `area`, each with its
    /// position.
    pub open spec fn stream_pixels(area: Rectangle, colors: Seq<BinaryColor>, count: nat) -> Seq<
        Pixel,
    > {
        Seq::new(count, |place: int| Pixel(Self::stream_point(area, place), colors[place]))
    }

    /// A place of a stream that enumerates a rectangle belongs to a position
    /// inside that rectangle, and leads back to the place.
    pub proof fn lemma_stream_point(area: Rectangle, place: int)
        requires
            area.corner_in_range(),
            0 <= place < area.size.width * area.size.height,
        ensures
            area.size.width > 0,
            0 <= place / (area.size.width as int) < area.size.height,
            0 <= place % (area.size.width as int) < area.size.width,
            Self::stream_point(area, place).x == area.top_left.x + place % (area.size.width as int),
            Self::stream_point(area, place).y == area.top_left.y + place / (area.size.width as int),
            area.covers(
                Self::stream_point(area, place).x as int,
                Self::stream_point(area, place).y as int,
            ),
            Self::stream_index(
                area,
                Self::stream_point(area, place).x as int,
                Self::stream_point(area, place).y as int,
            ) == place,
    {
        let w = area.size.width as int;
        let h = area.size.height as int;
        assert(w > 0 && h > 0) by (nonlinear_arith)
            requires
                0 <= place < w * h,
                0 <= w,
                0 <= h,
        ;
        vstd::arithmetic::div_mod::lemma_fundamental_div_mod(place, w);
        let row = place / w;
        assert(0 <= row < h) by (nonlinear_arith)
            requires
                place == w * row + place % w,
                0 <= place % w < w,
                0 <= place < w * h,
                0 < w,
        ;
        assert(w * row == row * w) by (nonlinear_arith);
    }

    /// Drawing the first colours of a stream one by one paints the stream as
    /// far as they go.
    pub proof fn lemma_draw_paints_stream(
        self,
        area: Rectangle,
        colors: Seq<BinaryColor>,
        count: nat,
    )
        requires
            self.wf(),
            area.corner_in_range(),
            colors.len() == area.size.width * area.size.height,
            count <= colors.len(),
        ensures
            self.draw(Self::stream_pixels(area, colors, count)).bytes == self.painted(
                Self::stream_ink_upto(area, colors, count as int),
            ),
        decreases count,
    {
        if count == 0 {
            self.lemma_stream_limits(area, colors, 0);
            assert(0 * area.size.width == 0);
            assert(Self::stream_pixels(area, colors, 0).len() == 0);
        } else {
            let place = (count - 1) as int;
            let pixels = Self::stream_pixels(area, colors, count);
            let front = Self::stream_pixels(area, colors, place as nat);
            assert(pixels.drop_last() =~= front);
            assert(pixels.last() == Pixel(Self::stream_point(area, place), colors[place]));
            self.lemma_draw_paints_stream(area, colors, place as nat);
            self.lemma_draw_tracks(front);
            Self::lemma_stream_point(area, place);
            self.lemma_stream_step(area, colors, self.draw(pixels).bytes, place);
        }
    }

    /// Equivalence of a streamed fill and single pixels: filling a rectangle
    /// from a stream that enumerates it row by row gives the frame that
    /// setting the pixel of each colour gives, one by one in the order of the
    /// stream; pixels off the display are ignored either way.
    pub proof fn lemma_fill_contiguous_is_draw(self, area: Rectangle, colors: Seq<BinaryColor>)
        requires
            self.wf(),
            area.corner_in_range(),
            colors.len() == area.size.width * area.size.height,
        ensures
            self.draw(Self::stream_pixels(area, colors, colors.len())) == self.fill_contiguous(
                area,
                colors,
            ),
    {
        let pixels = Self::stream_pixels(area, colors, colors.len());
        let w = area.size.width as int;
        self.lemma_draw_tracks(pixels);
        self.lemma_draw_paints_stream(area, colors, colors.len());
        self.lemma_stream_limits(area, colors, 0);
        self.lemma_clip(area);
        let clip = self.clip(area);
        assert forall|i: int| 0 <= i < pixels.len() && self.shows(#[trigger] pixels[i]) implies
            area.covers(pixels[i].0.x as int, pixels[i].0.y as int) by {
            Self::lemma_stream_point(area, i);
        }
        assert forall|x: int, y: int| area.covers(x, y) && self.in_bounds(x, y) implies #[trigger]
            marks(pixels, x, y) by {
            let place = Self::stream_index(area, x, y);
            Self::lemma_stream_place(area, x, y);
            lemma_rows_apart(w, y - area.top_left.y, area.size.height as int);
            lemma_rows_apart(w, -1, y - area.top_left.y);
            assert(area.size.height * w == area.size.width * area.size.height)
                by (nonlinear_arith)
                requires
                    w == area.size.width,
            ;
            assert(0 <= place < pixels.len());
            Self::lemma_stream_point(area, place);
            assert(pixels[place].0.x == x && pixels[place].0.y == y);
        }
        self.lemma_draw_records_clip(area, pixels);
        if clip.is_zero_sized() {
            assert forall|x: int, y: int| self.in_bounds(x, y) implies Self::stream_ink(
                area,
                colors,
            )(x, y) is None by {
                assert(clip.covers(x, y) <==> area.covers(x, y) && self.in_bounds(x, y));
            }
            self.lemma_painted_nothing(Self::stream_ink(area, colors));
        }
    }
}

/// One call that changes a buffer.
pub enum Operation {
    /// Writing one pixel.
    SetPixel(Point, BinaryColor),
    /// Filling a rectangle with one colour.
    FillSolid(Rectangle, BinaryColor),
    /// Filling a rectangle from a stream of colours.
    FillContiguous(Rectangle, Seq<BinaryColor>),
    /// Drawing pixels one after the other.
    DrawIter(Seq<Pixel>),
    /// Giving every pixel one colour.
    Clear(BinaryColor),
    /// Resetting the tracker of the drawn area.
    ClearActiveArea,
}

impl Frame {
    /// The frame after one operation.
    pub open spec fn apply(self, operation: Operation) -> Frame {
        match operation {
            Operation::SetPixel(point, color) => self.set_pixel(point, color),
            Operation::FillSolid(area, color) => self.fill_solid(area, color),
            Operation::FillContiguous(area, colors) => self.fill_contiguous(area, colors),
            Operation::DrawIter(pixels) => self.draw(pixels),
            Operation::Clear(color) => self.clear(color),
            Operation::ClearActiveArea => self.clear_active_area(),
        }
    }

    /// The frame after the operations, one after the other.
    pub open spec fn run(self, operations: Seq<Operation>) -> Frame
        decreases operations.len(),
    {
        if operations.len() == 0 {
            self
        } else {
            self.run(operations.drop_last()).apply(operations.last())
        }
    }

    /// The points that a rectangle passes to the tracker, added to `points`:
    /// the two corners of its part on the display, if it has one.
    pub open spec fn with_corners_of(self, points: Seq<Point>, area: Rectangle) -> Seq<Point> {
        match self.clip(area).spec_bottom_right() {
            Some(corner) => points.push(self.clip(area).top_left).push(corner),
            None => points,
        }
    }

    /// The points that pixels pass to the tracker, added to `points`: the
    /// points of those on the display, in their order.
    pub open spec fn with_points_of(self, points: Seq<Point>, pixels: Seq<Pixel>) -> Seq<Point>
        decreases pixels.len(),
    {
        if pixels.len() == 0 {
            points
        } else if self.shows(pixels.last()) {
            self.with_points_of(points, pixels.drop_last()).push(pixels.last().0)
        } else {
            self.with_points_of(points, pixels.drop_last())
        }
    }

    /// The points that the operations have passed to the tracker since its
    /// last reset: each pixel written on the display, and the corners of the
    /// part on the display of each rectangle filled.
    pub open spec fn history(self, operations: Seq<Operation>) -> Seq<Point>
        decreases operations.len(),
    {
        if operations.len() == 0 {
            Seq::empty()
        } else {
            let earlier = self.history(operations.drop_last());
            match operations.last() {
                Operation::SetPixel(point, _) => if self.in_bounds(point.x as int, point.y as int) {
                    earlier.push(point)
                } else {
                    earlier
                },
                Operation::FillSolid(area, _) => self.with_corners_of(earlier, area),
                Operation::FillContiguous(area, _) => self.with_corners_of(earlier, area),
                Operation::DrawIter(pixels) => self.with_points_of(earlier, pixels),
                Operation::Clear(_) => earlier,
                Operation::ClearActiveArea => Seq::empty(),
            }
        }
    }

    /// The tracker of a new buffer after any operations is the one that has
    /// recorded the points passed to it since its last reset, all of which lie
    /// on the display.
    pub proof fn lemma_run_tracks_history(width: u32, height: u32, operations: Seq<Operation>)
        requires
            Frame::blank(width, height).wf(),
        ensures
            Frame::blank(width, height).run(operations).wf(),
            Frame::blank(width, height).run(operations).width == width,
            Frame::blank(width, height).run(operations).height == height,
            all_on_display(Frame::blank(width, height).history(operations), width, height),
            Frame::blank(width, height).run(operations).dirty == Extent::initial(
                width,
                height,
            ).with_points(Frame::blank(width, height).history(operations)),
        decreases operations.len(),
    {
        let blank = Frame::blank(width, height);
        if operations.len() > 0 {
            let front = operations.drop_last();
            let last = operations.last();
            Self::lemma_run_tracks_history(width, height, front);
            let before = blank.run(front);
            let earlier = blank.history(front);
            let start = Extent::initial(width, height);
            match last {
                Operation::SetPixel(point, color) => {
                    before.lemma_operations_keep_wf(
                        point,
                        Rectangle::spec_zero(),
                        color,
                        Seq::empty(),
                    );
                    if blank.in_bounds(point.x as int, point.y as int) {
                        assert(earlier.push(point).drop_last() =~= earlier);
                    }
                },
                Operation::FillSolid(area, color) => {
                    before.lemma_operations_keep_wf(Point::spec_zero(), area, color, Seq::empty());
                    blank.lemma_recorded_corners(start, earlier, area);
                    assert(before.clip(area) == blank.clip(area));
                },
                Operation::FillContiguous(area, colors) => {
                    before.lemma_operations_keep_wf(
                        Point::spec_zero(),
                        area,
                        BinaryColor::Off,
                        colors,
                    );
                    blank.lemma_recorded_corners(start, earlier, area);
                    assert(before.clip(area) == blank.clip(area));
                },
                Operation::DrawIter(pixels) => {
                    before.lemma_recorded_pixels(blank, start, earlier, pixels);
                },
                Operation::Clear(color) => {},
                Operation::ClearActiveArea => {},
            }
        }
    }

    /// Recording a rectangle is recording the corners that it passes to the
    /// tracker, and those lie on the display.
    pub proof fn lemma_recorded_corners(self, start: Extent, points: Seq<Point>, area: Rectangle)
        requires
            self.wf(),
            all_on_display(points, self.width, self.height),
        ensures
            all_on_display(self.with_corners_of(points, area), self.width, self.height),
            start.with_points(self.with_corners_of(points, area)) == start.with_points(
                points,
            ).with_rect(self.clip(area)),
    {
        self.lemma_clip(area);
        let clip = self.clip(area);
        match clip.spec_bottom_right() {
            Some(corner) => {
                let one = points.push(clip.top_left);
                let two = one.push(corner);
                assert(one.drop_last() =~= points);
                assert(two.drop_last() =~= one);
                assert(one.last() == clip.top_left && two.last() == corner);
                assert(start.with_points(one) == start.with_points(points).with_point(
                    clip.top_left,
                ));
                assert(start.with_points(two) == start.with_points(one).with_point(corner));
                assert(clip.covers(clip.top_left.x as int, clip.top_left.y as int));
                assert(clip.covers(corner.x as int, corner.y as int));
                assert forall|i: int| 0 <= i < two.len() implies 0 <= (#[trigger] two[i]).x
                    < self.width && 0 <= two[i].y < self.height by {
                    if i < points.len() {
                        assert(two[i] == points[i]);
                    }
                }
            },
            None => {},
        }
    }

    /// Drawing pixels is recording the points that they pass to the tracker,
    /// and those lie on the display.
    pub proof fn lemma_recorded_pixels(
        self,
        display: Frame,
        start: Extent,
        points: Seq<Point>,
        pixels: Seq<Pixel>,
    )
        requires
            self.wf(),
            display.width == self.width,
            display.height == self.height,
            self.dirty == start.with_points(points),
            all_on_display(points, self.width, self.height),
        ensures
            self.draw(pixels).wf(),
            self.draw(pixels).width == self.width,
            self.draw(pixels).height == self.height,
            all_on_display(display.with_points_of(points, pixels), self.width, self.height),
            self.draw(pixels).dirty == start.with_points(display.with_points_of(points, pixels)),
        decreases pixels.len(),
    {
        self.lemma_draw_tracks(pixels);
        if pixels.len() > 0 {
            let front = pixels.drop_last();
            let last = pixels.last();
            self.lemma_recorded_pixels(display, start, points, front);
            let earlier = display.with_points_of(points, front);
            if display.shows(last) {
                let more = earlier.push(last.0);
                assert(more.drop_last() =~= earlier);
                assert(more.last() == last.0);
                assert forall|i: int| 0 <= i < more.len() implies 0 <= (#[trigger] more[i]).x
                    < self.width && 0 <= more[i].y < self.height by {
                    if i < earlier.len() {
                        assert(more[i] == earlier[i]);
                    }
                }
            }
        }
    }

    /// Active-area soundness: after any operations on a new buffer, the
    /// reported rectangle is the exact bounding box of the points passed to
    /// the tracker since its last reset, and it is empty if there were none.
    pub proof fn lemma_active_area_sound(width: u32, height: u32, operations: Seq<Operation>)
        requires
            Frame::blank(width, height).wf(),
        ensures
            Frame::blank(width, height).history(operations).len() == 0 ==> Frame::blank(
                width,
                height,
            ).run(operations).active_area() == Rectangle::spec_zero(),
            Frame::blank(width, height).history(operations).len() > 0 ==> is_bounding_box(
                Frame::blank(width, height).run(operations).active_area(),
                Frame::blank(width, height).history(operations),
            ),
    {
        Self::lemma_run_tracks_history(width, height, operations);
        Extent::lemma_reports_bounding_box(
            width,
            height,
            Frame::blank(width, height).history(operations),
        );
    }
}

impl Frame {
    /// Active-blocks coverage: there is one block for each page that the
    /// reported rectangle reaches into and none if it is empty; each block is as
    /// long as the rectangle is wide and holds, column by column, the bytes of
    /// the rectangle in its page. The blocks depend on nothing but the bytes,
    /// the width and the tracker, so that walking them again without a change
    /// in between gives the same bytes.
    pub proof fn lemma_active_blocks_cover(self)
        requires
            self.wf(),
        ensures
            self.active_area().is_zero_sized() ==> self.active_blocks().len() == 0,
            !self.active_area().is_zero_sized() ==> self.active_blocks().len() == (
            self.active_area().top_left.y + self.active_area().size.height - 1) / 8
                - self.active_area().top_left.y / 8 + 1,
            forall|k: int|
                0 <= k < self.active_blocks().len() ==> (#[trigger] self.active_blocks()[k]).len()
                    == self.active_area().size.width,
            forall|k: int, column: int|
                0 <= k < self.active_blocks().len() && 0 <= column < self.active_area().size.width
                    ==> #[trigger] self.active_blocks()[k][column] == self.bytes[self.byte_index(
                    self.active_area().top_left.x + column,
                    (self.active_area().top_left.y / 8 + k) * 8,
                )],
            forall|other: Frame|
                other.bytes == self.bytes && other.width == self.width && other.dirty == self.dirty
                    ==> #[trigger] other.active_blocks() == self.active_blocks(),
    {
        let area = self.active_area();
        let w = self.width as int;
        let pages = self.height as int / 8;
        if !area.is_zero_sized() {
            let first = area.top_left.y as int / 8;
            let last = (area.top_left.y + area.size.height - 1) / 8;
            assert(self.width * (self.height / 8) == pages * w) by (nonlinear_arith)
                requires
                    pages == self.height as int / 8,
                    w == self.width as int,
            ;
            assert forall|k: int| 0 <= k < self.active_blocks().len() implies (
            #[trigger] self.active_blocks()[k]).len() == area.size.width && (forall|column: int|
                0 <= column < area.size.width ==> #[trigger] self.active_blocks()[k][column]
                    == self.bytes[self.byte_index(area.top_left.x + column, (first + k) * 8)]) by {
                lemma_rows_apart(w, first + k, pages);
                lemma_rows_apart(w, -1, first + k);
                assert(((first + k) * 8) / 8 == first + k);
            }
        }
    }
}

} // verus!
