//! The mathematical picture of a packed buffer.
//!
//! A frame is what a buffer holds at one moment: its bytes and what its tracker
//! has recorded. Each operation of the buffer is described here as a function
//! from frame to frame, so that the buffer's contracts and the laws that relate
//! the operations speak about the same thing.

use vstd::prelude::*;
use vstd::arithmetic::div_mod::lemma_fundamental_div_mod_converse;
use crate::active_area::Extent;
use crate::bits::{
    bit_is_set, lemma_bits_of_pack, lemma_merged, lemma_pack_of_bits, lemma_solid_bytes,
    lemma_with_bit, merged, pack_bits, with_bit,
};
use crate::color::{BinaryColor, Pixel};
use crate::geometry::{Point, Rectangle, Size};

verus! {

/// What is drawn over a frame: for each position either a new pixel state or
/// nothing, which leaves the pixel as it is.
pub type Ink = spec_fn(int, int) -> Option<bool>;

/// Contents of a buffer together with the geometry that gives them meaning.
pub struct Frame {
    /// Number of columns.
    pub width: u32,
    /// Number of rows.
    pub height: u32,
    /// One byte per column and page, page after page.
    pub bytes: Seq<u8>,
    /// What the tracker of the drawn area has recorded.
    pub dirty: Extent,
}

/// The bytes of an earlier page all lie before those of a later one.
pub proof fn lemma_rows_apart(width: int, earlier: int, later: int)
    by (nonlinear_arith)
    requires
        0 <= width,
    ensures
        earlier < later ==> earlier * width + width <= later * width,
        earlier == later ==> earlier * width == later * width,
{
}

/// The byte at `page * width + x` is the one in column `x` of page `page`.
pub proof fn lemma_cell(width: int, page: int, x: int)
    requires
        0 <= x < width,
    ensures
        (page * width + x) / width == page,
        (page * width + x) % width == x,
{
    lemma_fundamental_div_mod_converse(page * width + x, width, page, x);
}

impl Frame {
    /// Whether the geometry is one that a buffer can have and the contents fit
    /// it: a positive width and height within the coordinate range, whole
    /// pages, one byte for each column of each page, and a tracker that has
    /// only seen points of the display.
    pub open spec fn wf(self) -> bool {
        &&& 0 < self.width <= i32::MAX
        &&& 0 < self.height <= i32::MAX
        &&& self.height % 8 == 0
        &&& self.bytes.len() == self.width * (self.height / 8)
        &&& self.dirty.within(self.width, self.height)
    }

    /// The rectangle of all positions on the display.
    pub open spec fn bounds(self) -> Rectangle {
        Rectangle {
            top_left: Point { x: 0, y: 0 },
            size: Size { width: self.width, height: self.height },
        }
    }

    /// Whether column `x` and row `y` name a pixel of the display.
    pub open spec fn in_bounds(self, x: int, y: int) -> bool {
        0 <= x < self.width && 0 <= y < self.height
    }

    /// Index of the byte that holds the pixel in column `x` and row `y`.
    pub open spec fn byte_index(self, x: int, y: int) -> int {
        (y / 8) * self.width + x
    }

    /// Whether the pixel in column `x` and row `y` is on.
    pub open spec fn pixel(self, x: int, y: int) -> bool {
        bit_is_set(self.bytes[self.byte_index(x, y)], (y % 8) as u8)
    }

    /// Bit `bit` of byte `index` after `ink` is drawn over the frame.
    pub open spec fn painted_bit(self, ink: Ink, index: int, bit: u8) -> bool {
        match ink(index % (self.width as int), (index / (self.width as int)) * 8 + bit) {
            Some(on) => on,
            None => bit_is_set(self.bytes[index], bit),
        }
    }

    /// Byte `index` after `ink` is drawn over the frame.
    pub open spec fn painted_byte(self, ink: Ink, index: int) -> u8 {
        pack_bits(
            self.painted_bit(ink, index, 0),
            self.painted_bit(ink, index, 1),
            self.painted_bit(ink, index, 2),
            self.painted_bit(ink, index, 3),
            self.painted_bit(ink, index, 4),
            self.painted_bit(ink, index, 5),
            self.painted_bit(ink, index, 6),
            self.painted_bit(ink, index, 7),
        )
    }

    /// The bytes after `ink` is drawn over the frame: every pixel for which the
    /// ink has a state takes it, every other pixel stays.
    pub open spec fn painted(self, ink: Ink) -> Seq<u8> {
        Seq::new(self.bytes.len(), |index: int| self.painted_byte(ink, index))
    }

    /// The frame of a new buffer: all pixels off, nothing recorded.
    pub open spec fn blank(width: u32, height: u32) -> Frame {
        Frame {
            width,
            height,
            bytes: Seq::new((width * (height / 8)) as nat, |index: int| 0u8),
            dirty: Extent::initial(width, height),
        }
    }

    /// The frame after one pixel is written. A position off the display is
    /// ignored. Otherwise one bit of one byte takes the colour and the
    /// position is recorded.
    pub open spec fn set_pixel(self, point: Point, color: BinaryColor) -> Frame {
        if self.in_bounds(point.x as int, point.y as int) {
            let index = self.byte_index(point.x as int, point.y as int);
            Frame {
                bytes: self.bytes.update(
                    index,
                    with_bit(self.bytes[index], (point.y % 8) as u8, color.raw()),
                ),
                dirty: self.dirty.with_point(point),
                ..self
            }
        } else {
            self
        }
    }

    /// The frame after the pixels are written one after the other.
    pub open spec fn draw(self, pixels: Seq<Pixel>) -> Frame
        decreases pixels.len(),
    {
        if pixels.len() == 0 {
            self
        } else {
            self.draw(pixels.drop_last()).set_pixel(pixels.last().0, pixels.last().1)
        }
    }

    /// The part of a rectangle that lies on the display.
    pub open spec fn clip(self, area: Rectangle) -> Rectangle {
        area.spec_clamped().spec_intersection(self.bounds())
    }

    /// The ink of a solid fill: the colour on every position of the rectangle.
    pub open spec fn solid_ink(area: Rectangle, color: BinaryColor) -> Ink {
        |x: int, y: int|
            if area.covers(x, y) {
                Some(color.is_on())
            } else {
                None
            }
    }

    /// The ink of a solid fill that has come down to row `limit` and no
    /// further.
    pub open spec fn solid_ink_above(area: Rectangle, color: BinaryColor, limit: int) -> Ink {
        |x: int, y: int|
            if area.covers(x, y) && y < limit {
                Some(color.is_on())
            } else {
                None
            }
    }

    /// Whether a rectangle lies on the display as a whole.
    pub open spec fn holds(self, area: Rectangle) -> bool {
        &&& 0 <= area.top_left.x
        &&& 0 <= area.top_left.y
        &&& area.top_left.x + area.size.width <= self.width
        &&& area.top_left.y + area.size.height <= self.height
    }

    /// The frame after a rectangle is filled with one colour: every pixel in
    /// the part of the rectangle that lies on the display takes the colour,
    /// and that part is recorded.
    pub open spec fn fill_solid(self, area: Rectangle, color: BinaryColor) -> Frame {
        Frame {
            bytes: self.painted(Self::solid_ink(self.clip(area), color)),
            dirty: self.dirty.with_rect(self.clip(area)),
            ..self
        }
    }

    /// Place in a row-major stream over `area` of the position in column `x`
    /// and row `y`.
    pub open spec fn stream_index(area: Rectangle, x: int, y: int) -> int {
        (y - area.top_left.y) * area.size.width + (x - area.top_left.x)
    }

    /// The ink of a streamed fill: each position of the rectangle for which the
    /// stream is long enough takes the colour at its place in the stream.
    pub open spec fn stream_ink(area: Rectangle, colors: Seq<BinaryColor>) -> Ink {
        |x: int, y: int|
            if area.covers(x, y) && Self::stream_index(area, x, y) < colors.len() {
                Some(colors[Self::stream_index(area, x, y)].is_on())
            } else {
                None
            }
    }

    /// The ink of a streamed fill that has come to place `limit` of the stream
    /// and no further.
    pub open spec fn stream_ink_upto(area: Rectangle, colors: Seq<BinaryColor>, limit: int) -> Ink {
        |x: int, y: int|
            if area.covers(x, y) && Self::stream_index(area, x, y) < colors.len()
                && Self::stream_index(area, x, y) < limit {
                Some(colors[Self::stream_index(area, x, y)].is_on())
            } else {
                None
            }
    }

    /// The frame after a rectangle is filled from a stream of colours laid out
    /// row by row over the whole rectangle, on or off the display. The part of
    /// the rectangle on the display is recorded whatever the stream's length.
    pub open spec fn fill_contiguous(self, area: Rectangle, colors: Seq<BinaryColor>) -> Frame {
        if self.clip(area).is_zero_sized() {
            self
        } else {
            Frame {
                bytes: self.painted(Self::stream_ink(area, colors)),
                dirty: self.dirty.with_rect(self.clip(area)),
                ..self
            }
        }
    }

    /// The frame after every pixel is given one colour; the tracker is left
    /// alone.
    pub open spec fn clear(self, color: BinaryColor) -> Frame {
        Frame { bytes: Seq::new(self.bytes.len(), |index: int| color.solid_byte()), ..self }
    }

    /// The frame after the tracker is reset.
    pub open spec fn clear_active_area(self) -> Frame {
        Frame { dirty: Extent::initial(self.width, self.height), ..self }
    }

    /// The rectangle that the tracker reports.
    pub open spec fn active_area(self) -> Rectangle {
        self.dirty.rectangle()
    }

    /// The runs of bytes that cover the reported rectangle, one for each page
    /// that it reaches into, from the top down. Each run holds the columns of
    /// the rectangle and nothing else.
    pub open spec fn active_blocks(self) -> Seq<Seq<u8>> {
        let area = self.active_area();
        match area.spec_bottom_right() {
            None => Seq::empty(),
            Some(corner) => Seq::new(
                (corner.y / 8 - area.top_left.y / 8 + 1) as nat,
                |k: int|
                    self.bytes.subrange(
                        (area.top_left.y / 8 + k) * self.width + area.top_left.x,
                        (area.top_left.y / 8 + k) * self.width + area.top_left.x + area.size.width,
                    ),
            ),
        }
    }

    /// A pixel of a painted frame has the state that the ink gives it, or the
    /// one it had.
    pub proof fn lemma_painted_pixel(self, ink: Ink, x: int, y: int)
        requires
            self.wf(),
            self.in_bounds(x, y),
        ensures
            (Frame { bytes: self.painted(ink), ..self }).pixel(x, y) == (match ink(x, y) {
                Some(on) => on,
                None => self.pixel(x, y),
            }),
            0 <= self.byte_index(x, y) < self.bytes.len(),
    {
        let index = self.byte_index(x, y);
        let bit = (y % 8) as u8;
        self.lemma_index_in_range(x, y);
        lemma_cell(self.width as int, y / 8, x);
        let after = self.painted_byte(ink, index);
        lemma_bits_of_pack(
            self.painted_bit(ink, index, 0),
            self.painted_bit(ink, index, 1),
            self.painted_bit(ink, index, 2),
            self.painted_bit(ink, index, 3),
            self.painted_bit(ink, index, 4),
            self.painted_bit(ink, index, 5),
            self.painted_bit(ink, index, 6),
            self.painted_bit(ink, index, 7),
        );
        assert(bit_is_set(after, bit) == self.painted_bit(ink, index, bit));
    }

    /// Byte `index` of the buffer holds column `index % width` of page
    /// `index / width`, and that page is one of the display's.
    pub proof fn lemma_cell_of_index(self, index: int)
        requires
            self.wf(),
            0 <= index < self.bytes.len(),
        ensures
            0 <= index % (self.width as int) < self.width,
            0 <= index / (self.width as int) < self.height / 8,
            index == (index / (self.width as int)) * self.width + index % (self.width as int),
    {
        let w = self.width as int;
        let pages = self.height as int / 8;
        let q = index / w;
        vstd::arithmetic::div_mod::lemma_fundamental_div_mod(index, w);
        assert(w * q == q * w) by (nonlinear_arith);
        assert(self.width * (self.height / 8) == pages * w) by (nonlinear_arith)
            requires
                pages == self.height as int / 8,
                w == self.width as int,
        ;
        assert(0 <= q < pages) by (nonlinear_arith)
            requires
                0 < w,
                0 <= index < pages * w,
                index == q * w + index % w,
                0 <= index % w < w,
        ;
    }

    /// Ink that has nothing for any pixel of the display leaves the bytes as
    /// they are.
    pub proof fn lemma_painted_nothing(self, ink: Ink)
        requires
            self.wf(),
            forall|x: int, y: int| self.in_bounds(x, y) ==> ink(x, y) is None,
        ensures
            self.painted(ink) == self.bytes,
    {
        assert forall|index: int| 0 <= index < self.bytes.len() implies self.painted_byte(
            ink,
            index,
        ) == self.bytes[index] by {
            self.lemma_cell_of_index(index);
            let x = index % (self.width as int);
            let q = index / (self.width as int);
            assert forall|bit: u8| bit < 8 implies #[trigger] self.painted_bit(ink, index, bit)
                == bit_is_set(self.bytes[index], bit) by {
                assert(self.in_bounds(x, q * 8 + bit));
                assert(ink(x, q * 8 + bit) is None);
            }
            assert(self.painted_bit(ink, index, 0) == bit_is_set(self.bytes[index], 0));
            assert(self.painted_bit(ink, index, 1) == bit_is_set(self.bytes[index], 1));
            assert(self.painted_bit(ink, index, 2) == bit_is_set(self.bytes[index], 2));
            assert(self.painted_bit(ink, index, 3) == bit_is_set(self.bytes[index], 3));
            assert(self.painted_bit(ink, index, 4) == bit_is_set(self.bytes[index], 4));
            assert(self.painted_bit(ink, index, 5) == bit_is_set(self.bytes[index], 5));
            assert(self.painted_bit(ink, index, 6) == bit_is_set(self.bytes[index], 6));
            assert(self.painted_bit(ink, index, 7) == bit_is_set(self.bytes[index], 7));
            lemma_pack_of_bits(self.bytes[index]);
        }
        assert(self.painted(ink) =~= self.bytes);
    }

    /// Two inks that agree on every pixel of the display paint the same bytes.
    pub proof fn lemma_painted_same(self, first: Ink, second: Ink)
        requires
            self.wf(),
            forall|x: int, y: int| self.in_bounds(x, y) ==> first(x, y) == second(x, y),
        ensures
            self.painted(first) == self.painted(second),
    {
        assert forall|index: int| 0 <= index < self.bytes.len() implies self.painted_byte(
            first,
            index,
        ) == self.painted_byte(second, index) by {
            self.lemma_cell_of_index(index);
            let x = index % (self.width as int);
            let q = index / (self.width as int);
            assert forall|bit: u8| bit < 8 implies #[trigger] self.painted_bit(first, index, bit)
                == self.painted_bit(second, index, bit) by {
                assert(self.in_bounds(x, q * 8 + bit));
                assert(first(x, q * 8 + bit) == second(x, q * 8 + bit));
            }
            assert(self.painted_bit(first, index, 0) == self.painted_bit(second, index, 0));
            assert(self.painted_bit(first, index, 1) == self.painted_bit(second, index, 1));
            assert(self.painted_bit(first, index, 2) == self.painted_bit(second, index, 2));
            assert(self.painted_bit(first, index, 3) == self.painted_bit(second, index, 3));
            assert(self.painted_bit(first, index, 4) == self.painted_bit(second, index, 4));
            assert(self.painted_bit(first, index, 5) == self.painted_bit(second, index, 5));
            assert(self.painted_bit(first, index, 6) == self.painted_bit(second, index, 6));
            assert(self.painted_bit(first, index, 7) == self.painted_bit(second, index, 7));
        }
        assert(self.painted(first) =~= self.painted(second));
    }

    /// Merging a mask into a run of bytes of one page paints the rows that the
    /// mask selects in the columns of the run, over what was painted before.
    pub proof fn lemma_paint_page(
        self,
        before: Ink,
        after: Ink,
        bytes: Seq<u8>,
        page: int,
        first_column: int,
        columns: int,
        fill: u8,
        mask: u8,
    )
        requires
            self.wf(),
            0 <= page < self.height / 8,
            0 <= first_column,
            0 <= columns,
            first_column + columns <= self.width,
            bytes.len() == self.bytes.len(),
            forall|index: int|
                0 <= index < bytes.len() ==> #[trigger] bytes[index] == (if page * self.width
                    + first_column <= index < page * self.width + first_column + columns {
                    merged(self.painted(before)[index], fill, mask)
                } else {
                    self.painted(before)[index]
                }),
            forall|x: int, y: int|
                self.in_bounds(x, y) ==> #[trigger] after(x, y) == (if y / 8 == page && first_column
                    <= x < first_column + columns && bit_is_set(mask, (y % 8) as u8) {
                    Some(bit_is_set(fill, (y % 8) as u8))
                } else {
                    before(x, y)
                }),
        ensures
            bytes == self.painted(after),
    {
        let w = self.width as int;
        assert forall|index: int| 0 <= index < bytes.len() implies bytes[index]
            == self.painted_byte(after, index) by {
            self.lemma_cell_of_index(index);
            let q = index / w;
            let x = index % w;
            lemma_rows_apart(w, q, page);
            lemma_rows_apart(w, page, q);
            let in_run = page * w + first_column <= index < page * w + first_column + columns;
            assert(in_run <==> (q == page && first_column <= x < first_column + columns));
            let old_byte = self.painted_byte(before, index);
            assert(self.painted(before)[index] == old_byte);
            lemma_bits_of_pack(
                self.painted_bit(before, index, 0),
                self.painted_bit(before, index, 1),
                self.painted_bit(before, index, 2),
                self.painted_bit(before, index, 3),
                self.painted_bit(before, index, 4),
                self.painted_bit(before, index, 5),
                self.painted_bit(before, index, 6),
                self.painted_bit(before, index, 7),
            );
            assert forall|bit: u8| bit < 8 implies bit_is_set(bytes[index], bit)
                == #[trigger] self.painted_bit(after, index, bit) by {
                let y = q * 8 + bit;
                assert(self.in_bounds(x, y));
                assert(y / 8 == q && y % 8 == bit as int);
                lemma_merged(old_byte, fill, mask, bit);
                assert(bit_is_set(old_byte, bit) == self.painted_bit(before, index, bit));
            }
            lemma_pack_of_bits(bytes[index]);
            assert(bit_is_set(bytes[index], 0) == self.painted_bit(after, index, 0));
            assert(bit_is_set(bytes[index], 1) == self.painted_bit(after, index, 1));
            assert(bit_is_set(bytes[index], 2) == self.painted_bit(after, index, 2));
            assert(bit_is_set(bytes[index], 3) == self.painted_bit(after, index, 3));
            assert(bit_is_set(bytes[index], 4) == self.painted_bit(after, index, 4));
            assert(bit_is_set(bytes[index], 5) == self.painted_bit(after, index, 5));
            assert(bit_is_set(bytes[index], 6) == self.painted_bit(after, index, 6));
            assert(bit_is_set(bytes[index], 7) == self.painted_bit(after, index, 7));
        }
        assert(bytes =~= self.painted(after));
    }

    /// Writing one pixel over painted bytes paints that pixel, over what was
    /// painted before.
    pub proof fn lemma_paint_pixel(
        self,
        before: Ink,
        after: Ink,
        bytes: Seq<u8>,
        x: int,
        y: int,
        color: BinaryColor,
    )
        requires
            self.wf(),
            self.in_bounds(x, y),
            bytes == self.painted(before).update(
                self.byte_index(x, y),
                with_bit(self.painted(before)[self.byte_index(x, y)], (y % 8) as u8, color.raw()),
            ),
            forall|px: int, py: int|
                self.in_bounds(px, py) ==> #[trigger] after(px, py) == (if px == x && py == y {
                    Some(color.is_on())
                } else {
                    before(px, py)
                }),
        ensures
            bytes == self.painted(after),
    {
        let w = self.width as int;
        let target = self.byte_index(x, y);
        self.lemma_index_in_range(x, y);
        lemma_cell(w, y / 8, x);
        assert forall|index: int| 0 <= index < bytes.len() implies bytes[index]
            == self.painted_byte(after, index) by {
            self.lemma_cell_of_index(index);
            let q = index / w;
            let column = index % w;
            let old_byte = self.painted_byte(before, index);
            assert(self.painted(before)[index] == old_byte);
            lemma_bits_of_pack(
                self.painted_bit(before, index, 0),
                self.painted_bit(before, index, 1),
                self.painted_bit(before, index, 2),
                self.painted_bit(before, index, 3),
                self.painted_bit(before, index, 4),
                self.painted_bit(before, index, 5),
                self.painted_bit(before, index, 6),
                self.painted_bit(before, index, 7),
            );
            assert forall|bit: u8| bit < 8 implies bit_is_set(bytes[index], bit)
                == #[trigger] self.painted_bit(after, index, bit) by {
                let py = q * 8 + bit;
                assert(self.in_bounds(column, py));
                assert(py / 8 == q && py % 8 == bit as int);
                assert(bit_is_set(old_byte, bit) == self.painted_bit(before, index, bit));
                if index == target {
                    lemma_with_bit(old_byte, (y % 8) as u8, color.raw(), bit);
                }
            }
            lemma_pack_of_bits(bytes[index]);
            assert(bit_is_set(bytes[index], 0) == self.painted_bit(after, index, 0));
            assert(bit_is_set(bytes[index], 1) == self.painted_bit(after, index, 1));
            assert(bit_is_set(bytes[index], 2) == self.painted_bit(after, index, 2));
            assert(bit_is_set(bytes[index], 3) == self.painted_bit(after, index, 3));
            assert(bit_is_set(bytes[index], 4) == self.painted_bit(after, index, 4));
            assert(bit_is_set(bytes[index], 5) == self.painted_bit(after, index, 5));
            assert(bit_is_set(bytes[index], 6) == self.painted_bit(after, index, 6));
            assert(bit_is_set(bytes[index], 7) == self.painted_bit(after, index, 7));
        }
        assert(bytes =~= self.painted(after));
    }

    /// A position in the columns of a rectangle is found again from its place
    /// in the stream: the place divided by the width gives its row, the rest
    /// its column.
    pub proof fn lemma_stream_place(area: Rectangle, x: int, y: int)
        requires
            area.top_left.x <= x < area.top_left.x + area.size.width,
        ensures
            x == area.top_left.x + Self::stream_index(area, x, y) % (area.size.width as int),
            y == area.top_left.y + Self::stream_index(area, x, y) / (area.size.width as int),
    {
        lemma_fundamental_div_mod_converse(
            Self::stream_index(area, x, y),
            area.size.width as int,
            y - area.top_left.y,
            x - area.top_left.x,
        );
    }

    /// Writing the pixel of the next colour of a stream, or passing over it
    /// where it lies off the display, paints the stream one place further.
    pub proof fn lemma_stream_step(
        self,
        area: Rectangle,
        colors: Seq<BinaryColor>,
        bytes: Seq<u8>,
        place: int,
    )
        requires
            self.wf(),
            area.size.width > 0,
            0 <= place < colors.len(),
            place / (area.size.width as int) < area.size.height,
            ({
                let before = self.painted(Self::stream_ink_upto(area, colors, place));
                let x = area.top_left.x + place % (area.size.width as int);
                let y = area.top_left.y + place / (area.size.width as int);
                bytes == (if self.in_bounds(x, y) {
                    before.update(
                        self.byte_index(x, y),
                        with_bit(before[self.byte_index(x, y)], (y % 8) as u8, colors[place].raw()),
                    )
                } else {
                    before
                })
            }),
        ensures
            bytes == self.painted(Self::stream_ink_upto(area, colors, place + 1)),
    {
        let w = area.size.width as int;
        let before = Self::stream_ink_upto(area, colors, place);
        let after = Self::stream_ink_upto(area, colors, place + 1);
        let x = area.top_left.x + place % w;
        let y = area.top_left.y + place / w;
        vstd::arithmetic::div_mod::lemma_fundamental_div_mod(place, w);
        assert(w * (place / w) == (place / w) * w) by (nonlinear_arith);
        assert(Self::stream_index(area, x, y) == place);
        assert(0 <= place / w) by (nonlinear_arith)
            requires
                0 <= place,
                0 < w,
        ;
        assert(area.covers(x, y));
        assert forall|px: int, py: int| self.in_bounds(px, py) implies #[trigger] after(px, py) == (
        if px == x && py == y {
            Some(colors[place].is_on())
        } else {
            before(px, py)
        }) by {
            if area.covers(px, py) {
                Self::lemma_stream_place(area, px, py);
            }
        }
        if self.in_bounds(x, y) {
            self.lemma_paint_pixel(before, after, bytes, x, y, colors[place]);
        } else {
            self.lemma_painted_same(before, after);
        }
    }

    /// A stream paints nothing before it has come to its first row on the
    /// display, and all it ever paints once it is past its last one there or at
    /// its end.
    pub proof fn lemma_stream_limits(self, area: Rectangle, colors: Seq<BinaryColor>, row: int)
        requires
            self.wf(),
        ensures
            row <= 0 || area.top_left.y + row <= 0 ==> self.painted(
                Self::stream_ink_upto(area, colors, row * area.size.width),
            ) == self.bytes,
            area.top_left.y + row >= self.height || row >= area.size.height ==> self.painted(
                Self::stream_ink_upto(area, colors, row * area.size.width),
            ) == self.painted(Self::stream_ink(area, colors)),
            forall|limit: int|
                limit >= colors.len() ==> #[trigger] self.painted(
                    Self::stream_ink_upto(area, colors, limit),
                ) == self.painted(Self::stream_ink(area, colors)),
    {
        let w = area.size.width as int;
        let ink = Self::stream_ink_upto(area, colors, row * w);
        if row <= 0 || area.top_left.y + row <= 0 {
            assert forall|x: int, y: int| self.in_bounds(x, y) implies ink(x, y) is None by {
                if area.covers(x, y) {
                    lemma_rows_apart(w, y - area.top_left.y, row);
                    lemma_rows_apart(w, -1, y - area.top_left.y);
                    lemma_rows_apart(w, row, 0);
                    lemma_rows_apart(w, row, y - area.top_left.y);
                    assert(Self::stream_index(area, x, y) >= row * w);
                }
            }
            self.lemma_painted_nothing(ink);
        }
        if area.top_left.y + row >= self.height || row >= area.size.height {
            let full = Self::stream_ink(area, colors);
            assert forall|x: int, y: int| self.in_bounds(x, y) implies ink(x, y) == full(x, y) by {
                if area.covers(x, y) {
                    lemma_rows_apart(w, y - area.top_left.y, row);
                    assert(Self::stream_index(area, x, y) < row * w);
                }
            }
            self.lemma_painted_same(ink, full);
        }
        assert forall|limit: int| limit >= colors.len() implies #[trigger] self.painted(
            Self::stream_ink_upto(area, colors, limit),
        ) == self.painted(Self::stream_ink(area, colors)) by {
            self.lemma_painted_same(
                Self::stream_ink_upto(area, colors, limit),
                Self::stream_ink(area, colors),
            );
        }
    }

    /// The first pages of a solid fill, merged one after the other, paint the
    /// rows of the rectangle down to the end of the page just merged.
    pub proof fn lemma_fill_page(
        self,
        area: Rectangle,
        color: BinaryColor,
        bytes: Seq<u8>,
        page: int,
        mask: u8,
    )
        requires
            self.wf(),
            self.holds(area),
            0 <= page < self.height / 8,
            bytes.len() == self.bytes.len(),
            forall|bit: u8|
                bit < 8 ==> (#[trigger] bit_is_set(mask, bit) <==> area.top_left.y <= page * 8 + bit
                    < area.top_left.y + area.size.height),
            forall|index: int|
                0 <= index < bytes.len() ==> #[trigger] bytes[index] == (if page * self.width
                    + area.top_left.x <= index < page * self.width + area.top_left.x
                    + area.size.width {
                    merged(
                        self.painted(Self::solid_ink_above(area, color, page * 8))[index],
                        color.solid_byte(),
                        mask,
                    )
                } else {
                    self.painted(Self::solid_ink_above(area, color, page * 8))[index]
                }),
        ensures
            bytes == self.painted(Self::solid_ink_above(area, color, (page + 1) * 8)),
    {
        let before = Self::solid_ink_above(area, color, page * 8);
        let after = Self::solid_ink_above(area, color, (page + 1) * 8);
        let fill = color.solid_byte();
        assert forall|x: int, y: int| self.in_bounds(x, y) implies #[trigger] after(x, y) == (if y
            / 8 == page && area.top_left.x <= x < area.top_left.x + area.size.width && bit_is_set(
            mask,
            (y % 8) as u8,
        ) {
            Some(bit_is_set(fill, (y % 8) as u8))
        } else {
            before(x, y)
        }) by {
            let bit = (y % 8) as u8;
            lemma_solid_bytes(bit);
            assert(bit_is_set(mask, bit) <==> area.top_left.y <= page * 8 + bit < area.top_left.y
                + area.size.height);
        }
        self.lemma_paint_page(
            before,
            after,
            bytes,
            page,
            area.top_left.x as int,
            area.size.width as int,
            fill,
            mask,
        );
    }

    /// Nothing is painted while the fill has not reached the rectangle, and
    /// all of it once the fill is past its last row.
    pub proof fn lemma_fill_limits(self, area: Rectangle, color: BinaryColor, limit: int)
        requires
            self.wf(),
        ensures
            limit <= area.top_left.y ==> self.painted(Self::solid_ink_above(area, color, limit))
                == self.bytes,
            limit >= area.top_left.y + area.size.height ==> self.painted(
                Self::solid_ink_above(area, color, limit),
            ) == self.painted(Self::solid_ink(area, color)),
    {
        if limit <= area.top_left.y {
            self.lemma_painted_nothing(Self::solid_ink_above(area, color, limit));
        }
        if limit >= area.top_left.y + area.size.height {
            self.lemma_painted_same(
                Self::solid_ink_above(area, color, limit),
                Self::solid_ink(area, color),
            );
        }
    }

    /// The byte of a pixel of the display lies inside the buffer.
    pub proof fn lemma_index_in_range(self, x: int, y: int)
        requires
            self.wf(),
            self.in_bounds(x, y),
        ensures
            0 <= self.byte_index(x, y) < self.bytes.len(),
    {
        let pages = self.height as int / 8;
        let page = y / 8;
        let w = self.width as int;
        assert(0 <= page < pages);
        assert(page * w + w <= pages * w && 0 <= page * w) by (nonlinear_arith)
            requires
                0 <= page < pages,
                0 < w,
        ;
        assert(self.width * (self.height / 8) == pages * w) by (nonlinear_arith)
            requires
                pages == self.height as int / 8,
                w == self.width as int,
        ;
    }
}

} // verus!
