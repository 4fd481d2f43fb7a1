//! The packed buffer itself.

use vstd::prelude::*;
use crate::active_area::ActiveArea;
use crate::block_iterator::{lemma_stride, BlockIterator};
use crate::bits::{bit_is_set, lemma_low_mask, lemma_merged_full, lemma_solid_bytes, merged};
use crate::color::{into_storage, BinaryColor, Pixel};
use crate::frame::{lemma_rows_apart, Frame};
use crate::geometry::{bottom_right, contains, intersection, Point, Rectangle, Size};
use crate::mask::start_chunk;

verus! {

/// Frame buffer of a `W` by `H` display with one bit per pixel.
///
/// The `N` bytes are laid out page after page. A page is a band of eight rows;
/// each of its bytes holds one column of the band, topmost row in the lowest
/// bit.
#[derive(Debug, PartialEq)]
pub struct PackedBuffer<const W: u32, const H: u32, const N: usize> {
    buf: [u8; N],
    area: Rectangle,
    active_area: ActiveArea<W, H>,
}

impl<const W: u32, const H: u32, const N: usize> View for PackedBuffer<W, H, N> {
    type V = Frame;

    closed spec fn view(&self) -> Frame {
        Frame { width: W, height: H, bytes: self.buf@, dirty: self.active_area@ }
    }
}

impl<const W: u32, const H: u32, const N: usize> PackedBuffer<W, H, N> {
    /// Whether the three constants describe a display: a positive width and
    /// height within the coordinate range, whole pages, as many bytes as the
    /// pixels need, and no more bytes than one object can have.
    pub open spec fn geometry_ok() -> bool {
        &&& 0 < W <= i32::MAX
        &&& 0 < H <= i32::MAX
        &&& H % 8 == 0
        &&& N == W * H / 8
        &&& N <= isize::MAX
    }

    /// Whether the buffer is in a state that its own operations lead to.
    pub closed spec fn wf(&self) -> bool {
        &&& Self::geometry_ok()
        &&& self@.wf()
        &&& self.area == self@.bounds()
    }

    /// A well-formed buffer has the geometry of its type and a well-formed
    /// frame.
    pub proof fn lemma_wf(&self)
        requires
            self.wf(),
        ensures
            Self::geometry_ok(),
            self@.wf(),
            self@.width == W,
            self@.height == H,
            self@.bytes.len() == N,
    {
    }

    /// A buffer with every pixel off and nothing recorded as drawn.
    pub fn new() -> (buffer: Self)
        requires
            Self::geometry_ok(),
        ensures
            buffer.wf(),
            buffer@ == Frame::blank(W, H),
    {
        let buffer = Self {
            buf: [0x00u8;N],
            area: Rectangle::new(Point::zero(), Size::new(W, H)),
            active_area: ActiveArea::new(),
        };
        proof {
            lemma_page_count(W as int, H as int);
            assert(buffer@.bytes =~= Frame::blank(W, H).bytes);
        }
        buffer
    }

    /// Set an individual pixel.
    ///
    /// Any given pixels that are outside the display area will be ignored.
    pub fn set_pixel(&mut self, point: Point, color: BinaryColor)
        requires
            old(self).wf(),
        ensures
            final(self).wf(),
            final(self)@ == old(self)@.set_pixel(point, color),
    {
        if !contains(&self.area, point) {
            return ;
        }
        self.set_pixel_unchecked(point, color);

        self.active_area.update_from_point(point);
    }

    /// Writes the bit of a pixel that lies on the display.
    fn set_pixel_unchecked(&mut self, point: Point, color: BinaryColor)
        requires
            old(self).wf(),
            old(self)@.in_bounds(point.x as int, point.y as int),
        ensures
            final(self).area == old(self).area,
            final(self).active_area == old(self).active_area,
            final(self).buf@ == old(self)@.set_pixel(point, color).bytes,
    {
        let raw: u8 = into_storage(color);
        let Point { x, y } = point;

        proof {
            self@.lemma_index_in_range(x as int, y as int);
            lemma_page_count(W as int, H as int);
            assert((y as usize) / 8 * (W as usize) == (y as int / 8) * W) by (nonlinear_arith)
                requires
                    0 <= y,
                    (y as usize) / 8 == y as int / 8,
                    (y as int / 8) * W <= N,
            ;
        }
        let idx: usize = ((y as usize) / 8 * (W as usize)) + (x as usize);
        let bit: u8 = (y % 8) as u8;

        let byte: u8 = self.buf[idx];
        self.buf[idx] = byte & !(1u8 << bit) | (raw << bit);
    }

    /// Create a range representing the indices corresponding to the section
    /// of a block in the given area.
    ///
    /// I.e., the `<=============>` section in the diagram below:
    ///
    /// ```text
    /// Block
    ///      | Display----------------------------+
    ///    1 | |       Area------------+          |
    ///    2 | |       |               |          |
    ///  * 3 | |-------|<=============>|----------|
    ///    4 | |       |               |          |
    ///    5 | |       |               |          |
    ///    6 | |       +---------------+          |
    ///    7 | |                                  |
    ///      | +----------------------------------+
    /// ```
    fn block_range(&self, block_idx: usize, rect: &Rectangle) -> (range: (usize, usize))
        requires
            self.wf(),
            self@.holds(*rect),
            block_idx < H / 8,
        ensures
            range.0 == block_idx * W + rect.top_left.x,
            range.1 == range.0 + rect.size.width,
            range.1 <= N,
    {
        proof {
            lemma_page_count(W as int, H as int);
            lemma_rows_apart(W as int, block_idx as int, H as int / 8);
        }
        let rect_width: usize = rect.size.width as usize;
        let start_x: usize = rect.top_left.x as usize;
        let start_idx: usize = block_idx * self.area.size.width as usize + start_x;

        (start_idx, start_idx + rect_width)
    }

    /// Merges `fill` into the bytes of one block of the area, under `mask`.
    fn merge_block(&mut self, block_idx: usize, rect: &Rectangle, fill: u8, mask: u8)
        requires
            old(self).wf(),
            old(self)@.holds(*rect),
            block_idx < H / 8,
        ensures
            final(self).area == old(self).area,
            final(self).active_area == old(self).active_area,
            forall|index: int|
                0 <= index < N ==> #[trigger] final(self).buf@[index] == (if block_idx * W
                    + rect.top_left.x <= index < block_idx * W + rect.top_left.x + rect.size.width {
                    merged(old(self).buf@[index], fill, mask)
                } else {
                    old(self).buf@[index]
                }),
    {
        let (start, end) = self.block_range(block_idx, rect);
        let mut idx: usize = start;
        while idx < end
            invariant
                start <= idx <= end <= N,
                self.area == old(self).area,
                self.active_area == old(self).active_area,
                forall|index: int|
                    0 <= index < N ==> #[trigger] self.buf@[index] == (if start <= index < idx {
                        merged(old(self).buf@[index], fill, mask)
                    } else {
                        old(self).buf@[index]
                    }),
            decreases end - idx,
        {
            let byte: u8 = self.buf[idx];
            self.buf[idx] = (byte & !mask) | (fill & mask);
            idx += 1;
        }
    }

    /// Overwrites the bytes of one block of the area with `fill`.
    fn fill_block(&mut self, block_idx: usize, rect: &Rectangle, fill: u8)
        requires
            old(self).wf(),
            old(self)@.holds(*rect),
            block_idx < H / 8,
        ensures
            final(self).area == old(self).area,
            final(self).active_area == old(self).active_area,
            forall|index: int|
                0 <= index < N ==> #[trigger] final(self).buf@[index] == (if block_idx * W
                    + rect.top_left.x <= index < block_idx * W + rect.top_left.x + rect.size.width {
                    fill
                } else {
                    old(self).buf@[index]
                }),
    {
        let (start, end) = self.block_range(block_idx, rect);
        let mut idx: usize = start;
        while idx < end
            invariant
                start <= idx <= end <= N,
                self.area == old(self).area,
                self.active_area == old(self).active_area,
                forall|index: int|
                    0 <= index < N ==> #[trigger] self.buf@[index] == (if start <= index < idx {
                        fill
                    } else {
                        old(self).buf@[index]
                    }),
            decreases end - idx,
        {
            self.buf[idx] = fill;
            idx += 1;
        }
    }

    /// Fill a packed buffer with the given color in the given area.
    ///
    /// The area is clipped to the display dimensions, so that no byte outside
    /// the buffer is touched. The first and the last page of the clipped area
    /// are merged under a mask, the pages between them are overwritten.
    fn fill_rect(&mut self, rect: &Rectangle, color: BinaryColor)
        requires
            old(self).wf(),
            rect.corner_in_range(),
        ensures
            final(self).wf(),
            final(self)@ == old(self)@.fill_solid(*rect, color),
    {
        let raw: u8 = into_storage(color);

        // Repeat color throughout the byte
        let fill: u8 = if raw > 0 {
            0xff
        } else {
            0x00
        };

        let ghost frame = self@;
        proof {
            rect.lemma_intersection_covers(self.area);
        }
        let rect = intersection(rect, &self.area);
        let ghost ink = Frame::solid_ink(rect, color);

        let br = if let Some(br) = bottom_right(&rect) {
            br
        } else {
            // Rectangle is zero sized, so don't fill any of the buffer
            proof {
                frame.lemma_painted_nothing(ink);
            }
            return ;
        };
        proof {
            assert(rect.covers(rect.top_left.x as int, rect.top_left.y as int));
            assert(rect.covers(br.x as int, br.y as int));
            assert(frame.holds(rect));
        }

        self.active_area.update_from_rect(rect);

        let y_start: u32 = rect.top_left.y as u32;
        let y_end: u32 = br.y as u32;

        let mut block: usize = rect.top_left.y as usize / 8;

        let chunk = start_chunk(y_start, y_end);
        let first_mask: u8 = chunk.mask;
        let mut remaining: u32 = chunk.remaining;

        // If the area covers part of a block, merge the top row with existing data in the block
        proof {
            frame.lemma_fill_limits(rect, color, block * 8);
        }
        self.merge_block(block, &rect, fill, first_mask);
        proof {
            frame.lemma_fill_page(rect, color, self.buf@, block as int, first_mask);
        }

        // If fill rectangle fits entirely within first block, there's nothing more to do
        if remaining == 0 {
            proof {
                frame.lemma_fill_limits(rect, color, (block + 1) * 8);
            }
            return ;
        }
        // Start filling blocks below the starting partial block

        block += 1;

        // Completely fill middle blocks in the area. We don't need to do any bit twiddling here so
        // it can be optimised by just filling the slice
        while remaining >= 8
            invariant
                self.wf(),
                frame.wf(),
                frame.width == W,
                frame.height == H,
                frame.bytes.len() == N,
                frame.holds(rect),
                !rect.is_zero_sized(),
                fill == color.solid_byte(),
                y_end == rect.top_left.y + rect.size.height - 1,
                rect.top_left.y < block * 8,
                remaining == y_end + 1 - block * 8,
                self.active_area@ == frame.dirty.with_rect(rect),
                self.buf@ == frame.painted(Frame::solid_ink_above(rect, color, block * 8)),
            decreases remaining,
        {
            // Completely overwrite any existing value
            let ghost before = self.buf@;
            self.fill_block(block, &rect, fill);
            proof {
                assert forall|index: int| 0 <= index < N implies #[trigger] self.buf@[index] == (
                if block * W + rect.top_left.x <= index < block * W + rect.top_left.x
                    + rect.size.width {
                    merged(before[index], fill, 0xffu8)
                } else {
                    before[index]
                }) by {
                    lemma_merged_full(before[index], fill);
                }
                assert forall|bit: u8| bit < 8 implies (#[trigger] bit_is_set(0xffu8, bit)
                    <==> rect.top_left.y <= block * 8 + bit < rect.top_left.y
                    + rect.size.height) by {
                    lemma_solid_bytes(bit);
                }
                frame.lemma_fill_page(rect, color, self.buf@, block as int, 0xffu8);
            }

            block += 1;
            remaining -= 8;
        }

        // Partially fill end block if there are any remaining bits
        if remaining > 0 {
            // Merge block underneath last fully filled block with current data
            let mask: u8 = #[verifier::truncate] (!(i8::MAX << remaining) as u8);
            self.merge_block(block, &rect, fill, mask);
            proof {
                assert forall|bit: u8| bit < 8 implies (#[trigger] bit_is_set(mask, bit)
                    <==> rect.top_left.y <= block * 8 + bit < rect.top_left.y
                    + rect.size.height) by {
                    lemma_low_mask(remaining, bit);
                }
                frame.lemma_fill_page(rect, color, self.buf@, block as int, mask);
                frame.lemma_fill_limits(rect, color, (block + 1) * 8);
            }
        } else {
            proof {
                frame.lemma_fill_limits(rect, color, block * 8);
            }
        }
    }

    /// Fills a rectangle with one colour.
    ///
    /// The part of the rectangle that lies on the display takes the colour and
    /// is recorded as drawn. A rectangle that is empty, or that has no part on
    /// the display, changes nothing.
    pub fn fill_solid(&mut self, area: &Rectangle, color: BinaryColor)
        requires
            old(self).wf(),
        ensures
            final(self).wf(),
            final(self)@ == old(self)@.fill_solid(*area, color),
    {
        let area = area.clamped();
        self.fill_rect(&area, color);
    }

    /// Contiguous fill.
    ///
    /// The colours lie row by row over the whole of `rect`, whether on the
    /// display or not. The rows above the display are passed over, the rows
    /// below it are never reached, and in the rows between only the colours
    /// whose column lies on the display are written.
    fn fill_rect_iter(&mut self, rect: &Rectangle, colors: &[BinaryColor])
        requires
            old(self).wf(),
        ensures
            final(self).wf(),
            final(self)@ == old(self)@.fill_contiguous(*rect, colors@),
    {
        let ghost frame = self@;
        let clamped = rect.clamped();
        proof {
            clamped.lemma_intersection_covers(self.area);
        }
        let intersection = intersection(&clamped, &self.area);

        // Don't draw anything if the entire rect lies outside the visible area
        let corner = if let Some(corner) = bottom_right(&intersection) {
            corner
        } else {
            return ;
        };
        proof {
            assert(intersection.covers(
                intersection.top_left.x as int,
                intersection.top_left.y as int,
            ));
            assert(intersection.covers(corner.x as int, corner.y as int));
            assert(clamped.covers(intersection.top_left.x as int, intersection.top_left.y as int));
            assert(clamped.covers(corner.x as int, corner.y as int));
            assert(frame.holds(intersection));
        }

        self.active_area.update_from_rect(intersection);

        let width: u64 = rect.size.width as u64;

        // Number of lines above the visible area
        let row_pre_skip: u64 = (intersection.top_left.y as i64 - rect.top_left.y as i64) as u64;

        proof {
            assert(row_pre_skip * width <= 0x8000_0000 * 0x1_0000_0000 && intersection.size.height
                * width <= 0x8000_0000 * 0x1_0000_0000) by (nonlinear_arith)
                requires
                    row_pre_skip <= 0x8000_0000,
                    intersection.size.height <= 0x8000_0000,
                    width <= 0x1_0000_0000,
            ;
        }
        // Number of pixels above the visible area
        let skip: u64 = row_pre_skip * width;

        // Take only the whole rows within the visible area. This filters out rows below the visible
        // area
        let take: u64 = intersection.size.height as u64 * width;

        proof {
            assert(skip + take <= 0xffff_ffff * 0xffff_ffff) by (nonlinear_arith)
                requires
                    skip == row_pre_skip * width,
                    take == intersection.size.height * width,
                    row_pre_skip + intersection.size.height <= 0xffff_ffff,
                    0 <= width <= 0xffff_ffff,
            ;
            frame.lemma_stream_limits(*rect, colors@, row_pre_skip as int);
        }
        let mut idx: u64 = 0;
        while idx < take && skip + idx < colors.len() as u64
            invariant
                self.wf(),
                frame.wf(),
                frame.width == W,
                frame.height == H,
                frame.bytes.len() == N,
                !rect.is_zero_sized(),
                frame.holds(intersection),
                intersection.top_left.y == rect.top_left.y + row_pre_skip,
                intersection.top_left.y + intersection.size.height <= rect.top_left.y
                    + rect.size.height,
                width == rect.size.width,
                skip == row_pre_skip * width,
                take == intersection.size.height * width,
                skip + take <= u64::MAX,
                idx <= take,
                self.active_area@ == frame.dirty.with_rect(intersection),
                self.buf@ == frame.painted(Frame::stream_ink_upto(*rect, colors@, skip + idx)),
            decreases take - idx,
        {
            let color: BinaryColor = colors[(skip + idx) as usize];
            let column: u64 = idx % width;
            let row: u64 = idx / width;
            proof {
                let place = skip + idx;
                let w = width as int;
                vstd::arithmetic::div_mod::lemma_fundamental_div_mod(idx as int, w);
                assert(place == (row_pre_skip + row) * w + column) by (nonlinear_arith)
                    requires
                        place == row_pre_skip * w + idx,
                        idx == w * row + column,
                ;
                vstd::arithmetic::div_mod::lemma_fundamental_div_mod_converse(
                    place,
                    w,
                    row_pre_skip + row,
                    column as int,
                );
                assert(row < intersection.size.height) by (nonlinear_arith)
                    requires
                        idx < intersection.size.height * w,
                        idx == w * row + column,
                        0 <= column,
                        0 < w,
                ;
            }
            let x: i64 = rect.top_left.x as i64 + column as i64;
            let y: i64 = intersection.top_left.y as i64 + row as i64;

            // The rows were chosen above. We only need to check whether the X coordinate is within
            // the visible area here.
            if 0 <= x && x < W as i64 {
                self.set_pixel_unchecked(Point::new(x as i32, y as i32), color);
            }
            proof {
                frame.lemma_stream_step(*rect, colors@, self.buf@, skip + idx);
            }
            idx += 1;
        }
        proof {
            if idx == take {
                assert(skip + idx == (row_pre_skip + intersection.size.height) * width)
                    by (nonlinear_arith)
                    requires
                        skip == row_pre_skip * width,
                        idx == intersection.size.height * width,
                ;
                frame.lemma_stream_limits(
                    *rect,
                    colors@,
                    row_pre_skip + intersection.size.height,
                );
            } else {
                frame.lemma_stream_limits(*rect, colors@, 0);
                assert(self.buf@ == frame.painted(Frame::stream_ink(*rect, colors@)));
            }
        }
    }

    /// Fills a rectangle from a stream of colours, one for each of its
    /// positions, row by row from the top left corner.
    ///
    /// Colours for positions off the display are dropped, and a stream that
    /// ends early leaves the rest of the rectangle as it was. The part of the
    /// rectangle that lies on the display is recorded as drawn.
    pub fn fill_contiguous(&mut self, area: &Rectangle, colors: &[BinaryColor])
        requires
            old(self).wf(),
        ensures
            final(self).wf(),
            final(self)@ == old(self)@.fill_contiguous(*area, colors@),
    {
        self.fill_rect_iter(area, colors);
    }

    /// Gives every pixel of the display one colour. What is recorded as drawn
    /// stays as it is.
    pub fn clear(&mut self, color: BinaryColor)
        requires
            old(self).wf(),
        ensures
            final(self).wf(),
            final(self)@ == old(self)@.clear(color),
    {
        let fill: u8 = match color {
            BinaryColor::Off => 0x00,
            BinaryColor::On => 0xff,
        };
        let mut idx: usize = 0;
        while idx < N
            invariant
                idx <= N,
                self.wf(),
                self.area == old(self).area,
                self.active_area == old(self).active_area,
                fill == color.solid_byte(),
                forall|index: int| 0 <= index < idx ==> self.buf@[index] == fill,
            decreases N - idx,
        {
            self.buf[idx] = fill;
            idx += 1;
        }
        proof {
            assert(self@.bytes =~= old(self)@.clear(color).bytes);
        }
    }

    /// Get an iterator over blocks in the active area of the display buffer.
    ///
    /// Example:
    ///
    /// ```text
    /// Display buffer--------------------------------+
    /// |                                             |
    /// |                                             |
    /// |         Active area--------------+          |
    /// | .next() |<--------&[u8]--------->|          |
    /// | .next() |<--------&[u8]--------->|          |
    /// | .next() |<--------&[u8]--------->|          |
    /// | .next() |<--------&[u8]--------->|          |
    /// |         +------------------------+          |
    /// |                                             |
    /// +---------------------------------------------+
    /// ```
    ///
    /// This method can be useful for efficiently transferring contiguous parts of the display
    /// buffer to the display hardware.
    pub fn active_blocks<'a>(&'a self) -> (blocks: BlockIterator<'a>)
        requires
            self.wf(),
        ensures
            blocks.wf(),
            blocks.current_block == 0,
            blocks.blocks() == self@.active_blocks(),
            self@.active_area().is_zero_sized() ==> {
                &&& blocks.num_blocks == 0
                &&& blocks.buffer@.len() == 0
                &&& blocks.display_width == 0
                &&& blocks.buffer_idx == 0
                &&& blocks.block_width == 0
            },
            !self@.active_area().is_zero_sized() ==> {
                &&& blocks.buffer@ == self@.bytes
                &&& blocks.display_width == W
                &&& blocks.block_width == self@.active_area().size.width
                &&& blocks.buffer_idx == (self@.active_area().top_left.y / 8) * W
                    + self@.active_area().top_left.x
                &&& blocks.num_blocks == (self@.active_area().top_left.y
                    + self@.active_area().size.height - 1) / 8 - self@.active_area().top_left.y / 8
                    + 1
            },
    {
        let active_area = self.active_area.rectangle();

        let br = if let Some(br) = bottom_right(&active_area) {
            br
        } else {
            return BlockIterator::empty();
        };

        let start_block: u32 = active_area.top_left.y as u32 / 8;
        let end_block: u32 = br.y as u32 / 8 + 1;

        proof {
            lemma_page_count(W as int, H as int);
            lemma_rows_apart(W as int, start_block as int, H as int / 8);
            lemma_rows_apart(W as int, br.y as int / 8, H as int / 8);
            lemma_stride(end_block - start_block - 1, W as int);
            assert((start_block + (end_block - start_block - 1)) * W == start_block * W + (end_block
                - start_block - 1) * W) by (nonlinear_arith);
            assert(0 <= start_block * W) by (nonlinear_arith);
        }
        let start_idx: usize = (start_block as usize * W as usize) + active_area.top_left.x as usize;
        let block_width: u32 = active_area.size.width;

        let blocks = BlockIterator {
            buffer: self.buf.as_slice(),
            display_width: W as usize,
            buffer_idx: start_idx,
            block_width: block_width as usize,
            num_blocks: end_block - start_block,
            current_block: 0,
        };
        proof {
            assert forall|k: int| 0 <= k < blocks.remaining() implies #[trigger] blocks.block(k)
                == self@.active_blocks()[k] by {
                assert((start_block + k) * W == start_block * W + k * W) by (nonlinear_arith);
            }
            assert(blocks.blocks() =~= self@.active_blocks());
        }
        blocks
    }

    /// Draws the pixels one after the other, each as `set_pixel` does.
    pub fn draw_iter(&mut self, pixels: &[Pixel])
        requires
            old(self).wf(),
        ensures
            final(self).wf(),
            final(self)@ == old(self)@.draw(pixels@),
    {
        let mut idx: usize = 0;
        while idx < pixels.len()
            invariant
                idx <= pixels.len(),
                self.wf(),
                self@ == old(self)@.draw(pixels@.take(idx as int)),
            decreases pixels.len() - idx,
        {
            // NOTE: Don't need to filter here as `set_pixel` already does bounds checking
            let Pixel(pos, color) = pixels[idx];
            self.set_pixel(pos, color);
            proof {
                assert(pixels@.take(idx + 1).drop_last() =~= pixels@.take(idx as int));
            }
            idx += 1;
        }
        proof {
            assert(pixels@.take(idx as int) =~= pixels@);
        }
    }

    /// Size of the display in pixels.
    pub fn size(&self) -> (size: Size)
        requires
            self.wf(),
        ensures
            size.width == W,
            size.height == H,
    {
        self.area.size
    }

    /// Forgets what has been recorded as drawn.
    pub fn clear_active_area(&mut self)
        requires
            old(self).wf(),
        ensures
            final(self).wf(),
            final(self)@ == old(self)@.clear_active_area(),
    {
        self.active_area.clear();
    }

    /// The smallest rectangle that holds everything drawn since the last
    /// reset; empty if nothing was.
    pub fn active_area(&self) -> (area: Rectangle)
        requires
            self.wf(),
        ensures
            area == self@.active_area(),
    {
        self.active_area.rectangle()
    }
}

impl<const W: u32, const H: u32, const N: usize> AsRef<[u8]> for PackedBuffer<W, H, N> {
    /// The bytes of the whole buffer, page after page.
    fn as_ref(&self) -> (bytes: &[u8])
        ensures
            bytes@ == self@.bytes,
    {
        self.buf.as_slice()
    }
}

/// Whole pages hold exactly the bytes that the pixel count asks for.
pub proof fn lemma_page_count(width: int, height: int)
    requires
        0 <= width,
        0 <= height,
        height % 8 == 0,
    ensures
        width * (height / 8) == width * height / 8,
        (height / 8) * width == width * height / 8,
{
    let pages = height / 8;
    assert(height == pages * 8);
    assert(width * height == (width * pages) * 8) by (nonlinear_arith)
        requires
            height == pages * 8,
    ;
    assert(pages * width == width * pages) by (nonlinear_arith);
}

} // verus!
