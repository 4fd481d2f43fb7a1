//! Mask for the first, possibly partial, page of a vertical span.

use vstd::prelude::*;
use crate::bits::bit_is_set;

verus! {

/// Mask of the first page of a span, and the rows that lie below that page.
pub struct StartChunk {
    /// Generated bit mask.
    pub mask: u8,
    /// Rows remaining after those in the start chunk.
    pub remaining: u32,
}

/// The first row of the page that holds row `row`.
pub open spec fn page_start(row: u32) -> int {
    (row / 8) * 8
}

/// The rows of the span from `start` to `end`, both included, that lie below
/// the page in which the span starts.
pub open spec fn rows_below_first_page(start: u32, end: u32) -> int {
    if end / 8 == start / 8 {
        0
    } else {
        end - page_start(start) - 7
    }
}

/// An arithmetic shift of the sign bit followed by a logical shift leaves the
/// run of bits that ends `shift` places below the top and is `high_bits + 1`
/// long.
proof fn lemma_start_mask_bits(high_bits: u32, shift: u32, bit: u8)
    by (bit_vector)
    requires
        high_bits + shift <= 7,
        bit < 8,
    ensures
        bit_is_set(((i8::MIN >> high_bits) as u8) >> shift, bit) <==> (7 - high_bits - shift <= bit <= 7
            - shift),
{
}

/// Create the bit mask for the partially filled starting block.
///
/// The span runs from row `start` to row `end`, both included. The mask
/// selects, within the page that holds `start`, the rows of the span: bit `b`
/// stands for row `page_start(start) + b`. What is left of the span below that
/// page is counted in `remaining`.
///
/// A span from row 4 to row 15 gives the mask `0b1111_0000` for rows 4 to 7
/// and leaves 8 rows.
pub fn start_chunk(start: u32, end: u32) -> (chunk: StartChunk)
    requires
        start <= end,
    ensures
        forall|bit: u8|
            bit < 8 ==> (#[trigger] bit_is_set(chunk.mask, bit) <==> start <= page_start(start) + bit
                <= end),
        chunk.remaining == rows_below_first_page(start, end),
{
    let len: u32 = end - start;
    let num_bits: u32 = u8::BITS;

    // Array element to start and end at
    let start_idx: usize = (start / num_bits) as usize;
    let end_idx: usize = (end / num_bits) as usize;

    let start_bit: u32 = start % num_bits;

    // Start and end are in the same chunk: compute intra-chunk bit positions.
    // Otherwise clamp the end bit position to the most significant bit.
    let end_bit: u32 = if start_idx == end_idx {
        end % num_bits
    } else {
        num_bits - 1
    };

    let num_set_bits: u32 = end_bit - start_bit;
    let shift_places: u32 = (num_bits - 1) - end_bit;

    let remaining: u32 = len - num_set_bits;

    let high: i8 = i8::MIN >> num_set_bits;
    let shifted: u8 = (#[verifier::truncate] (high as u8)) >> shift_places;

    proof {
        assert forall|bit: u8| bit < 8 implies (#[trigger] bit_is_set(shifted, bit) <==> start
            <= page_start(start) + bit <= end) by {
            lemma_start_mask_bits(num_set_bits, shift_places, bit);
        }
    }
    StartChunk { mask: shifted, remaining }
}

} // verus!
