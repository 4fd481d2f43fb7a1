//! Walk over the pages of a region of the buffer.

use vstd::prelude::*;
use vstd::slice::slice_subrange;

verus! {

/// An iterator over horizontal blocks in the buffer.
///
/// A block is a horizontal section of the screen 8 bits tall.
#[derive(Debug)]
pub struct BlockIterator<'a> {
    /// Complete display buffer.
    pub buffer: &'a [u8],
    /// Width of the display.
    pub display_width: usize,
    /// Current block start index into the display buffer.
    pub buffer_idx: usize,
    /// Block width, must be less than or equal to `display_width`.
    ///
    /// Used to return a subsection of an entire display-wide block.
    pub block_width: usize,
    /// Current block counter.
    pub current_block: u32,
    /// Block counter limit.
    pub num_blocks: u32,
}

/// One more step of a stride adds the stride once, and steps never lead back.
pub proof fn lemma_stride(steps: int, stride: int)
    by (nonlinear_arith)
    requires
        0 <= steps,
        0 <= stride,
    ensures
        (steps + 1) * stride == steps * stride + stride,
        0 <= steps * stride,
{
}

impl<'a> BlockIterator<'a> {
    /// Number of blocks still to come.
    pub open spec fn remaining(&self) -> int {
        self.num_blocks - self.current_block
    }

    /// Whether a block is no wider than the display, every block still to
    /// come lies inside the buffer, and the cursor can be advanced past each of
    /// them.
    pub open spec fn wf(&self) -> bool {
        &&& self.current_block <= self.num_blocks
        &&& self.block_width <= self.display_width
        &&& self.remaining() > 0 ==> {
            &&& self.buffer_idx + (self.remaining() - 1) * self.display_width + self.block_width
                <= self.buffer@.len()
            &&& self.buffer_idx + self.remaining() * self.display_width <= usize::MAX
        }
    }

    /// Index into the buffer at which the `k`-th of the blocks still to come
    /// starts.
    pub open spec fn block_start(&self, k: int) -> int {
        self.buffer_idx + k * self.display_width
    }

    /// The `k`-th of the blocks still to come.
    pub open spec fn block(&self, k: int) -> Seq<u8> {
        self.buffer@.subrange(self.block_start(k), self.block_start(k) + self.block_width)
    }

    /// The blocks still to come, in the order in which they are handed out.
    pub open spec fn blocks(&self) -> Seq<Seq<u8>> {
        Seq::new(self.remaining() as nat, |k: int| self.block(k))
    }

    /// The blocks still to come lie inside the buffer one after the other
    /// without overlap: each ends before the next one starts.
    pub proof fn lemma_blocks_apart(&self, earlier: int, later: int)
        requires
            self.wf(),
            0 <= earlier < later < self.remaining(),
        ensures
            0 <= self.block_start(earlier),
            self.block_start(earlier) + self.block_width <= self.block_start(later),
            self.block_start(later) + self.block_width <= self.buffer@.len(),
    {
        let stride = self.display_width as int;
        assert(earlier * stride + stride <= later * stride && 0 <= earlier * stride && later * stride
            <= (self.remaining() - 1) * stride) by (nonlinear_arith)
            requires
                0 <= earlier < later < self.remaining(),
                0 <= stride,
        ;
    }

    /// An iterator that hands out nothing.
    pub fn empty() -> (it: Self)
        ensures
            it.wf(),
            it.blocks() == Seq::<Seq<u8>>::empty(),
            it.buffer@.len() == 0,
            it.display_width == 0,
            it.buffer_idx == 0,
            it.block_width == 0,
            it.current_block == 0,
            it.num_blocks == 0,
    {
        Self {
            buffer: &[],
            display_width: 0,
            buffer_idx: 0,
            block_width: 0,
            current_block: 0,
            num_blocks: 0,
        }
    }

    /// Hands out the next block and moves on by one display width, or hands
    /// out nothing once all blocks are through.
    pub fn next(&mut self) -> (item: Option<&'a [u8]>)
        requires
            old(self).wf(),
        ensures
            final(self).wf(),
            match item {
                None => old(self).remaining() == 0 && *final(self) == *old(self),
                Some(block) => {
                    &&& old(self).remaining() > 0
                    &&& block@ == old(self).block(0)
                    &&& final(self).buffer == old(self).buffer
                    &&& final(self).display_width == old(self).display_width
                    &&& final(self).block_width == old(self).block_width
                    &&& final(self).num_blocks == old(self).num_blocks
                    &&& final(self).buffer_idx == old(self).buffer_idx + old(self).display_width
                    &&& final(self).current_block == old(self).current_block + 1
                    &&& final(self).blocks() == old(self).blocks().skip(1)
                },
            },
    {
        if self.current_block == self.num_blocks {
            return None;
        }

        proof {
            lemma_stride(self.remaining() - 1, self.display_width as int);
            assert(self.buffer@.len() == self.buffer.len());
        }
        let block = slice_subrange(self.buffer, self.buffer_idx, self.buffer_idx + self.block_width);

        self.buffer_idx += self.display_width;
        self.current_block += 1;

        proof {
            if self.remaining() > 0 {
                lemma_stride(self.remaining() - 1, self.display_width as int);
            }
            assert forall|k: int| 0 <= k < self.remaining() implies #[trigger] self.block(k) == old(
                self,
            ).block(k + 1) by {
                lemma_stride(k, self.display_width as int);
            }
        }
        Some(block)
    }
}

} // verus!
