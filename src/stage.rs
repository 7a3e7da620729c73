use vstd::prelude::*;

verus! {

/// Number of a block in the chain.
pub type BlockNumber = u64;

/// Durable marker of the last block a stage has fully committed.
#[derive(Clone, Copy, Debug, PartialEq, Eq, Structural)]
pub struct StageCheckpoint {
    pub block_number: BlockNumber,
}

impl StageCheckpoint {
    /// A checkpoint at `block_number`.
    pub fn new(block_number: BlockNumber) -> (r: Self)
        ensures
            r.block_number == block_number,
    {
        StageCheckpoint { block_number }
    }
}

/// Identifier of a pipeline stage.
#[derive(Clone, Copy, Debug, PartialEq, Eq, Structural)]
pub enum StageId {
    IndexLogHistory,
}

/// An inclusive, non-empty range `[start, end]` of block numbers.
#[derive(Clone, Copy, Debug, PartialEq, Eq, Structural)]
pub struct BlockRange {
    pub start: BlockNumber,
    pub end: BlockNumber,
}

impl BlockRange {
    /// Whether block `b` lies in the range.
    pub open spec fn has(self, b: int) -> bool {
        self.start <= b <= self.end
    }
}

/// What a stage is asked to do: resume after `checkpoint`, go up to `target`.
#[derive(Clone, Copy, Debug, PartialEq, Eq, Structural)]
pub struct ExecInput {
    pub target: Option<BlockNumber>,
    pub checkpoint: Option<StageCheckpoint>,
}

impl ExecInput {
    /// The block number of the checkpoint; no checkpoint counts as block 0.
    pub open spec fn checkpoint_block(self) -> BlockNumber {
        match self.checkpoint {
            Some(c) => c.block_number,
            None => 0,
        }
    }

    /// The target block; no target counts as block 0.
    pub open spec fn target_block(self) -> BlockNumber {
        match self.target {
            Some(t) => t,
            None => 0,
        }
    }

    /// Whether the checkpoint already stands at or past the target.
    pub open spec fn reached(self) -> bool {
        self.checkpoint_block() >= self.target_block()
    }

    /// The last block of the next chunk under `threshold`:
    /// `min(checkpoint + threshold, target)`, the sum saturating.
    pub open spec fn chunk_end(self, threshold: u64) -> BlockNumber {
        let sum = self.checkpoint_block() + threshold;
        let capped: int = if sum > u64::MAX { u64::MAX as int } else { sum };
        if capped < self.target_block() {
            capped as BlockNumber
        } else {
            self.target_block()
        }
    }

    /// The checkpoint, or the one at block 0 if there is none.
    pub fn checkpoint(&self) -> (r: StageCheckpoint)
        ensures
            r.block_number == self.checkpoint_block(),
    {
        match self.checkpoint {
            Some(c) => c,
            None => StageCheckpoint::new(0),
        }
    }

    /// The target block, or 0 if there is none.
    pub fn target(&self) -> (r: BlockNumber)
        ensures
            r == self.target_block(),
    {
        match self.target {
            Some(t) => t,
            None => 0,
        }
    }

    /// The first block that has not been processed yet.
    pub fn next_block(&self) -> (r: BlockNumber)
        requires
            self.checkpoint_block() < u64::MAX,
        ensures
            r == self.checkpoint_block() + 1,
    {
        self.checkpoint().block_number + 1
    }

    /// Whether there is nothing left to do.
    pub fn target_reached(&self) -> (r: bool)
        ensures
            r == self.reached(),
    {
        self.checkpoint().block_number >= self.target()
    }

    /// The next chunk, `[checkpoint + 1, min(checkpoint + threshold, target)]`, and
    /// whether it ends at the target.
    pub fn next_block_range_with_threshold(&self, threshold: u64) -> (r: (BlockRange, bool))
        requires
            self.checkpoint_block() < u64::MAX,
        ensures
            r.0.start == self.checkpoint_block() + 1,
            r.0.end == self.chunk_end(threshold),
            r.1 == (r.0.end == self.target_block()),
    {
        let current = self.checkpoint().block_number;
        let start = current + 1;
        let target = self.target();
        let reach = current.saturating_add(threshold);
        let end = if reach < target {
            reach
        } else {
            target
        };
        (BlockRange { start, end }, end == target)
    }
}

/// What a stage returns after executing one chunk.
#[derive(Clone, Copy, Debug, PartialEq, Eq, Structural)]
pub struct ExecOutput {
    pub checkpoint: StageCheckpoint,
    pub done: bool,
}

impl ExecOutput {
    /// The output of a stage that has reached its target at `checkpoint`.
    pub fn done(checkpoint: StageCheckpoint) -> (r: Self)
        ensures
            r.checkpoint == checkpoint,
            r.done,
    {
        ExecOutput { checkpoint, done: true }
    }
}

/// What a stage is asked to revert: the blocks in `(unwind_to, checkpoint]`.
#[derive(Clone, Copy, Debug, PartialEq, Eq, Structural)]
pub struct UnwindInput {
    pub checkpoint: StageCheckpoint,
    pub unwind_to: BlockNumber,
    pub bad_block: Option<BlockNumber>,
}

impl UnwindInput {
    /// The first block of the next unwind chunk:
    /// `max(unwind_to + 1, checkpoint - threshold)`, the difference saturating.
    pub open spec fn chunk_start(self, threshold: u64) -> int {
        let low: int = if self.checkpoint.block_number >= threshold {
            self.checkpoint.block_number - threshold
        } else {
            0
        };
        if low > self.unwind_to + 1 {
            low
        } else {
            self.unwind_to + 1
        }
    }

    /// The blocks to revert in the next chunk, counted back from the checkpoint,
    /// the block this chunk unwinds to, and whether that is `unwind_to`.
    pub fn unwind_block_range_with_threshold(&self, threshold: u64) -> (r: (
        BlockRange,
        BlockNumber,
        bool,
    ))
        requires
            self.unwind_to < u64::MAX,
        ensures
            r.0.start == self.chunk_start(threshold),
            r.0.end == self.checkpoint.block_number,
            r.1 == r.0.start - 1,
            r.2 == (r.1 == self.unwind_to),
    {
        let end = self.checkpoint.block_number;
        let low = end.saturating_sub(threshold);
        let first = self.unwind_to + 1;
        let start = if low > first {
            low
        } else {
            first
        };
        let unwind_progress = start - 1;
        (BlockRange { start, end }, unwind_progress, unwind_progress == self.unwind_to)
    }
}

/// What a stage returns after unwinding one chunk.
#[derive(Clone, Copy, Debug, PartialEq, Eq, Structural)]
pub struct UnwindOutput {
    pub checkpoint: StageCheckpoint,
}

} // verus!
