use vstd::prelude::*;

verus! {

/// The largest number of samples rendered in one block.
pub const MAX_BLOCK_SIZE: usize = 64;

/// What to do with the next note event while a block is being prepared.
#[derive(Debug, Clone, Copy, PartialEq, Eq, Structural)]
pub enum EventAction {
    /// The event happens at or before the block's start: handle it now.
    Handle,
    /// The event happens inside the block: the block has been cut short to
    /// end where the event happens, and the event waits for the next block.
    CutBlock,
    /// The event happens at or after the block's end: it waits.
    Wait,
}

/// `min(start + MAX_BLOCK_SIZE, num_samples)`.
pub open spec fn block_end_after(start: int, num_samples: int) -> int {
    if start + MAX_BLOCK_SIZE < num_samples {
        start + MAX_BLOCK_SIZE
    } else {
        num_samples
    }
}

/// Splits a buffer of samples into blocks of at most `MAX_BLOCK_SIZE`
/// samples that also end wherever a note event happens, so that every event
/// takes effect on the sample it is timed at.
pub struct BlockSplitter {
    num_samples: usize,
    block_start: usize,
    block_end: usize,
}

impl BlockSplitter {
    /// The number of samples in the buffer.
    pub closed spec fn total(&self) -> int {
        self.num_samples as int
    }

    /// The first sample of the current block.
    pub closed spec fn start(&self) -> int {
        self.block_start as int
    }

    /// The sample after the last one of the current block.
    pub closed spec fn end(&self) -> int {
        self.block_end as int
    }

    /// The current block lies in the buffer, holds at most `MAX_BLOCK_SIZE`
    /// samples, and holds at least one while samples remain.
    pub open spec fn wf(&self) -> bool {
        &&& 0 <= self.start() <= self.end() <= self.total()
        &&& self.end() - self.start() <= MAX_BLOCK_SIZE
        &&& self.start() < self.total() ==> self.start() < self.end()
    }

    fn end_after(start: usize, num_samples: usize) -> (r: usize)
        requires
            start <= num_samples,
        ensures
            r == block_end_after(start as int, num_samples as int),
    {
        if num_samples - start > MAX_BLOCK_SIZE {
            start + MAX_BLOCK_SIZE
        } else {
            num_samples
        }
    }

    /// The splitter of a buffer of `num_samples` samples, at its first block.
    pub fn new(num_samples: usize) -> (r: Self)
        ensures
            r.wf(),
            r.total() == num_samples,
            r.start() == 0,
            r.end() == block_end_after(0, num_samples as int),
    {
        BlockSplitter { num_samples, block_start: 0, block_end: Self::end_after(0, num_samples) }
    }

    /// Whether samples remain to be rendered.
    pub fn has_block(&self) -> (r: bool)
        ensures
            r == (self.start() < self.total()),
    {
        self.block_start < self.num_samples
    }

    /// The first sample of the current block.
    pub fn block_start(&self) -> (r: usize)
        ensures
            r == self.start(),
    {
        self.block_start
    }

    /// The sample after the last one of the current block.
    pub fn block_end(&self) -> (r: usize)
        ensures
            r == self.end(),
    {
        self.block_end
    }

    /// Decides what to do with a note event timed at sample `timing`, and
    /// cuts the current block short when the event falls inside it.
    pub fn on_event(&mut self, timing: u32) -> (r: EventAction)
        requires
            old(self).wf(),
        ensures
            final(self).wf(),
            final(self).total() == old(self).total(),
            final(self).start() == old(self).start(),
            timing <= old(self).start() ==> r == EventAction::Handle && final(self).end()
                == old(self).end(),
            old(self).start() < timing < old(self).end() ==> r == EventAction::CutBlock
                && final(self).end() == timing,
            old(self).start() < timing && old(self).end() <= timing ==> r == EventAction::Wait
                && final(self).end() == old(self).end(),
    {
        let t = timing as usize;
        if t <= self.block_start {
            EventAction::Handle
        } else if t < self.block_end {
            self.block_end = t;
            EventAction::CutBlock
        } else {
            EventAction::Wait
        }
    }

    /// Moves on to the block that follows the current one.
    pub fn next_block(&mut self)
        requires
            old(self).wf(),
        ensures
            final(self).wf(),
            final(self).total() == old(self).total(),
            final(self).start() == old(self).end(),
            final(self).end() == block_end_after(old(self).end(), old(self).total()),
            old(self).start() < old(self).total() ==> old(self).start() < final(self).start(),
    {
        self.block_start = self.block_end;
        self.block_end = Self::end_after(self.block_start, self.num_samples);
    }
}

} // verus!
