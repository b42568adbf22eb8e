//! The order of work of a render: block after block, pass after pass.
//!
//! A pass renders every block of the image once. The schedule hands the
//! blocks of a pass out one by one and goes on to the next pass when the last
//! block is out. It hands nothing out once a stop has been asked for. What
//! was rendered until then stays as it is.
use vstd::prelude::*;

verus! {

/// A unit of work: one block in one pass.
#[derive(Clone, Copy, Debug, PartialEq, Eq, Structural)]
pub struct Work {
    pub pass: u32,
    pub block: usize,
}

/// Where a render stands.
#[derive(Clone, Copy, Debug, PartialEq, Eq, Structural)]
pub struct Schedule {
    /// The number of blocks of the image.
    pub blocks: usize,
    /// The number of passes asked for.
    pub passes: u32,
    /// The pass that blocks are handed out of.
    pub pass: u32,
    /// The next block to hand out.
    pub next: usize,
}

/// What to do with a block whose worker failed.
#[derive(Clone, Copy, Debug, PartialEq, Eq, Structural)]
pub enum Recovery {
    /// Render the block once more.
    Retry,
    /// Leave the block out: it adds nothing to the image in this pass.
    Failed,
}

impl Schedule {
    /// Whether the schedule is in order: within its passes, and within the
    /// blocks of its pass.
    pub open spec fn wf(self) -> bool {
        &&& self.pass <= self.passes
        &&& self.pass < self.passes ==> self.next < self.blocks
        &&& self.pass == self.passes ==> self.next == 0
    }

    /// The number of units of work handed out so far.
    pub open spec fn handed_out(self) -> int {
        self.pass * self.blocks + self.next
    }

    /// The number of units of work in all.
    pub open spec fn total(self) -> int {
        self.passes * self.blocks
    }

    /// Whether every unit of work has been handed out.
    pub open spec fn done(self) -> bool {
        self.pass == self.passes
    }

    /// The schedule of a render of `passes` passes over `blocks` blocks.
    /// Without blocks or without passes there is no work.
    pub fn new(blocks: usize, passes: u32) -> (s: Schedule)
        ensures
            s.wf(),
            s.blocks == blocks,
            s.passes == passes,
            s.handed_out() == 0 || s.done(),
            s.done() <==> blocks == 0 || passes == 0,
    {
        if blocks == 0 {
            Schedule { blocks, passes, pass: passes, next: 0 }
        } else {
            Schedule { blocks, passes, pass: 0, next: 0 }
        }
    }

    /// Whether every unit of work has been handed out.
    pub fn is_done(&self) -> (r: bool)
        ensures
            r == self.done(),
    {
        self.pass == self.passes
    }

    /// The passes that are still to begin, and the blocks of the present
    /// pass that are still to hand out.
    pub fn remaining(&self) -> (r: (u32, usize))
        requires
            self.wf(),
        ensures
            self.done() ==> r == (0u32, 0usize),
            !self.done() ==> r.0 == self.passes - self.pass - 1 && r.1 == self.blocks - self.next,
    {
        if self.pass == self.passes {
            (0, 0)
        } else {
            (self.passes - self.pass - 1, self.blocks - self.next)
        }
    }

    /// Hands out the next unit of work: the blocks of a pass in their order,
    /// pass after pass. Returns `None` when all work is out, and whenever
    /// `stop` is set; a stop leaves the schedule as it is.
    pub fn next_block(&mut self, stop: bool) -> (w: Option<Work>)
        requires
            old(self).wf(),
        ensures
            final(self).wf(),
            final(self).blocks == old(self).blocks,
            final(self).passes == old(self).passes,
            w is Some <==> !stop && !old(self).done(),
            w matches Some(work) ==> work.pass == old(self).pass && work.block == old(self).next,
            w is None ==> *final(self) == *old(self),
            w is Some && !final(self).done() ==> final(self).handed_out() == old(self).handed_out()
                + 1,
            w is Some && final(self).done() ==> old(self).handed_out() + 1 == old(self).total(),
    {
        if stop || self.pass == self.passes {
            return None;
        }
        let work = Work { pass: self.pass, block: self.next };
        proof {
            let p = self.pass as int;
            let b = self.blocks as int;
            assert((p + 1) * b == p * b + b) by (nonlinear_arith);
            if p + 1 == self.passes {
                assert(self.passes * self.blocks == (p + 1) * b);
            }
        }
        if self.next + 1 == self.blocks {
            self.pass = self.pass + 1;
            self.next = 0;
        } else {
            self.next = self.next + 1;
        }
        Some(work)
    }

    /// What to do with a block whose worker failed after `failures` earlier
    /// failures on the same block in the same pass: a block is tried again
    /// once and then given up.
    pub fn recover(failures: u32) -> (r: Recovery)
        ensures
            r == Recovery::Retry <==> failures == 0,
    {
        if failures == 0 {
            Recovery::Retry
        } else {
            Recovery::Failed
        }
    }
}

/// A render of no passes has no work: nothing is ever handed out, and the
/// image stays black.
pub proof fn lemma_no_passes(blocks: usize)
    ensures
        (Schedule { blocks, passes: 0, pass: 0, next: 0 }).done(),
        (Schedule { blocks, passes: 0, pass: 0, next: 0 }).wf(),
        (Schedule { blocks, passes: 0, pass: 0, next: 0 }).total() == 0,
{
    assert(0 * blocks == 0) by (nonlinear_arith);
}

/// The units of work are numbered in the order in which they are handed
/// out: no two units share a number, so that no block is rendered twice in a
/// pass.
pub proof fn lemma_work_is_distinct(a: Schedule, b: Schedule)
    requires
        a.wf(),
        b.wf(),
        a.blocks == b.blocks,
        a.passes == b.passes,
        !a.done(),
        !b.done(),
        a.handed_out() == b.handed_out(),
    ensures
        a.pass == b.pass,
        a.next == b.next,
{
    let n = a.blocks as int;
    let pa = a.pass as int;
    let pb = b.pass as int;
    if pa < pb {
        assert(pb * n >= (pa + 1) * n) by (nonlinear_arith)
            requires
                pb >= pa + 1,
                n >= 0,
        ;
        assert((pa + 1) * n == pa * n + n) by (nonlinear_arith);
    } else if pb < pa {
        assert(pa * n >= (pb + 1) * n) by (nonlinear_arith)
            requires
                pa >= pb + 1,
                n >= 0,
        ;
        assert((pb + 1) * n == pb * n + n) by (nonlinear_arith);
    }
}

/// The most blocks for which seeds are kept apart.
pub const SEED_BLOCKS: u64 = 0x1_0000;

/// The most pixels of a block for which seeds are kept apart.
pub const SEED_PIXELS: u64 = 0x1_0000;

/// The seed of the random numbers of one pixel of one block in one pass, as a
/// function of the three.
pub open spec fn seed_spec(pass: u32, block: u32, pixel: u32) -> int {
    pass * 0x1_0000_0000 + (block as int % 0x1_0000) * 0x1_0000 + (pixel as int % 0x1_0000)
}

/// The seed of the random numbers of one pixel of one block in one pass. It
/// depends on nothing else, so that a render comes out the same whichever
/// worker takes which block.
pub fn seed(pass: u32, block: u32, pixel: u32) -> (s: u64)
    ensures
        s == seed_spec(pass, block, pixel),
{
    let b: u64 = (block as u64) % SEED_BLOCKS;
    let p: u64 = (pixel as u64) % SEED_PIXELS;
    (pass as u64) * 0x1_0000_0000 + b * 0x1_0000 + p
}

/// No two units of work share a seed: for block numbers below `SEED_BLOCKS` and
/// pixel numbers below `SEED_PIXELS`, the seed tells pass, block and pixel
/// apart.
pub proof fn lemma_seeds_differ(pass: u32, block: u32, pixel: u32, pass2: u32, block2: u32, pixel2: u32)
    requires
        block < SEED_BLOCKS,
        block2 < SEED_BLOCKS,
        pixel < SEED_PIXELS,
        pixel2 < SEED_PIXELS,
        seed_spec(pass, block, pixel) == seed_spec(pass2, block2, pixel2),
    ensures
        pass == pass2,
        block == block2,
        pixel == pixel2,
{
}

} // verus!
