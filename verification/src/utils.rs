//! Exponential backoff bookkeeping for retry loops.

use vstd::prelude::*;

verus! {

/// How many snoozes a backoff performs before it recommends yielding the
/// processor instead of spinning.
pub const SPIN_STEPS: u32 = 10;

/// The step counter saturates here; further snoozes keep the same advice.
pub const MAX_BACKOFF_STEPS: u32 = 20;

/// Bookkeeping for an exponential backoff: it counts retry rounds and tells
/// the retrying loop whether a CPU spin or a scheduler yield is the
/// appropriate pause. The pause itself is the caller's: it is a scheduling
/// hint with no effect on the cell's state.
pub struct Backoff {
    pub(crate) step: u32,
}

impl Backoff {
    /// The recorded number of completed rounds, saturated at
    /// [`MAX_BACKOFF_STEPS`].
    pub open(crate) spec fn spec_step(&self) -> u32 {
        self.step
    }

    pub fn new() -> (b: Backoff)
        ensures
            b.spec_step() == 0,
    {
        Backoff { step: 0 }
    }

    /// True once enough rounds have passed that the caller should yield the
    /// processor rather than spin.
    pub fn is_yielding(&self) -> (r: bool)
        ensures
            r == (self.spec_step() >= SPIN_STEPS),
    {
        self.step >= SPIN_STEPS
    }

    /// Record one more retry round; the counter saturates at
    /// [`MAX_BACKOFF_STEPS`].
    pub fn snooze(&mut self)
        ensures
            old(self).spec_step() < MAX_BACKOFF_STEPS ==> final(self).spec_step() == old(
                self,
            ).spec_step() + 1,
            old(self).spec_step() >= MAX_BACKOFF_STEPS ==> final(self).spec_step() == old(
                self,
            ).spec_step(),
    {
        if self.step < MAX_BACKOFF_STEPS {
            self.step = self.step + 1;
        }
    }
}

} // verus!
