//! Reader reference counting and the ticket notifier.
//!
//! A node's reference count lives in one 32-bit word: the low 31 bits count
//! the readers that currently pin the node, the high bit marks a writer
//! blocked in a drain. The split lets the last leaving reader decide, from
//! the single word it saw, whether a wake syscall is owed at all.

use vstd::prelude::*;

verus! {

/// High bit of a reference-count word: set while the writer waits for the
/// count to drain to zero.
pub const WAITING_BIT: u32 = 0x8000_0000;

/// Low 31 bits of a reference-count word: the number of live references.
pub const COUNT_MASK: u32 = 0x7FFF_FFFF;

/// How many rounds the drain loop spins before it parks the thread.
pub const DRAIN_SPIN_LIMIT: u32 = 20;

/// Whether the waiter flag is set in a reference-count word.
pub open spec fn word_waiting(w: u32) -> bool {
    w >= WAITING_BIT
}

/// The reader count held in a reference-count word, with the waiter flag
/// masked off.
pub open spec fn word_count(w: u32) -> u32 {
    if word_waiting(w) {
        (w - WAITING_BIT) as u32
    } else {
        w
    }
}

/// The bit-level reading of a count word agrees with the arithmetic one.
pub(crate) proof fn lemma_word_fields(w: u32)
    ensures
        (w & COUNT_MASK) == word_count(w),
        ((w & WAITING_BIT) == 0) == !word_waiting(w),
        (w | WAITING_BIT) == (if word_waiting(w) {
            w
        } else {
            (w + WAITING_BIT) as u32
        }),
{
    assert((w & 0x7FFF_FFFFu32) == (if w >= 0x8000_0000u32 {
        (w - 0x8000_0000u32) as u32
    } else {
        w
    })) by (bit_vector);
    assert(((w & 0x8000_0000u32) == 0) == !(w >= 0x8000_0000u32)) by (bit_vector);
    assert((w | 0x8000_0000u32) == (if w >= 0x8000_0000u32 {
        w
    } else {
        (w + 0x8000_0000u32) as u32
    })) by (bit_vector);
}

/// Whether a reader that saw `prev` as the count word just before its
/// decrement owes the drained writer a wake: true exactly when it was the
/// last reader (count one) and the waiter flag was up.
pub open spec fn spec_release_wakes(prev: u32) -> bool {
    prev == WAITING_BIT + 1
}

/// Decide, from the count word a releasing reader saw before decrementing,
/// whether it must wake the drained writer. At most one wake per drain is
/// issued this way: only the last reader under a raised waiter flag answers
/// true.
pub fn release_wakes(prev: u32) -> (wake: bool)
    ensures
        wake == spec_release_wakes(prev),
{
    prev == WAITING_BIT + 1
}

/// Per-node reader reference count with a waiter flag for the writer's
/// drain. The count equals the number of live references handed out for the
/// node.
pub(crate) struct RefCount {
    pub(crate) state: u32,
}

impl RefCount {
    /// The whole count word.
    pub open(crate) spec fn spec_word(&self) -> u32 {
        self.state
    }

    /// The reader count part of the word.
    pub open(crate) spec fn spec_count(&self) -> u32 {
        word_count(self.state)
    }

    /// Whether the waiter flag is up.
    pub open(crate) spec fn spec_waiting(&self) -> bool {
        word_waiting(self.state)
    }

    pub(crate) fn new() -> (rc: RefCount)
        ensures
            rc.spec_word() == 0,
    {
        RefCount { state: 0 }
    }

    /// Add one reference. The waiter flag rides along untouched.
    pub(crate) fn retain(&mut self)
        requires
            old(self).spec_count() < COUNT_MASK,
        ensures
            final(self).spec_count() == old(self).spec_count() + 1,
            final(self).spec_waiting() == old(self).spec_waiting(),
    {
        self.state = self.state + 1;
    }

    /// Drop one reference, returning the word as it stood before the
    /// decrement: [`spec_release_wakes`] of that word says whether the
    /// caller owes a drained writer a wake.
    pub(crate) fn release(&mut self) -> (prev: u32)
        requires
            old(self).spec_count() >= 1,
        ensures
            prev == old(self).spec_word(),
            final(self).spec_count() == old(self).spec_count() - 1,
            final(self).spec_waiting() == old(self).spec_waiting(),
    {
        let prev = self.state;
        self.state = prev - 1;
        prev
    }

    /// The current reader count, with the waiter flag masked off.
    pub(crate) fn count(&self) -> (c: u32)
        ensures
            c == self.spec_count(),
    {
        proof {
            lemma_word_fields(self.state);
        }
        self.state & COUNT_MASK
    }

    /// Clear the word for a recycled node. Sound only once the node is known
    /// to be quiescent: no outstanding reference and no parked writer.
    pub(crate) fn reset(&mut self)
        requires
            old(self).spec_count() == 0,
            !old(self).spec_waiting(),
        ensures
            final(self).spec_word() == 0,
    {
        self.state = 0;
    }

    /// Block until the count reaches zero. A lone thread of control cannot
    /// be overtaken by a releasing reader, so here the drain precondition is
    /// quiescence and the fast path returns at once; the handshake a
    /// concurrent releaser would follow is spelled out by
    /// [`drain_decision`].
    pub(crate) fn wait_until_zero(&self)
        requires
            self.spec_count() == 0,
    {
        let _now = self.count();
    }
}

/// What the writer's drain loop does next, given the count word it just
/// observed.
#[derive(Clone, Copy, Debug, PartialEq, Eq, Structural)]
pub enum DrainStep {
    /// No reader holds the node: the drain is over.
    Done,
    /// Publish the waiter flag by compare-and-swap to this word, so that the
    /// last reader knows a wake is owed.
    SetWaiting(u32),
    /// Stay on the CPU for one more round.
    Spin,
    /// Park the thread, expecting the count word to still hold this value.
    Sleep(u32),
}

/// One round of the writer's drain protocol: from the count word just
/// observed and the number of spins so far, decide whether the drain is
/// complete, the waiter flag must first be raised, or the writer should
/// spin once more or park.
pub fn drain_decision(observed: u32, spins: u32) -> (step: DrainStep)
    ensures
        word_count(observed) == 0 ==> step == DrainStep::Done,
        word_count(observed) != 0 && !word_waiting(observed) ==> step == DrainStep::SetWaiting(
            (observed + WAITING_BIT) as u32,
        ),
        word_count(observed) != 0 && word_waiting(observed) && spins < DRAIN_SPIN_LIMIT
            ==> step == DrainStep::Spin,
        word_count(observed) != 0 && word_waiting(observed) && spins >= DRAIN_SPIN_LIMIT
            ==> step == DrainStep::Sleep(observed),
{
    proof {
        lemma_word_fields(observed);
    }
    if (observed & COUNT_MASK) == 0 {
        DrainStep::Done
    } else if (observed & WAITING_BIT) == 0 {
        DrainStep::SetWaiting(observed | WAITING_BIT)
    } else if spins < DRAIN_SPIN_LIMIT {
        DrainStep::Spin
    } else {
        DrainStep::Sleep(observed)
    }
}

/// Ticket-based change notifier: a counter that blocked readers compare
/// against a ticket they took earlier. Its numeric value carries no meaning;
/// only equality against a previously read ticket does, so the wraparound
/// of the increment is benign.
pub struct Notifier {
    pub(crate) inner: u32,
}

impl Notifier {
    /// The current ticket value.
    pub open(crate) spec fn spec_ticket(&self) -> u32 {
        self.inner
    }

    pub fn new() -> (n: Notifier)
        ensures
            n.spec_ticket() == 0,
    {
        Notifier { inner: 0 }
    }

    /// Take the current ticket.
    pub fn ticket(&self) -> (t: u32)
        ensures
            t == self.spec_ticket(),
    {
        self.inner
    }

    /// Park until the ticket moves past `expected`. The parking primitive
    /// admits spurious returns at any time, and with a lone thread of
    /// control no later wake could come, so the one sound sequential
    /// refinement returns at once; callers re-check their condition in a
    /// loop, as the blocked-reader protocol does.
    pub fn wait_ticket(&self, expected: u32) {
        let _moved = self.ticket() != expected;
    }

    /// Advance the ticket so every comparison against an older one fails,
    /// releasing any reader parked on it.
    pub fn advance_and_wake(&mut self)
        ensures
            final(self).spec_ticket() == (if old(self).spec_ticket() == u32::MAX {
                0u32
            } else {
                (old(self).spec_ticket() + 1) as u32
            }),
    {
        // A wrapping increment: the concurrent protocol publishes it with
        // a fetch-and-add and then wakes all parked readers.
        if self.inner == u32::MAX {
            self.inner = 0;
        } else {
            self.inner = self.inner + 1;
        }
    }
}

} // verus!
