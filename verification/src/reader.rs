//! Reader handles: pinning references, the non-blocking read, and the
//! blocked-reader resolution protocol with retroactive reads.

use crate::shared::idx_of;
use crate::shared::spec_idx_of;
use crate::shared::spec_word_addr;
use crate::shared::spec_word_locked;
use crate::shared::word_locked;
use crate::sync::release_wakes;
use crate::sync::COUNT_MASK;
use crate::writer::RetroCell;
use vstd::prelude::*;

verus! {

broadcast use vstd::set::group_set_axioms;

/// A reference that pins one node of the cell: while it is held, the node's
/// reader count includes it and the node's storage cannot be recycled. It is
/// released by handing it back to [`RetroCell::release`].
pub struct Ref {
    /// Encoded address of the pinned node.
    pub(crate) addr: u64,
    /// Ghost identity of this reference in the pinned node's owner ledger.
    pub(crate) id: Ghost<nat>,
}

impl Ref {
    /// The encoded address of the node this reference pins.
    pub open(crate) spec fn spec_addr(&self) -> u64 {
        self.addr
    }

    /// The ghost identity of this reference.
    pub open(crate) spec fn spec_id(&self) -> nat {
        self.id@
    }

    /// The encoded address of the pinned node. Two references address the
    /// same storage exactly when these values are equal.
    pub fn addr(&self) -> (a: u64)
        ensures
            a == self.spec_addr(),
    {
        self.addr
    }
}

/// What a non-blocking read attempt produced: a pinned reference, or a
/// handle for resolving the writer's exclusive lock.
pub enum ReadResult {
    Success(Ref),
    Blocked(BlockedReader),
}

/// A reader that observed the lock tag on the publication word. It may wait
/// for the writer to release the current node, or read the previous
/// snapshot retroactively meanwhile.
pub struct BlockedReader {}

/// A handle for reading the cell. Freely duplicable; every read goes
/// through the cell it was created with.
#[derive(Clone, Copy)]
pub struct Reader {}

impl Reader {
    /// Try to read the current value without blocking: either pin the
    /// current node, or — when the publication word carries the lock tag —
    /// hand back a [`BlockedReader`] for the resolution protocol.
    pub fn try_read<T>(&self, cell: &mut RetroCell<T>) -> (res: ReadResult)
        requires
            old(cell).wf(),
            !old(cell).locked() ==> old(cell).readers_of_current() < COUNT_MASK,
        ensures
            final(cell).wf(),
            (res is Blocked) <==> old(cell).locked(),
            old(cell).locked() ==> *final(cell) == *old(cell),
            res matches ReadResult::Success(r) ==> {
                &&& final(cell).valid_ref(r)
                &&& final(cell).ref_value(r) == old(cell).value()
                &&& final(cell).ref_on_current(r)
                &&& r.spec_addr() == old(cell).current_addr()
                &&& r.spec_id() == old(cell).ref_stamp()
                &&& final(cell).ref_stamp() == old(cell).ref_stamp() + 1
                &&& final(cell).readers_of_current() == old(cell).readers_of_current() + 1
            },
            final(cell).value() == old(cell).value(),
            final(cell).locked() == old(cell).locked(),
            final(cell).spec_history() == old(cell).spec_history(),
            final(cell).prev_value() == old(cell).prev_value(),
            final(cell).num_nodes() == old(cell).num_nodes(),
            final(cell).garbage_len() == old(cell).garbage_len(),
            final(cell).spec_ticket() == old(cell).spec_ticket(),
            final(cell).readers_of_prev() == old(cell).readers_of_prev(),
            final(cell).current_addr() == old(cell).current_addr(),
            final(cell).previous_addr() == old(cell).previous_addr(),
            final(cell).spec_garbage() == old(cell).spec_garbage(),
            final(cell).spec_pool() == old(cell).spec_pool(),
            RetroCell::counts_preserved_except(*old(cell), *final(cell), old(cell).cur_i()),
            RetroCell::refs_preserved(*old(cell), *final(cell)),
    {
        let curr_val = cell.shared.current;
        if word_locked(curr_val) {
            return ReadResult::Blocked(BlockedReader {});
        }
        // The optimistic retain: raise the count, then validate that the
        // publication word has not moved. A lone owner cannot be raced, so
        // the validation of the concurrent protocol never fails here and
        // its backoff loop collapses to the first iteration.
        let ci = idx_of(curr_val);
        let id = cell.pin(ci);
        ReadResult::Success(Ref { addr: curr_val, id })
    }

    /// Read the current value, waiting out a writer's in-place update
    /// first if one is underway.
    pub fn read<T>(&self, cell: &mut RetroCell<T>) -> (r: Ref)
        requires
            old(cell).wf(),
            !old(cell).locked(),
            old(cell).readers_of_current() < COUNT_MASK,
        ensures
            final(cell).wf(),
            final(cell).valid_ref(r),
            final(cell).ref_value(r) == old(cell).value(),
            final(cell).ref_on_current(r),
            r.spec_addr() == old(cell).current_addr(),
            r.spec_id() == old(cell).ref_stamp(),
            final(cell).ref_stamp() == old(cell).ref_stamp() + 1,
            final(cell).readers_of_current() == old(cell).readers_of_current() + 1,
            final(cell).value() == old(cell).value(),
            final(cell).locked() == old(cell).locked(),
            final(cell).spec_history() == old(cell).spec_history(),
            final(cell).prev_value() == old(cell).prev_value(),
            final(cell).num_nodes() == old(cell).num_nodes(),
            final(cell).garbage_len() == old(cell).garbage_len(),
            final(cell).spec_ticket() == old(cell).spec_ticket(),
            final(cell).readers_of_prev() == old(cell).readers_of_prev(),
            final(cell).current_addr() == old(cell).current_addr(),
            final(cell).previous_addr() == old(cell).previous_addr(),
            final(cell).spec_garbage() == old(cell).spec_garbage(),
            final(cell).spec_pool() == old(cell).spec_pool(),
            RetroCell::counts_preserved_except(*old(cell), *final(cell), old(cell).cur_i()),
            RetroCell::refs_preserved(*old(cell), *final(cell)),
    {
        match self.try_read(cell) {
            ReadResult::Success(r) => r,
            ReadResult::Blocked(blocked) => blocked.wait(cell),
        }
    }

    /// Read the previous snapshot, if one is published: a value the cell
    /// held as current at some strictly earlier moment.
    pub fn read_retro<T>(&self, cell: &mut RetroCell<T>) -> (res: Option<Ref>)
        requires
            old(cell).wf(),
            old(cell).readers_of_prev() < COUNT_MASK,
        ensures
            final(cell).wf(),
            res is Some <==> old(cell).prev_value() is Some,
            res is None ==> *final(cell) == *old(cell),
            res matches Some(r) ==> {
                &&& final(cell).valid_ref(r)
                &&& Some(final(cell).ref_value(r)) == old(cell).prev_value()
                &&& r.spec_addr() == old(cell).previous_addr()
                &&& r.spec_id() == old(cell).ref_stamp()
                &&& final(cell).ref_stamp() == old(cell).ref_stamp() + 1
                &&& final(cell).readers_of_prev() == old(cell).readers_of_prev() + 1
                &&& exists|j: int|
                    0 <= j < old(cell).spec_history().len() - 1 && final(cell).ref_value(r) == old(
                        cell,
                    ).spec_history()[j]
            },
            final(cell).value() == old(cell).value(),
            final(cell).locked() == old(cell).locked(),
            final(cell).spec_history() == old(cell).spec_history(),
            final(cell).prev_value() == old(cell).prev_value(),
            final(cell).readers_of_current() == old(cell).readers_of_current(),
            final(cell).num_nodes() == old(cell).num_nodes(),
            final(cell).garbage_len() == old(cell).garbage_len(),
            final(cell).spec_ticket() == old(cell).spec_ticket(),
            final(cell).current_addr() == old(cell).current_addr(),
            final(cell).previous_addr() == old(cell).previous_addr(),
            final(cell).spec_garbage() == old(cell).spec_garbage(),
            final(cell).spec_pool() == old(cell).spec_pool(),
            RetroCell::counts_preserved_except(
                *old(cell),
                *final(cell),
                spec_idx_of(old(cell).previous_addr()),
            ),
            RetroCell::refs_preserved(*old(cell), *final(cell)),
    {
        cell.retro_pin()
    }
}

/// What a blocked reader does next, given the publication word it has just
/// observed and the notifier ticket it took since the previous observation,
/// if any.
#[derive(Clone, Copy, Debug, PartialEq, Eq, Structural)]
pub enum BlockedStep {
    /// The lock tag is clear: optimistically retain the node at this
    /// address, then validate that the word has not moved.
    TryRetain(u64),
    /// The lock tag is up and no ticket is in hand: take one from the
    /// notifier, then observe the word once more before parking.
    TakeTicket,
    /// The lock tag is still up on the observation after the ticket was
    /// taken: park on the notifier with that ticket.
    Park(u32),
}

/// One round of the blocked-reader resolution protocol: from the
/// publication word just observed and the ticket in hand, decide whether to
/// retain, to take a ticket, or to park. Taking the ticket before the
/// re-observation closes the lost-wakeup window: if the writer released the
/// lock and advanced the notifier between that re-observation and the park,
/// the ticket has moved and the park returns at once.
pub fn blocked_step(observed: u64, ticket: Option<u32>) -> (step: BlockedStep)
    ensures
        !spec_word_locked(observed) ==> step == BlockedStep::TryRetain(spec_word_addr(observed)),
        spec_word_locked(observed) && ticket is None ==> step == BlockedStep::TakeTicket,
        spec_word_locked(observed) ==> (ticket matches Some(t) ==> step == BlockedStep::Park(t)),
{
    if !word_locked(observed) {
        BlockedStep::TryRetain(observed)
    } else {
        match ticket {
            None => BlockedStep::TakeTicket,
            Some(t) => BlockedStep::Park(t),
        }
    }
}

impl BlockedReader {
    /// Wait for the writer to clear the lock tag, then pin the node it
    /// published. The concurrent protocol takes a notifier ticket, re-checks
    /// the word to close the lost-wakeup window, and parks on the ticket; a
    /// lone thread of control can only arrive here after the release, so the
    /// retain-and-validate succeeds at once.
    pub fn wait<T>(self, cell: &mut RetroCell<T>) -> (r: Ref)
        requires
            old(cell).wf(),
            !old(cell).locked(),
            old(cell).readers_of_current() < COUNT_MASK,
        ensures
            final(cell).wf(),
            final(cell).valid_ref(r),
            final(cell).ref_value(r) == old(cell).value(),
            final(cell).ref_on_current(r),
            r.spec_addr() == old(cell).current_addr(),
            r.spec_id() == old(cell).ref_stamp(),
            final(cell).ref_stamp() == old(cell).ref_stamp() + 1,
            final(cell).readers_of_current() == old(cell).readers_of_current() + 1,
            final(cell).value() == old(cell).value(),
            final(cell).locked() == old(cell).locked(),
            final(cell).spec_history() == old(cell).spec_history(),
            final(cell).prev_value() == old(cell).prev_value(),
            final(cell).num_nodes() == old(cell).num_nodes(),
            final(cell).garbage_len() == old(cell).garbage_len(),
            final(cell).spec_ticket() == old(cell).spec_ticket(),
            final(cell).readers_of_prev() == old(cell).readers_of_prev(),
            final(cell).current_addr() == old(cell).current_addr(),
            final(cell).previous_addr() == old(cell).previous_addr(),
            final(cell).spec_garbage() == old(cell).spec_garbage(),
            final(cell).spec_pool() == old(cell).spec_pool(),
            RetroCell::counts_preserved_except(*old(cell), *final(cell), old(cell).cur_i()),
            RetroCell::refs_preserved(*old(cell), *final(cell)),
    {
        let _ticket = cell.shared.notifier.ticket();
        let curr_val = cell.shared.current;
        let ci = idx_of(curr_val);
        let id = cell.pin(ci);
        Ref { addr: curr_val, id }
    }

    /// Read the previous snapshot while still blocked. Safe under the lock:
    /// the snapshot, when published, sits in the writer's garbage queue, so
    /// its storage is live.
    pub fn read_retro<T>(&self, cell: &mut RetroCell<T>) -> (res: Option<Ref>)
        requires
            old(cell).wf(),
            old(cell).readers_of_prev() < COUNT_MASK,
        ensures
            final(cell).wf(),
            res is Some <==> old(cell).prev_value() is Some,
            res is None ==> *final(cell) == *old(cell),
            res matches Some(r) ==> {
                &&& final(cell).valid_ref(r)
                &&& Some(final(cell).ref_value(r)) == old(cell).prev_value()
                &&& r.spec_addr() == old(cell).previous_addr()
                &&& r.spec_id() == old(cell).ref_stamp()
                &&& final(cell).ref_stamp() == old(cell).ref_stamp() + 1
                &&& final(cell).readers_of_prev() == old(cell).readers_of_prev() + 1
                &&& exists|j: int|
                    0 <= j < old(cell).spec_history().len() - 1 && final(cell).ref_value(r) == old(
                        cell,
                    ).spec_history()[j]
            },
            final(cell).value() == old(cell).value(),
            final(cell).locked() == old(cell).locked(),
            final(cell).spec_history() == old(cell).spec_history(),
            final(cell).prev_value() == old(cell).prev_value(),
            final(cell).readers_of_current() == old(cell).readers_of_current(),
            final(cell).num_nodes() == old(cell).num_nodes(),
            final(cell).garbage_len() == old(cell).garbage_len(),
            final(cell).spec_ticket() == old(cell).spec_ticket(),
            final(cell).current_addr() == old(cell).current_addr(),
            final(cell).previous_addr() == old(cell).previous_addr(),
            final(cell).spec_garbage() == old(cell).spec_garbage(),
            final(cell).spec_pool() == old(cell).spec_pool(),
            RetroCell::counts_preserved_except(
                *old(cell),
                *final(cell),
                spec_idx_of(old(cell).previous_addr()),
            ),
            RetroCell::refs_preserved(*old(cell), *final(cell)),
    {
        cell.retro_pin()
    }
}

impl<T> RetroCell<T> {
    /// Borrow the value a reference pins.
    pub fn get(&self, r: &Ref) -> (v: &T)
        requires
            self.wf(),
            self.valid_ref(*r),
        ensures
            *v == self.ref_value(*r),
    {
        let i = idx_of(r.addr);
        &self.slots[i].data
    }

    /// Hand a reference back: the pinned node's reader count drops by one,
    /// and once a superseded node's count reaches zero the writer may
    /// recycle it. In the concurrent protocol the last reader leaving under
    /// a raised waiter flag wakes the drained writer here.
    pub fn release(&mut self, r: Ref)
        requires
            old(self).wf(),
            old(self).valid_ref(r),
        ensures
            final(self).wf(),
            final(self).value() == old(self).value(),
            final(self).locked() == old(self).locked(),
            final(self).spec_history() == old(self).spec_history(),
            final(self).prev_value() == old(self).prev_value(),
            final(self).num_nodes() == old(self).num_nodes(),
            final(self).garbage_len() == old(self).garbage_len(),
            final(self).spec_ticket() == old(self).spec_ticket(),
            final(self).ref_stamp() == old(self).ref_stamp(),
            final(self).current_addr() == old(self).current_addr(),
            final(self).previous_addr() == old(self).previous_addr(),
            final(self).spec_garbage() == old(self).spec_garbage(),
            final(self).spec_pool() == old(self).spec_pool(),
            final(self).ref_readers(r) == old(self).ref_readers(r) - 1,
            !final(self).valid_ref(r),
            old(self).ref_on_current(r) ==> final(self).readers_of_current() == old(
                self,
            ).readers_of_current() - 1,
            !old(self).ref_on_current(r) ==> final(self).readers_of_current() == old(
                self,
            ).readers_of_current(),
            old(self).ref_on_prev(r) ==> final(self).readers_of_prev() == old(
                self,
            ).readers_of_prev() - 1,
            !old(self).ref_on_prev(r) ==> final(self).readers_of_prev() == old(
                self,
            ).readers_of_prev(),
            RetroCell::counts_preserved_except(
                *old(self),
                *final(self),
                spec_idx_of(r.spec_addr()),
            ),
            forall|r2: Ref|
                #[trigger] old(self).valid_ref(r2) && r2.spec_id() != r.spec_id() ==> (final(
                    self).valid_ref(r2) && final(self).ref_value(r2) == old(self).ref_value(r2)),
    {
        let ghost pre = *self;
        let i = idx_of(r.addr);
        let node = &mut self.slots[i];
        proof {
            assert(node.owners@.contains(r.id@));
        }
        let prev_word = node.reader_count.release();
        node.owners = Ghost(node.owners@.remove(r.id@));
        let _wake = release_wakes(prev_word);
        proof {
            let post = *self;
            assert forall|r2: Ref|
                #[trigger] pre.valid_ref(r2) && r2.spec_id() != r.spec_id() implies post.valid_ref(
                r2,
            ) && post.ref_value(r2) == pre.ref_value(r2) by {
                let ri = spec_idx_of(r2.spec_addr());
                if ri == i as int {
                    assert(post.slots@[ri].owners@.contains(r2.spec_id()));
                }
            }
        }
    }
}

} // verus!
