//! The cell and its writer-side operations: path selection between in-place
//! and copy-on-write updates, the garbage queue and node pool, and the
//! guards that scope exclusive access.

use crate::reader::{Reader, Ref};
use crate::shared::{addr_of, idx_of, spec_addr_of, spec_idx_of, spec_word_addr, spec_word_locked,
    Node, SharedState, MAX_NODES};
use crate::sync::{Notifier, COUNT_MASK};
use vstd::prelude::*;

verus! {

broadcast use vstd::set::group_set_axioms;

/// Whether slot index `i` occurs in `s`.
pub open(crate) spec fn seq_has(s: Seq<usize>, i: int) -> bool {
    exists|k: int| 0 <= k < s.len() && (#[trigger] s[k]) as int == i
}

/// A guard for an in-place write: while it exists, the publication word
/// carries the lock tag and the current node may be mutated through the
/// cell. Finishing the guard publishes the mutated value and releases
/// blocked readers.
pub struct InPlaceGuard {
    /// The tagged publication word as it stands while the guard is live.
    pub(crate) locked_val: u64,
}

/// The handle handed back when an in-place attempt found active readers:
/// the caller chooses between draining them and copying.
pub struct CongestedWriter {}

/// Outcome of a write attempt.
pub enum WriteOutcome {
    InPlace(InPlaceGuard),
    Congested(CongestedWriter),
}

/// A single-writer, multi-reader versioned cell. The writer mutates the
/// current node in place when no reader pins it, and otherwise publishes a
/// fresh node, keeping the superseded one as the `previous` snapshot inside
/// the garbage queue until every reader has released it.
pub struct RetroCell<T> {
    /// The tagged publication word, the previous snapshot, the notifier.
    pub(crate) shared: SharedState,
    /// Arena of nodes; encoded addresses designate slots here. Node
    /// addresses are stable for the cell's lifetime, as a heap node's
    /// address would be.
    pub(crate) slots: Vec<Node<T>>,
    /// FIFO of superseded slots awaiting a zero reader count.
    pub(crate) garbage: Vec<usize>,
    /// LIFO of drained slots available for reuse.
    pub(crate) pool: Vec<usize>,
    /// Every value the cell has published, oldest first.
    pub(crate) history: Ghost<Seq<T>>,
    /// For each garbage entry, the position in `history` of the value its
    /// node still holds; always strictly older than the newest entry.
    pub(crate) garbage_vers: Ghost<Seq<int>>,
    /// Ghost stamp source for reference identities: every identity ever
    /// handed out is below this.
    pub(crate) next_ref: Ghost<nat>,
}

impl<T> RetroCell<T> {
    /// Whether the writer currently holds the current node exclusively.
    pub open(crate) spec fn locked(&self) -> bool {
        spec_word_locked(self.shared.current)
    }

    /// The arena slot the publication word designates.
    pub open(crate) spec fn cur_i(&self) -> int {
        spec_idx_of(spec_word_addr(self.shared.current))
    }

    /// The address part of the publication word.
    pub open(crate) spec fn current_addr(&self) -> u64 {
        spec_word_addr(self.shared.current)
    }

    /// The previous snapshot's encoded address; zero for none.
    pub open(crate) spec fn previous_addr(&self) -> u64 {
        self.shared.previous
    }

    /// The value the cell currently holds.
    pub open(crate) spec fn value(&self) -> T {
        self.slots@[self.cur_i()].data
    }

    /// The previous snapshot's value, if one is published.
    pub open(crate) spec fn prev_value(&self) -> Option<T> {
        if self.shared.previous == 0 {
            None
        } else {
            Some(self.slots@[spec_idx_of(self.shared.previous)].data)
        }
    }

    /// Every value the cell has published so far, oldest first; the last
    /// entry is the current value whenever no in-place write is underway.
    pub open(crate) spec fn spec_history(&self) -> Seq<T> {
        self.history@
    }

    /// How many nodes the cell has ever allocated.
    pub open(crate) spec fn num_nodes(&self) -> nat {
        self.slots@.len()
    }

    /// Length of the garbage queue.
    pub open(crate) spec fn garbage_len(&self) -> nat {
        self.garbage@.len()
    }

    /// The slot at the tail of the garbage queue: the newest superseded one.
    pub open(crate) spec fn garbage_tail(&self) -> int {
        self.garbage@.last() as int
    }

    /// The reader count of the current node.
    pub open(crate) spec fn readers_of_current(&self) -> u32 {
        self.slots@[self.cur_i()].reader_count.spec_count()
    }

    /// The reader count of the previous snapshot's node; zero when none is
    /// published.
    pub open(crate) spec fn readers_of_prev(&self) -> u32 {
        if self.shared.previous == 0 {
            0
        } else {
            self.slots@[spec_idx_of(self.shared.previous)].reader_count.spec_count()
        }
    }

    /// The next ghost reference identity to be handed out.
    pub open(crate) spec fn ref_stamp(&self) -> nat {
        self.next_ref@
    }

    /// The notifier's ticket.
    pub open(crate) spec fn spec_ticket(&self) -> u32 {
        self.shared.notifier.spec_ticket()
    }

    /// Whether slot `i` holds a published value: it is the current node or
    /// sits in the garbage queue. Pool slots and out-of-range indices are
    /// not live.
    pub open(crate) spec fn idx_live(&self, i: int) -> bool {
        i == self.cur_i() || seq_has(self.garbage@, i)
    }

    /// Whether slot `i` sits in the pool of recycled nodes.
    pub open(crate) spec fn idx_pooled(&self, i: int) -> bool {
        seq_has(self.pool@, i)
    }

    /// Whether `r` is a reference this cell handed out and has not taken
    /// back: its address decodes to a live slot whose owner ledger carries
    /// the reference's identity.
    pub open(crate) spec fn valid_ref(&self, r: Ref) -> bool {
        let i = spec_idx_of(r.spec_addr());
        &&& r.spec_addr() % 2 == 0
        &&& 2 <= r.spec_addr()
        &&& 0 <= i < self.slots@.len()
        &&& self.idx_live(i)
        &&& self.slots@[i].owners@.contains(r.spec_id())
    }

    /// The value a valid reference pins.
    pub open(crate) spec fn ref_value(&self, r: Ref) -> T {
        self.slots@[spec_idx_of(r.spec_addr())].data
    }

    /// The reader count of the node a reference addresses.
    pub open(crate) spec fn ref_readers(&self, r: Ref) -> u32 {
        self.slots@[spec_idx_of(r.spec_addr())].reader_count.spec_count()
    }

    /// Whether a reference addresses the current node.
    pub open(crate) spec fn ref_on_current(&self, r: Ref) -> bool {
        spec_idx_of(r.spec_addr()) == self.cur_i()
    }

    /// Whether a reference addresses the previous snapshot's node.
    pub open(crate) spec fn ref_on_prev(&self, r: Ref) -> bool {
        self.shared.previous != 0 && spec_idx_of(r.spec_addr()) == spec_idx_of(
            self.shared.previous,
        )
    }

    /// Whether the node a reference addresses sits in the pool.
    pub open(crate) spec fn ref_node_pooled(&self, r: Ref) -> bool {
        self.idx_pooled(spec_idx_of(r.spec_addr()))
    }

    /// The reader count of slot `i`.
    pub open(crate) spec fn readers_at(&self, i: int) -> u32 {
        self.slots@[i].reader_count.spec_count()
    }

    /// No slot's reader count changed.
    pub open(crate) spec fn counts_preserved(pre: Self, post: Self) -> bool {
        forall|i: int|
            0 <= i < pre.slots@.len() ==> #[trigger] post.readers_at(i) == pre.readers_at(i)
    }

    /// No slot's reader count changed, except possibly `except`'s.
    pub open(crate) spec fn counts_preserved_except(pre: Self, post: Self, except: int) -> bool {
        forall|i: int|
            0 <= i < pre.slots@.len() && i != except ==> #[trigger] post.readers_at(i)
                == pre.readers_at(i)
    }

    /// The garbage queue's slots, front first.
    pub open(crate) spec fn spec_garbage(&self) -> Seq<usize> {
        self.garbage@
    }

    /// The pool's slots, oldest first.
    pub open(crate) spec fn spec_pool(&self) -> Seq<usize> {
        self.pool@
    }

    /// Whether the collector has nothing left to do: at most one garbage
    /// entry remains, or the front one is still pinned by a reader.
    pub open(crate) spec fn collected(&self) -> bool {
        self.garbage@.len() <= 1 || self.readers_at(self.garbage@[0] as int) > 0
    }

    /// Whether recycling exactly the first `n` garbage entries follows the
    /// collector's rule: every recycled entry was drained, and the
    /// collector stops only at the queue's last remaining entry or at a
    /// still-pinned front.
    pub open(crate) spec fn gc_prefix_ok(&self, n: int) -> bool {
        &&& 0 <= n <= self.garbage@.len()
        &&& (forall|k: int|
            0 <= k < n ==> self.readers_at((#[trigger] self.garbage@[k]) as int) == 0)
        &&& (self.garbage@.len() - n <= 1 || self.readers_at(self.garbage@[n] as int) > 0)
    }

    /// The copy-on-write transition between `pre` and `post`, with `n`
    /// garbage entries recycled first: the drained prefix moved to the
    /// pool, the superseded current node joined the queue's tail, and the
    /// fresh node came from the back of the pool when one was available
    /// and was allocated otherwise.
    pub open(crate) spec fn cow_shape(pre: Self, post: Self, n: int) -> bool {
        let mid_garbage = pre.garbage@.skip(n);
        let mid_pool = pre.pool@ + pre.garbage@.take(n);
        &&& 0 <= n <= pre.garbage@.len()
        &&& post.garbage@ == mid_garbage.push(pre.cur_i() as usize)
        &&& (mid_pool.len() > 0 ==> {
            &&& post.num_nodes() == pre.num_nodes()
            &&& post.pool@ == mid_pool.drop_last()
            &&& post.cur_i() == mid_pool.last() as int
        })
        &&& (mid_pool.len() == 0 ==> {
            &&& post.num_nodes() == pre.num_nodes() + 1
            &&& post.pool@ == mid_pool
            &&& post.cur_i() == pre.num_nodes()
        })
    }

    /// Whether an in-place guard is the live one of this cell: the writer
    /// holds the lock and the guard carries the tagged word under which it
    /// was handed out.
    pub open(crate) spec fn guard_ok(&self, g: InPlaceGuard) -> bool {
        &&& self.locked()
        &&& g.locked_val == self.shared.current
    }

    /// Every reference valid before stays valid and keeps pinning the same
    /// value.
    pub open(crate) spec fn refs_preserved(pre: Self, post: Self) -> bool {
        forall|r: Ref|
            #[trigger] pre.valid_ref(r) ==> post.valid_ref(r) && post.ref_value(r) == pre.ref_value(
                r,
            )
    }

    /// The cell's invariant.
    pub open(crate) spec fn wf(&self) -> bool {
        &&& 1 <= self.slots@.len() <= MAX_NODES
        // the publication word designates a slot, and its address part
        // round-trips through the encoding
        &&& 2 <= spec_word_addr(self.shared.current)
        &&& spec_word_addr(self.shared.current) == spec_addr_of(self.cur_i())
        &&& 0 <= self.cur_i() < self.slots@.len()
        // the previous snapshot, when published, is exactly the tail of the
        // garbage queue
        &&& (self.shared.previous == 0 || (self.garbage@.len() >= 1 && self.shared.previous
            == spec_addr_of(self.garbage@.last() as int)))
        // garbage and pool hold real slots, each at most once, disjointly,
        // and never the current node
        &&& (forall|k: int|
            0 <= k < self.garbage@.len() ==> (#[trigger] self.garbage@[k]) < self.slots@.len())
        &&& (forall|k: int|
            0 <= k < self.pool@.len() ==> (#[trigger] self.pool@[k]) < self.slots@.len())
        &&& self.garbage@.no_duplicates()
        &&& self.pool@.no_duplicates()
        &&& (forall|i: int| #[trigger] seq_has(self.garbage@, i) ==> !seq_has(self.pool@, i))
        &&& !seq_has(self.garbage@, self.cur_i())
        &&& !seq_has(self.pool@, self.cur_i())
        // the owner ledger: each slot's reader count equals the number of
        // live references to it, every identity is below the stamp, and no
        // waiter flag is up (a lone owner is never mid-drain)
        &&& (forall|i: int|
            0 <= i < self.slots@.len() ==> {
                let node = #[trigger] self.slots@[i];
                &&& !node.reader_count.spec_waiting()
                &&& node.owners@.finite()
                &&& node.reader_count.spec_count() == node.owners@.len()
                &&& (forall|id: nat| #[trigger] node.owners@.contains(id) ==> id < self.next_ref@)
            })
        // pool slots are quiescent
        &&& (forall|k: int|
            0 <= k < self.pool@.len() ==> self.slots@[(
            #[trigger] self.pool@[k]) as int].reader_count.spec_count() == 0)
        // while the writer holds the lock, no reader pins the current node
        &&& (self.locked() ==> self.slots@[self.cur_i()].reader_count.spec_count() == 0)
        // history: the cell has published at least its initial value; when
        // no write is underway the current node holds the newest entry; and
        // every garbage node holds some strictly older entry
        &&& 1 <= self.history@.len()
        &&& (!self.locked() ==> self.slots@[self.cur_i()].data == self.history@.last())
        &&& self.garbage_vers@.len() == self.garbage@.len()
        &&& (forall|k: int|
            0 <= k < self.garbage@.len() ==> {
                &&& 0 <= #[trigger] self.garbage_vers@[k] < self.history@.len() - 1
                &&& self.slots@[self.garbage@[k] as int].data == self.history@[self.garbage_vers@[k]]
            })
    }

    /// Create a cell holding `initial`, together with a reader handle for
    /// it. The node encoding keeps every node address even and non-zero, as
    /// the alignment of a heap node would.
    pub fn new(initial: T) -> (r: (RetroCell<T>, Reader))
        ensures
            r.0.wf(),
            r.0.value() == initial,
            !r.0.locked(),
            r.0.prev_value() is None,
            r.0.spec_history() == seq![initial],
            r.0.readers_of_current() == 0,
            r.0.num_nodes() == 1,
            r.0.garbage_len() == 0,
            r.0.ref_stamp() == 0,
            forall|rf: Ref| !r.0.valid_ref(rf),
    {
        let ghost init = initial;
        let ghost initial_history: Seq<T> = seq![init];
        let node = Node::new(initial);
        let mut slots: Vec<Node<T>> = Vec::new();
        slots.push(node);
        let cell = RetroCell {
            shared: SharedState { current: addr_of(0), previous: 0, notifier: Notifier::new() },
            slots,
            garbage: Vec::new(),
            pool: Vec::new(),
            history: Ghost(initial_history),
            garbage_vers: Ghost(Seq::empty()),
            next_ref: Ghost(0),
        };
        proof {
            assert(cell.spec_history() =~= seq![init]);
            assert forall|rf: Ref| !cell.valid_ref(rf) by {
                if 0 <= spec_idx_of(rf.spec_addr()) < 1 {
                    assert(!cell.slots@[0].owners@.contains(rf.spec_id()));
                }
            }
        }
        (cell, Reader {})
    }

    /// Raise slot `i`'s reader count by one and record a fresh reference
    /// identity for it in the owner ledger.
    pub(crate) fn pin(&mut self, i: usize) -> (id: Ghost<nat>)
        requires
            old(self).wf(),
            i < old(self).num_nodes(),
            old(self).idx_live(i as int),
            old(self).locked() ==> i as int != old(self).cur_i(),
            old(self).slots@[i as int].reader_count.spec_count() < COUNT_MASK,
        ensures
            final(self).wf(),
            id@ == old(self).ref_stamp(),
            final(self).ref_stamp() == old(self).ref_stamp() + 1,
            final(self).shared == old(self).shared,
            final(self).garbage@ == old(self).garbage@,
            final(self).pool@ == old(self).pool@,
            final(self).history@ == old(self).history@,
            final(self).garbage_vers@ == old(self).garbage_vers@,
            final(self).slots@.len() == old(self).slots@.len(),
            forall|j: int|
                0 <= j < old(self).slots@.len() && j != i as int ==> final(self).slots@[j] == old(
                    self,
                ).slots@[j],
            final(self).slots@[i as int].data == old(self).slots@[i as int].data,
            final(self).slots@[i as int].owners@ == old(self).slots@[i as int].owners@.insert(id@),
            final(self).slots@[i as int].reader_count.spec_count() == old(self).slots@[i
                as int].reader_count.spec_count() + 1,
            Self::counts_preserved_except(*old(self), *final(self), i as int),
            Self::refs_preserved(*old(self), *final(self)),
    {
        let ghost pre = *self;
        let ghost id: nat = self.next_ref@;
        let node = &mut self.slots[i];
        node.reader_count.retain();
        node.owners = Ghost(node.owners@.insert(id));
        self.next_ref = Ghost(self.next_ref@ + 1);
        proof {
            let post = *self;
            assert(!pre.slots@[i as int].owners@.contains(id));
            assert(post.slots@ =~= pre.slots@.update(
                i as int,
                post.slots@[i as int],
            ));
            assert forall|r: Ref| #[trigger] pre.valid_ref(r) implies post.valid_ref(r)
                && post.ref_value(r) == pre.ref_value(r) by {
                let ri = spec_idx_of(r.spec_addr());
                if ri == i as int {
                    assert(post.slots@[ri].owners@.contains(r.spec_id()));
                }
            }
        }
        Ghost(id)
    }

    /// Pin the previous snapshot, if one is published. Safe even while the
    /// writer holds the lock: the snapshot sits in the garbage queue, never
    /// in the pool, so its storage is live, and it is never the locked
    /// current node.
    pub(crate) fn retro_pin(&mut self) -> (res: Option<Ref>)
        requires
            old(self).wf(),
            old(self).readers_of_prev() < COUNT_MASK,
        ensures
            final(self).wf(),
            res is Some <==> old(self).prev_value() is Some,
            res is None ==> *final(self) == *old(self),
            res matches Some(r) ==> {
                &&& final(self).valid_ref(r)
                &&& Some(final(self).ref_value(r)) == old(self).prev_value()
                &&& r.spec_addr() == old(self).previous_addr()
                &&& r.spec_id() == old(self).ref_stamp()
                &&& final(self).ref_stamp() == old(self).ref_stamp() + 1
                &&& final(self).readers_of_prev() == old(self).readers_of_prev() + 1
                &&& exists|j: int|
                    0 <= j < old(self).spec_history().len() - 1 && final(self).ref_value(r) == old(
                        self,
                    ).spec_history()[j]
            },
            final(self).value() == old(self).value(),
            final(self).locked() == old(self).locked(),
            final(self).spec_history() == old(self).spec_history(),
            final(self).prev_value() == old(self).prev_value(),
            final(self).readers_of_current() == old(self).readers_of_current(),
            final(self).num_nodes() == old(self).num_nodes(),
            final(self).garbage_len() == old(self).garbage_len(),
            final(self).spec_ticket() == old(self).spec_ticket(),
            final(self).current_addr() == old(self).current_addr(),
            final(self).previous_addr() == old(self).previous_addr(),
            final(self).spec_garbage() == old(self).spec_garbage(),
            final(self).spec_pool() == old(self).spec_pool(),
            Self::counts_preserved_except(
                *old(self),
                *final(self),
                spec_idx_of(old(self).previous_addr()),
            ),
            Self::refs_preserved(*old(self), *final(self)),
    {
        let ghost pre = *self;
        let prev = self.shared.previous;
        if prev == 0 {
            return None;
        }
        proof {
            let tail: int = pre.garbage@.last() as int;
            assert(pre.garbage@[pre.garbage@.len() - 1] < pre.slots@.len());
            assert(prev == spec_addr_of(tail));
            assert(seq_has(pre.garbage@, tail));
            assert(spec_idx_of(prev) == tail);
        }
        let pi = idx_of(prev);
        let ghost j = pre.garbage_vers@.last();
        let id = self.pin(pi);
        proof {
            assert(self.slots@[pi as int].data == pre.spec_history()[j]);
        }
        Some(Ref { addr: prev, id })
    }

    /// Law: a live reference is counted. The node a valid reference pins
    /// carries a reader count of at least one and does not sit in the
    /// recycling pool — and since the collector only recycles nodes whose
    /// count reads zero, no node is freed while a reference to it exists.
    pub proof fn lemma_ref_pins_node(&self, r: Ref)
        requires
            self.wf(),
            self.valid_ref(r),
        ensures
            self.ref_readers(r) >= 1,
            !self.ref_node_pooled(r),
    {
        let i = spec_idx_of(r.spec_addr());
        assert(self.slots@[i].owners@.contains(r.spec_id()));
        assert(self.slots@[i].owners@.len() != 0);
        if self.ref_node_pooled(r) {
            let m = choose|m: int|
                0 <= m < self.pool@.len() && (#[trigger] self.pool@[m]) as int == i;
            assert(self.slots@[self.pool@[m] as int].reader_count.spec_count() == 0);
        }
    }

    /// Law: what the cell publishes is live. The pointer part of the
    /// publication word is non-null and even — an address aligned enough to
    /// spare its low bit for the lock tag — and it designates an allocated
    /// node that is not in the recycling pool.
    pub proof fn lemma_current_published(&self)
        requires
            self.wf(),
        ensures
            self.current_addr() != 0,
            self.current_addr() % 2 == 0,
            self.current_addr() == spec_addr_of(self.cur_i()),
            0 <= self.cur_i() < self.num_nodes(),
            !self.idx_pooled(self.cur_i()),
    {
        assert(self.current_addr() == ((self.cur_i() + 1) * 2) as u64);
        assert(0 <= self.cur_i() < MAX_NODES);
        assert((self.cur_i() + 1) * 2 % 2 == 0);
    }

    /// Law: the previous snapshot is never dangling. Whenever a previous
    /// address is published, the garbage queue is non-empty and its tail is
    /// exactly that node, so the snapshot's storage is still owned by the
    /// collector.
    pub proof fn lemma_previous_is_garbage_tail(&self)
        requires
            self.wf(),
        ensures
            self.previous_addr() != 0 ==> self.garbage_len() >= 1 && self.previous_addr()
                == spec_addr_of(self.garbage_tail()),
            (self.previous_addr() != 0) <==> (self.prev_value() is Some),
    {
    }

    /// Law: reads are never stale. Whenever no in-place write is underway,
    /// the current node holds exactly the newest entry of the publication
    /// history; a read that follows any completed write therefore observes
    /// a value no older than the one that write installed.
    pub proof fn lemma_current_is_newest(&self)
        requires
            self.wf(),
            !self.locked(),
        ensures
            self.spec_history().len() >= 1,
            self.value() == self.spec_history().last(),
    {
    }

    /// Recycle drained garbage nodes into the pool. The front of the queue
    /// moves only while more than one entry remains: the tail is what
    /// `previous` designates, so keeping at least one entry keeps the
    /// snapshot's address live even when no reader currently pins it.
    fn collect_garbage(&mut self)
        requires
            old(self).wf(),
            !old(self).locked(),
        ensures
            final(self).wf(),
            final(self).shared == old(self).shared,
            final(self).slots@ == old(self).slots@,
            final(self).garbage_len() <= old(self).garbage_len(),
            final(self).ref_stamp() == old(self).ref_stamp(),
            final(self).spec_history() == old(self).spec_history(),
            final(self).readers_of_prev() == old(self).readers_of_prev(),
            final(self).previous_addr() == old(self).previous_addr(),
            final(self).collected(),
            old(self).gc_prefix_ok(old(self).garbage_len() - final(self).garbage_len()),
            final(self).spec_garbage() == old(self).spec_garbage().skip(
                old(self).garbage_len() - final(self).garbage_len(),
            ),
            final(self).spec_pool() == old(self).spec_pool() + old(self).spec_garbage().take(
                old(self).garbage_len() - final(self).garbage_len(),
            ),
            Self::counts_preserved(*old(self), *final(self)),
            Self::refs_preserved(*old(self), *final(self)),
    {
        proof {
            assert(old(self).garbage@.skip(0) =~= old(self).garbage@);
            assert(old(self).garbage@.take(0) =~= Seq::<usize>::empty());
            assert(old(self).pool@ + old(self).garbage@.take(0) =~= old(self).pool@);
        }
        while self.garbage.len() > 1 && self.slots[self.garbage[0]].reader_count.count() == 0
            invariant
                self.wf(),
                !self.locked(),
                self.shared == old(self).shared,
                self.slots@ == old(self).slots@,
                self.garbage_len() <= old(self).garbage_len(),
                self.ref_stamp() == old(self).ref_stamp(),
                self.spec_history() == old(self).spec_history(),
                self.garbage@ == old(self).garbage@.skip(
                    old(self).garbage@.len() - self.garbage@.len(),
                ),
                self.pool@ == old(self).pool@ + old(self).garbage@.take(
                    old(self).garbage@.len() - self.garbage@.len(),
                ),
                forall|k: int|
                    0 <= k < old(self).garbage@.len() - self.garbage@.len() ==> old(
                        self,
                    ).readers_at((#[trigger] old(self).garbage@[k]) as int) == 0,
                Self::refs_preserved(*old(self), *self),
            decreases self.garbage@.len(),
        {
            let ghost pre = *self;
            let idx = self.garbage.remove(0);
            self.garbage_vers = Ghost(self.garbage_vers@.drop_first());
            self.pool.push(idx);
            proof {
                let post = *self;
                let f = pre.garbage@[0];
                let n = old(self).garbage@.len() - pre.garbage@.len();
                assert(post.garbage@ =~= pre.garbage@.drop_first());
                assert(post.garbage_vers@ =~= pre.garbage_vers@.drop_first());
                // the queue and pool advance by one more recycled entry
                assert(f == old(self).garbage@[n]);
                assert(old(self).garbage@.skip(n).drop_first() =~= old(self).garbage@.skip(n + 1));
                assert(old(self).garbage@.take(n).push(old(self).garbage@[n]) =~= old(
                    self,
                ).garbage@.take(n + 1));
                assert((old(self).pool@ + old(self).garbage@.take(n)).push(f) =~= old(self).pool@
                    + old(self).garbage@.take(n).push(f));
                assert(post.garbage@ =~= old(self).garbage@.skip(n + 1));
                assert(post.pool@ =~= old(self).pool@ + old(self).garbage@.take(n + 1));
                // the recycled entry was drained
                assert(old(self).readers_at(old(self).garbage@[n] as int) == 0);
                assert(forall|k: int|
                    0 <= k < post.garbage@.len() ==> #[trigger] post.garbage@[k] == pre.garbage@[k
                        + 1]);
                assert(forall|k: int|
                    0 <= k < post.garbage_vers@.len() ==> #[trigger] post.garbage_vers@[k]
                        == pre.garbage_vers@[k + 1]);
                // the tail, and with it the previous snapshot, is untouched
                assert(post.garbage@.last() == pre.garbage@.last());
                // the popped front is quiescent and therefore unreferenced
                assert(pre.slots@[f as int].owners@.len() == 0);
                // the front came from the queue, so it was not pooled yet
                assert(seq_has(pre.garbage@, f as int));
                assert(!seq_has(pre.pool@, f as int));
                assert forall|m: int| 0 <= m < pre.pool@.len() implies pre.pool@[m] != f by {
                    if pre.pool@[m] == f {
                        assert(seq_has(pre.pool@, f as int));
                    }
                }
                assert(post.pool@.no_duplicates());
                // the front occurs nowhere else in the queue, so the new
                // queue and pool stay disjoint
                assert forall|i: int| #[trigger] seq_has(post.garbage@, i) implies !seq_has(
                    post.pool@,
                    i,
                ) by {
                    let k = choose|k: int|
                        0 <= k < post.garbage@.len() && (#[trigger] post.garbage@[k]) as int == i;
                    assert(pre.garbage@[k + 1] as int == i);
                    assert(seq_has(pre.garbage@, i));
                    assert(i != f as int);
                    if seq_has(post.pool@, i) {
                        let m = choose|m: int|
                            0 <= m < post.pool@.len() && (#[trigger] post.pool@[m]) as int == i;
                        assert(m < pre.pool@.len());
                        assert(seq_has(pre.pool@, i));
                    }
                }
                assert(!seq_has(post.garbage@, post.cur_i()));
                assert forall|i: int| #[trigger] seq_has(post.pool@, i) implies i
                    == f as int || seq_has(pre.pool@, i) by {
                    let m = choose|m: int|
                        0 <= m < post.pool@.len() && (#[trigger] post.pool@[m]) as int == i;
                    if m < pre.pool@.len() {
                        assert(seq_has(pre.pool@, i));
                    }
                }
                assert(!seq_has(post.pool@, post.cur_i()));
                // every reference that was valid still is: none pinned the
                // recycled front
                assert forall|r: Ref| #[trigger] pre.valid_ref(r) implies post.valid_ref(r)
                    && post.ref_value(r) == pre.ref_value(r) by {
                    let ri = spec_idx_of(r.spec_addr());
                    if ri != post.cur_i() {
                        let k = choose|k: int|
                            0 <= k < pre.garbage@.len() && (#[trigger] pre.garbage@[k]) as int
                                == ri;
                        if k == 0 {
                            assert(pre.slots@[ri].owners@.contains(r.spec_id()));
                        } else {
                            assert(post.garbage@[k - 1] as int == ri);
                            assert(seq_has(post.garbage@, ri));
                        }
                    }
                }
                assert(post.wf());
            }
        }
    }

    /// Try to write: collect garbage, then take the in-place path when no
    /// reader pins the current node, tagging the publication word; with
    /// readers active, hand the choice back as a [`CongestedWriter`].
    pub fn try_write(&mut self) -> (res: WriteOutcome)
        requires
            old(self).wf(),
            !old(self).locked(),
        ensures
            final(self).wf(),
            (res is InPlace) <==> old(self).readers_of_current() == 0,
            res matches WriteOutcome::InPlace(g) ==> final(self).locked() && final(self).guard_ok(
                g,
            ),
            res is Congested ==> !final(self).locked(),
            final(self).value() == old(self).value(),
            final(self).spec_history() == old(self).spec_history(),
            final(self).prev_value() == old(self).prev_value(),
            final(self).readers_of_current() == old(self).readers_of_current(),
            final(self).num_nodes() == old(self).num_nodes(),
            final(self).ref_stamp() == old(self).ref_stamp(),
            final(self).spec_ticket() == old(self).spec_ticket(),
            final(self).garbage_len() <= old(self).garbage_len(),
            final(self).readers_of_prev() == old(self).readers_of_prev(),
            final(self).current_addr() == old(self).current_addr(),
            final(self).previous_addr() == old(self).previous_addr(),
            final(self).collected(),
            old(self).gc_prefix_ok(old(self).garbage_len() - final(self).garbage_len()),
            final(self).spec_garbage() == old(self).spec_garbage().skip(
                old(self).garbage_len() - final(self).garbage_len(),
            ),
            final(self).spec_pool() == old(self).spec_pool() + old(self).spec_garbage().take(
                old(self).garbage_len() - final(self).garbage_len(),
            ),
            Self::counts_preserved(*old(self), *final(self)),
            Self::refs_preserved(*old(self), *final(self)),
    {
        self.collect_garbage();
        let curr_val = self.shared.current;
        let ci = idx_of(curr_val);
        if self.slots[ci].reader_count.count() == 0 {
            // Tag the publication word: a reader arriving now observes the
            // lock and routes to the blocked-reader protocol. In the
            // concurrent protocol a reader could still raise the count
            // between the check and the swap, forcing a rollback and a
            // notifier wake; a lone owner cannot be raced, so the re-check
            // of the count is statically satisfied.
            let locked_val = curr_val + 1;
            self.shared.current = locked_val;
            WriteOutcome::InPlace(InPlaceGuard { locked_val })
        } else {
            WriteOutcome::Congested(CongestedWriter {})
        }
    }

    /// Copy-on-write update: collect garbage, then publish a fresh node
    /// holding the value `f` produces from the current one; `f`'s second
    /// result is handed back to the caller.
    pub fn write_cow<R, F: FnOnce(&T) -> (T, R)>(&mut self, f: F) -> (res: R)
        requires
            old(self).wf(),
            !old(self).locked(),
            old(self).num_nodes() < MAX_NODES,
            call_requires(f, (&old(self).value(),)),
        ensures
            final(self).wf(),
            !final(self).locked(),
            call_ensures(f, (&old(self).value(),), (final(self).value(), res)),
            final(self).spec_history() == old(self).spec_history().push(final(self).value()),
            final(self).prev_value() == Some(old(self).value()),
            final(self).previous_addr() == old(self).current_addr(),
            final(self).current_addr() != old(self).current_addr(),
            final(self).readers_of_current() == 0,
            final(self).num_nodes() <= old(self).num_nodes() + 1,
            final(self).ref_stamp() == old(self).ref_stamp(),
            final(self).readers_of_prev() == old(self).readers_of_current(),
            exists|n: int|
                #[trigger] Self::cow_shape(*old(self), *final(self), n) && old(self).gc_prefix_ok(
                    n,
                ),
            Self::counts_preserved(*old(self), *final(self)),
            Self::refs_preserved(*old(self), *final(self)),
    {
        let ghost pre = *self;
        self.collect_garbage();
        let ghost mid = *self;
        let ghost n0 = pre.garbage@.len() - mid.garbage@.len();
        let w = CongestedWriter {};
        let result = w.perform_cow(self, f);
        proof {
            let post = *self;
            // the collection stage and the publication stage compose into
            // one copy-on-write shape over the entry state
            assert(mid.garbage@.skip(0) =~= mid.garbage@);
            assert(mid.garbage@.take(0) =~= Seq::<usize>::empty());
            assert(mid.pool@ + mid.garbage@.take(0) =~= mid.pool@);
            assert(mid.cur_i() == pre.cur_i());
            assert(post.garbage@ == pre.garbage@.skip(n0).push(pre.cur_i() as usize));
            assert(pre.pool@ + pre.garbage@.take(n0) == mid.pool@);
            assert(Self::cow_shape(pre, post, n0));
        }
        result
    }

    /// Take the in-place path unconditionally: collect garbage, tag the
    /// publication word, and drain the readers of the current node. A lone
    /// thread of control can only drain an already-quiescent node, so that
    /// is required here; the handshake a concurrent drain follows is
    /// [`crate::sync::drain_decision`].
    pub fn write_in_place(&mut self) -> (g: InPlaceGuard)
        requires
            old(self).wf(),
            !old(self).locked(),
            old(self).readers_of_current() == 0,
        ensures
            final(self).wf(),
            final(self).locked(),
            final(self).guard_ok(g),
            final(self).value() == old(self).value(),
            final(self).spec_history() == old(self).spec_history(),
            final(self).prev_value() == old(self).prev_value(),
            final(self).readers_of_current() == 0,
            final(self).num_nodes() == old(self).num_nodes(),
            final(self).ref_stamp() == old(self).ref_stamp(),
            final(self).spec_ticket() == old(self).spec_ticket(),
            final(self).readers_of_prev() == old(self).readers_of_prev(),
            final(self).current_addr() == old(self).current_addr(),
            final(self).previous_addr() == old(self).previous_addr(),
            final(self).collected(),
            old(self).gc_prefix_ok(old(self).garbage_len() - final(self).garbage_len()),
            final(self).spec_garbage() == old(self).spec_garbage().skip(
                old(self).garbage_len() - final(self).garbage_len(),
            ),
            final(self).spec_pool() == old(self).spec_pool() + old(self).spec_garbage().take(
                old(self).garbage_len() - final(self).garbage_len(),
            ),
            Self::counts_preserved(*old(self), *final(self)),
            Self::refs_preserved(*old(self), *final(self)),
    {
        self.collect_garbage();
        let w = CongestedWriter {};
        w.force_in_place(self)
    }

    /// Borrow the value under an in-place guard.
    pub fn guard_get(&self, g: &InPlaceGuard) -> (v: &T)
        requires
            self.wf(),
            self.guard_ok(*g),
        ensures
            *v == self.value(),
    {
        let ci = idx_of(self.shared.current - 1);
        &self.slots[ci].data
    }

    /// Replace the value under an in-place guard. The mutation is exclusive:
    /// no reader pins the locked node, so no pinned value moves.
    pub fn guard_set(&mut self, g: &InPlaceGuard, v: T)
        requires
            old(self).wf(),
            old(self).guard_ok(*g),
        ensures
            final(self).wf(),
            final(self).guard_ok(*g),
            final(self).locked(),
            final(self).value() == v,
            final(self).spec_history() == old(self).spec_history(),
            final(self).prev_value() == old(self).prev_value(),
            final(self).readers_of_current() == 0,
            final(self).num_nodes() == old(self).num_nodes(),
            final(self).ref_stamp() == old(self).ref_stamp(),
            final(self).spec_ticket() == old(self).spec_ticket(),
            final(self).readers_of_prev() == old(self).readers_of_prev(),
            final(self).previous_addr() == old(self).previous_addr(),
            final(self).spec_garbage() == old(self).spec_garbage(),
            final(self).spec_pool() == old(self).spec_pool(),
            Self::counts_preserved(*old(self), *final(self)),
            Self::refs_preserved(*old(self), *final(self)),
    {
        let ghost pre = *self;
        let ci = idx_of(self.shared.current - 1);
        let node = &mut self.slots[ci];
        node.data = v;
        proof {
            let post = *self;
            assert forall|r: Ref| #[trigger] pre.valid_ref(r) implies post.valid_ref(r)
                && post.ref_value(r) == pre.ref_value(r) by {
                let ri = spec_idx_of(r.spec_addr());
                if ri == ci as int {
                    assert(pre.slots@[ri].owners@.len() == 0);
                }
            }
        }
    }

    /// Finish an in-place write: clear the lock tag, so the mutated value
    /// is published, and wake blocked readers through the notifier. Any
    /// later read observes the value as mutated.
    pub fn finish_in_place(&mut self, g: InPlaceGuard)
        requires
            old(self).wf(),
            old(self).guard_ok(g),
        ensures
            final(self).wf(),
            !final(self).locked(),
            final(self).value() == old(self).value(),
            final(self).spec_history() == old(self).spec_history().push(old(self).value()),
            final(self).prev_value() == old(self).prev_value(),
            final(self).readers_of_current() == 0,
            final(self).num_nodes() == old(self).num_nodes(),
            final(self).ref_stamp() == old(self).ref_stamp(),
            final(self).spec_ticket() == (if old(self).spec_ticket() == u32::MAX {
                0u32
            } else {
                (old(self).spec_ticket() + 1) as u32
            }),
            final(self).readers_of_prev() == old(self).readers_of_prev(),
            final(self).current_addr() == old(self).current_addr(),
            final(self).previous_addr() == old(self).previous_addr(),
            final(self).spec_garbage() == old(self).spec_garbage(),
            final(self).spec_pool() == old(self).spec_pool(),
            Self::counts_preserved(*old(self), *final(self)),
            Self::refs_preserved(*old(self), *final(self)),
    {
        let ghost pre = *self;
        // Clear the tag: the store publishes every write made under the
        // guard.
        self.shared.current = g.locked_val - 1;
        self.history = Ghost(self.history@.push(pre.value()));
        // Release any reader parked on the old, tagged word.
        self.shared.notifier.advance_and_wake();
        proof {
            let post = *self;
            assert(post.spec_history().last() == pre.value());
            assert forall|k: int| 0 <= k < post.garbage@.len() implies 0
                <= #[trigger] post.garbage_vers@[k] < post.history@.len() - 1
                && post.slots@[post.garbage@[k] as int].data
                == post.history@[post.garbage_vers@[k]] by {
                assert(0 <= pre.garbage_vers@[k] < pre.history@.len() - 1);
            }
        }
    }
}

impl CongestedWriter {
    /// Acquire the in-place path regardless of congestion: tag the
    /// publication word, then drain the current node's readers. A lone
    /// thread of control can only drain an already-quiescent node, so that
    /// is required here; a concurrent drain parks on the node's own count
    /// word, never on the notifier, following
    /// [`crate::sync::drain_decision`].
    pub fn force_in_place<T>(self, cell: &mut RetroCell<T>) -> (g: InPlaceGuard)
        requires
            old(cell).wf(),
            !old(cell).locked(),
            old(cell).readers_of_current() == 0,
        ensures
            final(cell).wf(),
            final(cell).locked(),
            final(cell).guard_ok(g),
            final(cell).value() == old(cell).value(),
            final(cell).spec_history() == old(cell).spec_history(),
            final(cell).prev_value() == old(cell).prev_value(),
            final(cell).readers_of_current() == 0,
            final(cell).num_nodes() == old(cell).num_nodes(),
            final(cell).ref_stamp() == old(cell).ref_stamp(),
            final(cell).spec_ticket() == old(cell).spec_ticket(),
            final(cell).garbage_len() == old(cell).garbage_len(),
            final(cell).readers_of_prev() == old(cell).readers_of_prev(),
            final(cell).current_addr() == old(cell).current_addr(),
            final(cell).previous_addr() == old(cell).previous_addr(),
            final(cell).spec_garbage() == old(cell).spec_garbage(),
            final(cell).spec_pool() == old(cell).spec_pool(),
            RetroCell::counts_preserved(*old(cell), *final(cell)),
            RetroCell::refs_preserved(*old(cell), *final(cell)),
    {
        let curr_val = cell.shared.current;
        // Tag the word first: readers arriving during the drain route to
        // the blocked-reader protocol.
        let locked_val = curr_val + 1;
        cell.shared.current = locked_val;
        let ci = idx_of(curr_val);
        cell.slots[ci].reader_count.wait_until_zero();
        InPlaceGuard { locked_val }
    }

    /// Copy-on-write: build a fresh node whose value `f` produces from the
    /// current one, publish it, enroll the superseded node in the garbage
    /// queue, and only then expose it as the previous snapshot — in that
    /// order, so no reader can see a snapshot the collector has no record
    /// of.
    pub fn perform_cow<T, R, F: FnOnce(&T) -> (T, R)>(self, cell: &mut RetroCell<T>, f: F) -> (res:
        R)
        requires
            old(cell).wf(),
            !old(cell).locked(),
            old(cell).num_nodes() < MAX_NODES,
            call_requires(f, (&old(cell).value(),)),
        ensures
            final(cell).wf(),
            !final(cell).locked(),
            call_ensures(f, (&old(cell).value(),), (final(cell).value(), res)),
            final(cell).spec_history() == old(cell).spec_history().push(final(cell).value()),
            final(cell).prev_value() == Some(old(cell).value()),
            final(cell).previous_addr() == old(cell).current_addr(),
            final(cell).current_addr() != old(cell).current_addr(),
            final(cell).readers_of_current() == 0,
            final(cell).num_nodes() <= old(cell).num_nodes() + 1,
            final(cell).garbage_len() == old(cell).garbage_len() + 1,
            final(cell).ref_stamp() == old(cell).ref_stamp(),
            final(cell).readers_of_prev() == old(cell).readers_of_current(),
            RetroCell::cow_shape(*old(cell), *final(cell), 0),
            RetroCell::counts_preserved(*old(cell), *final(cell)),
            RetroCell::refs_preserved(*old(cell), *final(cell)),
    {
        let ghost pre = *cell;
        let ci = idx_of(cell.shared.current);
        let (new_data, result) = f(&cell.slots[ci].data);
        let ghost nv = new_data;
        // Obtain storage: reuse a drained node from the pool, or allocate.
        let ni: usize;
        if cell.pool.len() > 0 {
            let p = cell.pool.pop().unwrap();
            let node = &mut cell.slots[p];
            node.reader_count.reset();
            node.data = new_data;
            ni = p;
        } else {
            ni = cell.slots.len();
            cell.slots.push(Node::new(new_data));
        }
        let new_addr = addr_of(ni);
        let old_val = cell.shared.current;
        // Publish the fresh node...
        cell.shared.current = new_addr;
        // ...enroll the superseded one in the garbage queue...
        cell.garbage.push(ci);
        cell.garbage_vers = Ghost(cell.garbage_vers@.push(pre.history@.len() - 1));
        // ...and only then expose it as the previous snapshot.
        cell.shared.previous = old_val;
        cell.history = Ghost(cell.history@.push(nv));
        // Wake any reader that parked on the superseded word.
        cell.shared.notifier.advance_and_wake();
        proof {
            let post = *cell;
            // where the fresh node came from: the back of the pool, or a
            // new slot past every existing index
            if pre.pool@.len() > 0 {
                assert(pre.pool@[pre.pool@.len() - 1] as int == ni as int);
                assert(seq_has(pre.pool@, ni as int));
                assert(!seq_has(pre.garbage@, ni as int));
                assert forall|k: int| 0 <= k < pre.garbage@.len() implies pre.garbage@[k]
                    != ni by {
                    if pre.garbage@[k] == ni {
                        assert(seq_has(pre.garbage@, ni as int));
                    }
                }
                assert forall|m: int| 0 <= m < post.pool@.len() implies post.pool@[m] != ni by {
                    assert(post.pool@[m] == pre.pool@[m]);
                    assert(pre.pool@[m] != pre.pool@[pre.pool@.len() - 1]);
                }
            } else {
                assert(ni as int == pre.slots@.len());
            }
            assert(ni as int != ci as int);
            assert(post.cur_i() == ni as int);
            assert(post.garbage@ =~= pre.garbage@.push(ci));
            assert(post.garbage@.last() == ci);
            assert(forall|k: int|
                0 <= k < pre.garbage@.len() ==> #[trigger] post.garbage@[k] == pre.garbage@[k]);
            assert forall|i: int| #[trigger] seq_has(post.garbage@, i) implies i == ci as int
                || seq_has(pre.garbage@, i) by {
                let k = choose|k: int|
                    0 <= k < post.garbage@.len() && (#[trigger] post.garbage@[k]) as int == i;
                if k < pre.garbage@.len() {
                    assert(seq_has(pre.garbage@, i));
                }
            }
            assert forall|i: int| #[trigger] seq_has(post.pool@, i) implies seq_has(
                pre.pool@,
                i,
            ) by {
                let m = choose|m: int|
                    0 <= m < post.pool@.len() && (#[trigger] post.pool@[m]) as int == i;
                assert(pre.pool@[m] as int == i);
            }
            assert forall|i: int| #[trigger] seq_has(pre.garbage@, i) implies seq_has(
                post.garbage@,
                i,
            ) by {
                let k = choose|k: int|
                    0 <= k < pre.garbage@.len() && (#[trigger] pre.garbage@[k]) as int == i;
                assert(post.garbage@[k] as int == i);
            }
            // the node that left the pool is not in the garbage queue
            assert(!seq_has(post.garbage@, post.cur_i()));
            assert(!seq_has(post.pool@, post.cur_i()));
            // the garbage ledger: old entries kept their slots and
            // versions; the new tail holds the value that was current
            assert forall|k: int| 0 <= k < post.garbage@.len() implies 0
                <= #[trigger] post.garbage_vers@[k] < post.history@.len() - 1
                && post.slots@[post.garbage@[k] as int].data
                == post.history@[post.garbage_vers@[k]] by {
                if k < pre.garbage@.len() {
                    assert(0 <= pre.garbage_vers@[k] < pre.history@.len() - 1);
                    assert(pre.garbage@[k] as int != ni as int);
                } else {
                    assert(post.garbage@[k] == ci);
                    assert(post.garbage_vers@[k] == pre.history@.len() - 1);
                }
            }
            assert(post.wf());
            assert forall|r: Ref| #[trigger] pre.valid_ref(r) implies post.valid_ref(r)
                && post.ref_value(r) == pre.ref_value(r) by {
                let ri = spec_idx_of(r.spec_addr());
                if ri == ni as int {
                    assert(pre.slots@[ri].owners@.len() == 0);
                } else {
                    if ri == pre.cur_i() {
                        assert(post.garbage@[post.garbage@.len() - 1] as int == ri);
                        assert(seq_has(post.garbage@, ri));
                    }
                }
            }
            // no reader count moved: the reused slot was quiescent and
            // stays so after its reset
            assert forall|i: int| 0 <= i < pre.slots@.len() implies post.readers_at(i)
                == pre.readers_at(i) by {
                if i == ni as int {
                    assert(pre.slots@[i].reader_count.spec_count() == 0);
                }
            }
            // the transition has the copy-on-write shape with nothing
            // recycled first
            assert(pre.garbage@.skip(0) =~= pre.garbage@);
            assert(pre.garbage@.take(0) =~= Seq::<usize>::empty());
            assert(pre.pool@ + pre.garbage@.take(0) =~= pre.pool@);
            assert(ci == pre.cur_i() as usize);
            assert(post.garbage@ == pre.garbage@.skip(0).push(pre.cur_i() as usize));
            if pre.pool@.len() > 0 {
                assert(post.pool@ =~= pre.pool@.drop_last());
                assert(post.cur_i() == pre.pool@.last() as int);
            }
            assert(RetroCell::cow_shape(pre, post, 0));
        }
        result
    }
}

} // verus!
