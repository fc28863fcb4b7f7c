//! The shared hub of the cell: nodes, the tagged publication word, and the
//! word arithmetic for its low-bit lock tag.
//!
//! A node's "address" here is its arena slot encoded as an even, non-zero
//! word, so the word's low bit is free to carry the writer's exclusive-lock
//! tag exactly as a pointer with alignment two would.

use crate::sync::{Notifier, RefCount};
use vstd::prelude::*;

verus! {

/// The low bit of the publication word: set while the writer holds the
/// current node exclusively.
pub const LOCKED: u64 = 1;

/// Cap on how many nodes a cell may ever allocate, so that every encoded
/// node address fits comfortably in the publication word.
pub const MAX_NODES: usize = 0x1000_0000;

/// The encoded address of arena slot `i`: even and non-zero, like a real
/// node pointer of alignment at least two.
pub open(crate) spec fn spec_addr_of(i: int) -> u64 {
    ((i + 1) * 2) as u64
}

/// The arena slot an encoded address designates.
pub open(crate) spec fn spec_idx_of(addr: u64) -> int {
    addr / 2 - 1
}

/// Whether a publication word carries the lock tag.
pub open(crate) spec fn spec_word_locked(w: u64) -> bool {
    w % 2 == 1
}

/// The address part of a publication word, with the lock tag cleared.
pub open(crate) spec fn spec_word_addr(w: u64) -> u64 {
    if spec_word_locked(w) {
        (w - 1) as u64
    } else {
        w
    }
}

/// Encode the address of slot `i`.
pub(crate) fn addr_of(i: usize) -> (addr: u64)
    requires
        i < MAX_NODES,
    ensures
        addr == spec_addr_of(i as int),
{
    ((i as u64) + 1) * 2
}

/// Decode an address back to its arena slot.
pub(crate) fn idx_of(addr: u64) -> (i: usize)
    requires
        addr % 2 == 0,
        2 <= addr,
        spec_idx_of(addr) < MAX_NODES,
    ensures
        i as int == spec_idx_of(addr),
{
    (addr / 2 - 1) as usize
}

/// Whether a publication word carries the lock tag.
pub(crate) fn word_locked(w: u64) -> (l: bool)
    ensures
        l == spec_word_locked(w),
{
    w % 2 == 1
}

/// One cell version: the value it was published with, plus the count of the
/// readers currently pinning it. `owners` is the ghost ledger behind that
/// count: the identities of exactly those live references.
pub(crate) struct Node<T> {
    pub(crate) data: T,
    pub(crate) reader_count: RefCount,
    pub(crate) owners: Ghost<Set<nat>>,
}

impl<T> Node<T> {
    /// A fresh, unpinned node holding `data`.
    pub(crate) fn new(data: T) -> (node: Node<T>)
        ensures
            node.data == data,
            node.reader_count.spec_word() == 0,
            node.owners@ === Set::<nat>::empty(),
    {
        Node { data, reader_count: RefCount::new(), owners: Ghost(Set::empty()) }
    }
}

/// The state both sides see: the tagged publication word, the previous
/// snapshot's address (zero for none), and the notifier blocked readers
/// park on.
pub(crate) struct SharedState {
    pub(crate) current: u64,
    pub(crate) previous: u64,
    pub(crate) notifier: Notifier,
}

} // verus!
