//! A single-writer, multi-reader versioned cell with retroactive reads.
//!
//! The cell publishes its current value through a tagged word whose low bit
//! is the writer's exclusive lock. Readers pin a version by raising its
//! reference count; the writer chooses between mutating the current node in
//! place (when no reader holds it) and publishing a fresh copy, keeping the
//! superseded node reachable as the `previous` snapshot until every reader
//! has let go.

mod reader;
mod shared;
mod sync;
mod utils;
mod writer;

pub use reader::{blocked_step, BlockedReader, BlockedStep, ReadResult, Reader, Ref};
pub use sync::{
    drain_decision, release_wakes, DrainStep, Notifier, COUNT_MASK, DRAIN_SPIN_LIMIT, WAITING_BIT,
};
pub use utils::Backoff;
pub use writer::{CongestedWriter, InPlaceGuard, RetroCell, WriteOutcome};
