//! A byte-granularity heap-allocator core with deferred, size-class-triggered
//! batch reclamation.
//!
//! The core keeps the bookkeeping of an allocator: capacity counters, a table
//! of probe-size thresholds, pending-reclaim records, and a sentinel-driven
//! flush cycle.  The underlying general-purpose space manager (a segregated
//! free-list allocator) is an external collaborator: the host hands this core
//! the space manager's answers as plain values, and receives back the records
//! whose blocks must be returned to the space manager after a flush.

use vstd::prelude::*;

mod byte_allocator;
mod laws;

pub use byte_allocator::LabByteAllocator;
pub use byte_allocator::UnfreedBlock;
pub use byte_allocator::pending_total_seq;
pub use byte_allocator::flushed_records;
pub use byte_allocator::slot_contribution;
pub use laws::lemma_capacity_invariant;
pub use laws::lemma_accounting;
pub use laws::lemma_flush_shift;
pub use laws::lemma_window_transition;
pub use laws::lemma_alloc_run;
pub use laws::lemma_flush_reclaims;
pub use laws::sizes_total;

verus! {

/// Outcome reported to callers when a request cannot be served.
#[derive(Clone, Copy, Debug, PartialEq, Eq, Structural)]
pub enum AllocError {
    /// The space manager rejected a donated region.
    InvalidParam,
    /// No free block of sufficient size and alignment exists.
    NoMemory,
}

} // verus!
