//! The memory barrier that precedes every read of a table slot.

use core::sync::atomic::Ordering;
use vstd::prelude::*;

verus! {

/// `core::sync::atomic::fence` orders the memory accesses before it against
/// those after it. It returns nothing, so nothing is claimed of it; it
/// panics when asked for `Relaxed` ordering, which is therefore ruled out.
pub assume_specification[ core::sync::atomic::fence ](order: Ordering)
    requires
        !(order is Relaxed),
;

/// Makes the writes of other execution contexts visible to the reads that
/// follow. The allocator issues it immediately before each read of a table
/// slot, so that a scan never works on a stale slot. Where memory is
/// globally sequential the barrier has no effect.
pub fn memory_fence() {
    core::sync::atomic::fence(Ordering::SeqCst);
}

} // verus!
