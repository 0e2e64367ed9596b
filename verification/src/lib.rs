//! A minimal heap allocator for memory-constrained targets.
//!
//! The allocator keeps its bookkeeping in a table of fixed capacity, so it
//! never allocates on its own behalf. Blocks are handed out by extending the
//! heap past the highest block in the table, or by reusing the first freed
//! block that is large enough. Only the highest block is ever removed from
//! the table; a block freed below it stays as a hole that a later request of
//! the same or a smaller size can claim.

pub mod allocator;
pub mod block;
pub mod exclusive;
pub mod fence;
pub mod laws;
pub mod model;

pub use allocator::EspAllocator;
pub use block::{align_up, AllocError, Allocation, Region, ALIGNMENT, TABLE_CAPACITY};
pub use exclusive::{calloc, free, malloc};
pub use fence::memory_fence;
pub use model::BlockTable;
