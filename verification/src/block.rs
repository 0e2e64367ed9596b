//! Block records, the errors of the allocator, and size rounding.

use vstd::prelude::*;

verus! {

/// Every block size is a multiple of this many bytes.
pub const ALIGNMENT: u32 = 8;

/// The number of blocks that the table can hold.
pub const TABLE_CAPACITY: usize = 128;

/// One extent of heap memory that the table keeps track of.
#[derive(Clone, Copy, Debug, PartialEq, Eq, Structural)]
pub struct Allocation {
    /// Address of the first byte of the block.
    pub address: usize,
    /// Length of the block in bytes, a multiple of [`ALIGNMENT`].
    pub size: usize,
    /// Whether the block has been released and may be claimed again.
    pub free: bool,
}

/// A run of heap bytes: what a zeroing request hands back for clearing.
#[derive(Clone, Copy, Debug, PartialEq, Eq, Structural)]
pub struct Region {
    /// Address of the first byte.
    pub address: usize,
    /// Number of bytes.
    pub len: usize,
}

/// Why a request was turned down. A request that fails leaves the table as it was.
#[derive(Clone, Copy, Debug, PartialEq, Eq, Structural)]
pub enum AllocError {
    /// The size, once rounded up, or the product of count and element size,
    /// does not fit in 32 bits.
    SizeOverflow,
    /// No freed block is large enough and the table has no slot left.
    TableFull,
    /// No freed block is large enough and a new block would reach past the
    /// end of the address space.
    AddressOverflow,
    /// The table has no block at the address that was to be released.
    UnknownPointer,
}

/// The least multiple of eight that is not below `size`.
pub open spec fn aligned_size(size: int) -> int {
    ((size + 7) / 8) * 8
}

/// Rounds `size` up to the next multiple of [`ALIGNMENT`], or returns `None`
/// when that multiple does not fit in 32 bits.
pub fn align_up(size: u32) -> (r: Option<u32>)
    ensures
        r == (if aligned_size(size as int) <= u32::MAX {
            Some(aligned_size(size as int) as u32)
        } else {
            None::<u32>
        }),
{
    let rest: u32 = size % ALIGNMENT;
    if rest == 0 {
        Some(size)
    } else {
        size.checked_add(ALIGNMENT - rest)
    }
}

} // verus!
