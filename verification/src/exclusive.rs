//! The three operations of the allocator, each carried out under exclusive
//! access.

use crate::allocator::EspAllocator;
use crate::block::{aligned_size, AllocError, Region, TABLE_CAPACITY};
use crate::laws::{law_aligned_size, law_granted_block};
use crate::model::BlockTable;
use vstd::prelude::*;

verus! {

/// What an allocator can be asked to do while it is held exclusively.
#[derive(Clone, Copy)]
pub(crate) enum Operation {
    /// Grant a block of at least this many bytes.
    Allocate(u32),
    /// Take back the block that begins at this address.
    Release(usize),
}

impl BlockTable {
    /// One operation under exclusive access: its answer and the table
    /// after it. A request answers with the address it was granted, a
    /// release with the address it was given.
    pub(crate) open spec fn perform(self, operation: Operation) -> (
        Result<usize, AllocError>,
        BlockTable,
    ) {
        match operation {
            Operation::Allocate(size) => self.allocate(size),
            Operation::Release(address) => (
                match self.release(address).0 {
                    Ok(_) => Ok(address),
                    Err(e) => Err(e),
                },
                self.release(address).1,
            ),
        }
    }
}

impl EspAllocator {
    /// Carries out one operation and answers with the address that was
    /// granted or released.
    pub(crate) fn perform(&mut self, operation: Operation) -> (r: Result<usize, AllocError>)
        ensures
            (r, final(self)@) == old(self)@.perform(operation),
    {
        match operation {
            Operation::Allocate(size) => self.allocate(size),
            Operation::Release(address) => match self.release(address) {
                Ok(_) => Ok(address),
                Err(e) => Err(e),
            },
        }
    }
}

/// Carries out `operation` on `heap` inside a critical section.
///
/// `critical_section::with` acquires the critical section, calls the
/// closure it is given once, releases the critical section and returns what
/// the closure returned. The closure here is one call of
/// [`EspAllocator::perform`], so the contract is that of `perform`.
#[verifier::external_body]
fn with_exclusive_access(
    heap: &mut EspAllocator,
    operation: Operation,
) -> (r: Result<usize, AllocError>)
    ensures
        (r, final(heap)@) == old(heap)@.perform(operation),
{
    critical_section::with(|_cs| heap.perform(operation))
}

/// Grants a block of at least `size` bytes and returns its address.
///
/// The size is rounded up to a multiple of eight. The first freed block
/// that is large enough is claimed whole; failing that, a new block is put
/// on top of the table, right behind the highest block. The address that
/// is returned is never null and lies a multiple of eight bytes above the
/// heap base, and the bytes of the block belong to no other block of the
/// table. The whole request runs under exclusive access.
///
/// The request is turned down, and the table left as it was, when the
/// rounded size does not fit in 32 bits, when a new block is needed and
/// the table is full, and when a new block would reach past the end of the
/// address space.
pub fn malloc(heap: &mut EspAllocator, size: u32) -> (r: Result<usize, AllocError>)
    ensures
        old(heap)@.wf(),
        final(heap)@.wf(),
        (r, final(heap)@) == old(heap)@.allocate(size),
        r matches Ok(address) ==> ({
            let slot = old(heap)@.granted_slot(size);
            let blocks = final(heap)@.blocks;
            &&& address != 0
            &&& (address - old(heap)@.base) % 8 == 0
            &&& 0 <= slot < blocks.len()
            &&& blocks[slot].address == address
            &&& blocks[slot].size >= size
            &&& !blocks[slot].free
            &&& forall|j: int|
                0 <= j < slot ==> (#[trigger] blocks[j]).address + blocks[j].size <= address
            &&& forall|j: int|
                slot < j < blocks.len() ==> address + blocks[slot].size <= (
                #[trigger] blocks[j]).address
        }),
        r is Err ==> final(heap)@ == old(heap)@,
        r == Err::<usize, AllocError>(AllocError::SizeOverflow) <==> aligned_size(size as int)
            > u32::MAX,
        r == Err::<usize, AllocError>(AllocError::TableFull) <==> ({
            &&& aligned_size(size as int) <= u32::MAX
            &&& old(heap)@.first_fit(aligned_size(size as int)) is None
            &&& old(heap)@.blocks.len() == TABLE_CAPACITY
        }),
        r == Err::<usize, AllocError>(AllocError::AddressOverflow) <==> ({
            &&& aligned_size(size as int) <= u32::MAX
            &&& old(heap)@.first_fit(aligned_size(size as int)) is None
            &&& old(heap)@.blocks.len() < TABLE_CAPACITY
            &&& old(heap)@.top_end() + aligned_size(size as int) > usize::MAX
        }),
        r != Err::<usize, AllocError>(AllocError::UnknownPointer),
{
    proof {
        use_type_invariant(&*heap);
        heap@.lemma_allocate_wf(size);
        if heap@.allocate(size).0 is Ok {
            law_granted_block(heap@, size);
        }
    }
    with_exclusive_access(heap, Operation::Allocate(size))
}

/// Takes back the block that begins at `address`.
///
/// The null address is accepted at once and changes nothing; any other
/// release runs under exclusive access. The highest block leaves the
/// table. A block below it keeps its slot and is marked free, so that a
/// later request of at most its size can claim it; marking a block that is
/// free already changes nothing. An address at which no block begins is
/// turned down with [`AllocError::UnknownPointer`], and the table is left
/// as it was.
pub fn free(heap: &mut EspAllocator, address: usize) -> (r: Result<(), AllocError>)
    ensures
        old(heap)@.wf(),
        final(heap)@.wf(),
        (r, final(heap)@) == old(heap)@.release(address),
        r is Err ==> final(heap)@ == old(heap)@,
        r is Err <==> r == Err::<(), AllocError>(AllocError::UnknownPointer),
        r is Err <==> address != 0 && forall|i: int|
            0 <= i < old(heap)@.blocks.len() ==> (#[trigger] old(heap)@.blocks[i]).address
                != address,
{
    proof {
        use_type_invariant(&*heap);
        heap@.lemma_release_wf(address);
        heap@.lemma_position(address);
    }
    if address == 0 {
        return Ok(());
    }
    match with_exclusive_access(heap, Operation::Release(address)) {
        Ok(_) => Ok(()),
        Err(e) => Err(e),
    }
}

/// Grants a block for `number` elements of `size` bytes each and returns
/// the region that the caller has to clear: the address of the block and
/// the number of bytes asked for, which lie within the block.
///
/// The block is granted as [`malloc`] grants one for the product of
/// `number` and `size`. A product that does not fit in 32 bits is turned
/// down and leaves the table as it was.
pub fn calloc(heap: &mut EspAllocator, number: u32, size: u32) -> (r: Result<Region, AllocError>)
    ensures
        old(heap)@.wf(),
        final(heap)@.wf(),
        (r, final(heap)@) == old(heap)@.zero_allocate(number, size),
        r matches Ok(region) ==> ({
            let slot = old(heap)@.granted_slot((number * size) as u32);
            let blocks = final(heap)@.blocks;
            &&& region.len == number * size
            &&& region.address != 0
            &&& 0 <= slot < blocks.len()
            &&& blocks[slot].address == region.address
            &&& blocks[slot].size >= region.len
            &&& !blocks[slot].free
        }),
        r is Err ==> final(heap)@ == old(heap)@,
        r == Err::<Region, AllocError>(AllocError::SizeOverflow) <==> aligned_size(number * size)
            > u32::MAX,
{
    proof {
        use_type_invariant(&*heap);
        law_aligned_size(number * size);
    }
    let total: u32 = match number.checked_mul(size) {
        Some(total) => total,
        None => {
            return Err(AllocError::SizeOverflow);
        },
    };
    match malloc(heap, total) {
        Ok(address) => Ok(Region { address, len: total as usize }),
        Err(e) => Err(e),
    }
}

} // verus!
