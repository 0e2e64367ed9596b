//! The block table as a mathematical value, and what each operation does to it.
//!
//! Everything here is ghost code: the executable allocator is proved to
//! follow these transitions step by step.

use crate::block::{aligned_size, AllocError, Allocation, Region, TABLE_CAPACITY};
use vstd::prelude::*;

verus! {

/// Whether a request for `need` bytes may claim `block`: the block has been
/// released and is at least that large.
pub open spec fn fits(block: Allocation, need: int) -> bool {
    block.free && need <= block.size
}

/// The blocks that a request for `need` bytes may claim.
pub open spec fn fitting(need: int) -> spec_fn(Allocation) -> bool {
    |b: Allocation| fits(b, need)
}

/// The blocks that begin at `address`.
pub open spec fn starting_at(address: usize) -> spec_fn(Allocation) -> bool {
    |b: Allocation| b.address == address
}

/// Whether `i` is the least index of `blocks` whose block satisfies `wanted`.
pub open spec fn is_first_where(
    blocks: Seq<Allocation>,
    wanted: spec_fn(Allocation) -> bool,
    i: int,
) -> bool {
    &&& 0 <= i < blocks.len()
    &&& wanted(blocks[i])
    &&& forall|j: int| 0 <= j < i ==> !wanted(#[trigger] blocks[j])
}

/// The least index of `blocks` whose block satisfies `wanted`, if there is one.
pub open spec fn first_where(
    blocks: Seq<Allocation>,
    wanted: spec_fn(Allocation) -> bool,
) -> Option<int> {
    if exists|i: int| is_first_where(blocks, wanted, i) {
        Some(choose|i: int| is_first_where(blocks, wanted, i))
    } else {
        None
    }
}

/// A least index is the only least index.
pub proof fn lemma_first_where_found(
    blocks: Seq<Allocation>,
    wanted: spec_fn(Allocation) -> bool,
    i: int,
)
    requires
        is_first_where(blocks, wanted, i),
    ensures
        first_where(blocks, wanted) == Some(i),
{
    // Of two least indices neither can lie below the other.
    let c = choose|k: int| is_first_where(blocks, wanted, k);
    assert(c == i);
}

/// Below any index that holds a wanted block lies a least such index.
proof fn lemma_least_exists(blocks: Seq<Allocation>, wanted: spec_fn(Allocation) -> bool, k: int)
    requires
        0 <= k < blocks.len(),
        wanted(blocks[k]),
    ensures
        exists|i: int| is_first_where(blocks, wanted, i),
    decreases k,
{
    if forall|j: int| 0 <= j < k ==> !wanted(#[trigger] blocks[j]) {
        assert(is_first_where(blocks, wanted, k));
    } else {
        let j = choose|j: int| 0 <= j < k && wanted(#[trigger] blocks[j]);
        lemma_least_exists(blocks, wanted, j);
    }
}

/// What `first_where` returns: the least index that holds a wanted block, or
/// `None` exactly when no block is wanted.
pub proof fn lemma_first_where(blocks: Seq<Allocation>, wanted: spec_fn(Allocation) -> bool)
    ensures
        (match first_where(blocks, wanted) {
            Some(i) => is_first_where(blocks, wanted, i),
            None => forall|j: int| 0 <= j < blocks.len() ==> !wanted(#[trigger] blocks[j]),
        }),
{
    if first_where(blocks, wanted) is None {
        assert forall|j: int| 0 <= j < blocks.len() implies !wanted(#[trigger] blocks[j]) by {
            if wanted(blocks[j]) {
                lemma_least_exists(blocks, wanted, j);
            }
        }
    }
}

/// The state of an allocator: where its heap begins and the blocks of its
/// table, lowest slot first.
pub struct BlockTable {
    /// Address of the first byte of the heap.
    pub base: usize,
    /// The blocks in table order, which is also the order of their addresses.
    pub blocks: Seq<Allocation>,
}

impl BlockTable {
    /// The table that holds no block.
    pub open spec fn empty(base: usize) -> BlockTable {
        BlockTable { base, blocks: Seq::empty() }
    }

    /// The address just past the highest block, where the next new block
    /// begins; the heap base while the table is empty.
    pub open spec fn top_end(self) -> int {
        if self.blocks.len() == 0 {
            self.base as int
        } else {
            self.blocks.last().address + self.blocks.last().size
        }
    }

    /// Block `i` begins where the block below it ends, and the lowest block
    /// begins at the heap base.
    pub open spec fn chained(self, i: int) -> bool {
        self.blocks[i].address == if i == 0 {
            self.base as int
        } else {
            self.blocks[i - 1].address + self.blocks[i - 1].size
        }
    }

    /// Block `i` has a rounded size, lies within the address space and
    /// continues the chain of blocks below it.
    pub open spec fn block_ok(self, i: int) -> bool {
        &&& self.blocks[i].size % 8 == 0
        &&& self.blocks[i].size <= u32::MAX
        &&& self.blocks[i].address + self.blocks[i].size <= usize::MAX
        &&& self.chained(i)
    }

    /// The invariant of the table: the heap base is not null, the table is
    /// within its capacity, and the blocks tile the heap from its base
    /// upwards without gaps.
    pub open spec fn wf(self) -> bool {
        &&& self.base != 0
        &&& self.blocks.len() <= TABLE_CAPACITY
        &&& forall|i: int| 0 <= i < self.blocks.len() ==> #[trigger] self.block_ok(i)
    }

    /// The slot that a request for `need` bytes claims: the lowest one whose
    /// block is free and large enough.
    pub open spec fn first_fit(self, need: int) -> Option<int> {
        first_where(self.blocks, fitting(need))
    }

    /// The slot that a release of `address` acts on: the lowest one whose
    /// block begins there.
    pub open spec fn position(self, address: usize) -> Option<int> {
        first_where(self.blocks, starting_at(address))
    }

    /// The table with the free flag of block `i` set to `free`.
    pub open spec fn with_flag(self, i: int, free: bool) -> BlockTable {
        BlockTable {
            base: self.base,
            blocks: self.blocks.update(
                i,
                Allocation { address: self.blocks[i].address, size: self.blocks[i].size, free },
            ),
        }
    }

    /// The table with a new live block of `size` bytes on top.
    pub open spec fn with_new_top(self, size: int) -> BlockTable {
        BlockTable {
            base: self.base,
            blocks: self.blocks.push(
                Allocation { address: self.top_end() as usize, size: size as usize, free: false },
            ),
        }
    }

    /// The table without its highest block.
    pub open spec fn without_top(self) -> BlockTable {
        BlockTable { base: self.base, blocks: self.blocks.drop_last() }
    }

    /// The slot whose block a request for `size` bytes is granted, if it is
    /// granted: the first fit, or else the slot on top of the table.
    pub open spec fn granted_slot(self, size: u32) -> int {
        match self.first_fit(aligned_size(size as int)) {
            Some(i) => i,
            None => self.blocks.len() as int,
        }
    }

    /// A request for `size` bytes: its answer and the table after it.
    ///
    /// The size is rounded up to a multiple of eight. The lowest free block
    /// that is large enough is claimed as it is, without being shrunk.
    /// Failing that, a new block is put on top of the table.
    pub open spec fn allocate(self, size: u32) -> (Result<usize, AllocError>, BlockTable) {
        let need = aligned_size(size as int);
        if need > u32::MAX {
            (Err(AllocError::SizeOverflow), self)
        } else {
            match self.first_fit(need) {
                Some(i) => (Ok(self.blocks[i].address), self.with_flag(i, false)),
                None => if self.blocks.len() >= TABLE_CAPACITY {
                    (Err(AllocError::TableFull), self)
                } else if self.top_end() + need > usize::MAX {
                    (Err(AllocError::AddressOverflow), self)
                } else {
                    (Ok(self.top_end() as usize), self.with_new_top(need))
                },
            }
        }
    }

    /// A release of `address`: its answer and the table after it.
    ///
    /// The null address is accepted and changes nothing. The highest block
    /// leaves the table. A block below it stays and is marked free, also
    /// when it was free already.
    pub open spec fn release(self, address: usize) -> (Result<(), AllocError>, BlockTable) {
        if address == 0 {
            (Ok(()), self)
        } else {
            match self.position(address) {
                None => (Err(AllocError::UnknownPointer), self),
                Some(i) => if i == self.blocks.len() - 1 {
                    (Ok(()), self.without_top())
                } else {
                    (Ok(()), self.with_flag(i, true))
                },
            }
        }
    }

    /// A request for `count` elements of `element_size` bytes each: a
    /// request for the product, answered with the region to be cleared,
    /// and turned down when the product does not fit in 32 bits.
    pub open spec fn zero_allocate(self, count: u32, element_size: u32) -> (
        Result<Region, AllocError>,
        BlockTable,
    ) {
        let total = count * element_size;
        if total > u32::MAX {
            (Err(AllocError::SizeOverflow), self)
        } else {
            (
                match self.allocate(total as u32).0 {
                    Ok(address) => Ok(Region { address, len: total as usize }),
                    Err(e) => Err(e),
                },
                self.allocate(total as u32).1,
            )
        }
    }

    /// A request for `size` bytes followed at once by the release of what
    /// was granted: the table after both. A request that is turned down
    /// has nothing to release.
    pub open spec fn cycle(self, size: u32) -> BlockTable {
        match self.allocate(size).0 {
            Ok(address) => self.allocate(size).1.release(address).1,
            Err(_) => self.allocate(size).1,
        }
    }

    /// The table after the requests for `sizes` bytes, made one after the
    /// other and never released.
    pub open spec fn after_requests(self, sizes: Seq<u32>) -> BlockTable
        decreases sizes.len(),
    {
        if sizes.len() == 0 {
            self
        } else {
            self.after_requests(sizes.drop_last()).allocate(sizes.last()).1
        }
    }

    /// The answer to request `k` of the run `sizes`, which is made of the
    /// table that the `k` requests before it have left.
    pub open spec fn answer_to_request(self, sizes: Seq<u32>, k: int) -> Result<usize, AllocError> {
        self.after_requests(sizes.take(k)).allocate(sizes[k]).0
    }

    /// The table after one cycle of request and release for each of
    /// `sizes`, one after the other.
    pub open spec fn after_cycles(self, sizes: Seq<u32>) -> BlockTable
        decreases sizes.len(),
    {
        if sizes.len() == 0 {
            self
        } else {
            self.after_cycles(sizes.drop_last()).cycle(sizes.last())
        }
    }

    /// No block of the table is free.
    pub open spec fn all_live(self) -> bool {
        forall|i: int| 0 <= i < self.blocks.len() ==> !(#[trigger] self.blocks[i]).free
    }

    /// What `first_fit` returns: the lowest slot whose block fits, or
    /// `None` exactly when no block fits.
    pub proof fn lemma_first_fit(self, need: int)
        ensures
            (match self.first_fit(need) {
                Some(i) => {
                    &&& 0 <= i < self.blocks.len()
                    &&& fits(self.blocks[i], need)
                    &&& forall|j: int| 0 <= j < i ==> !fits(#[trigger] self.blocks[j], need)
                },
                None => forall|j: int|
                    0 <= j < self.blocks.len() ==> !fits(#[trigger] self.blocks[j], need),
            }),
    {
        lemma_first_where(self.blocks, fitting(need));
    }

    /// A slot whose block fits, below which no block fits, is the first fit.
    pub proof fn lemma_first_fit_at(self, need: int, i: int)
        requires
            0 <= i < self.blocks.len(),
            fits(self.blocks[i], need),
            forall|j: int| 0 <= j < i ==> !fits(#[trigger] self.blocks[j], need),
        ensures
            self.first_fit(need) == Some(i),
    {
        lemma_first_where_found(self.blocks, fitting(need), i);
    }

    /// Where no block fits there is no first fit.
    pub proof fn lemma_first_fit_none(self, need: int)
        requires
            forall|j: int| 0 <= j < self.blocks.len() ==> !fits(#[trigger] self.blocks[j], need),
        ensures
            self.first_fit(need) is None,
    {
        lemma_first_where(self.blocks, fitting(need));
    }

    /// What `position` returns: the lowest slot whose block begins at
    /// `address`, or `None` exactly when no block begins there.
    pub proof fn lemma_position(self, address: usize)
        ensures
            (match self.position(address) {
                Some(i) => {
                    &&& 0 <= i < self.blocks.len()
                    &&& self.blocks[i].address == address
                    &&& forall|j: int| 0 <= j < i ==> (#[trigger] self.blocks[j]).address != address
                },
                None => forall|j: int|
                    0 <= j < self.blocks.len() ==> (#[trigger] self.blocks[j]).address != address,
            }),
    {
        lemma_first_where(self.blocks, starting_at(address));
    }

    /// A slot whose block begins at `address`, below which no block does,
    /// is the position of `address`.
    pub proof fn lemma_position_at(self, address: usize, i: int)
        requires
            0 <= i < self.blocks.len(),
            self.blocks[i].address == address,
            forall|j: int| 0 <= j < i ==> (#[trigger] self.blocks[j]).address != address,
        ensures
            self.position(address) == Some(i),
    {
        lemma_first_where_found(self.blocks, starting_at(address), i);
    }

    /// Where no block begins at `address`, the address has no position.
    pub proof fn lemma_position_none(self, address: usize)
        requires
            forall|j: int|
                0 <= j < self.blocks.len() ==> (#[trigger] self.blocks[j]).address != address,
        ensures
            self.position(address) is None,
    {
        lemma_first_where(self.blocks, starting_at(address));
    }

    /// Setting the free flag of a block keeps the table well formed.
    pub proof fn lemma_with_flag_wf(self, i: int, free: bool)
        requires
            self.wf(),
            0 <= i < self.blocks.len(),
        ensures
            self.with_flag(i, free).wf(),
    {
        let after = self.with_flag(i, free);
        assert forall|k: int| 0 <= k < after.blocks.len() implies #[trigger] after.block_ok(k) by {
            assert(self.block_ok(k));
        }
    }

    /// Putting a rounded block on top keeps the table well formed, as long
    /// as a slot is left and the block ends within the address space.
    pub proof fn lemma_with_new_top_wf(self, size: int)
        requires
            self.wf(),
            self.blocks.len() < TABLE_CAPACITY,
            0 <= size <= u32::MAX,
            size % 8 == 0,
            self.top_end() + size <= usize::MAX,
        ensures
            self.with_new_top(size).wf(),
    {
        let after = self.with_new_top(size);
        assert forall|k: int| 0 <= k < after.blocks.len() implies #[trigger] after.block_ok(k) by {
            if k < self.blocks.len() {
                assert(self.block_ok(k));
            }
        }
    }

    /// Taking the highest block away keeps the table well formed.
    pub proof fn lemma_without_top_wf(self)
        requires
            self.wf(),
            self.blocks.len() > 0,
        ensures
            self.without_top().wf(),
    {
        let after = self.without_top();
        assert forall|k: int| 0 <= k < after.blocks.len() implies #[trigger] after.block_ok(k) by {
            assert(self.block_ok(k));
        }
    }

    /// A request keeps the table well formed, whatever its answer.
    pub proof fn lemma_allocate_wf(self, size: u32)
        requires
            self.wf(),
        ensures
            self.allocate(size).1.wf(),
    {
        let need = aligned_size(size as int);
        if need <= u32::MAX {
            self.lemma_first_fit(need);
            match self.first_fit(need) {
                Some(i) => {
                    self.lemma_with_flag_wf(i, false);
                },
                None => {
                    if self.blocks.len() < TABLE_CAPACITY && self.top_end() + need <= usize::MAX {
                        self.lemma_with_new_top_wf(need);
                    }
                },
            }
        }
    }

    /// A release keeps the table well formed, whatever its answer.
    pub proof fn lemma_release_wf(self, address: usize)
        requires
            self.wf(),
        ensures
            self.release(address).1.wf(),
    {
        if address != 0 {
            self.lemma_position(address);
            match self.position(address) {
                Some(i) => {
                    if i == self.blocks.len() - 1 {
                        self.lemma_without_top_wf();
                    } else {
                        self.lemma_with_flag_wf(i, true);
                    }
                },
                None => {},
            }
        }
    }
}

} // verus!
