//! The allocator: a table of fixed capacity and the operations on it.

use crate::block::{align_up, AllocError, Allocation, TABLE_CAPACITY};
use crate::fence::memory_fence;
use crate::model::{fits, BlockTable};
use vstd::prelude::*;

verus! {

/// An allocator that owns its bookkeeping: the heap base, a table of
/// [`TABLE_CAPACITY`] slots and the index of the highest slot in use.
///
/// The table is a plain array inside the value, so the allocator never asks
/// for memory on its own behalf. Its view is the [`BlockTable`] that the
/// slots in use spell out, and that table is well formed at all times: every
/// function that takes an allocator says so of the table it found.
#[derive(Debug)]
pub struct EspAllocator {
    heap_start: usize,
    allocations: [Option<Allocation>; TABLE_CAPACITY],
    alloc_index: isize,
}

/// The table that the slots up to `alloc_index` spell out: the heap base and
/// the blocks of these slots, lowest slot first.
spec fn table_of(
    heap_start: usize,
    slots: Seq<Option<Allocation>>,
    alloc_index: int,
) -> BlockTable {
    BlockTable {
        base: heap_start,
        blocks: Seq::new((alloc_index + 1) as nat, |i: int| slots[i].unwrap()),
    }
}

/// The slots up to `alloc_index` hold a block each.
spec fn slots_in_use(slots: Seq<Option<Allocation>>, alloc_index: int) -> bool {
    &&& -1 <= alloc_index < TABLE_CAPACITY
    &&& forall|i: int| 0 <= i <= alloc_index ==> (#[trigger] slots[i]) is Some
}

impl View for EspAllocator {
    type V = BlockTable;

    /// The heap base and the blocks of the slots in use, lowest slot first.
    closed spec fn view(&self) -> BlockTable {
        table_of(self.heap_start, self.allocations@, self.alloc_index as int)
    }
}

impl EspAllocator {
    /// The slots up to the highest one in use hold a block each.
    pub(crate) closed spec fn slots_wf(&self) -> bool {
        slots_in_use(self.allocations@, self.alloc_index as int)
    }

    /// The invariant of the allocator, which holds of every allocator at
    /// all times: the slots in use hold a block each, and these blocks make
    /// a well-formed table.
    #[verifier::type_invariant]
    pub(crate) open spec fn inv(&self) -> bool {
        self.slots_wf() && self@.wf()
    }

    /// An allocator with an empty table for the heap that begins at
    /// `heap_start`, or `None` when that address is null.
    pub fn new(heap_start: usize) -> (r: Option<EspAllocator>)
        ensures
            r is None <==> heap_start == 0,
            r matches Some(heap) ==> heap@ == BlockTable::empty(heap_start),
    {
        if heap_start == 0 {
            None
        } else {
            let heap = EspAllocator {
                heap_start,
                allocations: [None; TABLE_CAPACITY],
                alloc_index: -1,
            };
            assert(heap@.blocks =~= Seq::empty());
            Some(heap)
        }
    }

    /// The address at which the heap begins.
    pub fn heap_start(&self) -> (r: usize)
        ensures
            r == self@.base,
            self@.wf(),
    {
        proof {
            use_type_invariant(&*self);
        }
        self.heap_start
    }

    /// The number of slots in use, freed blocks below the top included.
    pub fn len(&self) -> (r: usize)
        ensures
            r == self@.blocks.len(),
            r <= TABLE_CAPACITY,
            self@.wf(),
    {
        proof {
            use_type_invariant(&*self);
        }
        (self.alloc_index + 1) as usize
    }

    /// Whether the table holds no block.
    pub fn is_empty(&self) -> (r: bool)
        ensures
            r == (self@.blocks.len() == 0),
            self@.wf(),
    {
        proof {
            use_type_invariant(&*self);
        }
        self.alloc_index == -1
    }

    /// The block in slot `index`, or `None` when the slot is not in use.
    pub fn get(&self, index: usize) -> (r: Option<Allocation>)
        ensures
            r == (if index < self@.blocks.len() {
                Some(self@.blocks[index as int])
            } else {
                None::<Allocation>
            }),
            self@.wf(),
    {
        proof {
            use_type_invariant(&*self);
        }
        if index < self.len() {
            self.allocations[index]
        } else {
            None
        }
    }

    /// Scans the slots in use upwards for the first free block of at least
    /// `need` bytes. Each slot is read behind a barrier.
    fn first_fit(&self, need: usize) -> (r: Option<usize>)
        ensures
            (match r {
                Some(i) => self@.first_fit(need as int) == Some(i as int),
                None => self@.first_fit(need as int) is None,
            }),
    {
        proof {
            use_type_invariant(&*self);
        }
        let len: usize = self.len();
        let mut i: usize = 0;
        while i < len
            invariant
                self.inv(),
                len == self@.blocks.len(),
                i <= len,
                forall|j: int| 0 <= j < i ==> !fits(#[trigger] self@.blocks[j], need as int),
            decreases len - i,
        {
            memory_fence();
            match self.allocations[i] {
                Some(block) => {
                    if block.free && need <= block.size {
                        proof {
                            self@.lemma_first_fit_at(need as int, i as int);
                        }
                        return Some(i);
                    }
                },
                None => {},
            }
            i += 1;
        }
        proof {
            self@.lemma_first_fit_none(need as int);
        }
        None
    }

    /// Scans the slots in use upwards for the first block that begins at
    /// `address`. Each slot is read behind a barrier.
    fn position(&self, address: usize) -> (r: Option<usize>)
        ensures
            (match r {
                Some(i) => self@.position(address) == Some(i as int),
                None => self@.position(address) is None,
            }),
    {
        proof {
            use_type_invariant(&*self);
        }
        let len: usize = self.len();
        let mut i: usize = 0;
        while i < len
            invariant
                self.inv(),
                len == self@.blocks.len(),
                i <= len,
                forall|j: int| 0 <= j < i ==> (#[trigger] self@.blocks[j]).address != address,
            decreases len - i,
        {
            memory_fence();
            match self.allocations[i] {
                Some(block) => {
                    if block.address == address {
                        proof {
                            self@.lemma_position_at(address, i as int);
                        }
                        return Some(i);
                    }
                },
                None => {},
            }
            i += 1;
        }
        proof {
            self@.lemma_position_none(address);
        }
        None
    }

    /// Grants a block of at least `size` bytes and returns its address.
    ///
    /// The size is rounded up to a multiple of eight. The first freed block
    /// that is large enough is claimed whole; failing that, a new block is
    /// put on top of the table, right behind the highest block.
    pub(crate) fn allocate(&mut self, size: u32) -> (r: Result<usize, AllocError>)
        ensures
            old(self)@.wf(),
            (r, final(self)@) == old(self)@.allocate(size),
    {
        proof {
            use_type_invariant(&*self);
            old(self)@.lemma_allocate_wf(size);
        }
        let need: usize = match align_up(size) {
            Some(rounded) => rounded as usize,
            None => {
                return Err(AllocError::SizeOverflow);
            },
        };
        match self.first_fit(need) {
            Some(i) => {
                let block: Allocation = self.allocations[i].unwrap();
                let claimed: Option<Allocation> = Some(
                    Allocation { address: block.address, size: block.size, free: false },
                );
                proof {
                    let slots = self.allocations@.update(i as int, claimed);
                    let after = table_of(self.heap_start, slots, self.alloc_index as int);
                    assert(after.blocks =~= self@.with_flag(i as int, false).blocks);
                }
                self.allocations[i] = claimed;
                Ok(block.address)
            },
            None => {
                if self.len() >= TABLE_CAPACITY {
                    return Err(AllocError::TableFull);
                }
                let start: usize = if self.alloc_index == -1 {
                    self.heap_start
                } else {
                    let top: Allocation = self.allocations[self.alloc_index as usize].unwrap();
                    assert(self@.block_ok(self.alloc_index as int));
                    top.address + top.size
                };
                if need > usize::MAX - start {
                    return Err(AllocError::AddressOverflow);
                }
                let top: usize = (self.alloc_index + 1) as usize;
                let added: Option<Allocation> = Some(
                    Allocation { address: start, size: need, free: false },
                );
                proof {
                    let slots = self.allocations@.update(top as int, added);
                    let kept = table_of(self.heap_start, slots, self.alloc_index as int);
                    let after = table_of(self.heap_start, slots, top as int);
                    assert(kept.blocks =~= self@.blocks);
                    assert(after.blocks =~= self@.with_new_top(need as int).blocks);
                }
                self.allocations[top] = added;
                self.alloc_index = self.alloc_index + 1;
                Ok(start)
            },
        }
    }

    /// Takes back the block that begins at `address`.
    ///
    /// The null address is accepted and changes nothing. The highest block
    /// leaves the table, which makes room for the heap to shrink. A block
    /// below it keeps its slot and is marked free, so that a later request
    /// of at most its size can claim it; marking a block that is free
    /// already changes nothing. An address at which no block begins is
    /// turned down.
    pub(crate) fn release(&mut self, address: usize) -> (r: Result<(), AllocError>)
        ensures
            old(self)@.wf(),
            (r, final(self)@) == old(self)@.release(address),
    {
        proof {
            use_type_invariant(&*self);
            old(self)@.lemma_release_wf(address);
        }
        if address == 0 {
            return Ok(());
        }
        match self.position(address) {
            None => Err(AllocError::UnknownPointer),
            Some(i) => {
                if i as isize == self.alloc_index {
                    proof {
                        let emptied = self.allocations@.update(i as int, None);
                        let shorter = table_of(
                            self.heap_start,
                            self.allocations@,
                            self.alloc_index - 1,
                        );
                        let after = table_of(self.heap_start, emptied, self.alloc_index - 1);
                        assert(shorter.blocks =~= self@.without_top().blocks);
                        assert(after.blocks =~= self@.without_top().blocks);
                    }
                    self.alloc_index = self.alloc_index - 1;
                    self.allocations[i] = None;
                } else {
                    let block: Allocation = self.allocations[i].unwrap();
                    let freed: Option<Allocation> = Some(
                        Allocation { address: block.address, size: block.size, free: true },
                    );
                    proof {
                        let slots = self.allocations@.update(i as int, freed);
                        let after = table_of(self.heap_start, slots, self.alloc_index as int);
                        assert(after.blocks =~= self@.with_flag(i as int, true).blocks);
                    }
                    self.allocations[i] = freed;
                }
                Ok(())
            },
        }
    }
}

} // verus!
