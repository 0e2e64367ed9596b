//! What holds of every table and of every run of operations.

use crate::block::{aligned_size, AllocError};
use crate::model::{fits, BlockTable};
use vstd::prelude::*;

verus! {

/// The rounded size is the least multiple of eight that is not below the
/// size asked for.
pub proof fn law_aligned_size(size: int)
    ensures
        aligned_size(size) % 8 == 0,
        size <= aligned_size(size) < size + 8,
{
}

/// Every block of a well-formed table begins at or above the heap base, at
/// a multiple of eight bytes from it, and never at the null address.
pub proof fn law_blocks_within_heap(table: BlockTable, i: int)
    requires
        table.wf(),
        0 <= i < table.blocks.len(),
    ensures
        table.blocks[i].address >= table.base,
        (table.blocks[i].address - table.base) % 8 == 0,
        table.blocks[i].address != 0,
    decreases i,
{
    assert(table.block_ok(i));
    if i > 0 {
        law_blocks_within_heap(table, i - 1);
        assert(table.block_ok(i - 1));
    }
}

/// The blocks of a well-formed table lie in the order of their slots and
/// do not overlap: a block ends at or before the start of every block
/// above it.
pub proof fn law_blocks_in_address_order(table: BlockTable, i: int, j: int)
    requires
        table.wf(),
        0 <= i < j < table.blocks.len(),
    ensures
        table.blocks[i].address + table.blocks[i].size <= table.blocks[j].address,
    decreases j,
{
    assert(table.block_ok(j));
    if i < j - 1 {
        law_blocks_in_address_order(table, i, j - 1);
    }
}

/// Blocks that hold at least one byte have addresses of their own: such a
/// block begins below every block above it.
pub proof fn law_addresses_distinct(table: BlockTable, i: int, j: int)
    requires
        table.wf(),
        0 <= i < j < table.blocks.len(),
        table.blocks[i].size > 0,
    ensures
        table.blocks[i].address < table.blocks[j].address,
{
    law_blocks_in_address_order(table, i, j);
}

/// The address just past the highest block is at or above the heap base
/// and a multiple of eight bytes from it.
pub proof fn law_top_end_within_heap(table: BlockTable)
    requires
        table.wf(),
    ensures
        table.top_end() >= table.base,
        (table.top_end() - table.base) % 8 == 0,
        table.top_end() <= usize::MAX,
{
    if table.blocks.len() > 0 {
        let top = table.blocks.len() - 1;
        law_blocks_within_heap(table, top);
        assert(table.block_ok(top));
    }
}

/// What a granted request hands out. The address is not null and lies a
/// multiple of eight bytes above the heap base. It is the start of the
/// block in the granted slot, which is live afterwards and holds at least
/// the rounded size: exactly the rounded size where the block is new, and
/// the size it had where a freed block was claimed. Every other slot is as
/// it was, and the bytes of the granted block belong to no other block of
/// the table.
pub proof fn law_granted_block(table: BlockTable, size: u32)
    requires
        table.wf(),
        table.allocate(size).0 is Ok,
    ensures
        ({
            let address = table.allocate(size).0->Ok_0;
            let after = table.allocate(size).1;
            let slot = table.granted_slot(size);
            &&& address != 0
            &&& address >= table.base
            &&& (address - table.base) % 8 == 0
            &&& 0 <= slot < after.blocks.len()
            &&& after.blocks[slot].address == address
            &&& !after.blocks[slot].free
            &&& after.blocks[slot].size >= aligned_size(size as int) >= size
            &&& address + after.blocks[slot].size <= usize::MAX
            &&& match table.first_fit(aligned_size(size as int)) {
                Some(_) => after.blocks.len() == table.blocks.len() && after.blocks[slot].size
                    == table.blocks[slot].size,
                None => after.blocks.len() == table.blocks.len() + 1 && after.blocks[slot].size
                    == aligned_size(size as int),
            }
            &&& forall|j: int|
                0 <= j < table.blocks.len() && j != slot ==> #[trigger] after.blocks[j]
                    == table.blocks[j]
            &&& forall|j: int|
                0 <= j < slot ==> (#[trigger] after.blocks[j]).address + after.blocks[j].size
                    <= address
            &&& forall|j: int|
                slot < j < after.blocks.len() ==> address + after.blocks[slot].size <= (
                #[trigger] after.blocks[j]).address
        }),
{
    let need = aligned_size(size as int);
    let after = table.allocate(size).1;
    let slot = table.granted_slot(size);
    table.lemma_allocate_wf(size);
    table.lemma_first_fit(need);
    law_top_end_within_heap(table);
    law_blocks_within_heap(after, slot);
    assert(after.block_ok(slot));
    assert forall|j: int| 0 <= j < slot implies (#[trigger] after.blocks[j]).address
        + after.blocks[j].size <= after.blocks[slot].address by {
        law_blocks_in_address_order(after, j, slot);
    }
    assert forall|j: int| slot < j < after.blocks.len() implies after.blocks[slot].address
        + after.blocks[slot].size <= (#[trigger] after.blocks[j]).address by {
        law_blocks_in_address_order(after, slot, j);
    }
}

/// A request of a table without free blocks is granted at the top of the
/// table or not at all, and leaves a table without free blocks.
proof fn lemma_request_of_live_table(table: BlockTable, size: u32)
    requires
        table.wf(),
        table.all_live(),
    ensures
        ({
            let after = table.allocate(size).1;
            &&& after.wf()
            &&& after.all_live()
            &&& after.base == table.base
            &&& match table.allocate(size).0 {
                Ok(address) => address == table.top_end() && after.top_end() == address
                    + aligned_size(size as int),
                Err(_) => after == table,
            }
        }),
{
    table.lemma_allocate_wf(size);
    table.lemma_first_fit_none(aligned_size(size as int));
}

/// Requests alone, made of an empty table, leave a well-formed table
/// without free blocks.
proof fn lemma_requests_from_empty(base: usize, sizes: Seq<u32>)
    requires
        base != 0,
    ensures
        BlockTable::empty(base).after_requests(sizes).wf(),
        BlockTable::empty(base).after_requests(sizes).all_live(),
        BlockTable::empty(base).after_requests(sizes).base == base,
    decreases sizes.len(),
{
    if sizes.len() > 0 {
        lemma_requests_from_empty(base, sizes.drop_last());
        lemma_request_of_live_table(
            BlockTable::empty(base).after_requests(sizes.drop_last()),
            sizes.last(),
        );
    }
}

/// Requests alone never lower the top of the table.
proof fn lemma_top_end_grows(base: usize, sizes: Seq<u32>, k: int)
    requires
        base != 0,
        0 <= k <= sizes.len(),
    ensures
        BlockTable::empty(base).after_requests(sizes.take(k)).top_end() <= BlockTable::empty(
            base,
        ).after_requests(sizes).top_end(),
    decreases sizes.len(),
{
    if k < sizes.len() {
        lemma_top_end_grows(base, sizes.drop_last(), k);
        assert(sizes.drop_last().take(k) =~= sizes.take(k));
        lemma_requests_from_empty(base, sizes.drop_last());
        lemma_request_of_live_table(
            BlockTable::empty(base).after_requests(sizes.drop_last()),
            sizes.last(),
        );
    } else {
        assert(sizes.take(k) =~= sizes);
    }
}

/// Bump allocation is monotonic. Of the requests `sizes`, made one after
/// the other of an empty table, take any two that are granted: the later
/// one is granted an address at or above the end of the earlier one's
/// rounded size, and both addresses lie a multiple of eight bytes above the
/// heap base.
pub proof fn law_bump_allocation_monotonic(base: usize, sizes: Seq<u32>, i: int, j: int)
    requires
        base != 0,
        0 <= i < j < sizes.len(),
    ensures
        (match (
            BlockTable::empty(base).answer_to_request(sizes, i),
            BlockTable::empty(base).answer_to_request(sizes, j),
        ) {
            (Ok(earlier), Ok(later)) => {
                &&& later >= earlier + aligned_size(sizes[i] as int)
                &&& (earlier - base) % 8 == 0
                &&& (later - base) % 8 == 0
            },
            _ => true,
        }),
{
    let start = BlockTable::empty(base);
    let before_i = start.after_requests(sizes.take(i));
    let before_j = start.after_requests(sizes.take(j));
    lemma_requests_from_empty(base, sizes.take(i));
    lemma_requests_from_empty(base, sizes.take(j));
    lemma_request_of_live_table(before_i, sizes[i]);
    lemma_request_of_live_table(before_j, sizes[j]);
    assert(sizes.take(i + 1).drop_last() =~= sizes.take(i));
    lemma_top_end_grows(base, sizes.take(j), i + 1);
    assert(sizes.take(j).take(i + 1) =~= sizes.take(i + 1));
    law_top_end_within_heap(before_i);
    law_top_end_within_heap(before_j);
}

/// A cycle of request and release leaves an empty table empty.
proof fn lemma_cycle_of_empty(base: usize, size: u32)
    requires
        base != 0,
    ensures
        BlockTable::empty(base).cycle(size) == BlockTable::empty(base),
        BlockTable::empty(base).allocate(size).1.blocks.len() <= 1,
{
    let start = BlockTable::empty(base);
    let need = aligned_size(size as int);
    start.lemma_first_fit_none(need);
    if start.allocate(size).0 is Ok {
        let during = start.allocate(size).1;
        during.lemma_position_at(base, 0);
        assert(during.without_top().blocks =~= start.blocks);
    }
}

/// Releasing the top never leaks. Where every request is followed by the
/// release of what it was granted before the next request is made, and the
/// table was empty at the outset, the table is empty before every request,
/// holds at most one block after it, and is empty again after the release.
pub proof fn law_top_only_release_never_grows(base: usize, sizes: Seq<u32>, k: int)
    requires
        base != 0,
        0 <= k < sizes.len(),
    ensures
        ({
            let before = BlockTable::empty(base).after_cycles(sizes.take(k));
            &&& before.blocks.len() == 0
            &&& before.allocate(sizes[k]).1.blocks.len() <= 1
            &&& before.cycle(sizes[k]).blocks.len() == 0
        }),
{
    lemma_cycles_from_empty(base, sizes.take(k));
    lemma_cycle_of_empty(base, sizes[k]);
}

/// Cycles of request and release, made of an empty table, leave it empty.
proof fn lemma_cycles_from_empty(base: usize, sizes: Seq<u32>)
    requires
        base != 0,
    ensures
        BlockTable::empty(base).after_cycles(sizes) == BlockTable::empty(base),
    decreases sizes.len(),
{
    if sizes.len() > 0 {
        lemma_cycles_from_empty(base, sizes.drop_last());
        lemma_cycle_of_empty(base, sizes.last());
    }
}

/// An address at which no block begins cannot be released: the release is
/// turned down and the table stays as it was.
pub proof fn law_release_of_unknown_address(table: BlockTable, address: usize)
    requires
        address != 0,
        forall|i: int|
            0 <= i < table.blocks.len() ==> (#[trigger] table.blocks[i]).address != address,
    ensures
        table.release(address) == (Err::<(), AllocError>(AllocError::UnknownPointer), table),
{
    table.lemma_position_none(address);
}

/// Releasing an address a second time. Where the first release took the
/// highest block out of the table, the second is turned down, for no block
/// begins at the address any more. Where the first release marked a block
/// below the top as free, the second is accepted and changes nothing. The
/// null address is accepted every time.
pub proof fn law_release_twice(table: BlockTable, address: usize)
    requires
        table.release(address).0 is Ok,
    ensures
        ({
            let once = table.release(address).1;
            once.release(address) == if address != 0 && table.position(address) == Some(
                table.blocks.len() - 1,
            ) {
                (Err::<(), AllocError>(AllocError::UnknownPointer), once)
            } else {
                (Ok::<(), AllocError>(()), once)
            }
        }),
{
    if address != 0 {
        table.lemma_position(address);
        let i = table.position(address)->Some_0;
        let once = table.release(address).1;
        if i == table.blocks.len() - 1 {
            once.lemma_position_none(address);
        } else {
            once.lemma_position_at(address, i);
            assert(once.with_flag(i, true).blocks =~= once.blocks);
        }
    }
}

/// Release and request again. A request is granted, the address it was
/// granted is released, and the same request is made once more: the
/// release is accepted, the second request is granted the identical
/// address, and the table holds as many blocks as after the first request.
/// Unless the first request claimed a free block at the very top of the
/// table, the release in between also puts the table back as it was before
/// the first request.
///
/// The release acts on the lowest block that begins at the address. So the
/// law asks that this is the block that was granted, which fails only
/// where a block of no bytes lies directly below it; a request that rounds
/// to no bytes is exempt.
pub proof fn law_release_then_request_again(table: BlockTable, size: u32)
    requires
        table.wf(),
        table.allocate(size).0 is Ok,
        aligned_size(size as int) == 0 || table.allocate(size).1.position(
            table.allocate(size).0->Ok_0,
        ) == Some(table.granted_slot(size)),
    ensures
        ({
            let address = table.allocate(size).0->Ok_0;
            let granted = table.allocate(size).1;
            let released = granted.release(address).1;
            &&& granted.release(address).0 == Ok::<(), AllocError>(())
            &&& released.allocate(size).0 == Ok::<usize, AllocError>(address)
            &&& released.allocate(size).1.blocks.len() == granted.blocks.len()
            &&& granted.position(address) == Some(table.granted_slot(size)) && table.first_fit(
                aligned_size(size as int),
            ) != Some(table.blocks.len() - 1) ==> released == table
        }),
{
    let need = aligned_size(size as int);
    let address = table.allocate(size).0->Ok_0;
    let granted = table.allocate(size).1;
    let slot = table.granted_slot(size);
    table.lemma_first_fit(need);
    law_granted_block(table, size);
    granted.lemma_position(address);
    let p = granted.position(address)->Some_0;
    if p == slot {
        match table.first_fit(need) {
            None => {
                // A new block was put on top; the release takes it away.
                assert(granted.without_top().blocks =~= table.blocks);
            },
            Some(i) => {
                if i == table.blocks.len() - 1 {
                    // The free block at the top was claimed and then taken
                    // out of the table. No block below it fits, so the
                    // second request puts a new block where it began.
                    let released = granted.without_top();
                    assert(table.block_ok(i));
                    released.lemma_first_fit_none(need);
                } else {
                    // A hole was claimed; the release frees it again.
                    assert(granted.with_flag(i, true).blocks =~= table.blocks);
                }
            },
        }
    } else {
        // A request for no bytes, with a block of no bytes below the one
        // it was granted: the release frees the lowest block at the
        // address, which the second request claims.
        let released = granted.with_flag(p, true);
        released.lemma_first_fit_at(need, p);
    }
}

/// A hole is reused. Once a block below the top has been released, a
/// request that rounds to at most its size is granted, in its slot or in a
/// lower one; it is granted the address that was released where no free
/// block below it is large enough.
pub proof fn law_hole_is_reused(table: BlockTable, address: usize, size: u32)
    requires
        table.wf(),
        address != 0,
        table.position(address) is Some,
        table.position(address) != Some(table.blocks.len() - 1),
        aligned_size(size as int) <= table.blocks[table.position(address)->Some_0].size,
    ensures
        ({
            let hole = table.position(address)->Some_0;
            let released = table.release(address).1;
            &&& released.blocks.len() == table.blocks.len()
            &&& released.allocate(size).0 is Ok
            &&& released.granted_slot(size) <= hole
            &&& (forall|j: int|
                0 <= j < hole ==> !fits(#[trigger] table.blocks[j], aligned_size(size as int)))
                ==> released.allocate(size).0 == Ok::<usize, AllocError>(address)
        }),
{
    let need = aligned_size(size as int);
    let hole = table.position(address)->Some_0;
    let released = table.release(address).1;
    table.lemma_position(address);
    assert(table.block_ok(hole));
    released.lemma_first_fit(need);
    if forall|j: int| 0 <= j < hole ==> !fits(#[trigger] table.blocks[j], need) {
        assert forall|j: int| 0 <= j < hole implies !fits(#[trigger] released.blocks[j], need) by {
            assert(released.blocks[j] == table.blocks[j]);
        }
        released.lemma_first_fit_at(need, hole);
    }
}

} // verus!
