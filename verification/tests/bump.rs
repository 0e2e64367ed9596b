//! New blocks are put on top of the table, one behind the other.

use esp_alloc::{align_up, malloc, memory_fence, AllocError, Allocation, EspAllocator};

#[test]
fn null_heap_base_is_refused() {
    assert!(EspAllocator::new(0).is_none());
    assert!(EspAllocator::new(1).is_some());
}

#[test]
fn new_allocator_is_empty() {
    let heap = EspAllocator::new(0x2000_0000).unwrap();
    assert_eq!(heap.heap_start(), 0x2000_0000);
    assert_eq!(heap.len(), 0);
    assert!(heap.is_empty());
    assert_eq!(heap.get(0), None);
    assert_eq!(heap.get(127), None);
    assert_eq!(heap.get(128), None);
    assert_eq!(heap.get(usize::MAX), None);
}

#[test]
fn first_block_begins_at_heap_base() {
    let mut heap = EspAllocator::new(0x1000).unwrap();
    assert_eq!(malloc(&mut heap, 16), Ok(0x1000));
    assert_eq!(heap.len(), 1);
    assert!(!heap.is_empty());
    assert_eq!(heap.get(0), Some(Allocation { address: 0x1000, size: 16, free: false }));
    assert_eq!(heap.get(1), None);
}

#[test]
fn each_block_begins_where_the_one_below_ends() {
    let mut heap = EspAllocator::new(0x1000).unwrap();
    let sizes: [u32; 6] = [1, 8, 9, 100, 0, 24];
    let rounded: [usize; 6] = [8, 8, 16, 104, 0, 24];
    let mut expected: usize = 0x1000;
    for k in 0..sizes.len() {
        let address = malloc(&mut heap, sizes[k]).unwrap();
        assert_eq!(address, expected);
        assert_eq!((address - 0x1000) % 8, 0);
        assert_eq!(
            heap.get(k),
            Some(Allocation { address: expected, size: rounded[k], free: false })
        );
        expected += rounded[k];
    }
    assert_eq!(heap.len(), 6);
    assert_eq!(expected, 0x1000 + 160);
}

#[test]
fn addresses_are_aligned_relative_to_an_odd_heap_base() {
    let mut heap = EspAllocator::new(0x1003).unwrap();
    assert_eq!(malloc(&mut heap, 5), Ok(0x1003));
    assert_eq!(malloc(&mut heap, 5), Ok(0x100b));
    assert_eq!(malloc(&mut heap, 17), Ok(0x1013));
    assert_eq!(malloc(&mut heap, 1), Ok(0x102b));
}

#[test]
fn requests_round_up_to_multiples_of_eight() {
    let requests: [u32; 5] = [0, 1, 7, 8, 9];
    let reserved: [usize; 5] = [0, 8, 8, 8, 16];
    for k in 0..requests.len() {
        let mut heap = EspAllocator::new(0x4000).unwrap();
        assert_eq!(malloc(&mut heap, requests[k]), Ok(0x4000));
        assert_eq!(heap.get(0).unwrap().size, reserved[k]);
        assert_eq!(malloc(&mut heap, 8), Ok(0x4000 + reserved[k]));
    }
}

#[test]
fn align_up_gives_the_next_multiple_of_eight() {
    assert_eq!(align_up(0), Some(0));
    assert_eq!(align_up(1), Some(8));
    assert_eq!(align_up(7), Some(8));
    assert_eq!(align_up(8), Some(8));
    assert_eq!(align_up(9), Some(16));
    assert_eq!(align_up(4095), Some(4096));
    assert_eq!(align_up(0xffff_fff0), Some(0xffff_fff0));
    assert_eq!(align_up(0xffff_fff1), Some(0xffff_fff8));
    assert_eq!(align_up(0xffff_fff8), Some(0xffff_fff8));
}

#[test]
fn align_up_fails_where_the_multiple_needs_more_than_32_bits() {
    assert_eq!(align_up(0xffff_fff9), None);
    assert_eq!(align_up(u32::MAX), None);
}

#[test]
fn request_that_rounds_past_32_bits_is_turned_down() {
    let mut heap = EspAllocator::new(0x1000).unwrap();
    assert_eq!(malloc(&mut heap, 0xffff_fff9), Err(AllocError::SizeOverflow));
    assert_eq!(malloc(&mut heap, u32::MAX), Err(AllocError::SizeOverflow));
    assert_eq!(heap.len(), 0);
    assert_eq!(malloc(&mut heap, 8), Ok(0x1000));
}

#[test]
fn block_that_would_pass_the_end_of_the_address_space_is_turned_down() {
    let mut heap = EspAllocator::new(usize::MAX - 16).unwrap();
    assert_eq!(malloc(&mut heap, 8), Ok(usize::MAX - 16));
    assert_eq!(malloc(&mut heap, 9), Err(AllocError::AddressOverflow));
    assert_eq!(heap.len(), 1);
    assert_eq!(malloc(&mut heap, 7), Ok(usize::MAX - 8));
    assert_eq!(heap.get(1).unwrap().size, 8);
    assert_eq!(malloc(&mut heap, 1), Err(AllocError::AddressOverflow));
    assert_eq!(malloc(&mut heap, 0), Ok(usize::MAX));
    assert_eq!(heap.len(), 3);
}

#[test]
fn block_may_end_at_the_last_address_but_not_beyond() {
    let mut heap = EspAllocator::new(usize::MAX - 8).unwrap();
    assert_eq!(malloc(&mut heap, 9), Err(AllocError::AddressOverflow));
    assert_eq!(malloc(&mut heap, 8), Ok(usize::MAX - 8));
    let mut other = EspAllocator::new(usize::MAX - 7).unwrap();
    assert_eq!(malloc(&mut other, 8), Err(AllocError::AddressOverflow));
    assert_eq!(other.len(), 0);
}

#[test]
fn full_table_turns_new_blocks_down() {
    let mut heap = EspAllocator::new(0x1000).unwrap();
    for k in 0..128usize {
        assert_eq!(malloc(&mut heap, 8), Ok(0x1000 + 8 * k));
    }
    assert_eq!(heap.len(), 128);
    assert_eq!(malloc(&mut heap, 8), Err(AllocError::TableFull));
    assert_eq!(malloc(&mut heap, 0), Err(AllocError::TableFull));
    assert_eq!(heap.len(), 128);
    assert_eq!(
        heap.get(127),
        Some(Allocation { address: 0x1000 + 8 * 127, size: 8, free: false })
    );
}

#[test]
fn size_is_checked_before_the_table() {
    let mut heap = EspAllocator::new(0x1000).unwrap();
    for _ in 0..128 {
        malloc(&mut heap, 8).unwrap();
    }
    assert_eq!(malloc(&mut heap, u32::MAX), Err(AllocError::SizeOverflow));
}

#[test]
fn full_table_is_reported_before_address_overflow() {
    let mut heap = EspAllocator::new(usize::MAX - 7).unwrap();
    for _ in 0..128 {
        assert_eq!(malloc(&mut heap, 0), Ok(usize::MAX - 7));
    }
    assert_eq!(malloc(&mut heap, 16), Err(AllocError::TableFull));
}

#[test]
fn memory_fence_returns() {
    memory_fence();
    memory_fence();
}
