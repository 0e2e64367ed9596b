//! What a release accepts and what it turns down.

use esp_alloc::{free, malloc, AllocError, Allocation, EspAllocator};

#[test]
fn null_address_is_accepted_and_changes_nothing() {
    let mut heap = EspAllocator::new(0x1000).unwrap();
    assert_eq!(free(&mut heap, 0), Ok(()));
    assert_eq!(heap.len(), 0);
    malloc(&mut heap, 8).unwrap();
    assert_eq!(free(&mut heap, 0), Ok(()));
    assert_eq!(heap.len(), 1);
    assert_eq!(heap.get(0), Some(Allocation { address: 0x1000, size: 8, free: false }));
}

#[test]
fn release_from_an_empty_table_is_turned_down() {
    let mut heap = EspAllocator::new(0x1000).unwrap();
    assert_eq!(free(&mut heap, 0x1000), Err(AllocError::UnknownPointer));
    assert_eq!(heap.len(), 0);
}

#[test]
fn release_of_unknown_address_is_turned_down() {
    let mut heap = EspAllocator::new(0x1000).unwrap();
    assert_eq!(malloc(&mut heap, 16), Ok(0x1000));
    assert_eq!(malloc(&mut heap, 16), Ok(0x1010));
    assert_eq!(free(&mut heap, 0x1008), Err(AllocError::UnknownPointer));
    assert_eq!(free(&mut heap, 0x1020), Err(AllocError::UnknownPointer));
    assert_eq!(free(&mut heap, 0xfff), Err(AllocError::UnknownPointer));
    assert_eq!(heap.len(), 2);
    assert_eq!(heap.get(0), Some(Allocation { address: 0x1000, size: 16, free: false }));
    assert_eq!(heap.get(1), Some(Allocation { address: 0x1010, size: 16, free: false }));
}

#[test]
fn second_release_of_the_top_block_is_turned_down() {
    let mut heap = EspAllocator::new(0x1000).unwrap();
    malloc(&mut heap, 16).unwrap();
    let top = malloc(&mut heap, 16).unwrap();
    assert_eq!(free(&mut heap, top), Ok(()));
    assert_eq!(free(&mut heap, top), Err(AllocError::UnknownPointer));
    assert_eq!(heap.len(), 1);
}

#[test]
fn second_release_below_the_top_is_accepted_and_changes_nothing() {
    let mut heap = EspAllocator::new(0x1000).unwrap();
    let low = malloc(&mut heap, 16).unwrap();
    malloc(&mut heap, 16).unwrap();
    assert_eq!(free(&mut heap, low), Ok(()));
    assert_eq!(heap.get(0), Some(Allocation { address: low, size: 16, free: true }));
    assert_eq!(free(&mut heap, low), Ok(()));
    assert_eq!(heap.len(), 2);
    assert_eq!(heap.get(0), Some(Allocation { address: low, size: 16, free: true }));
    assert_eq!(heap.get(1), Some(Allocation { address: 0x1010, size: 16, free: false }));
}

#[test]
fn release_of_the_top_removes_only_the_top() {
    let mut heap = EspAllocator::new(0x1000).unwrap();
    let a = malloc(&mut heap, 8).unwrap();
    let b = malloc(&mut heap, 8).unwrap();
    let c = malloc(&mut heap, 8).unwrap();
    assert_eq!(free(&mut heap, b), Ok(()));
    assert_eq!(free(&mut heap, c), Ok(()));
    assert_eq!(heap.len(), 2);
    assert_eq!(heap.get(0), Some(Allocation { address: a, size: 8, free: false }));
    assert_eq!(heap.get(1), Some(Allocation { address: b, size: 8, free: true }));
    assert_eq!(heap.get(2), None);
}

#[test]
fn blocks_released_in_reverse_order_empty_the_table() {
    let mut heap = EspAllocator::new(0x1000).unwrap();
    let mut granted: Vec<usize> = Vec::new();
    for k in 0..50u32 {
        granted.push(malloc(&mut heap, 8 * k + 1).unwrap());
    }
    assert_eq!(heap.len(), 50);
    while let Some(address) = granted.pop() {
        assert_eq!(free(&mut heap, address), Ok(()));
        assert_eq!(heap.len(), granted.len());
    }
    assert!(heap.is_empty());
    assert_eq!(malloc(&mut heap, 8), Ok(0x1000));
}
