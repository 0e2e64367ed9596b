//! What holds of the table after any run of operations.

use esp_alloc::{calloc, free, malloc, EspAllocator};

/// Checks that the blocks tile the heap from its base upwards and that
/// every size is a multiple of eight.
fn assert_well_formed(heap: &EspAllocator) {
    assert!(heap.len() <= 128);
    let mut expected: usize = heap.heap_start();
    for slot in 0..heap.len() {
        let block = heap.get(slot).unwrap();
        assert_eq!(block.address, expected);
        assert_eq!(block.size % 8, 0);
        assert_eq!((block.address - heap.heap_start()) % 8, 0);
        expected = block.address + block.size;
    }
    for slot in heap.len()..130 {
        assert_eq!(heap.get(slot), None);
    }
}

#[test]
fn blocks_tile_the_heap_after_a_mixed_run() {
    let mut heap = EspAllocator::new(0x3000_0004).unwrap();
    let mut live: Vec<usize> = Vec::new();
    let mut state: u32 = 0x2545_f491;
    for _ in 0..4000 {
        state = state.wrapping_mul(1_664_525).wrapping_add(1_013_904_223);
        let choice = (state >> 16) % 5;
        let amount = (state >> 8) % 200;
        if choice < 2 || live.is_empty() {
            if let Ok(address) = malloc(&mut heap, amount) {
                live.push(address);
            }
        } else if choice == 2 {
            if let Ok(region) = calloc(&mut heap, amount % 16, 3) {
                assert_eq!(region.len, ((amount % 16) * 3) as usize);
                live.push(region.address);
            }
        } else {
            let pick = (state as usize >> 4) % live.len();
            let address = live.swap_remove(pick);
            assert_eq!(free(&mut heap, address), Ok(()));
        }
        assert_well_formed(&heap);
    }
}

#[test]
fn live_blocks_with_bytes_have_addresses_of_their_own() {
    let mut heap = EspAllocator::new(0x1000).unwrap();
    let mut granted: Vec<usize> = Vec::new();
    for k in 1..=40u32 {
        granted.push(malloc(&mut heap, k).unwrap());
    }
    for k in (0..40).step_by(3) {
        free(&mut heap, granted[k]).unwrap();
    }
    for k in 1..=20u32 {
        malloc(&mut heap, 2 * k).unwrap();
    }
    let mut live: Vec<(usize, usize)> = Vec::new();
    for slot in 0..heap.len() {
        let block = heap.get(slot).unwrap();
        if !block.free {
            live.push((block.address, block.size));
        }
    }
    for a in 0..live.len() {
        for b in (a + 1)..live.len() {
            assert!(live[a].0 + live[a].1 <= live[b].0);
            assert_ne!(live[a].0, live[b].0);
        }
    }
}

#[test]
fn failed_operations_leave_the_table_as_it_was() {
    let mut heap = EspAllocator::new(0x1000).unwrap();
    malloc(&mut heap, 24).unwrap();
    malloc(&mut heap, 8).unwrap();
    free(&mut heap, 0x1000).unwrap();
    let before: Vec<_> = (0..heap.len()).map(|slot| heap.get(slot)).collect();
    assert!(malloc(&mut heap, u32::MAX).is_err());
    assert!(calloc(&mut heap, u32::MAX, u32::MAX).is_err());
    assert!(free(&mut heap, 0x1234).is_err());
    let after: Vec<_> = (0..heap.len()).map(|slot| heap.get(slot)).collect();
    assert_eq!(before, after);
}
