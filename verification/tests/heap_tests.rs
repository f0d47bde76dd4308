//! Heap allocator scenarios: growth, first-fit allocation, coalescing on
//! free, and exact-fit reuse.

use g8_kernel::heap_allocator::HeapAllocator;
use g8_kernel::kernel_const::{HEAP_EXPANSION_BYTES, HEAP_START_ADDR};

fn grown_heap() -> HeapAllocator {
    let mut h = HeapAllocator::new();
    h.grow();
    h
}

#[test]
fn fresh_heap_is_empty() {
    let mut h = HeapAllocator::new();
    assert_eq!(h.size(), 0);
    assert_eq!(h.free_block_count(), 0);
    assert_eq!(h.boundry_addr(), HEAP_START_ADDR);
    assert_eq!(h.find_and_alloc(64), None);
}

#[test]
fn grow_maps_one_expansion() {
    let mut h = grown_heap();
    assert_eq!(h.size(), HEAP_EXPANSION_BYTES);
    assert_eq!(h.boundry_addr(), HEAP_START_ADDR + HEAP_EXPANSION_BYTES);
    assert_eq!(h.free_block_count(), 1);
}

#[test]
fn grow_twice_merges_into_one_block() {
    let mut h = grown_heap();
    h.grow();
    assert_eq!(h.size(), 2 * HEAP_EXPANSION_BYTES);
    assert_eq!(h.free_block_count(), 1);
    // The whole doubled range is one block: a request for all of it fits.
    let a = h.find_and_alloc(2 * HEAP_EXPANSION_BYTES);
    assert_eq!(a, Some(HEAP_START_ADDR));
}

#[test]
fn alloc_carves_from_block_end() {
    let mut h = grown_heap();
    let a = h.find_and_alloc(128).unwrap();
    assert_eq!(a, HEAP_START_ADDR + HEAP_EXPANSION_BYTES - 128);
    assert_eq!(h.free_block_count(), 1);
}

#[test]
fn alloc_whole_block_empties_list() {
    let mut h = grown_heap();
    let a = h.find_and_alloc(HEAP_EXPANSION_BYTES).unwrap();
    assert_eq!(a, HEAP_START_ADDR);
    assert_eq!(h.free_block_count(), 0);
    assert_eq!(h.find_and_alloc(64), None);
}

#[test]
fn size_align_rounds_to_granules() {
    assert_eq!(HeapAllocator::size_align(100), (128, 8));
    assert_eq!(HeapAllocator::size_align(64), (64, 8));
    assert_eq!(HeapAllocator::size_align(65), (128, 8));
    assert_eq!(HeapAllocator::size_align(1), (64, 8));
    assert_eq!(HeapAllocator::size_align(0), (0, 8));
}

// Two live allocations never overlap.
#[test]
fn allocations_do_not_overlap() {
    let mut h = grown_heap();
    let a1 = h.find_and_alloc(128).unwrap();
    let a2 = h.find_and_alloc(256).unwrap();
    assert!(a1 + 128 <= a2 || a2 + 256 <= a1);
}

// Freeing two adjacent blocks, in either order, lets a request for their
// combined size succeed without growing the heap.
#[test]
fn coalescing_lower_then_upper() {
    let mut h = grown_heap();
    let a1 = h.find_and_alloc(128).unwrap();
    let a2 = h.find_and_alloc(256).unwrap();
    assert_eq!(a2 + 256, a1);
    let blocks_before = h.free_block_count();
    h.dealloc(a2, 256);
    h.dealloc(a1, 128);
    assert_eq!(h.free_block_count(), blocks_before);
    let a3 = h.find_and_alloc(384).unwrap();
    assert_eq!(a3, a2);
}

#[test]
fn coalescing_upper_then_lower() {
    let mut h = grown_heap();
    let a1 = h.find_and_alloc(128).unwrap();
    let a2 = h.find_and_alloc(256).unwrap();
    h.dealloc(a1, 128);
    h.dealloc(a2, 256);
    assert_eq!(h.free_block_count(), 1);
    let a3 = h.find_and_alloc(384).unwrap();
    assert_eq!(a3, a2);
}

// An allocation followed immediately by its deallocation restores the
// allocator: same free bytes, and the next allocation behaves the same.
#[test]
fn alloc_dealloc_round_trip() {
    let mut h = grown_heap();
    let a = h.find_and_alloc(192).unwrap();
    h.dealloc(a, 192);
    assert_eq!(h.free_block_count(), 1);
    assert_eq!(h.size(), HEAP_EXPANSION_BYTES);
    let b = h.find_and_alloc(192).unwrap();
    assert_eq!(b, a);
}

// Granule size 64: a 100-byte request rounds to 128 bytes; freeing that
// exact range and asking for 128 returns the same address.
#[test]
fn exact_fit_reuse_after_round_up() {
    let mut h = grown_heap();
    let (rounded, align) = HeapAllocator::size_align(100);
    assert_eq!(rounded, 128);
    assert_eq!(align, 8);
    let a = h.find_and_alloc(rounded).unwrap();
    h.dealloc(a, rounded);
    let b = h.find_and_alloc(128).unwrap();
    assert_eq!(b, a);
}

// The bitmask agrees with the free list: bits of an allocated range are
// set, and clear again once the range is freed.
#[test]
fn bitmask_tracks_allocations() {
    let mut h = grown_heap();
    let a = h.find_and_alloc(128).unwrap();
    let g = (a - HEAP_START_ADDR) / 64;
    assert!(h.granule_is_set(g));
    assert!(h.granule_is_set(g + 1));
    assert!(!h.granule_is_set(g - 1));
    h.dealloc(a, 128);
    assert!(!h.granule_is_set(g));
    assert!(!h.granule_is_set(g + 1));
}

// A block split in the middle of the heap merges with both neighbors when
// the hole between them is freed.
#[test]
fn merge_with_both_neighbors() {
    let mut h = grown_heap();
    let a1 = h.find_and_alloc(64).unwrap();
    let a2 = h.find_and_alloc(64).unwrap();
    let a3 = h.find_and_alloc(64).unwrap();
    // Free the middle one: an isolated hole between two live granules.
    h.dealloc(a2, 64);
    assert_eq!(h.free_block_count(), 2);
    // The topmost merges backward into the hole.
    h.dealloc(a1, 64);
    assert_eq!(h.free_block_count(), 2);
    // Freeing the lowest bridges the big block and the hole: one block.
    h.dealloc(a3, 64);
    assert_eq!(h.free_block_count(), 1);
}

// Freeing the only allocation of a fully-consumed heap re-creates the free
// list from scratch, and the whole heap can be taken again at the same
// address.
#[test]
fn full_heap_cycle() {
    let mut h = grown_heap();
    let a = h.find_and_alloc(HEAP_EXPANSION_BYTES).unwrap();
    assert_eq!(h.free_block_count(), 0);
    h.dealloc(a, HEAP_EXPANSION_BYTES);
    assert_eq!(h.free_block_count(), 1);
    let b = h.find_and_alloc(HEAP_EXPANSION_BYTES).unwrap();
    assert_eq!(b, a);
}
