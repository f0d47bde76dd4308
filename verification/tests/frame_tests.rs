//! Physical frame allocator scenarios: boot-map parsing, head allocation,
//! exhaustion, and merge on deallocation.

use g8_kernel::frame_controller::{
    align_down, align_up, is_align, MemoryMapBuffer, MemoryMapItem, PhysFrameAllocator,
};
use g8_kernel::kernel_const::{FRAME_SIZE, MEMORY_RESERVED_BELOW};

fn one_extent_map(addr: u64, size: u64) -> MemoryMapBuffer {
    MemoryMapBuffer {
        len: 1,
        items: vec![MemoryMapItem { addr, size, flags: 1, ext_flags: 0 }],
    }
}

// Initialize with one extent of six 0x100000-byte frames at 0x100000 and a
// reservation boundary at 0x100000; allocate three frames, free two of them
// out of order, and watch them merge back into one run that is then reused.
#[test]
fn boot_map_scenario() {
    let mut fa = PhysFrameAllocator::new_conf(0x100000, 0x100000);
    let mmap = one_extent_map(0x100000, 0x600000);
    fa.init(&mmap);
    assert_eq!(fa.run_count(), 1);
    assert_eq!(fa.head_run(), Some((0x100000, 6)));

    assert_eq!(fa.allocate_frame(), Some(0x100000));
    assert_eq!(fa.allocate_frame(), Some(0x200000));
    assert_eq!(fa.allocate_frame(), Some(0x300000));

    fa.deallocate(0x200000);
    fa.deallocate(0x100000);
    assert_eq!(fa.head_run(), Some((0x100000, 2)));

    assert_eq!(fa.allocate_frame(), Some(0x100000));
}

// Allocating until the runs are empty and then asking once more yields
// nothing, and the allocator stays usable.
#[test]
fn exhaustion_returns_none() {
    let mut fa = PhysFrameAllocator::new_conf(0x1000, 0);
    fa.add_aligned_free_block(0x10000, 0x3000);
    assert_eq!(fa.allocate_frame(), Some(0x10000));
    assert_eq!(fa.allocate_frame(), Some(0x11000));
    assert_eq!(fa.allocate_frame(), Some(0x12000));
    assert_eq!(fa.allocate_frame(), None);
    assert_eq!(fa.run_count(), 0);
    // Still usable after exhaustion: a freed frame comes back.
    fa.deallocate(0x11000);
    assert_eq!(fa.allocate_frame(), Some(0x11000));
    assert_eq!(fa.allocate_frame(), None);
}

#[test]
fn extent_below_reservation_is_dropped() {
    let mut fa = PhysFrameAllocator::new_conf(0x100000, 0x100000);
    let mmap = one_extent_map(0x0, 0x100000);
    fa.init(&mmap);
    assert_eq!(fa.run_count(), 0);
    assert_eq!(fa.allocate_frame(), None);
}

#[test]
fn extent_overlapping_reservation_is_clipped() {
    let mut fa = PhysFrameAllocator::new_conf(0x100000, 0x100000);
    let mmap = one_extent_map(0x0, 0x400000);
    fa.init(&mmap);
    assert_eq!(fa.head_run(), Some((0x100000, 3)));
}

#[test]
fn extent_smaller_than_frame_after_clipping_is_dropped() {
    let mut fa = PhysFrameAllocator::new_conf(0x100000, 0x100000);
    let mmap = one_extent_map(0xc0000, 0x100000);
    fa.init(&mmap);
    assert_eq!(fa.run_count(), 0);
}

#[test]
fn unaligned_extent_is_aligned_inward() {
    let mut fa = PhysFrameAllocator::new_conf(0x1000, 0);
    // [0x10400, 0x13c00): aligned inward to [0x11000, 0x13000): two frames.
    fa.add_free_block(0x10400, 0x3800);
    assert_eq!(fa.head_run(), Some((0x11000, 2)));
}

#[test]
fn two_extents_stay_address_ordered() {
    let mut fa = PhysFrameAllocator::new_conf(0x1000, 0);
    let mmap = MemoryMapBuffer {
        len: 2,
        items: vec![
            MemoryMapItem { addr: 0x40000, size: 0x2000, flags: 1, ext_flags: 0 },
            MemoryMapItem { addr: 0x10000, size: 0x1000, flags: 1, ext_flags: 0 },
        ],
    };
    fa.init(&mmap);
    assert_eq!(fa.run_count(), 2);
    assert_eq!(fa.allocate_frame(), Some(0x10000));
    assert_eq!(fa.allocate_frame(), Some(0x40000));
    assert_eq!(fa.allocate_frame(), Some(0x41000));
    assert_eq!(fa.allocate_frame(), None);
}

#[test]
fn deallocate_merges_with_successor() {
    let mut fa = PhysFrameAllocator::new_conf(0x1000, 0);
    fa.add_aligned_free_block(0x20000, 0x1000);
    fa.deallocate(0x1f000);
    assert_eq!(fa.run_count(), 1);
    assert_eq!(fa.head_run(), Some((0x1f000, 2)));
}

#[test]
fn default_configuration_uses_kernel_constants() {
    let mut fa = PhysFrameAllocator::new();
    let mmap = one_extent_map(0, MEMORY_RESERVED_BELOW + 2 * FRAME_SIZE);
    fa.init(&mmap);
    assert_eq!(fa.head_run(), Some((MEMORY_RESERVED_BELOW, 2)));
    assert_eq!(fa.allocate_frame(), Some(MEMORY_RESERVED_BELOW));
}

#[test]
fn align_helpers_round_to_frame_size() {
    assert_eq!(align_down(0x200001), 0x200000);
    assert_eq!(align_down(0x200000), 0x200000);
    assert_eq!(align_up(0x200001), 0x400000);
    assert_eq!(align_up(0x200000), 0x200000);
    assert!(is_align(0x400000));
    assert!(!is_align(0x400001));
}

#[test]
fn deallocate_merges_with_predecessor() {
    let mut fa = PhysFrameAllocator::new_conf(0x1000, 0);
    fa.add_aligned_free_block(0x10000, 0x1000);
    fa.deallocate(0x11000);
    assert_eq!(fa.run_count(), 1);
    assert_eq!(fa.head_run(), Some((0x10000, 2)));
}

// A freed range that exactly bridges two runs merges into one side only:
// the slot count stays at two touching runs, and every frame still comes
// back in address order.
#[test]
fn bridging_range_merges_one_side_only() {
    let mut fa = PhysFrameAllocator::new_conf(0x1000, 0);
    fa.add_aligned_free_block(0x10000, 0x1000);
    fa.add_aligned_free_block(0x12000, 0x1000);
    assert_eq!(fa.run_count(), 2);
    fa.deallocate(0x11000);
    assert_eq!(fa.run_count(), 2);
    assert_eq!(fa.head_run(), Some((0x10000, 1)));
    assert_eq!(fa.allocate_frame(), Some(0x10000));
    assert_eq!(fa.allocate_frame(), Some(0x11000));
    assert_eq!(fa.allocate_frame(), Some(0x12000));
    assert_eq!(fa.allocate_frame(), None);
}

// An extent with exactly one whole frame left after clipping is kept, not
// dropped: only extents under one frame disappear.
#[test]
fn extent_with_exactly_one_frame_after_clipping_is_kept() {
    let mut fa = PhysFrameAllocator::new_conf(0x100000, 0x100000);
    let mmap = one_extent_map(0x0, 0x200000);
    fa.init(&mmap);
    assert_eq!(fa.head_run(), Some((0x100000, 1)));
    assert_eq!(fa.allocate_frame(), Some(0x100000));
    assert_eq!(fa.allocate_frame(), None);
}
