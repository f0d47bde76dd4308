//! Fixed physical-layout constants of the kernel and the alignment
//! arithmetic that the allocators share.

use vstd::prelude::*;

verus! {

/// First physical address of the page-table area.
pub const PAGE_TABLE_START: u64 = 0x100000;

/// Physical address of the level-4 page table.
pub const PAGE_TABLE_P4: u64 = 0x100000;

/// Physical address of the level-3 page table.
pub const PAGE_TABLE_P3: u64 = 0x101000;

/// Physical address of the level-2 page table.
pub const PAGE_TABLE_P2: u64 = 0x102000;

/// One past the last physical address of the page-table area.
pub const PAGE_TABLE_END: u64 = 0x400000;

/// Physical address where the boot loader left the memory map.
pub const BOOT_TMP_MMAP_BUFFER: u64 = 0x2000;

/// Physical memory below this address is reserved for the kernel image,
/// the page tables and the boot data; the frame allocator never hands it out.
pub const MEMORY_RESERVED_BELOW: u64 = 0x1000000;

/// Size in bytes of one physical frame.
pub const FRAME_SIZE: u64 = 0x200000;

/// Bit width of the frame size: `FRAME_SIZE == 1 << FRAME_SIZE_BIT_WIDTH`.
pub const FRAME_SIZE_BIT_WIDTH: u64 = 21;

/// Size in bytes of one heap granule: the minimum unit the heap allocator
/// hands out and the unit one coalescing-bitmask bit stands for.
pub const HEAP_BLOCK_SIZE: u64 = 64;

/// Bit width of the granule size: `HEAP_BLOCK_SIZE == 1 << HEAP_BLOCK_SIZE_BW`.
pub const HEAP_BLOCK_SIZE_BW: u64 = 6;

/// Number of 64-bit words reserved for the coalescing bitmask.
pub const HEAP_MAX_BLOCKS: u64 = 0x4000000;

/// Largest number of granule bits the bitmask may ever hold:
/// `HEAP_MAX_BLOCKS` words of 64 bits each.
pub const HEAP_MASK_MAX_BITS: u64 = 0x100000000;

/// Bytes the heap grows by in one expansion: enough frames to cover the
/// granules that one extra bitmask frame can track.
pub const HEAP_EXPANSION_BYTES: u64 = 0x40000000;

/// Granules one expansion adds: `HEAP_EXPANSION_BYTES / HEAP_BLOCK_SIZE`.
pub const HEAP_EXPANSION_GRANULES: u64 = 0x1000000;

/// Frames one expansion maps into the heap proper:
/// `HEAP_EXPANSION_BYTES / FRAME_SIZE`.
pub const HEAP_EXPANSION_FRAMES: u64 = 512;

/// Virtual address where the bitmask storage is mapped.
pub const HEAP_MASK_START_ADDR: u64 = 0x20000000;

/// Virtual address where the heap proper begins.
pub const HEAP_START_ADDR: u64 = 0x40000000;

/// Bottom of the boot stack.
pub const STACK_BOTTOM: u64 = 0xc00000;

/// Top of the boot stack.
pub const STACK_TOP: u64 = 0xefffff;

/// `addr` rounded down to a multiple of the frame size.
pub open spec fn spec_align_down(addr: int) -> int {
    addr - (addr % (FRAME_SIZE as int))
}

/// `addr` rounded up to a multiple of the frame size.
pub open spec fn spec_align_up(addr: int) -> int {
    spec_align_down(addr + FRAME_SIZE - 1)
}

} // verus!
