//! Dynamic-memory subsystem of a small bare-metal kernel: a physical frame
//! allocator fed by the boot-time memory map, a coalescing bitmask that
//! tracks which heap granules are free, an address-ordered free list, and
//! the heap allocator built on top of them, together with the small pure
//! kernel types (log levels, console colors, deferred-work queues) that the
//! rest of the kernel shares.
//!
//! Everything here is bookkeeping over plain values: physical and virtual
//! addresses are `u64` numbers, and the structures that a bare-metal kernel
//! embeds in raw memory (free-list headers, boundary tags, the bitmask
//! words) are held in owned storage instead.  The unverifiable edges of the
//! kernel, such as writing page-table entries, touching the VGA buffer and
//! fielding interrupts, live outside this crate and only feed plain values
//! in and out.

pub mod bitmask;
pub mod frame_controller;
pub mod heap_allocator;
pub mod idt;
pub mod kernel_const;
pub mod keyboard;
pub mod page_table_alloc;
pub mod sys_log;
pub mod sys_task;
pub mod util;
pub mod vga_buffer;
