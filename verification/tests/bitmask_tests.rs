//! Coalescing bitmask unit tests: word masks, range operations across word
//! boundaries, and growth.

use g8_kernel::bitmask::{get_mask_in_u64, BitMask};
use g8_kernel::kernel_const::HEAP_MASK_START_ADDR;

#[test]
fn masks_cover_exact_positions() {
    assert_eq!(get_mask_in_u64(0, 63), u64::MAX);
    assert_eq!(get_mask_in_u64(0, 0), 1u64 << 63);
    assert_eq!(get_mask_in_u64(63, 63), 1);
    assert_eq!(get_mask_in_u64(0, 7), 0xff00_0000_0000_0000);
    assert_eq!(get_mask_in_u64(4, 7), 0x0f00_0000_0000_0000);
}

#[test]
fn fresh_mask_is_empty() {
    let m = BitMask::new();
    assert!(m.is_empty());
    assert_eq!(m.size(), 0);
    assert_eq!(m.boudry_addr(), HEAP_MASK_START_ADDR);
}

#[test]
fn grow_starts_all_free() {
    let mut m = BitMask::new();
    m.grow(128);
    assert!(!m.is_empty());
    assert_eq!(m.size(), 128);
    assert_eq!(m.boudry_addr(), HEAP_MASK_START_ADDR + 16);
    for g in 0..128 {
        assert!(!m.is_set(g));
    }
}

#[test]
fn range_on_spans_word_boundaries() {
    let mut m = BitMask::new();
    m.grow(192);
    m.range_on(60, 130);
    for g in 0..60 {
        assert!(!m.is_set(g));
    }
    for g in 60..131 {
        assert!(m.is_set(g));
    }
    for g in 131..192 {
        assert!(!m.is_set(g));
    }
}

#[test]
fn range_off_clears_inside_one_word() {
    let mut m = BitMask::new();
    m.grow(64);
    m.range_on(0, 63);
    m.range_off(10, 20);
    for g in 0..64 {
        assert_eq!(m.is_set(g), !(10 <= g && g <= 20));
    }
}

#[test]
fn split_pos_gives_word_and_bit() {
    let mut m = BitMask::new();
    m.grow(256);
    assert_eq!(m.split_pos(0), (0, 0));
    assert_eq!(m.split_pos(63), (0, 63));
    assert_eq!(m.split_pos(64), (1, 0));
    assert_eq!(m.split_pos(200), (3, 8));
}

#[test]
fn grow_preserves_existing_bits() {
    let mut m = BitMask::new();
    m.grow(64);
    m.range_on(5, 9);
    m.grow(64);
    assert_eq!(m.size(), 128);
    for g in 0..64 {
        assert_eq!(m.is_set(g), 5 <= g && g <= 9);
    }
    for g in 64..128 {
        assert!(!m.is_set(g));
    }
}
