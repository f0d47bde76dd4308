//! The smaller kernel types: log levels and console commands, the scancode
//! queue, deferred tasks, page-table frames, colors, vectors, and flags.

use g8_kernel::heap_allocator::AllocError;
use g8_kernel::idt::InterruptIndex;
use g8_kernel::kernel_const::{PAGE_TABLE_END, PAGE_TABLE_START};
use g8_kernel::keyboard::{add_scancode, ScancodeStream};
use g8_kernel::page_table_alloc::{vaddr_from_table, PageTableAlloc};
use g8_kernel::sys_log::{LogLevel, LogMsgStream, ScrnOut, SysLogLevel};
use g8_kernel::sys_task::{SysCmd, SysTask, SysTaskStream};
use g8_kernel::util::Flag;
use g8_kernel::vga_buffer::{BufferLine, Color, ColorCode, ScrollArea, BUFFER_HEIGHT};

#[test]
fn log_levels_toggle_independently() {
    let mut l = SysLogLevel::new();
    assert!(!l.is_on(LogLevel::DEBUG));
    l.on(LogLevel::DEBUG);
    l.on(LogLevel::ERROR);
    assert!(l.is_on(LogLevel::DEBUG));
    assert!(l.is_on(LogLevel::ERROR));
    assert!(!l.is_on(LogLevel::INFO));
    assert!(!l.is_on(LogLevel::WARN));
    l.off(LogLevel::DEBUG);
    assert!(!l.is_on(LogLevel::DEBUG));
    assert!(l.is_on(LogLevel::ERROR));
}

#[test]
fn conf_commands_drive_levels() {
    let mut l = SysLogLevel::new();
    assert!(l.conf("LD1"));
    assert!(l.is_on(LogLevel::DEBUG));
    assert!(l.conf("LI1"));
    assert!(l.conf("LW1"));
    assert!(l.conf("LE1"));
    assert!(l.is_on(LogLevel::INFO) && l.is_on(LogLevel::WARN) && l.is_on(LogLevel::ERROR));
    assert!(l.conf("LD0"));
    assert!(!l.is_on(LogLevel::DEBUG));
    assert!(l.conf("LE0"));
    assert!(!l.is_on(LogLevel::ERROR));
}

#[test]
fn conf_reports_unknown_commands_unchanged() {
    let mut l = SysLogLevel::new();
    assert!(!l.conf("XYZ"));
    assert!(!l.conf("LD2"));
    assert!(!l.conf("LD11"));
    assert!(!l.conf(""));
    assert!(!l.is_on(LogLevel::DEBUG));
    assert!(!l.is_on(LogLevel::ERROR));
    assert!(!l.is_on(LogLevel::INFO));
    assert!(!l.is_on(LogLevel::WARN));
}

#[test]
fn sys_cmd_runs_on_newline() {
    let mut cmd = SysCmd::new();
    let mut level = SysLogLevel::new();
    assert!(cmd.input_char('L', &mut level));
    assert!(cmd.input_char('D', &mut level));
    assert!(cmd.input_char('1', &mut level));
    assert!(!level.is_on(LogLevel::DEBUG));
    assert!(cmd.input_char('\n', &mut level));
    assert!(level.is_on(LogLevel::DEBUG));
    // The buffer cleared: the next newline runs an empty, unrecognized
    // command and changes nothing.
    assert!(!cmd.input_char('\n', &mut level));
    assert!(level.is_on(LogLevel::DEBUG));
}

#[test]
fn scancode_queue_is_fifo() {
    let mut s = ScancodeStream::new();
    // Before initialization pushes are dropped.
    add_scancode(&mut s, 0x1c);
    assert_eq!(s.len(), 0);
    assert_eq!(s.poll(), None);
    s.init();
    add_scancode(&mut s, 0x1e);
    add_scancode(&mut s, 0x30);
    add_scancode(&mut s, 0x2e);
    assert_eq!(s.len(), 3);
    assert_eq!(s.poll(), Some(0x1e));
    assert_eq!(s.poll(), Some(0x30));
    assert_eq!(s.poll(), Some(0x2e));
    assert_eq!(s.poll(), None);
}

#[test]
fn sys_task_values_carry_their_payload() {
    let t = SysTask::TIMMER(6);
    let k = SysTask::KEY(0x1c);
    assert_eq!(t, SysTask::TIMMER(6));
    assert_ne!(t, SysTask::TIMMER(7));
    assert_ne!(t, k);
    let _stream = SysTaskStream::new();
    let _log_stream = LogMsgStream::new();
    let _msg = ScrnOut::INPUT_MSG(String::from("ls"));
}

#[test]
fn page_table_frames_skip_boot_tables() {
    let mut p = PageTableAlloc::new();
    assert_eq!(p.allocate_frame(), Some(0x103000));
    assert_eq!(p.allocate_frame(), Some(0x104000));
    let total = (PAGE_TABLE_END - PAGE_TABLE_START) / 4096 - 3;
    let mut handed: u64 = 2;
    while let Some(f) = p.allocate_frame() {
        assert!(f % 4096 == 0 && f >= PAGE_TABLE_START && f < PAGE_TABLE_END);
        handed += 1;
    }
    assert_eq!(handed, total);
    assert_eq!(p.allocate_frame(), None);
}

#[test]
fn color_codes_pack_background_high() {
    assert_eq!(Color::Black.code(), 0);
    assert_eq!(Color::Pink.code(), 13);
    assert_eq!(Color::White.code(), 15);
    assert_eq!(ColorCode::new(Color::Yellow, Color::Black).value(), 14);
    assert_eq!(ColorCode::new(Color::Black, Color::White).value(), 0xf0);
    assert_eq!(ColorCode::new(Color::Cyan, Color::Blue).value(), 0x13);
}

#[test]
fn buffer_line_and_scroll_area_start_clean() {
    let blank = ColorCode::new(Color::Black, Color::Black);
    let line = BufferLine::new(BUFFER_HEIGHT - 2, blank);
    assert_eq!(line.row, BUFFER_HEIGHT - 2);
    assert_eq!(line.column_position, 0);
    let area = ScrollArea::new(0, BUFFER_HEIGHT - 3);
    assert_eq!(area.start, 0);
    assert_eq!(area.end, BUFFER_HEIGHT - 3);
}

#[test]
fn interrupt_vectors_follow_pic_offset() {
    assert_eq!(InterruptIndex::Timer.as_u8(), 32);
    assert_eq!(InterruptIndex::Keyboard.as_u8(), 33);
    assert_eq!(InterruptIndex::Timer.as_usize(), 32);
    assert_eq!(InterruptIndex::Keyboard.as_usize(), 33);
}

#[test]
fn flag_toggles() {
    let mut f = Flag::new();
    assert!(!f.get());
    f.on();
    assert!(f.get());
    f.off();
    assert!(!f.get());
}

#[test]
fn alloc_error_kinds_are_distinct() {
    let kinds = [
        AllocError::FrameExhausted,
        AllocError::MapFailed,
        AllocError::UnmapFailed,
        AllocError::HeapExhausted,
    ];
    for (i, a) in kinds.iter().enumerate() {
        for (j, b) in kinds.iter().enumerate() {
            assert_eq!(a == b, i == j);
        }
    }
}

#[test]
fn vaddr_assembles_table_indices() {
    assert_eq!(vaddr_from_table(0, 1, 0, 0), 0x40000000);
    assert_eq!(vaddr_from_table(0, 0, 1, 0), 0x200000);
    assert_eq!(vaddr_from_table(1, 0, 0, 0), 0x8000000000);
    assert_eq!(vaddr_from_table(0, 1, 2, 3), 0x40000000 + 2 * 0x200000 + 3);
}
