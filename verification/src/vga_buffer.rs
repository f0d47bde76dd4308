//! The pure pieces of the VGA text console: colors, color codes, and the
//! line/scroll bookkeeping.  The writer that touches the memory-mapped
//! screen buffer lives outside this crate and drives these values.

use vstd::prelude::*;

verus! {

/// Height of the VGA text screen in rows.
pub const BUFFER_HEIGHT: usize = 25;

/// Width of the VGA text screen in columns.
pub const BUFFER_WIDTH: usize = 80;

/// The sixteen-color VGA palette (position twelve is unused).
#[derive(Debug, Clone, Copy, PartialEq, Eq, Structural)]
pub enum Color {
    /// Palette entry 0.
    Black,
    /// Palette entry 1.
    Blue,
    /// Palette entry 2.
    Green,
    /// Palette entry 3.
    Cyan,
    /// Palette entry 4.
    Red,
    /// Palette entry 5.
    Magenta,
    /// Palette entry 6.
    Brown,
    /// Palette entry 7.
    LightGray,
    /// Palette entry 8.
    Darkgray,
    /// Palette entry 9.
    LightBlue,
    /// Palette entry 10.
    LightGreen,
    /// Palette entry 11.
    LightRed,
    /// Palette entry 13.
    Pink,
    /// Palette entry 14.
    Yellow,
    /// Palette entry 15.
    White,
}

impl Color {
    /// The palette number of the color.
    pub open spec fn spec_code(self) -> u8 {
        match self {
            Color::Black => 0,
            Color::Blue => 1,
            Color::Green => 2,
            Color::Cyan => 3,
            Color::Red => 4,
            Color::Magenta => 5,
            Color::Brown => 6,
            Color::LightGray => 7,
            Color::Darkgray => 8,
            Color::LightBlue => 9,
            Color::LightGreen => 10,
            Color::LightRed => 11,
            Color::Pink => 13,
            Color::Yellow => 14,
            Color::White => 15,
        }
    }

    /// The palette number of the color.
    pub fn code(self) -> (r: u8)
        ensures
            r == self.spec_code(),
    {
        match self {
            Color::Black => 0,
            Color::Blue => 1,
            Color::Green => 2,
            Color::Cyan => 3,
            Color::Red => 4,
            Color::Magenta => 5,
            Color::Brown => 6,
            Color::LightGray => 7,
            Color::Darkgray => 8,
            Color::LightBlue => 9,
            Color::LightGreen => 10,
            Color::LightRed => 11,
            Color::Pink => 13,
            Color::Yellow => 14,
            Color::White => 15,
        }
    }
}

/// A foreground/background color pair packed into one VGA attribute byte.
#[derive(Debug, Clone, Copy, PartialEq, Eq, Structural)]
pub struct ColorCode(u8);

impl ColorCode {
    /// The packed attribute byte.
    pub closed spec fn spec_value(self) -> u8 {
        self.0
    }

    /// The packed attribute byte.
    pub fn value(&self) -> (r: u8)
        ensures
            r == self.spec_value(),
    {
        self.0
    }

    /// Packs a foreground and a background color: the background occupies
    /// the high four bits.
    pub fn new(foreground: Color, background: Color) -> (r: ColorCode)
        ensures
            r.spec_value() == background.spec_code() * 16 + foreground.spec_code(),
    {
        let f = foreground.code();
        let b = background.code();
        proof {
            assert(b < 16 && f < 16 ==> (b << 4u8 | f) == b * 16 + f) by (bit_vector);
        }
        ColorCode((b << 4) | f)
    }
}

/// The rows of the screen that scroll as log lines are appended.
#[derive(Debug, Clone, Copy, PartialEq, Eq, Structural)]
pub struct ScrollArea {
    /// First row of the area.
    pub start: usize,
    /// One past the last row of the area.
    pub end: usize,
}

impl ScrollArea {
    /// A scroll area covering the rows `start` up to `end`.
    pub fn new(start: usize, end: usize) -> (r: ScrollArea)
        ensures
            r.start == start,
            r.end == end,
    {
        ScrollArea { start, end }
    }
}

/// Cursor state of one dedicated screen row.
#[derive(Debug, Clone, Copy, PartialEq, Eq, Structural)]
pub struct BufferLine {
    /// The row this line writes to.
    pub row: usize,
    /// The next column to write.
    pub column_position: usize,
    /// The attribute byte used to blank the row.
    pub blank_color: ColorCode,
}

impl BufferLine {
    /// A fresh line at column zero.
    pub fn new(row: usize, blank_color: ColorCode) -> (r: BufferLine)
        ensures
            r.row == row,
            r.column_position == 0,
            r.blank_color == blank_color,
    {
        BufferLine { row, column_position: 0, blank_color }
    }
}

} // verus!
