//! One cell of a terminal grid, as plain values.
use vstd::prelude::*;

verus! {

/// Cell flag: foreground and background are exchanged.
pub const FLAG_INVERSE: u16 = 0x1;

/// Cell flag: bold.
pub const FLAG_BOLD: u16 = 0x2;

/// Cell flag: italic.
pub const FLAG_ITALIC: u16 = 0x4;

/// Cell flag: underlined.
pub const FLAG_UNDERLINE: u16 = 0x8;

/// Cell flag, on the last cell of a row: the text goes on in the next row.
pub const FLAG_WRAPLINE: u16 = 0x10;

/// Cell flag: the second half of a wide character.
pub const FLAG_WIDE_CHAR_SPACER: u16 = 0x40;

/// Cell flag: dim.
pub const FLAG_DIM: u16 = 0x80;

/// Cell flag: hidden.
pub const FLAG_HIDDEN: u16 = 0x100;

/// Cell flag: struck out.
pub const FLAG_STRIKEOUT: u16 = 0x200;

/// Cell flag: the last column of a row whose wide character went to the next row.
pub const FLAG_LEADING_WIDE_CHAR_SPACER: u16 = 0x400;

/// The flags of wide characters: of the character itself, of its second half, and
/// of the blank that it leaves where it goes to the next row.
pub const FLAGS_WIDE: u16 = 0x460;

/// A colour as a terminal application asked for it.
#[derive(Clone, Copy, Debug, PartialEq, Eq, Structural)]
pub enum CellColor {
    /// A colour in red, green and blue.
    Spec(u8, u8, u8),
    /// An entry of the 256-colour palette.
    Indexed(u8),
    /// A named colour, by its number: the sixteen ANSI colours come first.
    Named(u16),
}

/// The contents of one cell.
#[derive(Debug)]
pub struct Cell {
    pub c: char,
    /// Combining characters that follow `c`.
    pub zerowidth: Vec<char>,
    pub fg: CellColor,
    pub bg: CellColor,
    /// The `FLAG_*` bits.
    pub flags: u16,
}

/// What a [`Cell`] holds.
#[verifier::ext_equal]
pub struct CellView {
    pub c: char,
    pub zerowidth: Seq<char>,
    pub fg: CellColor,
    pub bg: CellColor,
    pub flags: u16,
}

impl View for Cell {
    type V = CellView;

    open spec fn view(&self) -> CellView {
        CellView {
            c: self.c,
            zerowidth: self.zerowidth@,
            fg: self.fg,
            bg: self.bg,
            flags: self.flags,
        }
    }
}

/// What a row of cells holds.
pub open spec fn row_view(row: Seq<Cell>) -> Seq<CellView> {
    Seq::new(row.len(), |i: int| row[i]@)
}

/// Whether every bit of `bit` is set in `flags`.
pub open spec fn has_flag(flags: u16, bit: u16) -> bool {
    flags & bit == bit
}

/// Whether the cell is the second half of a wide character.
pub open spec fn is_spacer(cell: CellView) -> bool {
    has_flag(cell.flags, FLAG_WIDE_CHAR_SPACER)
}

/// Whether the cell holds no wide character and no part of one.
pub open spec fn is_narrow(cell: CellView) -> bool {
    cell.flags & FLAGS_WIDE == 0
}

/// The character that a cell shows: an empty cell shows a blank.
pub open spec fn shown_char(c: char) -> char {
    if c == '\0' {
        ' '
    } else {
        c
    }
}

/// Whether the cell holds anything but a blank.
pub open spec fn is_content(cell: CellView) -> bool {
    !is_spacer(cell) && cell.c != '\0' && cell.c != ' '
}

/// Whether every bit of `bit` is set in `flags`.
pub fn flag_set(flags: u16, bit: u16) -> (b: bool)
    ensures
        b == has_flag(flags, bit),
{
    flags & bit == bit
}

/// The character to show for the cell.
pub fn shown(c: char) -> (r: char)
    ensures
        r == shown_char(c),
{
    if c == '\0' {
        ' '
    } else {
        c
    }
}

impl Cell {
    /// Whether the cell is the second half of a wide character.
    pub fn spacer(&self) -> (b: bool)
        ensures
            b == is_spacer(self@),
    {
        flag_set(self.flags, FLAG_WIDE_CHAR_SPACER)
    }

    /// Whether the cell holds no wide character and no part of one.
    pub fn narrow(&self) -> (b: bool)
        ensures
            b == is_narrow(self@),
    {
        self.flags & FLAGS_WIDE == 0
    }

    /// Whether the cell holds anything but a blank.
    pub fn content(&self) -> (b: bool)
        ensures
            b == is_content(self@),
    {
        !self.spacer() && self.c != '\0' && self.c != ' '
    }
}

} // verus!
