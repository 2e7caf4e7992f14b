//! Rectangles of screen cells.
use vstd::prelude::*;

use ratatui::widgets::{Block, Borders};

verus! {

/// A rectangle of cells. The last column and row lie within `u16`.
#[derive(Clone, Copy, Debug, PartialEq, Eq, Structural)]
pub struct Rect {
    pub x: u16,
    pub y: u16,
    pub width: u16,
    pub height: u16,
}

/// A sum, or the largest `u16`.
pub open spec fn sat_add(a: u16, b: u16) -> u16 {
    if a + b > u16::MAX {
        u16::MAX
    } else {
        (a + b) as u16
    }
}

/// A difference, or zero.
pub open spec fn sat_sub(a: u16, b: u16) -> u16 {
    if a < b {
        0
    } else {
        (a - b) as u16
    }
}

/// The smaller of two numbers.
pub open spec fn min16(a: u16, b: u16) -> u16 {
    if a < b {
        a
    } else {
        b
    }
}

/// The larger of two numbers.
pub open spec fn max16(a: u16, b: u16) -> u16 {
    if a < b {
        b
    } else {
        a
    }
}

/// A number held between two bounds, of which `lo` must not exceed `hi`.
pub open spec fn clamp16(n: u16, lo: u16, hi: u16) -> u16 {
    if n < lo {
        lo
    } else if n > hi {
        hi
    } else {
        n
    }
}

impl Rect {
    /// The rectangle without any cell, at the top left.
    pub open spec fn zero() -> Rect {
        Rect { x: 0, y: 0, width: 0, height: 0 }
    }

    /// The first column to the right.
    pub open spec fn right_spec(self) -> u16 {
        sat_add(self.x, self.width)
    }

    /// The first row below.
    pub open spec fn bottom_spec(self) -> u16 {
        sat_add(self.y, self.height)
    }

    /// Whether the cell lies in the rectangle.
    pub open spec fn has_cell(self, column: u16, row: u16) -> bool {
        self.x <= column < self.right_spec() && self.y <= row < self.bottom_spec()
    }

    /// The rectangle with its right and bottom edges cut to `u16`.
    pub open spec fn cut(x: u16, y: u16, width: u16, height: u16) -> Rect {
        Rect {
            x,
            y,
            width: (sat_add(x, width) - x) as u16,
            height: (sat_add(y, height) - y) as u16,
        }
    }

    /// A rectangle, cut where an edge would lie beyond `u16`.
    pub fn new(x: u16, y: u16, width: u16, height: u16) -> (r: Rect)
        ensures
            r == Rect::cut(x, y, width, height),
    {
        Rect { x, y, width: x.saturating_add(width) - x, height: y.saturating_add(height) - y }
    }

    /// The first column to the right.
    pub fn right(&self) -> (n: u16)
        ensures
            n == self.right_spec(),
    {
        self.x.saturating_add(self.width)
    }

    /// The first row below.
    pub fn bottom(&self) -> (n: u16)
        ensures
            n == self.bottom_spec(),
    {
        self.y.saturating_add(self.height)
    }

    /// Whether the cell lies in the rectangle.
    pub fn contains(&self, column: u16, row: u16) -> (b: bool)
        ensures
            b == self.has_cell(column, row),
    {
        column >= self.x && column < self.right() && row >= self.y && row < self.bottom()
    }
}

/// What a border of one cell on every side leaves of an area.
pub open spec fn inside_border(area: Rect) -> Rect {
    Rect {
        x: min16(sat_add(area.x, 1), area.right_spec()),
        y: min16(sat_add(area.y, 1), area.bottom_spec()),
        width: sat_sub(area.width, 2),
        height: sat_sub(area.height, 2),
    }
}

/// `ratatui`'s `Block::inner` with borders on every side, no title and no
/// padding: the area without its outermost cells.
#[verifier::external_body]
pub(crate) fn bordered_inner(area: Rect) -> (inner: Rect)
    ensures
        inner == inside_border(area),
{
    let outer = ratatui::layout::Rect { x: area.x, y: area.y, width: area.width, height: area.height };
    let r = Block::new().borders(Borders::ALL).inner(outer);
    Rect { x: r.x, y: r.y, width: r.width, height: r.height }
}

/// A number between two bounds stays, and any other becomes the bound that it is
/// beyond.
pub proof fn law_clamping_keeps_what_is_between(n: u16, lo: u16, hi: u16)
    requires
        lo <= hi,
    ensures
        lo <= n <= hi ==> clamp16(n, lo, hi) == n,
        n < lo ==> clamp16(n, lo, hi) == lo,
        n > hi ==> clamp16(n, lo, hi) == hi,
{
}

/// A rectangle has as many columns and rows of cells as it is wide and high, from
/// its top left on.
pub proof fn law_rectangles_hold_their_cells(r: Rect, column: u16, row: u16)
    requires
        r.x + r.width <= u16::MAX,
        r.y + r.height <= u16::MAX,
    ensures
        r.has_cell(column, row) <==> r.x <= column < r.x + r.width && r.y <= row < r.y + r.height,
        r.right_spec() == r.x + r.width,
        r.bottom_spec() == r.y + r.height,
{
}

} // verus!
