//! Selected text: by mouse drag, and by keyboard.
use vstd::prelude::*;

use crate::geometry::Rect;
use crate::ids::PaneId;

verus! {

/// Whether one place comes before another: by row, then by column.
pub open spec fn not_after(a: (int, int), b: (int, int)) -> bool {
    a.0 < b.0 || (a.0 == b.0 && a.1 <= b.1)
}

/// Two places in order.
pub open spec fn in_order(a: (int, int), b: (int, int)) -> ((int, int), (int, int)) {
    if not_after(a, b) {
        (a, b)
    } else {
        (b, a)
    }
}

/// Whether a place lies in a range of text: on the first row from its start, on
/// the last to its end, and in between from the leftmost column of either to
/// `last`.
pub open spec fn in_text_range(start: (int, int), end: (int, int), last: int, at: (int, int)) -> bool {
    let left = if at.0 == start.0 || start.1 < end.1 {
        start.1
    } else {
        end.1
    };
    let right = if at.0 == end.0 {
        end.1
    } else {
        last
    };
    start.0 <= at.0 <= end.0 && left <= at.1 <= right
}

/// A selection made by mouse, in rows and columns of what a pane retains.
#[derive(Clone, Copy, Debug, PartialEq, Eq)]
pub struct RetainedSelection {
    pub anchor: (usize, usize),
    pub cursor: (usize, usize),
}

impl RetainedSelection {
    /// Where the selection starts and ends.
    pub open spec fn range(self) -> ((int, int), (int, int)) {
        in_order(
            (self.anchor.0 as int, self.anchor.1 as int),
            (self.cursor.0 as int, self.cursor.1 as int),
        )
    }

    /// Where the selection starts and ends.
    pub fn ordered(&self) -> (r: ((usize, usize), (usize, usize)))
        ensures
            ((r.0.0 as int, r.0.1 as int), (r.1.0 as int, r.1.1 as int)) == self.range(),
    {
        let (ar, ac) = self.anchor;
        let (cr, cc) = self.cursor;
        if ar < cr || (ar == cr && ac <= cc) {
            ((ar, ac), (cr, cc))
        } else {
            ((cr, cc), (ar, ac))
        }
    }

    /// Whether the cell is selected, in rows of this width.
    pub fn contains(&self, row: usize, col: usize, width: usize) -> (b: bool)
        ensures
            b == in_text_range(
                self.range().0,
                self.range().1,
                if width == 0 {
                    0
                } else {
                    width - 1
                },
                (row as int, col as int),
            ),
    {
        let ((sr, sc), (er, ec)) = self.ordered();
        if row < sr || row > er {
            return false;
        }
        let middle_left: usize = if sc < ec {
            sc
        } else {
            ec
        };
        let left: usize = if row == sr {
            sc
        } else {
            middle_left
        };
        let right: usize = if row == er {
            ec
        } else if width == 0 {
            0
        } else {
            width - 1
        };
        col >= left && col <= right
    }
}

/// A selection made by mouse, in cells of the screen.
#[derive(Clone, Copy, Debug, PartialEq, Eq)]
pub struct Selection {
    pub pane: PaneId,
    /// Where the pane's content is on the screen.
    pub content: Rect,
    /// Column and row where the drag began.
    pub anchor: (u16, u16),
    /// Column and row where the drag is.
    pub cursor: (u16, u16),
    /// The same selection in what the pane retains.
    pub retained: Option<RetainedSelection>,
    /// The wheel moved the selection while it was made.
    pub scrolled: bool,
    pub dragging: bool,
}

impl Selection {
    /// Where the selection starts and ends, by row and column.
    pub open spec fn range(self) -> ((int, int), (int, int)) {
        in_order(
            (self.anchor.1 as int, self.anchor.0 as int),
            (self.cursor.1 as int, self.cursor.0 as int),
        )
    }

    /// Where the selection starts and ends in reading order, by column and row.
    pub fn ordered(&self) -> (r: ((u16, u16), (u16, u16)))
        ensures
            ((r.0.1 as int, r.0.0 as int), (r.1.1 as int, r.1.0 as int)) == self.range(),
    {
        let (ax, ay) = self.anchor;
        let (cx, cy) = self.cursor;
        if ay < cy || (ay == cy && ax <= cx) {
            ((ax, ay), (cx, cy))
        } else {
            ((cx, cy), (ax, ay))
        }
    }

    /// Whether the cell at this column and row is selected.
    pub fn contains(&self, x: u16, y: u16) -> (b: bool)
        ensures
            b == (self.content.has_cell(x, y) && in_text_range(
                self.range().0,
                self.range().1,
                if self.content.right_spec() == 0 {
                    0
                } else {
                    self.content.right_spec() - 1
                },
                (y as int, x as int),
            )),
    {
        let c = self.content;
        if !c.contains(x, y) {
            return false;
        }
        let ((sx, sy), (ex, ey)) = self.ordered();
        if y < sy || y > ey {
            return false;
        }
        let left: u16 = if y == sy || sx < ex {
            sx
        } else {
            ex
        };
        let right: u16 = if y == ey {
            ex
        } else {
            c.right().saturating_sub(1)
        };
        x >= left && x <= right
    }

    /// Whether the drag selected anything: it moved, or the wheel moved what it
    /// selects.
    pub fn has_range(&self) -> (b: bool)
        ensures
            b == (self.anchor != self.cursor || (self.scrolled && (match self.retained {
                Some(r) => r.anchor != r.cursor,
                None => false,
            }))),
    {
        if self.anchor.0 != self.cursor.0 || self.anchor.1 != self.cursor.1 {
            return true;
        }
        match self.retained {
            Some(r) => self.scrolled && (r.anchor.0 != r.cursor.0 || r.anchor.1 != r.cursor.1),
            None => false,
        }
    }
}

/// A selection made by keyboard, in rows and columns of what a pane retains.
#[derive(Clone, Copy, Debug, PartialEq, Eq)]
pub struct CopyMode {
    pub pane: PaneId,
    pub anchor: (usize, usize),
    pub cursor: (usize, usize),
    /// Where the view was before.
    pub saved_scroll: usize,
}

impl CopyMode {
    /// Where the selection starts and ends.
    pub open spec fn range(self) -> ((int, int), (int, int)) {
        in_order(
            (self.anchor.0 as int, self.anchor.1 as int),
            (self.cursor.0 as int, self.cursor.1 as int),
        )
    }

    /// Where the selection starts and ends.
    pub fn ordered(&self) -> (r: ((usize, usize), (usize, usize)))
        ensures
            ((r.0.0 as int, r.0.1 as int), (r.1.0 as int, r.1.1 as int)) == self.range(),
    {
        let (ar, ac) = self.anchor;
        let (cr, cc) = self.cursor;
        if ar < cr || (ar == cr && ac <= cc) {
            ((ar, ac), (cr, cc))
        } else {
            ((cr, cc), (ar, ac))
        }
    }

    /// Whether the cell is selected: whole rows between the first and the last.
    pub fn contains(&self, row: usize, col: usize) -> (b: bool)
        ensures
            b == ({
                let (s, e) = self.range();
                &&& s.0 <= row <= e.0
                &&& row == s.0 ==> s.1 <= col
                &&& row == e.0 ==> col <= e.1
            }),
    {
        let ((sr, sc), (er, ec)) = self.ordered();
        if row < sr || row > er {
            return false;
        }
        (row != sr || col >= sc) && (row != er || col <= ec)
    }
}

/// A selection does not depend on which end it was made from.
pub proof fn law_selection_ignores_direction(a: (int, int), b: (int, int))
    ensures
        in_order(a, b) == in_order(b, a),
        not_after(in_order(a, b).0, in_order(a, b).1),
{
}

/// Which cells are selected: on the first row those from the start on, on the last
/// those up to the end, and on a row in between those from the leftmost of both
/// columns on. Where it starts and ends on one row, those from the one to the other.
pub proof fn law_selected_cells_lie_between(
    start: (int, int),
    end: (int, int),
    last: int,
    row: int,
    col: int,
)
    requires
        not_after(start, end),
        0 <= start.1 <= last,
        0 <= end.1 <= last,
    ensures
        in_text_range(start, end, last, start),
        row < start.0 || row > end.0 ==> !in_text_range(start, end, last, (row, col)),
        start.0 == end.0 ==> (in_text_range(start, end, last, (start.0, col)) <==> start.1 <= col
            <= end.1),
        start.0 < end.0 ==> (in_text_range(start, end, last, (start.0, col)) <==> start.1 <= col
            <= last),
        start.0 < end.0 ==> (in_text_range(start, end, last, (end.0, col)) <==> (start.1 <= col
            || end.1 <= col) && col <= end.1),
        start.0 < row < end.0 ==> (in_text_range(start, end, last, (row, col)) <==> (start.1 <= col
            || end.1 <= col) && col <= last),
{
}

/// A selection covers the two places between which it was made, the first of them
/// first: the upper one, or the left one on the same row.
pub proof fn law_selections_start_at_the_upper_place(a: (int, int), b: (int, int))
    ensures
        a.0 < b.0 ==> in_order(a, b) == (a, b),
        a.0 > b.0 ==> in_order(a, b) == (b, a),
        a.0 == b.0 && a.1 <= b.1 ==> in_order(a, b) == (a, b),
        a.0 == b.0 && a.1 > b.1 ==> in_order(a, b) == (b, a),
{
}

} // verus!
