//! What a terminal shows and retains, and the text that is read from it.
use vstd::prelude::*;
use vstd::string::*;

use crate::terminal::cell;
use crate::terminal::cell::{Cell, CellView};
use crate::terminal::row;
use crate::terminal::row::{
    aligned_row, layout_of_row, push_text, text_of_row, visible_row, RetainedRowLayout,
};
use crate::terminal::style;
use crate::terminal::style::{map_color, map_flags, RenderCell};

verus! {

/// A terminal's grid: the retained rows, oldest first, of which the last
/// `lines` are the live screen; how far the view is scrolled back; the mode
/// bits; and the cursor's column and line.
#[verifier::ext_equal]
pub struct Screen {
    pub rows: Seq<Seq<CellView>>,
    pub columns: nat,
    pub lines: nat,
    /// How many rows the view is above the live screen.
    pub offset: nat,
    /// How many rows may be retained above the live screen.
    pub limit: nat,
    pub modes: u32,
    pub cursor: (int, int),
}

impl Screen {
    /// A grid holds at least its screen, and every row has every column.
    pub open spec fn wf(self) -> bool {
        &&& 1 <= self.columns <= u16::MAX
        &&& 1 <= self.lines <= u16::MAX
        &&& self.lines <= self.rows.len() <= i32::MAX
        &&& forall|i: int|
            0 <= i < self.rows.len() ==> (#[trigger] self.rows[i]).len() == self.columns
    }

    /// The view stays within what is retained.
    pub open spec fn in_view(self) -> bool {
        self.offset <= self.history()
    }

    /// No cell holds a wide character or a part of one.
    pub open spec fn narrow(self) -> bool {
        forall|i: int, k: int|
            0 <= i < self.rows.len() && 0 <= k < self.columns ==> cell::is_narrow(
                #[trigger] self.rows[i][k],
            )
    }

    /// How many rows are retained above the live screen.
    pub open spec fn history(self) -> int {
        self.rows.len() - self.lines
    }

    /// A row of the live screen.
    pub open spec fn live(self, r: int) -> Seq<CellView> {
        self.rows[self.history() + r]
    }

    /// A row of the view.
    pub open spec fn viewed(self, r: int) -> Seq<CellView> {
        self.rows[self.history() - self.offset + r]
    }
}

/// A source of grid rows.
pub trait GridRows {
    /// The grid.
    spec fn screen(&self) -> Screen;

    /// How many columns a row has.
    fn columns(&self) -> (n: usize)
        requires
            self.screen().wf(),
        ensures
            n == self.screen().columns,
    ;

    /// How many rows the live screen has.
    fn screen_lines(&self) -> (n: usize)
        requires
            self.screen().wf(),
        ensures
            n == self.screen().lines,
    ;

    /// How many rows are retained above the live screen.
    fn history_size(&self) -> (n: usize)
        requires
            self.screen().wf(),
        ensures
            n == self.screen().history(),
    ;

    /// How many rows the view is above the live screen.
    fn display_offset(&self) -> (n: usize)
        requires
            self.screen().wf(),
        ensures
            n == self.screen().offset,
    ;

    /// The line of the cursor.
    fn cursor_line(&self) -> (n: i32)
        requires
            self.screen().wf(),
        ensures
            n == self.screen().cursor.1,
    ;

    /// A retained row, counted from the oldest.
    fn row(&self, index: usize) -> (cells: Vec<Cell>)
        requires
            self.screen().wf(),
            index < self.screen().rows.len(),
        ensures
            cell::row_view(cells@) == self.screen().rows[index as int],
    ;
}

/// A grid held as plain values.
#[derive(Debug)]
pub struct ScreenBuffer {
    pub rows: Vec<Vec<Cell>>,
    pub columns: usize,
    pub lines: usize,
    pub offset: usize,
    pub limit: usize,
    pub modes: u32,
    pub cursor: (usize, i32),
}

/// What a cell vector holds, copied.
fn copy_cells(row: &Vec<Cell>) -> (out: Vec<Cell>)
    ensures
        cell::row_view(out@) == cell::row_view(row@),
{
    let mut out: Vec<Cell> = Vec::new();
    let mut i: usize = 0;
    while i < row.len()
        invariant
            i <= row@.len(),
            out@.len() == i,
            forall|k: int| 0 <= k < i ==> (#[trigger] out@[k])@ == row@[k]@,
        decreases row@.len() - i,
    {
        let c = &row[i];
        let mut zerowidth: Vec<char> = Vec::new();
        let mut k: usize = 0;
        while k < c.zerowidth.len()
            invariant
                k <= c.zerowidth@.len(),
                zerowidth@ == c.zerowidth@.take(k as int),
            decreases c.zerowidth@.len() - k,
        {
            zerowidth.push(c.zerowidth[k]);
            k = k + 1;
            assert(zerowidth@ =~= c.zerowidth@.take(k as int));
        }
        assert(zerowidth@ =~= c.zerowidth@);
        out.push(Cell { c: c.c, zerowidth, fg: c.fg, bg: c.bg, flags: c.flags });
        i = i + 1;
    }
    assert(cell::row_view(out@) =~= cell::row_view(row@));
    out
}

impl GridRows for ScreenBuffer {
    open spec fn screen(&self) -> Screen {
        Screen {
            rows: Seq::new(self.rows@.len(), |i: int| cell::row_view(self.rows@[i]@)),
            columns: self.columns as nat,
            lines: self.lines as nat,
            offset: self.offset as nat,
            limit: self.limit as nat,
            modes: self.modes,
            cursor: (self.cursor.0 as int, self.cursor.1 as int),
        }
    }

    fn columns(&self) -> (n: usize) {
        self.columns
    }

    fn screen_lines(&self) -> (n: usize) {
        self.lines
    }

    fn history_size(&self) -> (n: usize) {
        self.rows.len() - self.lines
    }

    fn display_offset(&self) -> (n: usize) {
        self.offset
    }

    fn cursor_line(&self) -> (n: i32) {
        self.cursor.1
    }

    fn row(&self, index: usize) -> (cells: Vec<Cell>) {
        copy_cells(&self.rows[index])
    }
}

// ---------------------------------------------------------------------------
// Text of the screen
// ---------------------------------------------------------------------------

/// The texts of the rows, a line break between any two once there is text.
pub open spec fn joined_text(rows: Seq<Seq<CellView>>) -> Seq<char>
    decreases rows.len(),
{
    if rows.len() == 0 {
        Seq::<char>::empty()
    } else {
        let before = joined_text(rows.drop_last());
        if before.len() == 0 {
            row::row_text(rows.last())
        } else {
            before.push('\n') + row::row_text(rows.last())
        }
    }
}

/// The last `n` rows of the live screen.
pub open spec fn bottom_rows(screen: Screen, n: nat) -> Seq<Seq<CellView>> {
    let k = if n < screen.lines {
        n
    } else {
        screen.lines
    };
    screen.rows.skip(screen.rows.len() - k)
}

/// The text of the last `n` rows of the live screen, wherever the view is.
pub fn detection_text<G: GridRows>(grid: &G, n: u16) -> (out: String)
    requires
        grid.screen().wf(),
    ensures
        out@ == joined_text(bottom_rows(grid.screen(), n as nat)),
{
    let ghost screen = grid.screen();
    let lines: usize = grid.screen_lines();
    let history: usize = grid.history_size();
    let count: usize = if (n as usize) < lines {
        n as usize
    } else {
        lines
    };
    let total: usize = history + lines;
    let start: usize = total - count;
    let ghost rows = bottom_rows(screen, n as nat);
    let mut out = String::new();
    let mut index: usize = start;
    assert(rows.take(0) =~= Seq::<Seq<CellView>>::empty());
    while index < total
        invariant
            screen == grid.screen(),
            screen.wf(),
            total == screen.rows.len(),
            start <= index <= total,
            rows == screen.rows.skip(start as int),
            out@ == joined_text(rows.take(index - start)),
        decreases total - index,
    {
        let cells = grid.row(index);
        let line = text_of_row(cells.as_slice());
        assert(rows.take(index + 1 - start).drop_last() =~= rows.take(index - start));
        assert(rows.take(index + 1 - start).last() == screen.rows[index as int]);
        if !out.as_str().is_empty() {
            out.push('\n');
        }
        let ghost before = out@;
        push_text(&mut out, line.as_str());
        assert(out@ =~= joined_text(rows.take(index + 1 - start)));
        index = index + 1;
    }
    assert(rows.take(index - start) =~= rows);
    out
}

/// The text of each row in view.
pub fn visible_rows<G: GridRows>(grid: &G) -> (out: Vec<String>)
    requires
        grid.screen().wf(),
        grid.screen().in_view(),
    ensures
        out@.len() == grid.screen().lines,
        forall|r: int|
            0 <= r < out@.len() ==> (#[trigger] out@[r])@ == row::visible_text(
                grid.screen().viewed(r),
            ),
{
    let lines: usize = grid.screen_lines();
    let first: usize = grid.history_size() - grid.display_offset();
    let mut out: Vec<String> = Vec::new();
    let mut r: usize = 0;
    while r < lines
        invariant
            grid.screen().wf(),
            lines == grid.screen().lines,
            first == grid.screen().history() - grid.screen().offset,
            r <= lines,
            out@.len() == r,
            forall|k: int|
                0 <= k < r ==> (#[trigger] out@[k])@ == row::visible_text(grid.screen().viewed(k)),
        decreases lines - r,
    {
        let cells = grid.row(first + r);
        out.push(visible_row(cells.as_slice()));
        r = r + 1;
    }
    out
}

/// The text of each row in view, one character for each column.
pub fn visible_rows_aligned<G: GridRows>(grid: &G) -> (out: Vec<String>)
    requires
        grid.screen().wf(),
        grid.screen().in_view(),
    ensures
        out@.len() == grid.screen().lines,
        forall|r: int|
            0 <= r < out@.len() ==> (#[trigger] out@[r])@ == row::aligned_text(
                grid.screen().viewed(r),
            ),
{
    let lines: usize = grid.screen_lines();
    let first: usize = grid.history_size() - grid.display_offset();
    let mut out: Vec<String> = Vec::new();
    let mut r: usize = 0;
    while r < lines
        invariant
            grid.screen().wf(),
            lines == grid.screen().lines,
            first == grid.screen().history() - grid.screen().offset,
            r <= lines,
            out@.len() == r,
            forall|k: int|
                0 <= k < r ==> (#[trigger] out@[k])@ == row::aligned_text(grid.screen().viewed(k)),
        decreases lines - r,
    {
        let cells = grid.row(first + r);
        out.push(aligned_row(cells.as_slice()));
        r = r + 1;
    }
    out
}

/// One drawn cell: its place in the view, its text and its style.
#[derive(Debug)]
pub struct DrawnCell {
    pub row: u16,
    pub column: u16,
    pub symbol: String,
    pub style: RenderCell,
}

/// What a [`DrawnCell`] holds.
#[verifier::ext_equal]
pub struct DrawnView {
    pub row: int,
    pub column: int,
    pub symbol: Seq<char>,
    pub style: RenderCell,
}

impl View for DrawnCell {
    type V = DrawnView;

    open spec fn view(&self) -> DrawnView {
        DrawnView {
            row: self.row as int,
            column: self.column as int,
            symbol: self.symbol@,
            style: self.style,
        }
    }
}

/// The drawn cells of a row: every cell but the second halves of wide
/// characters, each with its combining characters.
pub open spec fn drawn_row(r: int, cells: Seq<CellView>) -> Seq<DrawnView>
    decreases cells.len(),
{
    if cells.len() == 0 {
        Seq::<DrawnView>::empty()
    } else {
        let before = drawn_row(r, cells.drop_last());
        let c = cells.last();
        if cell::is_spacer(c) {
            before
        } else {
            before.push(
                DrawnView {
                    row: r,
                    column: cells.len() - 1,
                    symbol: seq![c.c] + c.zerowidth,
                    style: style::mapped_style(c.fg, c.bg, c.flags),
                },
            )
        }
    }
}

/// The drawn cells of the first `n` rows in view, from the top left.
pub open spec fn drawn_cells(screen: Screen, n: nat) -> Seq<DrawnView>
    decreases n,
{
    if n == 0 {
        Seq::<DrawnView>::empty()
    } else {
        drawn_cells(screen, (n - 1) as nat) + drawn_row(n - 1, screen.viewed(n - 1))
    }
}

/// What the drawn cells hold.
pub open spec fn drawn_view(cells: Seq<DrawnCell>) -> Seq<DrawnView> {
    Seq::new(cells.len(), |i: int| cells[i]@)
}

/// Every cell in view, from the top left.
pub fn for_each_cell<G: GridRows>(grid: &G) -> (out: Vec<DrawnCell>)
    requires
        grid.screen().wf(),
        grid.screen().in_view(),
    ensures
        drawn_view(out@) == drawn_cells(grid.screen(), grid.screen().lines),
{
    let ghost screen = grid.screen();
    let lines: usize = grid.screen_lines();
    let columns: usize = grid.columns();
    let first: usize = grid.history_size() - grid.display_offset();
    let mut out: Vec<DrawnCell> = Vec::new();
    let mut r: usize = 0;
    assert(drawn_view(out@) =~= drawn_cells(screen, 0));
    while r < lines
        invariant
            screen == grid.screen(),
            screen.wf(),
            lines == screen.lines,
            columns == screen.columns,
            first == screen.history() - screen.offset,
            r <= lines,
            drawn_view(out@) == drawn_cells(screen, r as nat),
        decreases lines - r,
    {
        let cells = grid.row(first + r);
        let ghost rv = screen.viewed(r as int);
        let ghost base = drawn_view(out@);
        assert(rv == cell::row_view(cells@));
        assert(cells@.len() == rv.len());
        let mut column: usize = 0;
        assert(rv.take(0) =~= Seq::<CellView>::empty());
        assert(drawn_view(out@) =~= base + drawn_row(r as int, rv.take(0)));
        while column < columns
            invariant
                r < lines <= u16::MAX,
                columns <= u16::MAX,
                rv == cell::row_view(cells@),
                cells@.len() == columns,
                column <= columns,
                drawn_view(out@) == base + drawn_row(r as int, rv.take(column as int)),
            decreases columns - column,
        {
            let c = &cells[column];
            assert(rv.take(column + 1).drop_last() =~= rv.take(column as int));
            assert(rv.take(column + 1).last() == c@);
            let ghost shown_before = drawn_view(out@);
            if !c.spacer() {
                let mut symbol = String::new();
                symbol.push(c.c);
                let mut k: usize = 0;
                while k < c.zerowidth.len()
                    invariant
                        k <= c.zerowidth@.len(),
                        symbol@ == seq![c.c] + c.zerowidth@.take(k as int),
                    decreases c.zerowidth@.len() - k,
                {
                    symbol.push(c.zerowidth[k]);
                    k = k + 1;
                    assert(symbol@ =~= seq![c.c] + c.zerowidth@.take(k as int));
                }
                assert(symbol@ =~= seq![c.c] + c.zerowidth@);
                let drawn = DrawnCell {
                    row: r as u16,
                    column: column as u16,
                    symbol,
                    style: RenderCell {
                        fg: map_color(c.fg),
                        bg: map_color(c.bg),
                        mods: map_flags(c.flags),
                    },
                };
                out.push(drawn);
                assert(drawn_view(out@) =~= shown_before.push(drawn@));
            }
            assert(drawn_view(out@) =~= base + drawn_row(r as int, rv.take(column + 1)));
            column = column + 1;
        }
        assert(rv.take(column as int) =~= rv);
        r = r + 1;
    }
    out
}

// ---------------------------------------------------------------------------
// Retained rows
// ---------------------------------------------------------------------------

/// Whether no cell holds a wide character or a part of one.
pub fn is_narrow<G: GridRows>(grid: &G) -> (b: bool)
    requires
        grid.screen().wf(),
    ensures
        b == grid.screen().narrow(),
{
    let ghost s = grid.screen();
    let total: usize = grid.history_size() + grid.screen_lines();
    let columns: usize = grid.columns();
    let mut i: usize = 0;
    while i < total
        invariant
            s == grid.screen(),
            s.wf(),
            total == s.rows.len(),
            columns == s.columns,
            forall|a: int, k: int|
                0 <= a < i && 0 <= k < columns ==> cell::is_narrow(#[trigger] s.rows[a][k]),
        decreases total - i,
    {
        let row = grid.row(i);
        let ghost v = cell::row_view(row@);
        let mut k: usize = 0;
        while k < columns
            invariant
                s == grid.screen(),
                columns == s.columns,
                i < s.rows.len(),
                v == s.rows[i as int],
                v == cell::row_view(row@),
                row@.len() == columns,
                forall|j: int| 0 <= j < k ==> cell::is_narrow(#[trigger] s.rows[i as int][j]),
            decreases columns - k,
        {
            assert(v[k as int] == row@[k as int]@);
            if !row[k].narrow() {
                assert(!cell::is_narrow(s.rows[i as int][k as int]));
                return false;
            }
            k = k + 1;
        }
        i = i + 1;
    }
    true
}

/// The text of a retained row, where there is one of this index.
pub fn retained_row_text<G: GridRows>(grid: &G, index: usize) -> (out: Option<String>)
    requires
        grid.screen().wf(),
    ensures
        out is Some <==> index < grid.screen().rows.len(),
        out matches Some(s) ==> s@ == row::row_text(grid.screen().rows[index as int]),
{
    if index < grid.history_size() + grid.screen_lines() {
        let cells = grid.row(index);
        Some(text_of_row(cells.as_slice()))
    } else {
        None
    }
}

/// Every retained row with its index, oldest first.
pub fn for_each_retained_row<G: GridRows>(grid: &G) -> (out: Vec<(usize, String)>)
    requires
        grid.screen().wf(),
    ensures
        out@.len() == grid.screen().rows.len(),
        forall|i: int|
            #![trigger out@[i]]
            0 <= i < out@.len() ==> out@[i].0 == i && out@[i].1@ == row::row_text(
                grid.screen().rows[i],
            ),
{
    let count: usize = grid.history_size() + grid.screen_lines();
    let mut out: Vec<(usize, String)> = Vec::new();
    let mut index: usize = 0;
    while index < count
        invariant
            grid.screen().wf(),
            count == grid.screen().rows.len(),
            index <= count,
            out@.len() == index,
            forall|i: int|
                #![trigger out@[i]]
                0 <= i < index ==> out@[i].0 == i && out@[i].1@ == row::row_text(
                    grid.screen().rows[i],
                ),
        decreases count - index,
    {
        let cells = grid.row(index);
        out.push((index, text_of_row(cells.as_slice())));
        index = index + 1;
    }
    out
}

/// How the columns of a retained row divide into words, where there is a row of
/// this index.
pub fn retained_row_layout<G: GridRows>(grid: &G, index: usize) -> (out: Option<RetainedRowLayout>)
    requires
        grid.screen().wf(),
    ensures
        out is Some <==> index < grid.screen().rows.len(),
        out matches Some(layout) ==> {
            &&& layout.whitespace@ == row::layout_whitespace(grid.screen().rows[index as int])
            &&& layout.has_text == (row::layout_scan(
                grid.screen().rows[index as int],
            ).last_content is Some)
        },
{
    if index < grid.history_size() + grid.screen_lines() {
        let cells = grid.row(index);
        Some(layout_of_row(cells.as_slice()))
    } else {
        None
    }
}

/// The rows from `k` on, one to a line.
pub open spec fn stacked(rows: Seq<Seq<CellView>>, k: int) -> Seq<char>
    decreases rows.len() - k,
{
    if k >= rows.len() || k < 0 {
        Seq::<char>::empty()
    } else if k == rows.len() - 1 {
        row::row_text(rows[k])
    } else {
        row::row_text(rows[k]) + seq!['\n'] + stacked(rows, k + 1)
    }
}

proof fn lemma_stacked_push(rows: Seq<Seq<CellView>>, r: Seq<CellView>, k: int)
    requires
        0 <= k < rows.len(),
    ensures
        stacked(rows.push(r), k) == stacked(rows, k) + seq!['\n'] + row::row_text(r),
    decreases rows.len() - k,
{
    let all = rows.push(r);
    assert(all[k] == rows[k]);
    if k == rows.len() - 1 {
        assert(all[k + 1] == r);
        assert(stacked(all, k + 1) == row::row_text(r));
    } else {
        lemma_stacked_push(rows, r, k + 1);
        assert(stacked(all, k) =~= stacked(rows, k) + seq!['\n'] + row::row_text(r));
    }
}

/// The text of rows is theirs from the top down, one to a line, without the empty
/// rows that it would start with.
pub proof fn law_joined_rows_stand_in_order(rows: Seq<Seq<CellView>>, k: int)
    requires
        0 <= k <= rows.len(),
        forall|i: int| 0 <= i < k ==> row::row_text(#[trigger] rows[i]).len() == 0,
        k < rows.len() ==> row::row_text(rows[k]).len() > 0,
    ensures
        joined_text(rows) == stacked(rows, k),
    decreases rows.len(),
{
    if rows.len() > 0 {
        let front = rows.drop_last();
        let last = rows.last();
        assert(rows =~= front.push(last));
        assert(rows[rows.len() - 1] == last);
        if k == rows.len() {
            assert forall|i: int| 0 <= i < front.len() implies row::row_text(
                #[trigger] front[i],
            ).len() == 0 by {
                assert(front[i] == rows[i]);
            }
            law_joined_rows_stand_in_order(front, k - 1);
            assert(joined_text(rows) =~= stacked(rows, k));
        } else {
            assert forall|i: int| 0 <= i < k implies row::row_text(#[trigger] front[i]).len()
                == 0 by {
                assert(front[i] == rows[i]);
            }
            if k < front.len() {
                assert(front[k] == rows[k]);
                law_joined_rows_stand_in_order(front, k);
                lemma_stacked_push(front, last, k);
                lemma_stacked_nonempty(front, k);
                assert(joined_text(rows) =~= stacked(rows, k));
            } else {
                law_joined_rows_stand_in_order(front, k);
            }
        }
    }
}

proof fn lemma_stacked_nonempty(rows: Seq<Seq<CellView>>, k: int)
    requires
        0 <= k < rows.len(),
        row::row_text(rows[k]).len() > 0,
    ensures
        stacked(rows, k).len() > 0,
{
}

proof fn lemma_drawn_row(r: int, cells: Seq<CellView>)
    ensures
        forall|k: int|
            0 <= k < drawn_row(r, cells).len() ==> {
                let d = #[trigger] drawn_row(r, cells)[k];
                &&& d.row == r
                &&& 0 <= d.column < cells.len()
                &&& !cell::is_spacer(cells[d.column])
                &&& d.symbol == seq![cells[d.column].c] + cells[d.column].zerowidth
                &&& d.style == style::mapped_style(
                    cells[d.column].fg,
                    cells[d.column].bg,
                    cells[d.column].flags,
                )
            },
        forall|c: int|
            0 <= c < cells.len() && !cell::is_spacer(#[trigger] cells[c]) ==> exists|k: int|
                0 <= k < drawn_row(r, cells).len() && (#[trigger] drawn_row(r, cells)[k]).column
                    == c,
    decreases cells.len(),
{
    if cells.len() > 0 {
        let front = cells.drop_last();
        lemma_drawn_row(r, front);
        let before = drawn_row(r, front);
        let out = drawn_row(r, cells);
        let last = cells.len() - 1;
        assert(cells[last] == cells.last());
        assert forall|k: int| 0 <= k < out.len() implies ({
            let d = #[trigger] out[k];
            &&& d.row == r
            &&& 0 <= d.column < cells.len()
            &&& !cell::is_spacer(cells[d.column])
            &&& d.symbol == seq![cells[d.column].c] + cells[d.column].zerowidth
            &&& d.style == style::mapped_style(
                cells[d.column].fg,
                cells[d.column].bg,
                cells[d.column].flags,
            )
        }) by {
            if k < before.len() {
                assert(out[k] == before[k]);
                assert(front[before[k].column] == cells[before[k].column]);
            }
        }
        assert forall|c: int| 0 <= c < cells.len() && !cell::is_spacer(#[trigger] cells[c]) implies
            exists|k: int| 0 <= k < out.len() && (#[trigger] out[k]).column == c by {
            if c < last {
                assert(front[c] == cells[c]);
                let k = choose|k: int| 0 <= k < before.len() && (#[trigger] before[k]).column == c;
                assert(out[k] == before[k]);
            } else {
                assert(out[out.len() - 1].column == c);
            }
        }
    }
}

/// Every cell in view is drawn where it is, with its own character and in its own
/// style: nothing else is drawn, and only the second halves of wide characters are
/// not.
pub proof fn law_cells_are_drawn_where_they_are(s: Screen, n: nat)
    ensures
        forall|k: int|
            0 <= k < drawn_cells(s, n).len() ==> {
                let d = #[trigger] drawn_cells(s, n)[k];
                &&& 0 <= d.row < n
                &&& 0 <= d.column < s.viewed(d.row).len()
                &&& ({
                    let cell = s.viewed(d.row)[d.column];
                    &&& !cell::is_spacer(cell)
                    &&& d.symbol == seq![cell.c] + cell.zerowidth
                    &&& d.style == style::mapped_style(cell.fg, cell.bg, cell.flags)
                })
            },
        forall|r: int, c: int|
            0 <= r < n && 0 <= c < s.viewed(r).len() && !cell::is_spacer(
                #[trigger] s.viewed(r)[c],
            ) ==> exists|k: int|
                0 <= k < drawn_cells(s, n).len() && (#[trigger] drawn_cells(s, n)[k]).row == r
                    && drawn_cells(s, n)[k].column == c,
    decreases n,
{
    if n > 0 {
        let m = (n - 1) as nat;
        law_cells_are_drawn_where_they_are(s, m);
        let row = s.viewed(m as int);
        lemma_drawn_row(m as int, row);
        let before = drawn_cells(s, m);
        let added = drawn_row(m as int, row);
        let out = drawn_cells(s, n);
        assert(out == before + added);
        assert forall|k: int| 0 <= k < out.len() implies ({
            let d = #[trigger] out[k];
            &&& 0 <= d.row < n
            &&& 0 <= d.column < s.viewed(d.row).len()
            &&& ({
                let cell = s.viewed(d.row)[d.column];
                &&& !cell::is_spacer(cell)
                &&& d.symbol == seq![cell.c] + cell.zerowidth
                &&& d.style == style::mapped_style(cell.fg, cell.bg, cell.flags)
            })
        }) by {
            if k < before.len() {
                assert(out[k] == before[k]);
            } else {
                assert(out[k] == added[k - before.len()]);
            }
        }
        assert forall|r: int, c: int|
            0 <= r < n && 0 <= c < s.viewed(r).len() && !cell::is_spacer(
                #[trigger] s.viewed(r)[c],
            ) implies exists|k: int|
            0 <= k < out.len() && (#[trigger] out[k]).row == r && out[k].column == c by {
            if r < m {
                let k = choose|k: int|
                    0 <= k < before.len() && (#[trigger] before[k]).row == r && before[k].column
                        == c;
                assert(out[k] == before[k]);
            } else {
                let k = choose|k: int| 0 <= k < added.len() && (#[trigger] added[k]).column == c;
                assert(out[before.len() + k] == added[k]);
            }
        }
    }
}

} // verus!
