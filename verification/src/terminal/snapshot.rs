//! A screen as text that draws it again.
use vstd::prelude::*;
use vstd::string::*;

use crate::terminal::cell;
use crate::terminal::cell::{shown, Cell, CellView};
use crate::terminal::row;
use crate::terminal::row::push_text;
use crate::terminal::screen::{GridRows, Screen};
use crate::terminal::style;
use crate::terminal::style::{map_color, map_flags, plain, push_reset, sgr, RenderCell};
use crate::text;

verus! {

/// A character with its style.
pub struct Glyph {
    pub c: char,
    pub style: RenderCell,
}

/// A blank in the plain style.
pub open spec fn blank_glyph() -> Glyph {
    Glyph { c: ' ', style: style::plain_style() }
}

/// The glyph of a cell: the second half of a wide character is a blank.
pub open spec fn cell_glyph(c: CellView) -> Glyph {
    if cell::is_spacer(c) {
        blank_glyph()
    } else {
        Glyph { c: cell::shown_char(c.c), style: style::mapped_style(c.fg, c.bg, c.flags) }
    }
}

/// The glyphs of a row of the live screen. A row that the view has scrolled away
/// from is blank.
pub open spec fn glyph_row(s: Screen, r: int) -> Seq<Glyph> {
    Seq::new(
        s.columns,
        |col: int|
            if r < s.lines - s.offset {
                cell_glyph(s.live(r)[col])
            } else {
                blank_glyph()
            },
    )
}

/// How many leading glyphs there are up to the last that is not blank.
pub open spec fn used_glyphs(r: Seq<Glyph>) -> nat
    decreases r.len(),
{
    if r.len() == 0 {
        0
    } else if r.last() != blank_glyph() {
        r.len()
    } else {
        used_glyphs(r.drop_last())
    }
}

/// How many leading rows there are up to the last that is not blank, of the
/// first `n`.
pub open spec fn used_rows(s: Screen, n: nat) -> nat
    decreases n,
{
    if n == 0 {
        0
    } else if used_glyphs(glyph_row(s, n - 1)) > 0 {
        n
    } else {
        used_rows(s, (n - 1) as nat)
    }
}

/// The glyphs written out, each change of style in front of its glyph.
pub open spec fn glyph_text(r: Seq<Glyph>) -> Seq<char>
    decreases r.len(),
{
    if r.len() == 0 {
        Seq::<char>::empty()
    } else {
        let g = r.last();
        let before = glyph_text(r.drop_last());
        if g.style == last_style(r.drop_last()) {
            before.push(g.c)
        } else {
            (before + style::sgr_code(g.style)).push(g.c)
        }
    }
}

/// The style of the last glyph.
pub open spec fn last_style(r: Seq<Glyph>) -> RenderCell {
    if r.len() == 0 {
        style::plain_style()
    } else {
        r.last().style
    }
}

/// The escape sequences that clear the screen and go to its top left.
pub open spec fn clear_code() -> Seq<char> {
    seq!['\u{1b}', '[', '2', 'J', '\u{1b}', '[', 'H']
}

/// One row without its trailing blanks.
pub open spec fn row_code(s: Screen, r: int) -> Seq<char> {
    let g = glyph_row(s, r);
    glyph_text(g.take(used_glyphs(g) as int)) + style::reset_code()
}

/// The first `n` rows, with a line break after every row but the last of `total`.
pub open spec fn rows_code(s: Screen, n: nat, total: nat) -> Seq<char>
    decreases n,
{
    if n == 0 {
        clear_code()
    } else {
        let before = rows_code(s, (n - 1) as nat, total) + row_code(s, n - 1);
        if n < total {
            before + seq!['\r', '\n']
        } else {
            before
        }
    }
}

/// A screen as text that draws it again, without trailing blank rows.
pub open spec fn snapshot_code(s: Screen) -> Seq<char> {
    let n = used_rows(s, s.lines);
    rows_code(s, n, n)
}

/// Whether nothing of the row is drawn.
pub open spec fn is_blank_row(s: Screen, r: int) -> bool {
    used_glyphs(glyph_row(s, r)) == 0
}

proof fn lemma_used_rows(s: Screen, n: nat)
    ensures
        used_rows(s, n) <= n,
        used_rows(s, n) > 0 ==> !is_blank_row(s, used_rows(s, n) - 1),
        forall|r: int| used_rows(s, n) <= r < n ==> #[trigger] is_blank_row(s, r),
    decreases n,
{
    if n > 0 && is_blank_row(s, n - 1) {
        lemma_used_rows(s, (n - 1) as nat);
    }
}

proof fn lemma_rows_code_len(s: Screen, n: nat, total: nat)
    ensures
        rows_code(s, n, total).len() >= clear_code().len() + 4 * n,
    decreases n,
{
    if n > 0 {
        lemma_rows_code_len(s, (n - 1) as nat, total);
    }
}

/// A screen on which nothing is drawn gives the code that clears the screen and
/// nothing else, and no other screen does.
pub proof fn law_blank_screens_are_only_cleared(s: Screen)
    ensures
        snapshot_code(s) == clear_code() <==> forall|r: int|
            0 <= r < s.lines ==> #[trigger] is_blank_row(s, r),
{
    let n = used_rows(s, s.lines);
    lemma_used_rows(s, s.lines);
    lemma_rows_code_len(s, n, n);
}

/// Blank rows at the bottom are never written: the last row that is written is the
/// last that is not blank, and only the rows above it are followed by a line break.
pub proof fn law_trailing_blank_rows_are_not_written(s: Screen, n: nat)
    requires
        n <= s.lines,
        forall|r: int| n <= r < s.lines ==> #[trigger] is_blank_row(s, r),
        n > 0 ==> !is_blank_row(s, n - 1),
    ensures
        snapshot_code(s) == rows_code(s, n, n),
{
    lemma_used_rows(s, s.lines);
    let used = used_rows(s, s.lines);
    if used > n {
        assert(is_blank_row(s, used - 1));
    }
    if used < n {
        assert(is_blank_row(s, n - 1));
    }
}

// ---------------------------------------------------------------------------
// Drawing a screen again
// ---------------------------------------------------------------------------

/// Rows of glyphs as text that draws the first `n` of them on a cleared screen,
/// with a line break after every row but the last.
pub open spec fn drawing_of(rows: Seq<Seq<Glyph>>, n: nat) -> Seq<char>
    decreases n,
{
    if n == 0 {
        clear_code()
    } else {
        let before = drawing_of(rows, (n - 1) as nat) + (glyph_text(rows[n - 1])
            + style::reset_code());
        if n < rows.len() {
            before + seq!['\r', '\n']
        } else {
            before
        }
    }
}

/// Rows of glyphs as text that draws them on a cleared screen.
pub open spec fn drawing(rows: Seq<Seq<Glyph>>) -> Seq<char> {
    drawing_of(rows, rows.len())
}

/// Whether the character is a printable one of ASCII.
pub open spec fn is_printable_ascii(c: char) -> bool {
    ' ' <= c <= '~'
}

/// Whether the glyphs are printable ASCII and have room on a screen of this size.
pub open spec fn has_room(rows: Seq<Seq<Glyph>>, columns: nat, lines: nat) -> bool {
    &&& rows.len() <= lines
    &&& forall|r: int| 0 <= r < rows.len() ==> (#[trigger] rows[r]).len() <= columns
    &&& forall|r: int, c: int|
        0 <= r < rows.len() && 0 <= c < rows[r].len() ==> is_printable_ascii(
            (#[trigger] rows[r][c]).c,
        )
}

/// Whether the screen shows the glyphs from its top left, and blanks elsewhere.
pub open spec fn shows(s: Screen, rows: Seq<Seq<Glyph>>) -> bool {
    &&& s.offset == 0
    &&& forall|r: int, c: int|
        0 <= r < s.lines && 0 <= c < s.columns ==> {
            let cell = #[trigger] s.live(r)[c];
            &&& !cell::is_spacer(cell)
            &&& cell.c == (if r < rows.len() && c < rows[r].len() {
                rows[r][c].c
            } else {
                ' '
            })
        }
}

/// The glyphs that a snapshot writes.
pub open spec fn written_rows(s: Screen) -> Seq<Seq<Glyph>> {
    Seq::new(
        used_rows(s, s.lines),
        |r: int| glyph_row(s, r).take(used_glyphs(glyph_row(s, r)) as int),
    )
}

/// Whether the screen is not scrolled, and each of its cells is blank or holds a
/// printable character of ASCII.
pub open spec fn is_plain_ascii(s: Screen) -> bool {
    &&& s.wf()
    &&& s.offset == 0
    &&& forall|r: int, c: int|
        0 <= r < s.lines && 0 <= c < s.columns ==> !cell::is_spacer(#[trigger] s.live(r)[c])
            && is_printable_ascii(cell::shown_char(s.live(r)[c].c))
}

/// Whether both screens show the same rows.
pub open spec fn same_rows(s: Screen, t: Screen) -> bool {
    &&& s.lines == t.lines
    &&& forall|r: int|
        0 <= r < s.lines ==> row::visible_text(#[trigger] t.viewed(r)) == row::visible_text(
            s.viewed(r),
        )
}

proof fn lemma_used_glyphs(r: Seq<Glyph>)
    ensures
        used_glyphs(r) <= r.len(),
        forall|i: int| used_glyphs(r) <= i < r.len() ==> #[trigger] r[i] == blank_glyph(),
    decreases r.len(),
{
    if r.len() > 0 && r.last() == blank_glyph() {
        lemma_used_glyphs(r.drop_last());
        assert forall|i: int| used_glyphs(r) <= i < r.len() implies #[trigger] r[i]
            == blank_glyph() by {
            if i < r.len() - 1 {
                assert(r.drop_last()[i] == r[i]);
            }
        }
    }
}

/// A snapshot is the drawing of its glyphs.
pub proof fn lemma_snapshot_is_drawing(s: Screen)
    ensures
        snapshot_code(s) == drawing(written_rows(s)),
{
    let n = used_rows(s, s.lines);
    lemma_rows_are_drawing(s, n);
}

proof fn lemma_rows_are_drawing(s: Screen, n: nat)
    requires
        n <= used_rows(s, s.lines),
    ensures
        rows_code(s, n, used_rows(s, s.lines)) == drawing_of(written_rows(s), n),
    decreases n,
{
    if n > 0 {
        lemma_rows_are_drawing(s, (n - 1) as nat);
    }
}

proof fn lemma_same_text(a: Seq<CellView>, b: Seq<CellView>)
    requires
        a.len() == b.len(),
        forall|i: int|
            0 <= i < a.len() ==> !cell::is_spacer(#[trigger] a[i]) && !cell::is_spacer(b[i])
                && cell::shown_char(a[i].c) == cell::shown_char(b[i].c),
    ensures
        row::visible_text(a) == row::visible_text(b),
    decreases a.len(),
{
    if a.len() > 0 {
        let (x, y) = (a.drop_last(), b.drop_last());
        assert forall|i: int| 0 <= i < x.len() implies !cell::is_spacer(#[trigger] x[i])
            && !cell::is_spacer(y[i]) && cell::shown_char(x[i].c) == cell::shown_char(y[i].c) by {
            assert(x[i] == a[i] && y[i] == b[i]);
        }
        lemma_same_text(x, y);
        assert(a[a.len() - 1] == a.last());
    }
}

/// The glyphs of a plain screen have room on a screen of its size.
pub proof fn lemma_written_rows_have_room(s: Screen)
    requires
        is_plain_ascii(s),
    ensures
        has_room(written_rows(s), s.columns, s.lines),
{
    let rows = written_rows(s);
    lemma_used_rows(s, s.lines);
    assert forall|r: int| 0 <= r < rows.len() implies (#[trigger] rows[r]).len() <= s.columns by {
        lemma_used_glyphs(glyph_row(s, r));
    }
    assert forall|r: int, c: int|
        0 <= r < rows.len() && 0 <= c < rows[r].len() implies is_printable_ascii(
        (#[trigger] rows[r][c]).c,
    ) by {
        lemma_used_glyphs(glyph_row(s, r));
        assert(rows[r][c] == glyph_row(s, r)[c]);
        assert(glyph_row(s, r)[c] == cell_glyph(s.live(r)[c]));
    }
}

/// A screen that shows what the snapshot of another writes shows the same rows.
pub proof fn lemma_drawn_again(s: Screen, t: Screen)
    requires
        is_plain_ascii(s),
        t.wf(),
        t.columns == s.columns,
        t.lines == s.lines,
        shows(t, written_rows(s)),
    ensures
        same_rows(s, t),
{
    let rows = written_rows(s);
    lemma_used_rows(s, s.lines);
    assert forall|r: int| 0 <= r < s.lines implies row::visible_text(#[trigger] t.viewed(r))
        == row::visible_text(s.viewed(r)) by {
        let (a, b) = (t.viewed(r), s.viewed(r));
        assert(a == t.live(r) && b == s.live(r));
        let g = glyph_row(s, r);
        lemma_used_glyphs(g);
        if r >= rows.len() {
            assert(is_blank_row(s, r));
        }
        assert forall|c: int| 0 <= c < a.len() implies !cell::is_spacer(#[trigger] a[c])
            && !cell::is_spacer(b[c]) && cell::shown_char(a[c].c) == cell::shown_char(b[c].c) by {
            assert(t.live(r)[c] == a[c]);
            assert(s.live(r)[c] == b[c]);
            assert(g[c] == cell_glyph(s.live(r)[c]));
            if r < rows.len() && c < rows[r].len() {
                assert(rows[r][c] == g[c]);
            } else {
                assert(g[c] == blank_glyph());
            }
        }
        lemma_same_text(a, b);
    }
}

// ---------------------------------------------------------------------------
// Reading a drawing
// ---------------------------------------------------------------------------

/// A screen that reads text: what was written to its cells, where it writes next,
/// and in which style.
#[verifier::ext_equal]
pub struct Pen {
    pub cells: Map<(int, int), Glyph>,
    pub row: int,
    pub col: int,
    pub style: RenderCell,
}

/// Where the first `m` from `n` on is.
pub open spec fn first_m(t: Seq<char>, n: int) -> int
    decreases t.len() - n,
{
    if n < 0 || n >= t.len() {
        n
    } else if t[n] == 'm' {
        n
    } else {
        first_m(t, n + 1)
    }
}

/// What a screen holds that reads the text. It knows the sequence that clears it,
/// the one that goes to its top left, those that select a style, the start of a
/// row and the next row. Any other character goes into the cell where it writes,
/// and it goes on in the next column.
#[verifier::opaque]
pub open spec fn read(pen: Pen, t: Seq<char>) -> Pen
    decreases t.len(),
{
    if t.len() == 0 {
        pen
    } else if t.len() >= 4 && t[0] == '\u{1b}' && t[1] == '[' && t[2] == '2' && t[3] == 'J' {
        read(Pen { cells: Map::empty(), ..pen }, t.skip(4))
    } else if t.len() >= 3 && t[0] == '\u{1b}' && t[1] == '[' && t[2] == 'H' {
        read(Pen { row: 0, col: 0, ..pen }, t.skip(3))
    } else if t[0] == '\u{1b}' {
        let j = first_m(t, 0);
        if 0 <= j < t.len() {
            read(Pen { style: style::style_after(pen.style, t.take(j + 1)), ..pen }, t.skip(j + 1))
        } else {
            pen
        }
    } else if t[0] == '\r' {
        read(Pen { col: 0, ..pen }, t.skip(1))
    } else if t[0] == '\n' {
        read(Pen { row: pen.row + 1, ..pen }, t.skip(1))
    } else {
        read(
            Pen {
                cells: pen.cells.insert((pen.row, pen.col), Glyph { c: t[0], style: pen.style }),
                col: pen.col + 1,
                ..pen
            },
            t.skip(1),
        )
    }
}

/// What the screen shows at the cell.
pub open spec fn shown_at(pen: Pen, row: int, col: int) -> Glyph {
    if pen.cells.contains_key((row, col)) {
        pen.cells[(row, col)]
    } else {
        blank_glyph()
    }
}

/// Whether the view is not scrolled, and no cell shows a control character.
pub open spec fn is_drawable(s: Screen) -> bool {
    &&& s.wf()
    &&& s.offset == 0
    &&& forall|r: int, c: int|
        0 <= r < s.lines && 0 <= c < s.columns && !cell::is_spacer(#[trigger] s.live(r)[c])
            ==> !text::is_control_char(cell::shown_char(s.live(r)[c].c))
}

spec fn told(g: Glyph) -> Glyph {
    Glyph { c: g.c, style: style::told_style(g.style) }
}

/// Whether no glyph is a control character.
spec fn is_text(r: Seq<Glyph>) -> bool {
    forall|i: int| 0 <= i < r.len() ==> !text::is_control_char((#[trigger] r[i]).c)
}

proof fn lemma_first_m(t: Seq<char>, n: int, j: int)
    requires
        0 <= n <= j < t.len(),
        t[j] == 'm',
        forall|i: int| n <= i < j ==> #[trigger] t[i] != 'm',
    ensures
        first_m(t, n) == j,
    decreases j - n,
{
    if n < j {
        lemma_first_m(t, n + 1, j);
    }
}

proof fn lemma_read_selection(pen: Pen, code: Seq<char>, rest: Seq<char>)
    requires
        style::is_selection(code),
    ensures
        read(pen, code + rest) == read(
            Pen { style: style::style_after(pen.style, code), ..pen },
            rest,
        ),
{
    reveal(read);
    let t = code + rest;
    let j = code.len() - 1;
    assert forall|i: int| 0 <= i < j implies #[trigger] t[i] != 'm' by {
        assert(t[i] == code[i]);
    }
    lemma_first_m(t, 0, j);
    assert(t.take(j + 1) =~= code);
    assert(t.skip(j + 1) =~= rest);
    if t.len() >= 4 && code.len() >= 4 {
        assert(t[3] == code[3]);
    }
    if code.len() == 3 {
        assert(t[2] == 'm');
    } else {
        assert(t[2] == code[2]);
        assert(code[3] == 'm' || '0' <= code[3] <= '9' || code[3] == ';');
    }
}

proof fn lemma_read_char(pen: Pen, c: char, rest: Seq<char>)
    requires
        !text::is_control_char(c),
    ensures
        read(pen, seq![c] + rest) == read(
            Pen {
                cells: pen.cells.insert((pen.row, pen.col), Glyph { c, style: pen.style }),
                col: pen.col + 1,
                ..pen
            },
            rest,
        ),
{
    reveal(read);
    let t = seq![c] + rest;
    assert(t[0] == c);
    assert(t.skip(1) =~= rest);
}

proof fn lemma_read_clear(pen: Pen, rest: Seq<char>)
    ensures
        read(pen, clear_code() + rest) == read(
            Pen { cells: Map::empty(), row: 0, col: 0, ..pen },
            rest,
        ),
{
    reveal(read);
    let t = clear_code() + rest;
    let cleared = Pen { cells: Map::empty(), ..pen };
    let t2 = seq!['\u{1b}', '[', 'H'] + rest;
    assert(t.skip(4) =~= t2);
    assert(t2.skip(3) =~= rest);
    assert(t[0] == '\u{1b}' && t[1] == '[' && t[2] == '2' && t[3] == 'J');
    assert(t2[0] == '\u{1b}' && t2[1] == '[' && t2[2] == 'H');
    assert(read(pen, t) == read(cleared, t2));
}

proof fn lemma_read_break(pen: Pen, rest: Seq<char>)
    ensures
        read(pen, seq!['\r', '\n'] + rest) == read(
            Pen { row: pen.row + 1, col: 0, ..pen },
            rest,
        ),
{
    reveal(read);
    let t = seq!['\r', '\n'] + rest;
    let t2 = seq!['\n'] + rest;
    assert(t.skip(1) =~= t2);
    assert(t2.skip(1) =~= rest);
    assert(t[0] == '\r' && t2[0] == '\n');
    assert(read(pen, t) == read(Pen { col: 0, ..pen }, t2));
}

/// What a screen holds after it has read a row.
spec fn after_row(pen: Pen, r: Seq<Glyph>) -> Pen
    decreases r.len(),
{
    if r.len() == 0 {
        pen
    } else {
        let before = after_row(pen, r.drop_last());
        Pen {
            cells: before.cells.insert((before.row, before.col), told(r.last())),
            col: before.col + 1,
            style: style::told_style(r.last().style),
            ..before
        }
    }
}

proof fn lemma_read_row(pen: Pen, r: Seq<Glyph>, rest: Seq<char>)
    requires
        is_text(r),
        pen.style == style::plain_style(),
    ensures
        read(pen, glyph_text(r) + rest) == read(after_row(pen, r), rest),
        after_row(pen, r).style == style::told_style(last_style(r)),
    decreases r.len(),
{
    if r.len() == 0 {
        assert(glyph_text(r) + rest =~= rest);
    } else {
        let g = r.last();
        assert(g == r[r.len() - 1]);
        let front = r.drop_last();
        assert forall|i: int| 0 <= i < front.len() implies !text::is_control_char(
            (#[trigger] front[i]).c,
        ) by {
            assert(front[i] == r[i]);
        }
        let before = after_row(pen, front);
        let tail = seq![g.c] + rest;
        if g.style == last_style(front) {
            assert(glyph_text(r) + rest =~= glyph_text(front) + tail);
            lemma_read_row(pen, front, tail);
            lemma_read_char(before, g.c, rest);
        } else {
            let code = style::sgr_code(g.style);
            assert(glyph_text(r) + rest =~= glyph_text(front) + (code + tail));
            lemma_read_row(pen, front, code + tail);
            style::law_sequences_select_their_style(g.style, before.style);
            lemma_read_selection(before, code, tail);
            lemma_read_char(
                Pen { style: style::told_style(g.style), ..before },
                g.c,
                rest,
            );
        }
    }
}

proof fn lemma_after_row(pen: Pen, r: Seq<Glyph>)
    ensures
        after_row(pen, r).row == pen.row,
        after_row(pen, r).col == pen.col + r.len(),
        forall|i: int|
            #![trigger r[i]]
            0 <= i < r.len() ==> shown_at(after_row(pen, r), pen.row, pen.col + i) == told(r[i]),
        forall|a: int, b: int|
            a != pen.row || b < pen.col || b >= pen.col + r.len() ==> #[trigger] shown_at(
                after_row(pen, r),
                a,
                b,
            ) == shown_at(pen, a, b),
    decreases r.len(),
{
    if r.len() > 0 {
        let front = r.drop_last();
        lemma_after_row(pen, front);
        assert forall|i: int|
            #![trigger r[i]]
            0 <= i < r.len() implies shown_at(after_row(pen, r), pen.row, pen.col + i) == told(
            r[i],
        ) by {
            if i < front.len() {
                assert(front[i] == r[i]);
                assert(shown_at(after_row(pen, front), pen.row, pen.col + i) == told(front[i]));
            }
        }
        assert forall|a: int, b: int|
            a != pen.row || b < pen.col || b >= pen.col + r.len() implies #[trigger] shown_at(
            after_row(pen, r),
            a,
            b,
        ) == shown_at(pen, a, b) by {
            assert(shown_at(after_row(pen, front), a, b) == shown_at(pen, a, b));
        }
    }
}

/// Whether the screen shows the first `n` rows of glyphs, as far as their styles
/// can be told, and blanks elsewhere.
spec fn has_read(pen: Pen, rows: Seq<Seq<Glyph>>, n: int) -> bool {
    forall|r: int, c: int|
        r >= 0 && c >= 0 ==> #[trigger] shown_at(pen, r, c) == (if r < n && c < rows[r].len() {
            told(rows[r][c])
        } else {
            blank_glyph()
        })
}

proof fn lemma_read_drawing(pen: Pen, rows: Seq<Seq<Glyph>>, n: nat, rest: Seq<char>) -> (end: Pen)
    requires
        n <= rows.len(),
        forall|r: int| 0 <= r < rows.len() ==> is_text(#[trigger] rows[r]),
        pen.style == style::plain_style(),
    ensures
        read(pen, drawing_of(rows, n) + rest) == read(end, rest),
        end.style == style::plain_style(),
        n < rows.len() ==> end.row == n && end.col == 0,
        has_read(end, rows, n as int),
    decreases n,
{
    if n == 0 {
        lemma_read_clear(pen, rest);
        let end = Pen { cells: Map::empty(), row: 0, col: 0, ..pen };
        end
    } else {
        let r = rows[n - 1];
        let ending = if n < rows.len() {
            seq!['\r', '\n'] + rest
        } else {
            rest
        };
        let reset = style::reset_code();
        let tail = glyph_text(r) + (reset + ending);
        assert(drawing_of(rows, n) + rest =~= drawing_of(rows, (n - 1) as nat) + tail);
        let start = lemma_read_drawing(pen, rows, (n - 1) as nat, tail);
        lemma_read_row(start, r, reset + ending);
        let full = after_row(start, r);
        style::law_resets_select_the_plain_style(full.style);
        lemma_read_selection(full, reset, ending);
        lemma_after_row(start, r);
        let ended = Pen { style: style::plain_style(), ..full };
        let end = if n < rows.len() {
            let next = Pen { row: ended.row + 1, col: 0, ..ended };
            lemma_read_break(ended, rest);
            next
        } else {
            ended
        };
        assert forall|a: int, b: int| a >= 0 && b >= 0 implies #[trigger] shown_at(end, a, b) == (
        if a < n && b < rows[a].len() {
            told(rows[a][b])
        } else {
            blank_glyph()
        }) by {
            assert(shown_at(end, a, b) == shown_at(full, a, b));
            if a == n - 1 && b < r.len() {
                assert(shown_at(full, start.row, start.col + b) == told(r[b]));
            } else {
                assert(shown_at(full, a, b) == shown_at(start, a, b));
            }
        }
        end
    }
}

/// A screen that reads a snapshot shows what the snapshot's screen shows: in every
/// cell the same character, in the same colours and with the same attributes but
/// for hidden and crossed-out text. In the place of the second half of a wide
/// character there is a blank.
pub proof fn law_snapshots_draw_the_screen_again(s: Screen, pen: Pen, r: int, c: int)
    requires
        is_drawable(s),
        pen.style == style::plain_style(),
        0 <= r < s.lines,
        0 <= c < s.columns,
    ensures
        ({
            let cell = s.live(r)[c];
            shown_at(read(pen, snapshot_code(s)), r, c) == (if cell::is_spacer(cell) {
                blank_glyph()
            } else {
                Glyph {
                    c: cell::shown_char(cell.c),
                    style: style::told_style(style::mapped_style(cell.fg, cell.bg, cell.flags)),
                }
            })
        }),
{
    let rows = written_rows(s);
    lemma_used_rows(s, s.lines);
    assert forall|k: int| 0 <= k < rows.len() implies is_text(#[trigger] rows[k]) by {
        let g = glyph_row(s, k);
        lemma_used_glyphs(g);
        assert forall|i: int| 0 <= i < rows[k].len() implies !text::is_control_char(
            (#[trigger] rows[k][i]).c,
        ) by {
            assert(rows[k][i] == g[i]);
            assert(g[i] == cell_glyph(s.live(k)[i]));
        }
    }
    lemma_snapshot_is_drawing(s);
    let none = Seq::<char>::empty();
    let end = lemma_read_drawing(pen, rows, rows.len(), none);
    assert(snapshot_code(s) + none =~= snapshot_code(s));
    assert(read(end, none) == end) by {
        reveal(read);
    }
    let g = glyph_row(s, r);
    lemma_used_glyphs(g);
    assert(g[c] == cell_glyph(s.live(r)[c]));
    if r < rows.len() && c < rows[r].len() {
        assert(rows[r][c] == g[c]);
        assert(shown_at(end, r, c) == told(rows[r][c]));
    } else {
        if r >= rows.len() {
            assert(is_blank_row(s, r));
        }
        assert(g[c] == blank_glyph());
        assert(shown_at(end, r, c) == blank_glyph());
    }
}

/// Whether each cell holds one character of its own that is no control character.
pub open spec fn is_simple_row(r: Seq<CellView>) -> bool {
    forall|i: int|
        0 <= i < r.len() ==> !cell::is_spacer(#[trigger] r[i]) && !text::is_control_char(
            cell::shown_char(r[i].c),
        ) && r[i].zerowidth.len() == 0
}

spec fn row_glyphs(r: Seq<CellView>) -> Seq<Glyph> {
    Seq::new(r.len(), |i: int| cell_glyph(r[i]))
}

proof fn lemma_styled_cells(r: Seq<CellView>)
    requires
        is_simple_row(r),
    ensures
        row::styled_cells(r) == (glyph_text(row_glyphs(r)), last_style(row_glyphs(r))),
    decreases r.len(),
{
    let g = row_glyphs(r);
    if r.len() > 0 {
        let front = r.drop_last();
        let c = r.last();
        assert(c == r[r.len() - 1]);
        assert forall|i: int| 0 <= i < front.len() implies !cell::is_spacer(#[trigger] front[i])
            && !text::is_control_char(cell::shown_char(front[i].c)) && front[i].zerowidth.len()
            == 0 by {
            assert(front[i] == r[i]);
        }
        lemma_styled_cells(front);
        assert(g.drop_last() =~= row_glyphs(front));
        assert(g.last() == cell_glyph(c));
        let before = glyph_text(row_glyphs(front));
        let code = style::sgr_code(g.last().style);
        assert(row::printable(c.zerowidth) =~= Seq::<char>::empty());
        assert(row::ansi_symbol(c) =~= seq![cell::shown_char(c.c)]);
        let change = row::style_change(last_style(row_glyphs(front)), c);
        assert(before + (change + row::ansi_symbol(c)) =~= (before + change).push(g.last().c));
        assert(before + Seq::<char>::empty() =~= before);
    }
}

proof fn lemma_content_len(r: Seq<CellView>)
    ensures
        row::content_len(r) <= r.len(),
        row::content_len(r) > 0 ==> cell::is_content(r[row::content_len(r) - 1]),
        forall|i: int| row::content_len(r) <= i < r.len() ==> !cell::is_content(#[trigger] r[i]),
    decreases r.len(),
{
    if r.len() > 0 && !cell::is_content(r.last()) {
        let front = r.drop_last();
        lemma_content_len(front);
        assert forall|i: int| row::content_len(r) <= i < r.len() implies !cell::is_content(
            #[trigger] r[i],
        ) by {
            if i < front.len() {
                assert(front[i] == r[i]);
            }
        }
        if row::content_len(front) > 0 {
            assert(front[row::content_len(front) - 1] == r[row::content_len(front) - 1]);
        }
    }
}

/// How far a row goes: its cells from there on are blank, and the last one before
/// is not.
pub open spec fn ends_at(r: Seq<CellView>, n: int) -> bool {
    &&& 0 <= n <= r.len()
    &&& forall|i: int| n <= i < r.len() ==> cell::shown_char((#[trigger] r[i]).c) == ' '
    &&& n > 0 ==> cell::shown_char(r[n - 1].c) != ' '
}

proof fn lemma_cells_plain(r: Seq<CellView>)
    requires
        is_simple_row(r),
    ensures
        row::cells_plain(r) == Seq::new(r.len(), |i: int| cell::shown_char(r[i].c)),
    decreases r.len(),
{
    let t = Seq::new(r.len(), |i: int| cell::shown_char(r[i].c));
    if r.len() > 0 {
        let front = r.drop_last();
        let c = r.last();
        assert(c == r[r.len() - 1]);
        assert forall|i: int| 0 <= i < front.len() implies !cell::is_spacer(#[trigger] front[i])
            && !text::is_control_char(cell::shown_char(front[i].c)) && front[i].zerowidth.len()
            == 0 by {
            assert(front[i] == r[i]);
        }
        lemma_cells_plain(front);
        assert(row::printable(c.zerowidth) =~= Seq::<char>::empty());
        assert(row::cell_plain(c) =~= seq![cell::shown_char(c.c)]);
        assert(row::cells_plain(r) =~= t);
    } else {
        assert(row::cells_plain(r) =~= t);
    }
}

/// A row is captured as it shows, without its trailing blanks: the characters of
/// its cells from left to right.
pub proof fn law_rows_are_captured_as_they_show(r: Seq<CellView>, n: int)
    requires
        is_simple_row(r),
        ends_at(r, n),
    ensures
        row::row_plain(r) == Seq::new(n as nat, |i: int| cell::shown_char(r[i].c)),
{
    lemma_content_len(r);
    let k = row::content_len(r) as int;
    if k < n {
        assert(!cell::is_content(r[n - 1]));
    }
    if n < k {
        assert(cell::shown_char(r[k - 1].c) == ' ');
    }
    let shown = r.take(k);
    assert forall|i: int| 0 <= i < shown.len() implies !cell::is_spacer(#[trigger] shown[i])
        && !text::is_control_char(cell::shown_char(shown[i].c)) && shown[i].zerowidth.len()
        == 0 by {
        assert(shown[i] == r[i]);
    }
    lemma_cells_plain(shown);
    assert(row::row_plain(r) =~= Seq::new(n as nat, |i: int| cell::shown_char(r[i].c)));
}

/// A screen that reads a row that was captured with its styles shows the cells of
/// the row: the same characters, in the same colours and with the same attributes
/// but for hidden and crossed-out text. What it reads next is plain.
pub proof fn law_styled_rows_are_drawn_again(r: Seq<CellView>, n: int, pen: Pen)
    requires
        is_simple_row(r),
        ends_at(r, n),
        pen.style == style::plain_style(),
    ensures
        ({
            let end = read(pen, row::row_styled(r));
            &&& end.style == style::plain_style()
            &&& end.row == pen.row
            &&& end.col == pen.col + n
            &&& forall|i: int|
                0 <= i < n ==> shown_at(end, pen.row, pen.col + i) == (Glyph {
                    c: cell::shown_char((#[trigger] r[i]).c),
                    style: style::told_style(style::mapped_style(r[i].fg, r[i].bg, r[i].flags)),
                })
        }),
{
    lemma_content_len(r);
    let k = row::content_len(r) as int;
    if k < n {
        assert(!cell::is_content(r[n - 1]));
    }
    if n < k {
        assert(cell::shown_char(r[k - 1].c) == ' ');
    }
    let shown = r.take(n);
    assert forall|i: int| 0 <= i < shown.len() implies !cell::is_spacer(#[trigger] shown[i])
        && !text::is_control_char(cell::shown_char(shown[i].c)) && shown[i].zerowidth.len()
        == 0 by {
        assert(shown[i] == r[i]);
    }
    lemma_styled_cells(shown);
    let g = row_glyphs(shown);
    assert forall|i: int| 0 <= i < g.len() implies !text::is_control_char((#[trigger] g[i]).c) by {
        assert(shown[i] == r[i]);
    }
    let none = Seq::<char>::empty();
    let reset = style::reset_code();
    let full = after_row(pen, g);
    lemma_after_row(pen, g);
    let t = row::row_styled(r);
    if last_style(g) == style::plain_style() {
        lemma_read_row(pen, g, none);
        assert(t + none =~= t);
    } else {
        lemma_read_row(pen, g, reset);
        style::law_resets_select_the_plain_style(full.style);
        lemma_read_selection(full, reset, none);
        assert(reset + none =~= reset);
    }
    let end = Pen { style: style::plain_style(), ..full };
    assert(read(end, none) == end && read(full, none) == full) by {
        reveal(read);
    }
    assert(read(pen, t) == end);
    assert forall|i: int| 0 <= i < n implies shown_at(end, pen.row, pen.col + i) == (Glyph {
        c: cell::shown_char((#[trigger] r[i]).c),
        style: style::told_style(style::mapped_style(r[i].fg, r[i].bg, r[i].flags)),
    }) by {
        assert(shown[i] == r[i]);
        assert(shown_at(full, pen.row, pen.col + i) == told(g[i]));
    }
}

fn glyph_of(c: &Cell) -> (g: Glyph)
    ensures
        g == cell_glyph(c@),
{
    if c.spacer() {
        Glyph { c: ' ', style: plain() }
    } else {
        Glyph {
            c: shown(c.c),
            style: RenderCell { fg: map_color(c.fg), bg: map_color(c.bg), mods: map_flags(c.flags) },
        }
    }
}

fn is_blank_glyph(g: &Glyph) -> (b: bool)
    ensures
        b == (*g == blank_glyph()),
{
    g.c == ' ' && g.style == plain()
}

proof fn lemma_blank_row_unused(r: Seq<Glyph>)
    requires
        forall|i: int| 0 <= i < r.len() ==> #[trigger] r[i] == blank_glyph(),
    ensures
        used_glyphs(r) == 0,
    decreases r.len(),
{
    if r.len() > 0 {
        lemma_blank_row_unused(r.drop_last());
    }
}

/// The glyphs of a row of the live screen, without trailing blanks.
fn used_row<G: GridRows>(grid: &G, r: usize) -> (out: Vec<Glyph>)
    requires
        grid.screen().wf(),
        grid.screen().in_view(),
        r < grid.screen().lines,
    ensures
        ({
            let g = glyph_row(grid.screen(), r as int);
            &&& used_glyphs(g) <= g.len()
            &&& out@ == g.take(used_glyphs(g) as int)
        }),
{
    let ghost s = grid.screen();
    let ghost g = glyph_row(s, r as int);
    let mut out: Vec<Glyph> = Vec::new();
    if r + grid.display_offset() >= grid.screen_lines() {
        proof {
            lemma_blank_row_unused(g);
            assert(g.take(0) =~= Seq::<Glyph>::empty());
        }
        return out;
    }
    let cells = grid.row(grid.history_size() + r);
    let ghost rv = cell::row_view(cells@);
    assert(rv == s.live(r as int));
    assert(cells@.len() == rv.len());
    let mut n: usize = cells.len();
    assert(g.take(n as int) =~= g);
    while n > 0 && is_blank_glyph(&glyph_of(&cells[n - 1]))
        invariant
            n <= cells@.len(),
            g.len() == cells@.len(),
            rv == cell::row_view(cells@),
            forall|i: int| 0 <= i < g.len() ==> #[trigger] g[i] == cell_glyph(rv[i]),
            used_glyphs(g.take(n as int)) == used_glyphs(g),
        ensures
            n <= cells@.len(),
            used_glyphs(g) == n,
        decreases n,
    {
        assert(g.take(n as int).drop_last() =~= g.take(n - 1));
        n = n - 1;
    }
    let mut i: usize = 0;
    while i < n
        invariant
            i <= n <= cells@.len(),
            g.len() == cells@.len(),
            rv == cell::row_view(cells@),
            forall|k: int| 0 <= k < g.len() ==> #[trigger] g[k] == cell_glyph(rv[k]),
            out@ == g.take(i as int),
        decreases n - i,
    {
        out.push(glyph_of(&cells[i]));
        i = i + 1;
        assert(out@ =~= g.take(i as int));
    }
    out
}

fn push_glyphs(out: &mut String, glyphs: &Vec<Glyph>)
    ensures
        final(out)@ == old(out)@ + glyph_text(glyphs@),
{
    let ghost start = out@;
    let mut current = plain();
    let mut i: usize = 0;
    assert(glyphs@.take(0) =~= Seq::<Glyph>::empty());
    assert(out@ =~= start + glyph_text(glyphs@.take(0)));
    while i < glyphs.len()
        invariant
            i <= glyphs@.len(),
            current == last_style(glyphs@.take(i as int)),
            out@ == start + glyph_text(glyphs@.take(i as int)),
        decreases glyphs@.len() - i,
    {
        let g = &glyphs[i];
        assert(glyphs@.take(i + 1).drop_last() =~= glyphs@.take(i as int));
        if g.style != current {
            let code = sgr(g.style.fg, g.style.bg, g.style.mods);
            push_text(out, code.as_str());
            current = g.style;
        }
        out.push(g.c);
        i = i + 1;
        assert(out@ =~= start + glyph_text(glyphs@.take(i as int)));
    }
    assert(glyphs@.take(i as int) =~= glyphs@);
}

/// The live screen as text that draws it again.
pub fn snapshot_ansi<G: GridRows>(grid: &G) -> (out: String)
    requires
        grid.screen().wf(),
        grid.screen().in_view(),
    ensures
        out@ == snapshot_code(grid.screen()),
{
    let ghost s = grid.screen();
    let mut total: usize = grid.screen_lines();
    loop
        invariant
            s == grid.screen(),
            s.wf(),
            s.in_view(),
            total <= s.lines,
            used_rows(s, total as nat) == used_rows(s, s.lines),
        ensures
            total <= s.lines,
            used_rows(s, s.lines) == total,
        decreases total,
    {
        if total == 0 {
            break ;
        }
        let glyphs = used_row(grid, total - 1);
        if glyphs.len() > 0 {
            break ;
        }
        total = total - 1;
    }
    let mut out = String::new();
    proof {
        reveal_strlit("\u{1b}[2J\u{1b}[H");
    }
    push_text(&mut out, "\u{1b}[2J\u{1b}[H");
    assert(out@ =~= clear_code());
    let mut r: usize = 0;
    while r < total
        invariant
            s == grid.screen(),
            s.wf(),
            s.in_view(),
            r <= total <= s.lines,
            out@ == rows_code(s, r as nat, total as nat),
        decreases total - r,
    {
        let glyphs = used_row(grid, r);
        let ghost before = out@;
        push_glyphs(&mut out, &glyphs);
        push_reset(&mut out);
        assert(out@ =~= before + row_code(s, r as int));
        r = r + 1;
        if r < total {
            out.push('\r');
            out.push('\n');
            assert(out@ =~= before + row_code(s, r - 1) + seq!['\r', '\n']);
        }
    }
    out
}

} // verus!
