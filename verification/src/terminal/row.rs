//! The text of one grid row: as it reads, as it is captured, and how its
//! columns divide into words.
use vstd::prelude::*;
use vstd::string::*;

use crate::terminal::cell;
use crate::terminal::cell::{
    flag_set, shown, Cell, CellView, FLAG_LEADING_WIDE_CHAR_SPACER, FLAG_WRAPLINE,
};
use crate::terminal::style;
use crate::terminal::style::{map_color, map_flags, plain, push_reset, sgr, RenderCell};
use crate::text;
use crate::text::{byte_len, char_len, chars_of, is_control, is_whitespace, trim_end};

verus! {

/// Stands in a row of aligned text for the second half of a wide character. No
/// cell shows it: an empty cell shows a blank.
pub const ALIGNED_WIDE_CELL: char = '\0';

// ---------------------------------------------------------------------------
// What a row says
// ---------------------------------------------------------------------------

/// The text of one cell with its combining characters.
pub open spec fn cell_text(c: CellView) -> Seq<char> {
    if cell::is_spacer(c) {
        Seq::<char>::empty()
    } else {
        seq![cell::shown_char(c.c)] + c.zerowidth
    }
}

/// The text of the cells, one after another.
pub open spec fn cells_text(row: Seq<CellView>) -> Seq<char>
    decreases row.len(),
{
    if row.len() == 0 {
        Seq::<char>::empty()
    } else {
        cells_text(row.drop_last()) + cell_text(row.last())
    }
}

/// The text of a row without trailing white space.
pub open spec fn row_text(row: Seq<CellView>) -> Seq<char> {
    text::trim_end_text(cells_text(row))
}

/// The base characters of the cells, blanks included.
pub open spec fn visible_text(row: Seq<CellView>) -> Seq<char>
    decreases row.len(),
{
    if row.len() == 0 {
        Seq::<char>::empty()
    } else if cell::is_spacer(row.last()) {
        visible_text(row.drop_last())
    } else {
        visible_text(row.drop_last()).push(cell::shown_char(row.last().c))
    }
}

/// One character for each cell: the marker stands for the second half of a wide
/// character.
pub open spec fn aligned_text(row: Seq<CellView>) -> Seq<char> {
    Seq::new(
        row.len(),
        |i: int|
            if cell::is_spacer(row[i]) {
                ALIGNED_WIDE_CELL
            } else {
                cell::shown_char(row[i].c)
            },
    )
}

/// How many leading cells of a row there are up to its last content.
pub open spec fn content_len(row: Seq<CellView>) -> nat
    decreases row.len(),
{
    if row.len() == 0 {
        0
    } else if cell::is_content(row.last()) {
        row.len()
    } else {
        content_len(row.drop_last())
    }
}

/// The characters that are not control characters.
pub open spec fn printable(s: Seq<char>) -> Seq<char>
    decreases s.len(),
{
    if s.len() == 0 {
        Seq::<char>::empty()
    } else if text::is_control_char(s.last()) {
        printable(s.drop_last())
    } else {
        printable(s.drop_last()).push(s.last())
    }
}

/// Whether the cell's own character may go into a capture.
pub open spec fn captured_char(c: char) -> bool {
    !text::is_control_char(c) || c == '\t'
}

/// What a plain capture takes from one cell.
pub open spec fn cell_plain(c: CellView) -> Seq<char> {
    if cell::is_spacer(c) {
        Seq::<char>::empty()
    } else if captured_char(cell::shown_char(c.c)) {
        seq![cell::shown_char(c.c)] + printable(c.zerowidth)
    } else {
        printable(c.zerowidth)
    }
}

/// What a plain capture takes from the cells.
pub open spec fn cells_plain(row: Seq<CellView>) -> Seq<char>
    decreases row.len(),
{
    if row.len() == 0 {
        Seq::<char>::empty()
    } else {
        cells_plain(row.drop_last()) + cell_plain(row.last())
    }
}

/// What a plain capture takes from a row.
pub open spec fn row_plain(row: Seq<CellView>) -> Seq<char> {
    cells_plain(row.take(content_len(row) as int))
}

/// Appends as much of `t` as fits below `max` bytes: the new text, and whether
/// the text and all of `t` stay within them.
pub open spec fn bounded(out: Seq<char>, t: Seq<char>, max: int) -> (Seq<char>, bool) {
    let k = text::fitting(t, max - text::utf8_len(out));
    (out + t.take(k as int), text::utf8_len(out) + text::utf8_len(t) <= max)
}

/// Appends the characters of `t` as far as each fits below `max` bytes: the new
/// text, and whether every one of them fitted.
pub open spec fn fitted(out: Seq<char>, t: Seq<char>, max: int) -> (Seq<char>, bool) {
    let k = text::fitting(t, max - text::utf8_len(out));
    (out + t.take(k as int), k == t.len())
}

/// A styled capture in progress.
#[verifier::ext_equal]
pub struct AnsiState {
    pub out: Seq<char>,
    pub style: RenderCell,
    /// Nothing was left out so far.
    pub complete: bool,
}

/// What a styled capture takes from one cell that it does not skip.
pub open spec fn ansi_symbol(c: CellView) -> Seq<char> {
    seq![cell::shown_char(c.c)] + printable(c.zerowidth)
}

/// Whether a styled capture skips the cell.
pub open spec fn ansi_skips(c: CellView) -> bool {
    cell::is_spacer(c) || !captured_char(cell::shown_char(c.c))
}

/// The escape sequence in front of a cell, where its style differs.
pub open spec fn style_change(from: RenderCell, c: CellView) -> Seq<char> {
    let next = style::mapped_style(c.fg, c.bg, c.flags);
    if next == from {
        Seq::<char>::empty()
    } else {
        style::sgr_code(next)
    }
}

/// A styled capture after the cells, none of which may take it over `limit`
/// bytes.
pub open spec fn ansi_cells(out: Seq<char>, row: Seq<CellView>, limit: int) -> AnsiState
    decreases row.len(),
{
    if row.len() == 0 {
        AnsiState { out, style: style::plain_style(), complete: true }
    } else {
        let before = ansi_cells(out, row.drop_last(), limit);
        let c = row.last();
        if !before.complete || ansi_skips(c) {
            before
        } else {
            let added = style_change(before.style, c) + ansi_symbol(c);
            if text::utf8_len(before.out) + text::utf8_len(added) > limit {
                AnsiState { complete: false, ..before }
            } else {
                AnsiState {
                    out: before.out + added,
                    style: style::mapped_style(c.fg, c.bg, c.flags),
                    complete: true,
                }
            }
        }
    }
}

/// The limit that leaves room to reset the style.
pub open spec fn ansi_limit(max: int) -> int {
    if max < 4 {
        0
    } else {
        max - 4
    }
}

/// Appends a row with its styles: the new text, and whether the whole row
/// fitted.
pub open spec fn row_ansi(out: Seq<char>, row: Seq<CellView>, max: int) -> (Seq<char>, bool) {
    let end = ansi_cells(out, row.take(content_len(row) as int), ansi_limit(max));
    if end.style == style::plain_style() {
        (end.out, end.complete)
    } else {
        (end.out + style::reset_code(), end.complete)
    }
}

/// The cells with their styles where nothing is left out, and the style at their
/// end.
pub open spec fn styled_cells(row: Seq<CellView>) -> (Seq<char>, RenderCell)
    decreases row.len(),
{
    if row.len() == 0 {
        (Seq::<char>::empty(), style::plain_style())
    } else {
        let before = styled_cells(row.drop_last());
        let c = row.last();
        if ansi_skips(c) {
            before
        } else {
            (
                before.0 + (style_change(before.1, c) + ansi_symbol(c)),
                style::mapped_style(c.fg, c.bg, c.flags),
            )
        }
    }
}

/// What a styled capture takes from a row where nothing is left out.
pub open spec fn row_styled(row: Seq<CellView>) -> Seq<char> {
    let end = styled_cells(row.take(content_len(row) as int));
    if end.1 == style::plain_style() {
        end.0
    } else {
        end.0 + style::reset_code()
    }
}

/// Whether the text of the row goes on in the next one.
pub open spec fn row_wraps(row: Seq<CellView>) -> bool {
    row.len() > 0 && cell::has_flag(row.last().flags, FLAG_WRAPLINE)
}

/// Whether the cell reads as it shows: no tab, line break or empty character,
/// and no blank that a wrapped wide character left behind.
pub open spec fn is_plain_cell(c: CellView) -> bool {
    &&& c.c != '\t' && c.c != '\n' && c.c != '\0'
    &&& !c.zerowidth.contains('\n')
    &&& !cell::has_flag(c.flags, FLAG_LEADING_WIDE_CHAR_SPACER)
}

/// Whether every cell of the row reads as it shows.
pub open spec fn is_plain_row(row: Seq<CellView>) -> bool {
    forall|i: int| 0 <= i < row.len() ==> is_plain_cell(#[trigger] row[i])
}

/// How many leading cells of a row are left without its trailing bare blanks.
pub open spec fn written_len(row: Seq<CellView>) -> nat
    decreases row.len(),
{
    if row.len() == 0 {
        0
    } else if row.last().c != ' ' || row.last().zerowidth.len() > 0 {
        row.len()
    } else {
        written_len(row.drop_last())
    }
}

/// How many leading cells of a row are occupied: all of one that goes on in the
/// next row.
pub open spec fn occupied_len(row: Seq<CellView>) -> nat {
    if row_wraps(row) {
        row.len()
    } else {
        written_len(row)
    }
}

/// What a plain row reads between two columns: the text of the occupied cells,
/// a wide character whole.
pub open spec fn line_text(row: Seq<CellView>, left: int, right: int) -> Seq<char> {
    let from = if cell::is_spacer(row[left]) {
        left - 1
    } else {
        left
    };
    let to = if occupied_len(row) < right + 1 {
        occupied_len(row) as int
    } else {
        right + 1
    };
    if from < to {
        cells_text(row.subrange(from, to))
    } else {
        Seq::<char>::empty()
    }
}

// ---------------------------------------------------------------------------
// Lemmas
// ---------------------------------------------------------------------------

proof fn lemma_cells_plain_split(row: Seq<CellView>, i: int)
    requires
        0 <= i < row.len(),
    ensures
        cells_plain(row.take(i + 1)) == cells_plain(row.take(i)) + cell_plain(row[i]),
{
    assert(row.take(i + 1).drop_last() =~= row.take(i));
}

/// Where the first `a` fits and the next character does not, `a` is what fits.
proof fn lemma_fitting_stops(a: Seq<char>, c: char, rest: Seq<char>, room: int)
    requires
        a.len() == 0 || text::utf8_len(a) <= room,
        text::utf8_len(a) + text::char_bytes(c) > room,
    ensures
        text::fitting(a + seq![c] + rest, room) == a.len(),
{
    let t = a + seq![c] + rest;
    let k = text::fitting(t, room);
    text::lemma_fitting(t, room);
    let n = a.len() as int;
    assert(t.take(n) =~= a);
    assert(t.take(n + 1) =~= a.push(c));
    text::lemma_utf8_len_push(a, c);
    if k > n {
        // the prefix of length k would fit, though the shorter one does not
        assert(t.take(k as int) =~= a.push(c) + t.subrange(n + 1, k as int));
        text::lemma_utf8_len_add(a.push(c), t.subrange(n + 1, k as int));
    }
    if k < n {
        assert(text::utf8_len(t.take(n)) > room);
    }
}

proof fn lemma_fitted_all(out: Seq<char>, t: Seq<char>, max: int)
    requires
        t.len() == 0 || text::utf8_len(out) + text::utf8_len(t) <= max,
    ensures
        fitted(out, t, max) == (out + t, true),
        bounded(out, t, max) == (out + t, text::utf8_len(out) + text::utf8_len(t) <= max),
{
    text::lemma_fitting(t, max - text::utf8_len(out));
    assert(t.take(t.len() as int) =~= t);
}

proof fn lemma_fitted_stops(out: Seq<char>, a: Seq<char>, c: char, rest: Seq<char>, max: int)
    requires
        a.len() == 0 || text::utf8_len(out) + text::utf8_len(a) <= max,
        text::utf8_len(out) + text::utf8_len(a) + text::char_bytes(c) > max,
    ensures
        fitted(out, a + seq![c] + rest, max) == (out + a, false),
        bounded(out, a + seq![c] + rest, max) == (out + a, false),
{
    lemma_fitting_stops(a, c, rest, max - text::utf8_len(out));
    text::lemma_utf8_len_push(a, c);
    assert(a + seq![c] =~= a.push(c));
    text::lemma_utf8_len_add(a + seq![c], rest);
    assert((a + seq![c] + rest).take(a.len() as int) =~= a);
}

/// Text that was bounded keeps to the bound, or is what it was.
pub proof fn lemma_fitted_len(out: Seq<char>, t: Seq<char>, max: int)
    ensures
        text::utf8_len(fitted(out, t, max).0) <= max || fitted(out, t, max).0 == out,
        bounded(out, t, max).0 == fitted(out, t, max).0,
{
    let room = max - text::utf8_len(out);
    text::lemma_fitting(t, room);
    let k = text::fitting(t, room);
    text::lemma_utf8_len_add(out, t.take(k as int));
    if room < 0 {
        assert(out + t.take(0) =~= out);
    }
}

/// A styled row keeps to the bound as well, its reset included.
pub proof fn lemma_row_ansi_len(out: Seq<char>, row: Seq<CellView>, max: int)
    ensures
        text::utf8_len(row_ansi(out, row, max).0) <= max || row_ansi(out, row, max).0 == out,
{
    let r = row.take(content_len(row) as int);
    lemma_ansi_cells_len(out, r, ansi_limit(max));
    let end = ansi_cells(out, r, ansi_limit(max));
    text::lemma_utf8_len_add(end.out, style::reset_code());
    assert(text::utf8_len(style::reset_code()) == 4) by {
        reveal_with_fuel(text::utf8_len, 5);
        let s = style::reset_code();
        assert(s.drop_last() =~= seq!['\u{1b}', '[', '0']);
        assert(s.drop_last().drop_last() =~= seq!['\u{1b}', '[']);
        assert(s.drop_last().drop_last().drop_last() =~= seq!['\u{1b}']);
    }
}

proof fn lemma_ansi_cells_len(out: Seq<char>, row: Seq<CellView>, limit: int)
    requires
        limit >= 0,
    ensures
        ({
            let end = ansi_cells(out, row, limit);
            ||| text::utf8_len(end.out) <= limit && end.out.len() > out.len()
            ||| end.out == out && end.style == style::plain_style()
        }),
    decreases row.len(),
{
    if row.len() > 0 {
        lemma_ansi_cells_len(out, row.drop_last(), limit);
        let before = ansi_cells(out, row.drop_last(), limit);
        let c = row.last();
        let added = style_change(before.style, c) + ansi_symbol(c);
        text::lemma_utf8_len_add(before.out, added);
    }
}

proof fn lemma_ansi_cells_complete(out: Seq<char>, row: Seq<CellView>, limit: int)
    ensures
        ansi_cells(out, row, limit).complete ==> ansi_cells(out, row, limit).out == out
            + styled_cells(row).0 && ansi_cells(out, row, limit).style == styled_cells(row).1,
        text::utf8_len(out) + text::utf8_len(styled_cells(row).0) <= limit ==> ansi_cells(
            out,
            row,
            limit,
        ).complete,
    decreases row.len(),
{
    if row.len() == 0 {
        assert(out + styled_cells(row).0 =~= out);
    } else {
        let front = row.drop_last();
        lemma_ansi_cells_complete(out, front, limit);
        let c = row.last();
        if !ansi_skips(c) {
            let before = styled_cells(front);
            let added = style_change(before.1, c) + ansi_symbol(c);
            text::lemma_utf8_len_add(before.0, added);
            text::lemma_utf8_len_add(out, before.0);
            assert(out + before.0 + added =~= out + (before.0 + added));
        }
    }
}

/// A row that is captured whole is captured as it reads, and one that leaves room
/// to reset the style is captured whole.
pub proof fn lemma_row_ansi_complete(out: Seq<char>, row: Seq<CellView>, max: int)
    ensures
        row_ansi(out, row, max).1 ==> row_ansi(out, row, max).0 == out + row_styled(row),
        text::utf8_len(out) + text::utf8_len(row_styled(row)) + 4 <= max ==> row_ansi(
            out,
            row,
            max,
        ).1,
{
    let r = row.take(content_len(row) as int);
    lemma_ansi_cells_complete(out, r, ansi_limit(max));
    let end = styled_cells(r);
    text::lemma_utf8_len_add(end.0, style::reset_code());
    assert(out + end.0 + style::reset_code() =~= out + (end.0 + style::reset_code()));
}

/// A row that is captured plain is captured as it reads up to where it is cut, and
/// it is cut only where it does not fit.
pub proof fn lemma_fitted_prefix(out: Seq<char>, t: Seq<char>, max: int)
    ensures
        fitted(out, t, max).0.is_prefix_of(out + t),
        fitted(out, t, max).1 ==> fitted(out, t, max).0 == out + t,
        text::utf8_len(out) + text::utf8_len(t) <= max ==> fitted(out, t, max).1,
{
    text::lemma_fitting(t, max - text::utf8_len(out));
    let k = text::fitting(t, max - text::utf8_len(out)) as int;
    assert(t.take(t.len() as int) =~= t);
    assert((out + t).subrange(0, (out + t.take(k)).len() as int) =~= out + t.take(k));
}

// ---------------------------------------------------------------------------
// Reading a row
// ---------------------------------------------------------------------------

/// Appends `c` where it fits below `max_bytes`.
fn push_bounded(output: &mut String, c: char, max_bytes: usize) -> (fits: bool)
    ensures
        fits == (text::utf8_len(old(output)@) + text::char_bytes(c) <= max_bytes),
        final(output)@ == (if fits { old(output)@.push(c) } else { old(output)@ }),
{
    let used: usize = byte_len(output.as_str());
    let need: usize = char_len(c);
    if used <= max_bytes && need <= max_bytes - used {
        output.push(c);
        true
    } else {
        false
    }
}

/// Appends as much of `text` as keeps the output within `max_bytes`, and says
/// whether the output and all of it do. A character is never split.
pub fn append_utf8_bounded(output: &mut String, text: &str, max_bytes: usize) -> (complete: bool)
    ensures
        (final(output)@, complete) == bounded(old(output)@, text@, max_bytes as int),
{
    let chars = chars_of(text);
    let ghost start = output@;
    let mut i: usize = 0;
    while i < chars.len()
        invariant
            chars@ == text@,
            i <= chars@.len(),
            start == old(output)@,
            output@ == start + text@.take(i as int),
            i == 0 || text::utf8_len(start) + text::utf8_len(text@.take(i as int)) <= max_bytes,
        decreases chars@.len() - i,
    {
        let ghost a = text@.take(i as int);
        proof {
            text::lemma_utf8_len_add(start, a);
            text::lemma_utf8_len_push(a, text@[i as int]);
            assert(text@.take(i + 1) =~= a.push(text@[i as int]));
            assert(text@ =~= a + seq![text@[i as int]] + text@.skip(i + 1));
        }
        if !push_bounded(output, chars[i], max_bytes) {
            proof {
                lemma_fitted_stops(start, a, text@[i as int], text@.skip(i + 1), max_bytes as int);
            }
            return false;
        }
        assert(output@ =~= start + text@.take(i + 1));
        i = i + 1;
    }
    proof {
        assert(text@.take(i as int) =~= text@);
        text::lemma_utf8_len_add(start, text@);
        lemma_fitted_all(start, text@, max_bytes as int);
    }
    byte_len(output.as_str()) <= max_bytes
}

/// How many leading cells of the row there are up to its last content.
pub fn content_columns(row: &[Cell]) -> (n: usize)
    ensures
        n == content_len(cell::row_view(row@)),
        n <= row@.len(),
{
    let ghost v = cell::row_view(row@);
    let mut n: usize = row.len();
    assert(v.take(n as int) =~= v);
    while n > 0 && !row[n - 1].content()
        invariant
            v == cell::row_view(row@),
            n <= row@.len(),
            content_len(v.take(n as int)) == content_len(v),
        ensures
            v == cell::row_view(row@),
            n <= row@.len(),
            content_len(v) == n,
        decreases n,
    {
        assert(v.take(n as int).drop_last() =~= v.take(n - 1));
        n = n - 1;
    }
    n
}

/// Appends the combining characters that are not control characters.
fn push_printable(out: &mut String, zerowidth: &Vec<char>)
    ensures
        final(out)@ == old(out)@ + printable(zerowidth@),
{
    let ghost start = out@;
    let mut i: usize = 0;
    assert(zerowidth@.take(0) =~= Seq::<char>::empty());
    while i < zerowidth.len()
        invariant
            i <= zerowidth@.len(),
            out@ == start + printable(zerowidth@.take(i as int)),
        decreases zerowidth@.len() - i,
    {
        let c: char = zerowidth[i];
        assert(zerowidth@.take(i + 1).drop_last() =~= zerowidth@.take(i as int));
        if !is_control(c) {
            out.push(c);
        }
        assert(out@ =~= start + printable(zerowidth@.take(i + 1)));
        i = i + 1;
    }
    assert(zerowidth@.take(i as int) =~= zerowidth@);
}

/// Appends all of a text.
pub fn push_text(out: &mut String, t: &str)
    ensures
        final(out)@ == old(out)@ + t@,
{
    out.append(t);
}

/// What a plain capture takes from the row, as characters.
fn plain_chars(row: &[Cell]) -> (v: Vec<char>)
    ensures
        v@ == row_plain(cell::row_view(row@)),
{
    let ghost rv = cell::row_view(row@);
    let last: usize = content_columns(row);
    let mut v: Vec<char> = Vec::new();
    let mut column: usize = 0;
    assert(rv.take(0) =~= Seq::<CellView>::empty());
    while column < last
        invariant
            rv == cell::row_view(row@),
            column <= last <= row@.len(),
            v@ == cells_plain(rv.take(column as int)),
        decreases last - column,
    {
        proof {
            lemma_cells_plain_split(rv, column as int);
        }
        let c = &row[column];
        let ghost before = v@;
        if !c.spacer() {
            let character: char = shown(c.c);
            if !is_control(character) || character == '\t' {
                v.push(character);
            }
            let ghost base = v@;
            let mut k: usize = 0;
            assert(c.zerowidth@.take(0) =~= Seq::<char>::empty());
            while k < c.zerowidth.len()
                invariant
                    k <= c.zerowidth@.len(),
                    v@ == base + printable(c.zerowidth@.take(k as int)),
                decreases c.zerowidth@.len() - k,
            {
                assert(c.zerowidth@.take(k + 1).drop_last() =~= c.zerowidth@.take(k as int));
                if !is_control(c.zerowidth[k]) {
                    v.push(c.zerowidth[k]);
                }
                assert(v@ =~= base + printable(c.zerowidth@.take(k + 1)));
                k = k + 1;
            }
            assert(c.zerowidth@.take(k as int) =~= c.zerowidth@);
        }
        assert(v@ =~= before + cell_plain(rv[column as int]));
        column = column + 1;
    }
    v
}

/// Appends the characters of the row that a plain capture takes, as far as they
/// fit below `max_bytes`, and says whether all of them did.
pub fn append_plain_grid_row(row: &[Cell], output: &mut String, max_bytes: usize) -> (complete:
    bool)
    ensures
        (final(output)@, complete) == fitted(
            old(output)@,
            row_plain(cell::row_view(row@)),
            max_bytes as int,
        ),
{
    let chars = plain_chars(row);
    let ghost t = chars@;
    let ghost start = output@;
    let mut i: usize = 0;
    while i < chars.len()
        invariant
            chars@ == t,
            t == row_plain(cell::row_view(row@)),
            i <= t.len(),
            start == old(output)@,
            output@ == start + t.take(i as int),
            i == 0 || text::utf8_len(start) + text::utf8_len(t.take(i as int)) <= max_bytes,
        decreases t.len() - i,
    {
        let ghost a = t.take(i as int);
        proof {
            text::lemma_utf8_len_add(start, a);
            text::lemma_utf8_len_push(a, t[i as int]);
            assert(t.take(i + 1) =~= a.push(t[i as int]));
            assert(t =~= a + seq![t[i as int]] + t.skip(i + 1));
        }
        if !push_bounded(output, chars[i], max_bytes) {
            proof {
                lemma_fitted_stops(start, a, t[i as int], t.skip(i + 1), max_bytes as int);
            }
            return false;
        }
        assert(output@ =~= start + t.take(i + 1));
        i = i + 1;
    }
    proof {
        assert(t.take(i as int) =~= t);
        lemma_fitted_all(start, t, max_bytes as int);
    }
    true
}

proof fn lemma_ansi_incomplete(out: Seq<char>, row: Seq<CellView>, i: int, limit: int)
    requires
        0 <= i <= row.len(),
        !ansi_cells(out, row.take(i), limit).complete,
    ensures
        ansi_cells(out, row, limit) == ansi_cells(out, row.take(i), limit),
    decreases row.len() - i,
{
    if i < row.len() {
        assert(row.take(i + 1).drop_last() =~= row.take(i));
        lemma_ansi_incomplete(out, row, i + 1, limit);
    } else {
        assert(row.take(i) =~= row);
    }
}

/// Appends the row with its styles as far as it fits below `max_bytes`, the
/// reset of the last style included, and says whether the whole row did.
pub fn append_ansi_grid_row(row: &[Cell], output: &mut String, max_bytes: usize) -> (complete: bool)
    ensures
        (final(output)@, complete) == row_ansi(
            old(output)@,
            cell::row_view(row@),
            max_bytes as int,
        ),
{
    let ghost rv = cell::row_view(row@);
    let ghost start = output@;
    let last: usize = content_columns(row);
    let ghost shown_row = rv.take(last as int);
    let content_limit: usize = if max_bytes < 4 {
        0
    } else {
        max_bytes - 4
    };
    let mut current = plain();
    let mut column: usize = 0;
    assert(shown_row.take(0) =~= Seq::<CellView>::empty());
    while column < last
        invariant
            rv == cell::row_view(row@),
            column <= last <= row@.len(),
            last == content_len(rv),
            shown_row == rv.take(last as int),
            content_limit == ansi_limit(max_bytes as int),
            start == old(output)@,
            ansi_cells(start, shown_row.take(column as int), content_limit as int) == (AnsiState {
                out: output@,
                style: current,
                complete: true,
            }),
        decreases last - column,
    {
        let c = &row[column];
        let ghost next_row = shown_row.take(column + 1);
        proof {
            assert(next_row.drop_last() =~= shown_row.take(column as int));
            assert(next_row.last() == c@);
        }
        let character: char = shown(c.c);
        if c.spacer() || (is_control(character) && character != '\t') {
            column = column + 1;
            continue ;
        }
        let next = RenderCell { fg: map_color(c.fg), bg: map_color(c.bg), mods: map_flags(c.flags) };
        let mut added = String::new();
        if next != current {
            added = sgr(next.fg, next.bg, next.mods);
        }
        added.push(character);
        push_printable(&mut added, &c.zerowidth);
        assert(added@ =~= style_change(current, c@) + ansi_symbol(c@));
        let used: usize = byte_len(output.as_str());
        let needed: usize = byte_len(added.as_str());
        if used > content_limit || needed > content_limit - used {
            proof {
                lemma_ansi_incomplete(start, shown_row, column + 1, content_limit as int);
            }
            if current != plain() {
                push_reset(output);
            }
            return false;
        }
        push_text(output, added.as_str());
        current = next;
        column = column + 1;
    }
    assert(shown_row.take(column as int) =~= shown_row);
    if current != plain() {
        push_reset(output);
    }
    true
}

/// The text of the row with combining characters and without trailing white
/// space.
pub fn text_of_row(row: &[Cell]) -> (s: String)
    ensures
        s@ == row_text(cell::row_view(row@)),
{
    let ghost rv = cell::row_view(row@);
    let mut out = String::new();
    let mut column: usize = 0;
    assert(rv.take(0) =~= Seq::<CellView>::empty());
    while column < row.len()
        invariant
            rv == cell::row_view(row@),
            column <= row@.len(),
            out@ == cells_text(rv.take(column as int)),
        decreases row@.len() - column,
    {
        let c = &row[column];
        assert(rv.take(column + 1).drop_last() =~= rv.take(column as int));
        if !c.spacer() {
            let ghost base = out@;
            out.push(shown(c.c));
            let mut k: usize = 0;
            while k < c.zerowidth.len()
                invariant
                    k <= c.zerowidth@.len(),
                    out@ == base.push(cell::shown_char(c.c)) + c.zerowidth@.take(k as int),
                decreases c.zerowidth@.len() - k,
            {
                out.push(c.zerowidth[k]);
                k = k + 1;
                assert(out@ =~= base.push(cell::shown_char(c.c)) + c.zerowidth@.take(k as int));
            }
            assert(out@ =~= base + cell_text(c@));
        } else {
            assert(out@ =~= cells_text(rv.take(column as int)) + cell_text(c@));
        }
        column = column + 1;
    }
    assert(rv.take(column as int) =~= rv);
    trim_end(out.as_str())
}

/// The base characters of the row, blanks included.
pub fn visible_row(row: &[Cell]) -> (s: String)
    ensures
        s@ == visible_text(cell::row_view(row@)),
{
    let ghost rv = cell::row_view(row@);
    let mut out = String::new();
    let mut column: usize = 0;
    assert(rv.take(0) =~= Seq::<CellView>::empty());
    while column < row.len()
        invariant
            rv == cell::row_view(row@),
            column <= row@.len(),
            out@ == visible_text(rv.take(column as int)),
        decreases row@.len() - column,
    {
        let c = &row[column];
        assert(rv.take(column + 1).drop_last() =~= rv.take(column as int));
        if !c.spacer() {
            out.push(shown(c.c));
        }
        column = column + 1;
    }
    assert(rv.take(column as int) =~= rv);
    out
}

/// One character for each cell of the row.
pub fn aligned_row(row: &[Cell]) -> (s: String)
    ensures
        s@ == aligned_text(cell::row_view(row@)),
{
    let ghost rv = cell::row_view(row@);
    let mut out = String::new();
    let mut column: usize = 0;
    while column < row.len()
        invariant
            rv == cell::row_view(row@),
            column <= row@.len(),
            out@ == aligned_text(rv).take(column as int),
        decreases row@.len() - column,
    {
        let c = &row[column];
        if c.spacer() {
            out.push(ALIGNED_WIDE_CELL);
        } else {
            out.push(shown(c.c));
        }
        column = column + 1;
        assert(out@ =~= aligned_text(rv).take(column as int));
    }
    assert(aligned_text(rv).take(column as int) =~= aligned_text(rv));
    out
}

/// Aligned text has one character for each column, and the marker stands for
/// the second halves of wide characters and for nothing else.
pub proof fn law_aligned_text_marks_wide_cells(row: Seq<CellView>)
    ensures
        aligned_text(row).len() == row.len(),
        forall|i: int|
            0 <= i < row.len() ==> (#[trigger] aligned_text(row)[i] == ALIGNED_WIDE_CELL
                <==> cell::is_spacer(row[i])),
{
}

/// Whether the text of the row goes on in the next one.
pub fn wraps(row: &[Cell]) -> (b: bool)
    ensures
        b == row_wraps(cell::row_view(row@)),
{
    row.len() > 0 && flag_set(row[row.len() - 1].flags, FLAG_WRAPLINE)
}

// ---------------------------------------------------------------------------
// The columns of a row
// ---------------------------------------------------------------------------

/// How the columns of a row divide into white space and words.
#[derive(Debug)]
pub struct RetainedRowLayout {
    /// For each column up to the last content, whether it is white space. A row
    /// without content has one column.
    pub whitespace: Vec<bool>,
    /// Whether the row has any content.
    pub has_text: bool,
}

/// Reads a row from the left: the white space of the columns so far, whether
/// the last character was white space, and the last column with content.
#[verifier::ext_equal]
pub struct LayoutScan {
    pub whitespace: Seq<bool>,
    pub previous: bool,
    pub last_content: Option<int>,
}

/// The scan of a row. The second half of a wide character is white space where
/// the first is, and content where the first is; the blank that a wrapped wide
/// character leaves behind is content.
pub open spec fn layout_scan(row: Seq<CellView>) -> LayoutScan
    decreases row.len(),
{
    if row.len() == 0 {
        LayoutScan { whitespace: Seq::<bool>::empty(), previous: true, last_content: None }
    } else {
        let before = layout_scan(row.drop_last());
        let c = row.last();
        let column = row.len() - 1;
        let wide = cell::is_spacer(c);
        let leading = cell::has_flag(c.flags, FLAG_LEADING_WIDE_CHAR_SPACER);
        let blank = if wide {
            before.previous
        } else if leading {
            false
        } else {
            c.c == '\0' || text::is_space_char(c.c)
        };
        let follows = if column == 0 {
            before.last_content is None
        } else {
            before.last_content == Some(column - 1)
        };
        let content = leading || (!wide && c.c != '\0' && c.c != ' ') || (wide && follows);
        LayoutScan {
            whitespace: before.whitespace.push(blank),
            previous: if wide || leading {
                before.previous
            } else {
                blank
            },
            last_content: if content {
                Some(column)
            } else {
                before.last_content
            },
        }
    }
}

/// The white space of the columns up to the last content, or of one column.
pub open spec fn layout_whitespace(row: Seq<CellView>) -> Seq<bool> {
    let scan = layout_scan(row);
    let n = match scan.last_content {
        Some(column) => column + 1,
        None => 1,
    };
    if n <= scan.whitespace.len() {
        scan.whitespace.take(n)
    } else {
        scan.whitespace
    }
}

proof fn lemma_layout_scan(row: Seq<CellView>)
    ensures
        layout_scan(row).whitespace.len() == row.len(),
        layout_scan(row).last_content matches Some(c) ==> 0 <= c < row.len(),
    decreases row.len(),
{
    if row.len() > 0 {
        lemma_layout_scan(row.drop_last());
    }
}

impl RetainedRowLayout {
    /// The layout with these columns.
    pub fn new(whitespace: Vec<bool>, has_text: bool) -> (layout: RetainedRowLayout)
        ensures
            layout.whitespace@ == whitespace@,
            layout.has_text == has_text,
    {
        RetainedRowLayout { whitespace, has_text }
    }

    /// The last column of the layout.
    pub fn last_column(&self) -> (column: usize)
        ensures
            column == (if self.whitespace@.len() == 0 {
                0
            } else {
                self.whitespace@.len() - 1
            }),
    {
        if self.whitespace.len() == 0 {
            0
        } else {
            self.whitespace.len() - 1
        }
    }
}

/// How the columns of the row divide into white space and words.
pub fn layout_of_row(row: &[Cell]) -> (layout: RetainedRowLayout)
    ensures
        layout.whitespace@ == layout_whitespace(cell::row_view(row@)),
        layout.has_text == (layout_scan(cell::row_view(row@)).last_content is Some),
{
    let ghost rv = cell::row_view(row@);
    let mut whitespace: Vec<bool> = Vec::new();
    let mut previous: bool = true;
    let mut last_content: Option<usize> = None;
    let mut column: usize = 0;
    assert(rv.take(0) =~= Seq::<CellView>::empty());
    while column < row.len()
        invariant
            rv == cell::row_view(row@),
            column <= row@.len(),
            whitespace@ == layout_scan(rv.take(column as int)).whitespace,
            previous == layout_scan(rv.take(column as int)).previous,
            (match last_content {
                Some(c) => layout_scan(rv.take(column as int)).last_content == Some(c as int),
                None => layout_scan(rv.take(column as int)).last_content is None,
            }),
        decreases row@.len() - column,
    {
        let c = &row[column];
        assert(rv.take(column + 1).drop_last() =~= rv.take(column as int));
        let wide: bool = c.spacer();
        let leading: bool = flag_set(c.flags, FLAG_LEADING_WIDE_CHAR_SPACER);
        let blank: bool = if wide {
            previous
        } else if leading {
            false
        } else {
            c.c == '\0' || is_whitespace(c.c)
        };
        whitespace.push(blank);
        let follows: bool = match last_content {
            None => column == 0,
            Some(at) => column > 0 && at == column - 1,
        };
        proof {
            lemma_layout_scan(rv.take(column as int));
        }
        if leading || (!wide && c.c != '\0' && c.c != ' ') || (wide && follows) {
            last_content = Some(column);
        }
        if !wide && !leading {
            previous = blank;
        }
        column = column + 1;
    }
    assert(rv.take(column as int) =~= rv);
    proof {
        lemma_layout_scan(rv);
    }
    let has_text: bool = last_content.is_some();
    let keep: usize = match last_content {
        Some(at) => at + 1,
        None => 1,
    };
    if keep < whitespace.len() {
        whitespace.truncate(keep);
    }
    RetainedRowLayout::new(whitespace, has_text)
}

// ---------------------------------------------------------------------------
// Selecting a row
// ---------------------------------------------------------------------------

/// Trailing cells that show at most a blank do not count in a row's text.
proof fn lemma_trailing_blanks(row: Seq<CellView>, n: int)
    requires
        0 <= n <= row.len(),
        forall|i: int|
            n <= i < row.len() ==> cell::is_spacer(#[trigger] row[i]) || (row[i].c == ' '
                && row[i].zerowidth.len() == 0),
    ensures
        row_text(row) == row_text(row.take(n)),
    decreases row.len(),
{
    if n == row.len() {
        assert(row.take(n) =~= row);
    } else {
        let rest = row.drop_last();
        lemma_trailing_blanks(rest, n);
        assert(rest.take(n) =~= row.take(n));
        let last = row[row.len() - 1];
        if cell::is_spacer(last) {
            assert(cells_text(rest) + cell_text(last) =~= cells_text(rest));
        } else {
            assert(cell_text(last) =~= seq![' ']);
            assert(cells_text(row) =~= cells_text(rest).push(' '));
            assert(cells_text(row).drop_last() =~= cells_text(rest));
        }
    }
}

/// The cells behind the occupied ones are bare blanks.
proof fn lemma_written_len(row: Seq<CellView>)
    ensures
        written_len(row) <= row.len(),
        forall|i: int|
            written_len(row) <= i < row.len() ==> (#[trigger] row[i]).c == ' '
                && row[i].zerowidth.len() == 0,
    decreases row.len(),
{
    if row.len() > 0 {
        let rest = row.drop_last();
        lemma_written_len(rest);
        assert forall|i: int| written_len(row) <= i < row.len() implies (#[trigger] row[i]).c == ' '
            && row[i].zerowidth.len() == 0 by {
            if i < rest.len() {
                assert(rest[i] == row[i]);
            }
        }
    }
}

/// The cells behind the last content of a layout show at most a blank.
proof fn lemma_behind_content(row: Seq<CellView>)
    requires
        is_plain_row(row),
    ensures
        ({
            let n = match layout_scan(row).last_content {
                Some(c) => c + 1,
                None => 0,
            };
            &&& 0 <= n <= row.len()
            &&& forall|i: int|
                n <= i < row.len() ==> cell::is_spacer(#[trigger] row[i]) || row[i].c == ' '
        }),
    decreases row.len(),
{
    if row.len() > 0 {
        let rest = row.drop_last();
        assert forall|i: int| 0 <= i < rest.len() implies is_plain_cell(#[trigger] rest[i]) by {
            assert(rest[i] == row[i]);
        }
        lemma_behind_content(rest);
        assert(is_plain_cell(row[row.len() - 1]));
        let n = match layout_scan(row).last_content {
            Some(c) => c + 1,
            None => 0,
        };
        assert forall|i: int| n <= i < row.len() implies cell::is_spacer(#[trigger] row[i])
            || row[i].c == ' ' by {
            if i < rest.len() {
                assert(rest[i] == row[i]);
            }
        }
    }
}

/// Dropping trailing blanks first does not change a text without its trailing
/// white space.
proof fn lemma_trim_twice(s: Seq<char>)
    ensures
        text::trim_end_text(text::trim_end_char(s, ' ')) == text::trim_end_text(s),
    decreases s.len(),
{
    if s.len() > 0 && s.last() == ' ' {
        lemma_trim_twice(s.drop_last());
    }
}

/// Selecting a plain row from its first column to the last column of its layout
/// gives the text of the row, up to trailing white space; blanks carry no
/// combining characters.
pub proof fn law_selecting_a_row_gives_its_text(row: Seq<CellView>)
    requires
        is_plain_row(row),
        row.len() > 0,
        !cell::is_spacer(row[0]),
        forall|i: int|
            0 <= i < row.len() && (#[trigger] row[i]).c == ' ' ==> row[i].zerowidth.len() == 0,
    ensures
        ({
            let last = layout_whitespace(row).len() - 1;
            let selected = text::trim_end_char(line_text(row, 0, last), ' ');
            text::trim_end_text(selected) == row_text(row)
        }),
{
    lemma_layout_scan(row);
    lemma_behind_content(row);
    lemma_written_len(row);
    let last = layout_whitespace(row).len() - 1;
    let to = if occupied_len(row) < last + 1 {
        occupied_len(row) as int
    } else {
        last + 1
    };
    assert forall|i: int| to <= i < row.len() implies cell::is_spacer(#[trigger] row[i]) || (
    row[i].c == ' ' && row[i].zerowidth.len() == 0) by {
    }
    lemma_trailing_blanks(row, to);
    if to > 0 {
        assert(row.subrange(0, to) =~= row.take(to));
    } else {
        assert(row.take(0) =~= Seq::<CellView>::empty());
    }
    lemma_trim_twice(line_text(row, 0, last));
}

/// Whether each cell holds one character of its own, without anything combined.
pub open spec fn is_bare_row(row: Seq<CellView>) -> bool {
    forall|i: int|
        0 <= i < row.len() ==> !cell::is_spacer(#[trigger] row[i]) && row[i].zerowidth.len() == 0
}

/// What the cells of a row show, from left to right.
pub open spec fn shown_chars(row: Seq<CellView>) -> Seq<char> {
    Seq::new(row.len(), |i: int| cell::shown_char(row[i].c))
}

/// The text of a row is what its cells show from left to right: all of it where the
/// row is read as it is seen, and without the white space at its end where it is read
/// as text.
pub proof fn law_rows_read_from_left_to_right(row: Seq<CellView>)
    requires
        is_bare_row(row),
    ensures
        visible_text(row) == shown_chars(row),
        cells_text(row) == shown_chars(row),
        row_text(row) == text::trim_end_text(shown_chars(row)),
        aligned_text(row) == shown_chars(row),
    decreases row.len(),
{
    assert(aligned_text(row) =~= shown_chars(row));
    if row.len() > 0 {
        let front = row.drop_last();
        let c = row.last();
        assert(row[row.len() - 1] == c);
        assert forall|i: int| 0 <= i < front.len() implies !cell::is_spacer(#[trigger] front[i])
            && front[i].zerowidth.len() == 0 by {
            assert(front[i] == row[i]);
        }
        law_rows_read_from_left_to_right(front);
        assert(shown_chars(row) =~= shown_chars(front).push(cell::shown_char(c.c)));
        assert(cell_text(c) =~= seq![cell::shown_char(c.c)]);
        assert(cells_text(row) =~= shown_chars(row));
    } else {
        assert(visible_text(row) =~= shown_chars(row));
        assert(cells_text(row) =~= shown_chars(row));
    }
}

/// A wide character is read once, with the combining characters of its cell, however
/// many cells it takes.
pub proof fn law_wide_characters_are_read_once(row: Seq<CellView>, half: CellView)
    requires
        cell::is_spacer(half),
    ensures
        cells_text(row.push(half)) == cells_text(row),
        visible_text(row.push(half)) == visible_text(row),
        cells_plain(row.push(half)) == cells_plain(row),
{
    assert(row.push(half).drop_last() =~= row);
    assert(cells_text(row) + cell_text(half) =~= cells_text(row));
    assert(cells_plain(row) + cell_plain(half) =~= cells_plain(row));
}

/// What is read of a row between two columns is what its cells there show, as far as
/// the row goes.
pub proof fn law_columns_read_what_they_show(row: Seq<CellView>, left: int, right: int)
    requires
        is_bare_row(row),
        0 <= left <= right < row.len(),
        right < occupied_len(row),
    ensures
        line_text(row, left, right) == shown_chars(row).subrange(left, right + 1),
{
    let part = row.subrange(left, right + 1);
    assert forall|i: int| 0 <= i < part.len() implies !cell::is_spacer(#[trigger] part[i])
        && part[i].zerowidth.len() == 0 by {
        assert(part[i] == row[left + i]);
    }
    law_rows_read_from_left_to_right(part);
    assert(shown_chars(part) =~= shown_chars(row).subrange(left, right + 1));
}

/// Where a row holds single characters alone, its columns are white space where their
/// character is, and it goes on to the last column that is not empty.
pub proof fn law_words_are_what_shows(row: Seq<CellView>)
    requires
        is_bare_row(row),
        forall|i: int|
            0 <= i < row.len() ==> !cell::has_flag(
                (#[trigger] row[i]).flags,
                FLAG_LEADING_WIDE_CHAR_SPACER,
            ),
    ensures
        layout_scan(row).whitespace.len() == row.len(),
        forall|i: int|
            0 <= i < row.len() ==> (#[trigger] layout_scan(row).whitespace[i]
                == text::is_space_char(cell::shown_char(row[i].c))),
        match layout_scan(row).last_content {
            Some(k) => 0 <= k < row.len() && cell::shown_char(row[k].c) != ' ' && forall|i: int|
                k < i < row.len() ==> cell::shown_char((#[trigger] row[i]).c) == ' ',
            None => forall|i: int|
                0 <= i < row.len() ==> cell::shown_char((#[trigger] row[i]).c) == ' ',
        },
    decreases row.len(),
{
    if row.len() > 0 {
        let front = row.drop_last();
        let n = front.len() as int;
        assert forall|i: int| 0 <= i < front.len() implies !cell::is_spacer(#[trigger] front[i])
            && front[i].zerowidth.len() == 0 && !cell::has_flag(
            front[i].flags,
            FLAG_LEADING_WIDE_CHAR_SPACER,
        ) by {
            assert(front[i] == row[i]);
        }
        law_words_are_what_shows(front);
        assert(row[n] == row.last());
        assert(!cell::is_spacer(row[n]));
        let before = layout_scan(front);
        let scan = layout_scan(row);
        assert forall|i: int| 0 <= i < row.len() implies (#[trigger] scan.whitespace[i]
            == text::is_space_char(cell::shown_char(row[i].c))) by {
            if i < n {
                assert(scan.whitespace[i] == before.whitespace[i]);
                assert(front[i] == row[i]);
            }
        }
        assert forall|i: int| 0 <= i < n implies #[trigger] row[i] == front[i] by {}
    }
}

} // verus!
