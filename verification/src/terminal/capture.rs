//! Bounded captures of a terminal's text.
use vstd::prelude::*;
use vstd::string::*;

use crate::terminal::cell;
use crate::terminal::cell::{Cell, CellView};
use crate::terminal::row;
use crate::terminal::row::{append_ansi_grid_row, append_plain_grid_row, append_utf8_bounded, wraps};
use crate::terminal::screen;
use crate::terminal::screen::{GridRows, Screen};
use crate::terminal::style;
use crate::text;
use crate::text::byte_len;

verus! {

/// What a capture reads.
#[derive(Clone, Copy, Debug, PartialEq, Eq, Structural)]
pub enum CaptureMode {
    /// The last rows of the live screen.
    Visible,
    /// The last lines, with wrapped rows joined.
    RecentUnwrapped,
    /// The last rows of the live screen, never styled.
    Detection,
}

/// A capture.
#[derive(Debug)]
pub struct CaptureResult {
    pub text: String,
    /// How many lines went into the text, a cut one included.
    pub lines: usize,
    /// Whether the byte limit left anything out.
    pub truncated: bool,
}

/// A capture in progress.
#[verifier::ext_equal]
pub struct Captured {
    pub text: Seq<char>,
    pub lines: nat,
    pub truncated: bool,
}

/// Appends one row: the new text, and whether the whole row fitted.
pub open spec fn append_row(out: Seq<char>, r: Seq<CellView>, ansi: bool, max: int) -> (
    Seq<char>,
    bool,
) {
    if ansi {
        row::row_ansi(out, r, max)
    } else {
        row::fitted(out, row::row_plain(r), max)
    }
}

/// Appends rows one after another, up to the first that does not fit.
pub open spec fn append_rows(
    out: Seq<char>,
    rows: Seq<Seq<CellView>>,
    ansi: bool,
    max: int,
) -> (Seq<char>, bool)
    decreases rows.len(),
{
    if rows.len() == 0 {
        (out, true)
    } else {
        let before = append_rows(out, rows.drop_last(), ansi, max);
        if before.1 {
            append_row(before.0, rows.last(), ansi, max)
        } else {
            before
        }
    }
}

/// Captures lines, each made of one row or more, with a line break between any
/// two, up to where the limit cuts.
pub open spec fn capture_lines(lines: Seq<Seq<Seq<CellView>>>, ansi: bool, max: int) -> Captured
    decreases lines.len(),
{
    if lines.len() == 0 {
        Captured { text: Seq::<char>::empty(), lines: 0, truncated: false }
    } else {
        let before = capture_lines(lines.drop_last(), ansi, max);
        if before.truncated {
            before
        } else if before.lines > 0 && !row::bounded(before.text, seq!['\n'], max).1 {
            Captured { truncated: true, ..before }
        } else {
            let start = if before.lines > 0 {
                before.text.push('\n')
            } else {
                before.text
            };
            let end = append_rows(start, lines.last(), ansi, max);
            Captured { text: end.0, lines: before.lines + 1, truncated: !end.1 }
        }
    }
}

/// Rows as lines of one row each.
pub open spec fn single_rows(rows: Seq<Seq<CellView>>) -> Seq<Seq<Seq<CellView>>> {
    Seq::new(rows.len(), |i: int| seq![rows[i]])
}

/// The search for the last lines, from the newest row up.
#[verifier::ext_equal]
pub struct Search {
    /// The rows of the lines found, newest line first, newest row first.
    pub found: Seq<Seq<int>>,
    /// The rows of the line being read, newest first.
    pub current: Seq<int>,
    /// The bytes of the rows read.
    pub bytes: nat,
    /// The number of rows read.
    pub read: nat,
    pub truncated: bool,
    pub done: bool,
}

/// Reads one more row. A row that does not fit in what is left of `max` bytes,
/// or that is one more than `max_rows`, ends the search; so does the start of
/// the line that is the last wanted.
pub open spec fn search_row(
    s: Search,
    rows: Seq<Seq<CellView>>,
    index: int,
    wanted: nat,
    max: nat,
    max_rows: nat,
) -> Search {
    let t = row::row_plain(rows[index]);
    let room = if s.bytes <= max {
        max - s.bytes
    } else {
        0
    };
    if !row::fitted(Seq::<char>::empty(), t, room).1 || s.read >= max_rows {
        Search {
            found: s.found.push(
                if s.current.len() == 0 {
                    seq![index]
                } else {
                    s.current
                },
            ),
            current: Seq::<int>::empty(),
            truncated: true,
            done: true,
            ..s
        }
    } else {
        let current = s.current.push(index);
        let read = Search { current, bytes: s.bytes + text::utf8_len(t), read: s.read + 1, ..s };
        if index == 0 || !row::row_wraps(rows[index - 1]) {
            let found = s.found.push(current);
            Search { found, current: Seq::<int>::empty(), done: found.len() >= wanted, ..read }
        } else {
            read
        }
    }
}

/// The search over the newest `n` rows.
pub open spec fn search(
    rows: Seq<Seq<CellView>>,
    n: nat,
    wanted: nat,
    max: nat,
    max_rows: nat,
) -> Search
    decreases n,
{
    if n == 0 {
        Search {
            found: Seq::<Seq<int>>::empty(),
            current: Seq::<int>::empty(),
            bytes: 0,
            read: 0,
            truncated: false,
            done: false,
        }
    } else {
        let before = search(rows, (n - 1) as nat, wanted, max, max_rows);
        if before.done {
            before
        } else {
            search_row(before, rows, rows.len() - n, wanted, max, max_rows)
        }
    }
}

/// How many rows a search reads at most: one for each machine word of the limit.
pub open spec fn row_limit(max: nat) -> nat {
    let word = if vstd::layout::size_of::<usize>() < 1 {
        1nat
    } else {
        vstd::layout::size_of::<usize>()
    };
    if max / word < 1 {
        1
    } else {
        max / word
    }
}

/// The rows of the lines found, oldest line first, oldest row first.
pub open spec fn found_lines(rows: Seq<Seq<CellView>>, found: Seq<Seq<int>>) -> Seq<
    Seq<Seq<CellView>>,
> {
    Seq::new(
        found.len(),
        |i: int|
            {
                let line = found[found.len() - 1 - i];
                Seq::new(line.len(), |k: int| rows[line[line.len() - 1 - k]])
            },
    )
}

/// The number of lines asked for: at least one.
pub open spec fn wanted_lines(lines: nat) -> nat {
    if lines < 1 {
        1
    } else {
        lines
    }
}

/// The capture of a screen.
pub open spec fn capture(s: Screen, mode: CaptureMode, lines: nat, ansi: bool, max: nat) -> Captured {
    let wanted = wanted_lines(lines);
    match mode {
        CaptureMode::Detection => capture_lines(
            single_rows(screen::bottom_rows(s, wanted)),
            false,
            max as int,
        ),
        CaptureMode::Visible => capture_lines(
            single_rows(screen::bottom_rows(s, wanted)),
            ansi,
            max as int,
        ),
        CaptureMode::RecentUnwrapped => {
            let end = search(s.rows, s.rows.len(), wanted, max, row_limit(max));
            let c = capture_lines(found_lines(s.rows, end.found), ansi, max as int);
            Captured { truncated: end.truncated || c.truncated, ..c }
        },
    }
}

// ---------------------------------------------------------------------------
// Laws
// ---------------------------------------------------------------------------

/// Appending rows keeps to the limit, or leaves the text as it was.
proof fn lemma_append_rows_len(out: Seq<char>, rows: Seq<Seq<CellView>>, ansi: bool, max: int)
    ensures
        text::utf8_len(append_rows(out, rows, ansi, max).0) <= max || append_rows(
            out,
            rows,
            ansi,
            max,
        ).0 == out,
    decreases rows.len(),
{
    if rows.len() > 0 {
        lemma_append_rows_len(out, rows.drop_last(), ansi, max);
        let before = append_rows(out, rows.drop_last(), ansi, max);
        row::lemma_fitted_len(before.0, row::row_plain(rows.last()), max);
        row::lemma_row_ansi_len(before.0, rows.last(), max);
    }
}

/// A line break fits where there is a byte left.
pub proof fn lemma_newline_fits(out: Seq<char>, max: int)
    ensures
        row::bounded(out, seq!['\n'], max).1 == (text::utf8_len(out) + 1 <= max),
        row::bounded(out, seq!['\n'], max).1 ==> row::bounded(out, seq!['\n'], max).0 == out.push(
            '\n',
        ),
        !row::bounded(out, seq!['\n'], max).1 ==> row::bounded(out, seq!['\n'], max).0 == out,
{
    let t = seq!['\n'];
    text::lemma_fitting(t, max - text::utf8_len(out));
    text::lemma_utf8_len_push(Seq::<char>::empty(), '\n');
    assert(t =~= Seq::<char>::empty().push('\n'));
    let k = text::fitting(t, max - text::utf8_len(out));
    if k == 1 {
        assert(out + t.take(1) =~= out.push('\n'));
    } else {
        assert(out + t.take(0) =~= out);
    }
}

/// A capture never exceeds its limit, and never has more lines than there are.
pub proof fn lemma_capture_lines_bounds(lines: Seq<Seq<Seq<CellView>>>, ansi: bool, max: int)
    requires
        max >= 0,
    ensures
        text::utf8_len(capture_lines(lines, ansi, max).text) <= max,
        capture_lines(lines, ansi, max).lines <= lines.len(),
    decreases lines.len(),
{
    if lines.len() > 0 {
        lemma_capture_lines_bounds(lines.drop_last(), ansi, max);
        let before = capture_lines(lines.drop_last(), ansi, max);
        lemma_newline_fits(before.text, max);
        text::lemma_utf8_len_push(before.text, '\n');
        let start = if before.lines > 0 {
            before.text.push('\n')
        } else {
            before.text
        };
        lemma_append_rows_len(start, lines.last(), ansi, max);
    }
}

proof fn lemma_search_bounds(
    rows: Seq<Seq<CellView>>,
    n: nat,
    wanted: nat,
    max: nat,
    max_rows: nat,
)
    requires
        n <= rows.len(),
        wanted >= 1,
    ensures
        ({
            let s = search(rows, n, wanted, max, max_rows);
            &&& s.found.len() <= wanted
            &&& !s.done ==> s.found.len() < wanted
            &&& s.bytes <= max
            &&& s.read <= max_rows
            &&& forall|i: int, k: int|
                #![trigger s.found[i][k]]
                0 <= i < s.found.len() && 0 <= k < s.found[i].len() ==> rows.len() - n
                    <= s.found[i][k] < rows.len()
            &&& forall|k: int|
                0 <= k < s.current.len() ==> rows.len() - n <= #[trigger] s.current[k] < rows.len()
        }),
    decreases n,
{
    if n > 0 {
        lemma_search_bounds(rows, (n - 1) as nat, wanted, max, max_rows);
        let before = search(rows, (n - 1) as nat, wanted, max, max_rows);
        if !before.done {
            let index = rows.len() - n;
            let t = row::row_plain(rows[index]);
            let room = max - before.bytes;
            text::lemma_fitting(t, room - text::utf8_len(Seq::<char>::empty()));
        }
    }
}

/// A capture is never longer than the limit and has no more lines than asked
/// for, whatever it reads.
pub proof fn law_capture_is_bounded(
    s: Screen,
    mode: CaptureMode,
    lines: nat,
    ansi: bool,
    max: nat,
)
    requires
        s.wf(),
    ensures
        text::utf8_len(capture(s, mode, lines, ansi, max).text) <= max,
        capture(s, mode, lines, ansi, max).lines <= wanted_lines(lines),
{
    let wanted = wanted_lines(lines);
    let bottom = single_rows(screen::bottom_rows(s, wanted));
    lemma_capture_lines_bounds(bottom, ansi, max as int);
    lemma_capture_lines_bounds(bottom, false, max as int);
    lemma_search_bounds(s.rows, s.rows.len(), wanted, max, row_limit(max));
    let end = search(s.rows, s.rows.len(), wanted, max, row_limit(max));
    lemma_capture_lines_bounds(found_lines(s.rows, end.found), ansi, max as int);
}

/// Whether the text is made of the parameters of a style: digits and semicolons.
pub open spec fn params_text(s: Seq<char>) -> bool {
    forall|i: int| 0 <= i < s.len() ==> '0' <= #[trigger] s[i] <= '9' || s[i] == ';'
}

/// Whether a sequence that selects a style starts at `i` and ends at `j`:
/// `ESC [`, its parameters, and `m`.
pub open spec fn style_at(s: Seq<char>, i: int, j: int) -> bool {
    &&& 0 <= i && i + 2 <= j < s.len()
    &&& s[i] == '\u{1b}'
    &&& s[i + 1] == '['
    &&& params_text(s.subrange(i + 2, j))
    &&& s[j] == 'm'
}

/// A text that is safe to print: its only control characters are tabs, line
/// breaks, and escapes that start a sequence which selects a style.
pub open spec fn safe_text(s: Seq<char>) -> bool {
    forall|i: int|
        0 <= i < s.len() && text::is_control_char(#[trigger] s[i]) ==> s[i] == '\t' || s[i] == '\n'
            || exists|j: int| #[trigger] style_at(s, i, j)
}

/// A text without escapes: its only control characters are tabs and line breaks.
pub open spec fn plain_text(s: Seq<char>) -> bool {
    forall|i: int|
        0 <= i < s.len() && text::is_control_char(#[trigger] s[i]) ==> s[i] == '\t' || s[i] == '\n'
}

proof fn lemma_safe_add(a: Seq<char>, b: Seq<char>)
    requires
        safe_text(a),
        safe_text(b),
    ensures
        safe_text(a + b),
{
    let s = a + b;
    let n = a.len() as int;
    assert forall|i: int| 0 <= i < s.len() && text::is_control_char(#[trigger] s[i]) implies s[i]
        == '\t' || s[i] == '\n' || exists|j: int| #[trigger] style_at(s, i, j) by {
        if i < n {
            assert(s[i] == a[i]);
            if a[i] != '\t' && a[i] != '\n' {
                let j = choose|j: int| #[trigger] style_at(a, i, j);
                assert(s.subrange(i + 2, j) =~= a.subrange(i + 2, j));
                assert(style_at(s, i, j));
            }
        } else {
            assert(s[i] == b[i - n]);
            if b[i - n] != '\t' && b[i - n] != '\n' {
                let j = choose|j: int| #[trigger] style_at(b, i - n, j);
                assert(s.subrange(i + 2, n + j) =~= b.subrange(i - n + 2, j));
                assert(style_at(s, i, n + j));
            }
        }
    }
}

/// A sequence that selects a style is safe.
proof fn lemma_style_is_safe(params: Seq<char>)
    requires
        params_text(params),
    ensures
        safe_text(seq!['\u{1b}', '['] + params + seq!['m']),
{
    let s = seq!['\u{1b}', '['] + params + seq!['m'];
    let last = s.len() - 1;
    assert(s.subrange(2, last) =~= params);
    assert(style_at(s, 0, last));
    assert forall|i: int| 0 <= i < s.len() && text::is_control_char(#[trigger] s[i]) implies s[i]
        == '\t' || s[i] == '\n' || exists|j: int| #[trigger] style_at(s, i, j) by {
        if 2 <= i < last {
            assert(s[i] == params[i - 2]);
        }
    }
}

proof fn lemma_params_add(a: Seq<char>, b: Seq<char>)
    requires
        params_text(a),
        params_text(b),
    ensures
        params_text(a + b),
{
    let s = a + b;
    assert forall|i: int| 0 <= i < s.len() implies '0' <= #[trigger] s[i] <= '9' || s[i] == ';' by {
        if i < a.len() {
            assert(s[i] == a[i]);
        } else {
            assert(s[i] == b[i - a.len()]);
        }
    }
}

proof fn lemma_plain_add(a: Seq<char>, b: Seq<char>)
    requires
        plain_text(a),
        plain_text(b),
    ensures
        plain_text(a + b),
{
    let s = a + b;
    assert forall|i: int| 0 <= i < s.len() && text::is_control_char(#[trigger] s[i]) implies s[i]
        == '\t' || s[i] == '\n' by {
        if i < a.len() {
            assert(s[i] == a[i]);
        } else {
            assert(s[i] == b[i - a.len()]);
        }
    }
}

proof fn lemma_printable_is_plain(s: Seq<char>)
    ensures
        plain_text(row::printable(s)),
    decreases s.len(),
{
    if s.len() > 0 {
        lemma_printable_is_plain(s.drop_last());
    }
}

proof fn lemma_cells_plain_is_plain(r: Seq<CellView>)
    ensures
        plain_text(row::cells_plain(r)),
    decreases r.len(),
{
    if r.len() > 0 {
        lemma_cells_plain_is_plain(r.drop_last());
        let c = r.last();
        lemma_printable_is_plain(c.zerowidth);
        if row::captured_char(cell::shown_char(c.c)) {
            lemma_plain_add(seq![cell::shown_char(c.c)], row::printable(c.zerowidth));
        }
        lemma_plain_add(row::cells_plain(r.drop_last()), row::cell_plain(c));
    }
}

proof fn lemma_decimal_is_params(n: nat)
    ensures
        params_text(text::decimal_text(n)),
    decreases n,
{
    if n >= 10 {
        lemma_decimal_is_params(n / 10);
    }
}

proof fn lemma_plain_is_safe(s: Seq<char>)
    requires
        plain_text(s),
    ensures
        safe_text(s),
{
}

proof fn lemma_color_is_params(c: style::Color, base: nat)
    ensures
        params_text(style::color_code(c, base)),
{
    lemma_decimal_is_params(base);
    match c {
        style::Color::Reset => {},
        style::Color::Indexed(i) => {
            lemma_decimal_is_params(i as nat);
            let a = seq![';'] + text::decimal_text(base);
            lemma_params_add(seq![';'], text::decimal_text(base));
            lemma_params_add(a, seq![';', '5', ';']);
            lemma_params_add(a + seq![';', '5', ';'], text::decimal_text(i as nat));
        },
        style::Color::Rgb(r, g, b) => {
            lemma_decimal_is_params(r as nat);
            lemma_decimal_is_params(g as nat);
            lemma_decimal_is_params(b as nat);
            let a = seq![';'] + text::decimal_text(base);
            lemma_params_add(seq![';'], text::decimal_text(base));
            lemma_params_add(a, seq![';', '2', ';']);
            let a = a + seq![';', '2', ';'];
            lemma_params_add(a, text::decimal_text(r as nat));
            let a = a + text::decimal_text(r as nat);
            lemma_params_add(a, seq![';']);
            let a = a + seq![';'];
            lemma_params_add(a, text::decimal_text(g as nat));
            let a = a + text::decimal_text(g as nat);
            lemma_params_add(a, seq![';']);
            let a = a + seq![';'];
            lemma_params_add(a, text::decimal_text(b as nat));
        },
    }
}

proof fn lemma_add_assoc(a: Seq<char>, b: Seq<char>, c: Seq<char>)
    ensures
        a + (b + c) == (a + b) + c,
{
    assert(a + (b + c) =~= (a + b) + c);
}

proof fn lemma_sgr_is_safe(style: style::RenderCell)
    ensures
        safe_text(style::sgr_code(style)),
{
    let m = style.mods;
    let open = seq!['\u{1b}', '['];
    let a = seq!['0'];
    assert(open + a =~= seq!['\u{1b}', '[', '0']);
    let b = style::attribute_code(m.bold, '1');
    lemma_params_add(a, b);
    lemma_add_assoc(open, a, b);
    let a = a + b;
    let b = style::attribute_code(m.dim, '2');
    lemma_params_add(a, b);
    lemma_add_assoc(open, a, b);
    let a = a + b;
    let b = style::attribute_code(m.italic, '3');
    lemma_params_add(a, b);
    lemma_add_assoc(open, a, b);
    let a = a + b;
    let b = style::attribute_code(m.underlined, '4');
    lemma_params_add(a, b);
    lemma_add_assoc(open, a, b);
    let a = a + b;
    let b = style::attribute_code(m.reversed, '7');
    lemma_params_add(a, b);
    lemma_add_assoc(open, a, b);
    let a = a + b;
    let b = style::color_code(style.fg, 38);
    lemma_color_is_params(style.fg, 38);
    lemma_params_add(a, b);
    lemma_add_assoc(open, a, b);
    let a = a + b;
    let b = style::color_code(style.bg, 48);
    lemma_color_is_params(style.bg, 48);
    lemma_params_add(a, b);
    lemma_add_assoc(open, a, b);
    lemma_style_is_safe(a + b);
}

proof fn lemma_ansi_cells_safe(out: Seq<char>, r: Seq<CellView>, limit: int)
    requires
        safe_text(out),
    ensures
        safe_text(row::ansi_cells(out, r, limit).out),
    decreases r.len(),
{
    if r.len() > 0 {
        lemma_ansi_cells_safe(out, r.drop_last(), limit);
        let before = row::ansi_cells(out, r.drop_last(), limit);
        let c = r.last();
        if before.complete && !row::ansi_skips(c) {
            let change = row::style_change(before.style, c);
            lemma_sgr_is_safe(style::mapped_style(c.fg, c.bg, c.flags));
            lemma_printable_is_plain(c.zerowidth);
            lemma_plain_add(seq![cell::shown_char(c.c)], row::printable(c.zerowidth));
            lemma_plain_is_safe(row::ansi_symbol(c));
            lemma_safe_add(change, row::ansi_symbol(c));
            lemma_safe_add(before.out, change + row::ansi_symbol(c));
        }
    }
}

proof fn lemma_append_row_safe(out: Seq<char>, r: Seq<CellView>, ansi: bool, max: int)
    ensures
        safe_text(out) ==> safe_text(append_row(out, r, ansi, max).0),
        plain_text(out) && !ansi ==> plain_text(append_row(out, r, ansi, max).0),
{
    let shown = r.take(row::content_len(r) as int);
    if ansi {
        if safe_text(out) {
            lemma_ansi_cells_safe(out, shown, row::ansi_limit(max));
            let end = row::ansi_cells(out, shown, row::ansi_limit(max));
            lemma_style_is_safe(seq!['0']);
            assert(style::reset_code() =~= seq!['\u{1b}', '['] + seq!['0'] + seq!['m']);
            lemma_safe_add(end.out, style::reset_code());
        }
    } else {
        lemma_cells_plain_is_plain(shown);
        let t = row::row_plain(r);
        text::lemma_fitting(t, max - text::utf8_len(out));
        let k = text::fitting(t, max - text::utf8_len(out));
        assert(plain_text(t.take(k as int)));
        if plain_text(out) {
            lemma_plain_add(out, t.take(k as int));
        }
        if safe_text(out) {
            lemma_plain_is_safe(t.take(k as int));
            lemma_safe_add(out, t.take(k as int));
        }
    }
}

proof fn lemma_append_rows_safe(out: Seq<char>, rows: Seq<Seq<CellView>>, ansi: bool, max: int)
    ensures
        safe_text(out) ==> safe_text(append_rows(out, rows, ansi, max).0),
        plain_text(out) && !ansi ==> plain_text(append_rows(out, rows, ansi, max).0),
    decreases rows.len(),
{
    if rows.len() > 0 {
        lemma_append_rows_safe(out, rows.drop_last(), ansi, max);
        let before = append_rows(out, rows.drop_last(), ansi, max);
        lemma_append_row_safe(before.0, rows.last(), ansi, max);
    }
}

proof fn lemma_capture_lines_safe(lines: Seq<Seq<Seq<CellView>>>, ansi: bool, max: int)
    ensures
        safe_text(capture_lines(lines, ansi, max).text),
        !ansi ==> plain_text(capture_lines(lines, ansi, max).text),
    decreases lines.len(),
{
    if lines.len() > 0 {
        lemma_capture_lines_safe(lines.drop_last(), ansi, max);
        let before = capture_lines(lines.drop_last(), ansi, max);
        lemma_safe_add(before.text, seq!['\n']);
        assert(before.text + seq!['\n'] =~= before.text.push('\n'));
        let start = if before.lines > 0 {
            before.text.push('\n')
        } else {
            before.text
        };
        lemma_append_rows_safe(start, lines.last(), ansi, max);
    }
}

/// A capture never replays a control that the terminal was sent: it holds tabs,
/// line breaks and, where styles are kept, sequences of its own that select them.
pub proof fn law_capture_is_safe(s: Screen, mode: CaptureMode, lines: nat, ansi: bool, max: nat)
    ensures
        safe_text(capture(s, mode, lines, ansi, max).text),
        !ansi || mode == CaptureMode::Detection ==> plain_text(
            capture(s, mode, lines, ansi, max).text,
        ),
{
    let wanted = wanted_lines(lines);
    let bottom = single_rows(screen::bottom_rows(s, wanted));
    lemma_capture_lines_safe(bottom, ansi, max as int);
    lemma_capture_lines_safe(bottom, false, max as int);
    let end = search(s.rows, s.rows.len(), wanted, max, row_limit(max));
    lemma_capture_lines_safe(found_lines(s.rows, end.found), ansi, max as int);
}

// ---------------------------------------------------------------------------
// Capturing
// ---------------------------------------------------------------------------

/// Appends one row, styled or plain, and says whether the whole row fitted.
fn append_grid_row(cells: &Vec<Cell>, output: &mut String, ansi: bool, max_bytes: usize) -> (complete:
    bool)
    ensures
        (final(output)@, complete) == append_row(
            old(output)@,
            cell::row_view(cells@),
            ansi,
            max_bytes as int,
        ),
{
    if ansi {
        append_ansi_grid_row(cells.as_slice(), output, max_bytes)
    } else {
        append_plain_grid_row(cells.as_slice(), output, max_bytes)
    }
}

/// The last `wanted` rows of the live screen.
fn capture_bottom<G: GridRows>(grid: &G, wanted: usize, ansi: bool, max_bytes: usize) -> (result:
    CaptureResult)
    requires
        grid.screen().wf(),
    ensures
        (Captured {
            text: result.text@,
            lines: result.lines as nat,
            truncated: result.truncated,
        }) == capture_lines(
            single_rows(screen::bottom_rows(grid.screen(), wanted as nat)),
            ansi,
            max_bytes as int,
        ),
{
    let ghost s = grid.screen();
    let lines: usize = grid.screen_lines();
    let total: usize = grid.history_size() + lines;
    let start: usize = if wanted < lines {
        total - wanted
    } else {
        total - lines
    };
    let ghost rows = screen::bottom_rows(s, wanted as nat);
    let ghost all = single_rows(rows);
    let mut output = String::new();
    let mut returned: usize = 0;
    let mut index: usize = start;
    assert(all.take(0) =~= Seq::<Seq<Seq<CellView>>>::empty());
    while index < total
        invariant
            s == grid.screen(),
            s.wf(),
            total == s.rows.len(),
            start <= index <= total,
            rows == s.rows.skip(start as int),
            rows == screen::bottom_rows(s, wanted as nat),
            all == single_rows(rows),
            returned <= index,
            capture_lines(all.take(index - start), ansi, max_bytes as int) == (Captured {
                text: output@,
                lines: returned as nat,
                truncated: false,
            }),
        decreases total - index,
    {
        let ghost seen = all.take(index + 1 - start);
        proof {
            assert(seen.drop_last() =~= all.take(index - start));
            assert(seen.last() == seq![s.rows[index as int]]);
            lemma_newline_fits(output@, max_bytes as int);
        }
        if returned > 0 {
            proof {
                reveal_strlit("\n");
                assert("\n"@ =~= seq!['\n']);
            }
            if !append_utf8_bounded(&mut output, "\n", max_bytes) {
                proof {
                    lemma_captured_stops(all, index + 1 - start, ansi, max_bytes as int);
                }
                return CaptureResult { text: output, lines: returned, truncated: true };
            }
        }
        let cells = grid.row(index);
        proof {
            let start_text = output@;
            let line = seq![s.rows[index as int]];
            assert(line.drop_last() =~= Seq::<Seq<CellView>>::empty());
            assert(append_rows(start_text, line.drop_last(), ansi, max_bytes as int) == (
                start_text,
                true,
            ));
            assert(append_rows(start_text, line, ansi, max_bytes as int) == append_row(
                start_text,
                s.rows[index as int],
                ansi,
                max_bytes as int,
            ));
        }
        let complete: bool = append_grid_row(&cells, &mut output, ansi, max_bytes);
        returned = returned + 1;
        if !complete {
            proof {
                lemma_captured_stops(all, index + 1 - start, ansi, max_bytes as int);
            }
            return CaptureResult { text: output, lines: returned, truncated: true };
        }
        index = index + 1;
    }
    assert(all.take(index - start) =~= all);
    CaptureResult { text: output, lines: returned, truncated: false }
}

proof fn lemma_captured_stops(lines: Seq<Seq<Seq<CellView>>>, n: int, ansi: bool, max: int)
    requires
        0 <= n <= lines.len(),
        capture_lines(lines.take(n), ansi, max).truncated,
    ensures
        capture_lines(lines, ansi, max) == capture_lines(lines.take(n), ansi, max),
    decreases lines.len() - n,
{
    if n < lines.len() {
        assert(lines.take(n + 1).drop_last() =~= lines.take(n));
        lemma_captured_stops(lines, n + 1, ansi, max);
    } else {
        assert(lines.take(n) =~= lines);
    }
}

/// What lists of row numbers hold.
spec fn index_view(found: Seq<Vec<usize>>) -> Seq<Seq<int>> {
    Seq::new(found.len(), |i: int| ints(found[i]@))
}

spec fn ints(v: Seq<usize>) -> Seq<int> {
    Seq::new(v.len(), |i: int| v[i] as int)
}

/// The rows of the last `wanted` lines, as [`search`] finds them.
fn find_lines<G: GridRows>(grid: &G, wanted: usize, max_bytes: usize) -> (found: (
    Vec<Vec<usize>>,
    bool,
))
    requires
        grid.screen().wf(),
        wanted >= 1,
    ensures
        ({
            let rows = grid.screen().rows;
            let end = search(
                rows,
                rows.len(),
                wanted as nat,
                max_bytes as nat,
                row_limit(max_bytes as nat),
            );
            &&& index_view(found.0@) == end.found
            &&& found.1 == end.truncated
        }),
{
    let ghost rows = grid.screen().rows;
    let total: usize = grid.history_size() + grid.screen_lines();
    let word: usize = core::mem::size_of::<usize>();
    let word: usize = if word < 1 {
        1
    } else {
        word
    };
    let max_rows: usize = if max_bytes / word < 1 {
        1
    } else {
        max_bytes / word
    };
    assert(max_rows == row_limit(max_bytes as nat));
    let mut logical: Vec<Vec<usize>> = Vec::new();
    let mut current: Vec<usize> = Vec::new();
    let mut inspected_bytes: usize = 0;
    let mut inspected_rows: usize = 0;
    let mut n: usize = 0;
    assert(index_view(logical@) =~= Seq::<Seq<int>>::empty());
    assert(ints(current@) =~= Seq::<int>::empty());
    while n < total
        invariant
            grid.screen().wf(),
            rows == grid.screen().rows,
            total == rows.len(),
            n <= total,
            wanted >= 1,
            max_rows == row_limit(max_bytes as nat),
            search(rows, n as nat, wanted as nat, max_bytes as nat, max_rows as nat) == (Search {
                found: index_view(logical@),
                current: ints(current@),
                bytes: inspected_bytes as nat,
                read: inspected_rows as nat,
                truncated: false,
                done: false,
            }),
        decreases total - n,
    {
        let index: usize = total - 1 - n;
        proof {
            lemma_search_bounds(rows, n as nat, wanted as nat, max_bytes as nat, max_rows as nat);
        }
        let ghost before = search(
            rows,
            n as nat,
            wanted as nat,
            max_bytes as nat,
            max_rows as nat,
        );
        let ghost after = search_row(
            before,
            rows,
            index as int,
            wanted as nat,
            max_bytes as nat,
            max_rows as nat,
        );
        assert(after == search(
            rows,
            (n + 1) as nat,
            wanted as nat,
            max_bytes as nat,
            max_rows as nat,
        ));
        let cells = grid.row(index);
        let mut line = String::new();
        let remaining: usize = max_bytes - inspected_bytes;
        let complete: bool = append_plain_grid_row(cells.as_slice(), &mut line, remaining);
        if !complete || inspected_rows >= max_rows {
            if current.len() == 0 {
                current.push(index);
                assert(ints(current@) =~= seq![index as int]);
            }
            let ghost found_before = logical@;
            logical.push(current);
            proof {
                assert(index_view(logical@) =~= index_view(found_before).push(ints(current@)));
                lemma_search_done(
                    rows,
                    (n + 1) as nat,
                    wanted as nat,
                    max_bytes as nat,
                    max_rows as nat,
                );
            }
            return (logical, true);
        }
        proof {
            let t = row::row_plain(rows[index as int]);
            text::lemma_fitting(t, remaining - text::utf8_len(Seq::<char>::empty()));
            assert(t.take(t.len() as int) =~= t);
            assert(Seq::<char>::empty() + t =~= t);
        }
        inspected_rows = inspected_rows + 1;
        inspected_bytes = inspected_bytes + byte_len(line.as_str());
        let ghost current_before = current@;
        current.push(index);
        assert(ints(current@) =~= ints(current_before).push(index as int));
        let starts: bool = if index == 0 {
            true
        } else {
            let above = grid.row(index - 1);
            !wraps(above.as_slice())
        };
        if starts {
            let ghost found_before = logical@;
            let ghost line_rows = current@;
            logical.push(current);
            current = Vec::new();
            proof {
                assert(index_view(logical@) =~= index_view(found_before).push(ints(line_rows)));
                assert(ints(current@) =~= Seq::<int>::empty());
            }
            if logical.len() >= wanted {
                proof {
                    lemma_search_done(
                        rows,
                        (n + 1) as nat,
                        wanted as nat,
                        max_bytes as nat,
                        max_rows as nat,
                    );
                }
                return (logical, false);
            }
        }
        n = n + 1;
    }
    (logical, false)
}

proof fn lemma_search_done(
    rows: Seq<Seq<CellView>>,
    n: nat,
    wanted: nat,
    max: nat,
    max_rows: nat,
)
    requires
        n <= rows.len(),
        search(rows, n, wanted, max, max_rows).done,
    ensures
        search(rows, rows.len(), wanted, max, max_rows) == search(
            rows,
            n,
            wanted,
            max,
            max_rows,
        ),
    decreases rows.len() - n,
{
    if n < rows.len() {
        lemma_search_done(rows, n + 1, wanted, max, max_rows);
    }
}

/// The last `wanted` lines, with wrapped rows joined.
fn capture_recent<G: GridRows>(grid: &G, wanted: usize, ansi: bool, max_bytes: usize) -> (result:
    CaptureResult)
    requires
        grid.screen().wf(),
        wanted >= 1,
    ensures
        (Captured {
            text: result.text@,
            lines: result.lines as nat,
            truncated: result.truncated,
        }) == capture(
            grid.screen(),
            CaptureMode::RecentUnwrapped,
            wanted as nat,
            ansi,
            max_bytes as nat,
        ),
{
    let ghost s = grid.screen();
    let (found, cut) = find_lines(grid, wanted, max_bytes);
    let ghost end = search(
        s.rows,
        s.rows.len(),
        wanted as nat,
        max_bytes as nat,
        row_limit(max_bytes as nat),
    );
    let ghost all = found_lines(s.rows, end.found);
    proof {
        lemma_search_bounds(
            s.rows,
            s.rows.len(),
            wanted as nat,
            max_bytes as nat,
            row_limit(max_bytes as nat),
        );
    }
    let mut output = String::new();
    let mut returned: usize = 0;
    assert(all.take(0) =~= Seq::<Seq<Seq<CellView>>>::empty());
    while returned < found.len()
        invariant
            s == grid.screen(),
            s.wf(),
            index_view(found@) == end.found,
            all == found_lines(s.rows, end.found),
            all.len() == found@.len(),
            returned <= found@.len(),
            cut == end.truncated,
            forall|i: int, k: int|
                #![trigger end.found[i][k]]
                0 <= i < end.found.len() && 0 <= k < end.found[i].len() ==> 0 <= end.found[i][k]
                    < s.rows.len(),
            capture_lines(all.take(returned as int), ansi, max_bytes as int) == (Captured {
                text: output@,
                lines: returned as nat,
                truncated: false,
            }),
            end == search(
                s.rows,
                s.rows.len(),
                wanted as nat,
                max_bytes as nat,
                row_limit(max_bytes as nat),
            ),
            wanted >= 1,
        decreases found@.len() - returned,
    {
        let ghost seen = all.take(returned + 1);
        proof {
            assert(seen.drop_last() =~= all.take(returned as int));
            lemma_newline_fits(output@, max_bytes as int);
        }
        if returned > 0 {
            proof {
                reveal_strlit("\n");
                assert("\n"@ =~= seq!['\n']);
            }
            if !append_utf8_bounded(&mut output, "\n", max_bytes) {
                proof {
                    lemma_captured_stops(all, returned + 1, ansi, max_bytes as int);
                }
                return CaptureResult { text: output, lines: returned, truncated: true };
            }
        }
        let ghost start_text = output@;
        let at: usize = found.len() - 1 - returned;
        let physical = &found[at];
        let ghost line = all[returned as int];
        proof {
            assert(end.found[at as int] == ints(physical@));
            assert(line.len() == physical@.len());
            assert forall|j: int| 0 <= j < physical@.len() implies #[trigger] physical@[j]
                < s.rows.len() by {
                assert(end.found[at as int][j] == physical@[j]);
            }
        }
        let mut k: usize = 0;
        let mut complete: bool = true;
        assert(line.take(0) =~= Seq::<Seq<CellView>>::empty());
        while k < physical.len() && complete
            invariant
                s == grid.screen(),
                s.wf(),
                k <= physical@.len(),
                line.len() == physical@.len(),
                forall|j: int|
                    0 <= j < line.len() ==> #[trigger] line[j] == s.rows[physical@[line.len() - 1
                        - j] as int],
                forall|j: int| 0 <= j < physical@.len() ==> #[trigger] physical@[j] < s.rows.len(),
                append_rows(start_text, line.take(k as int), ansi, max_bytes as int) == (
                    output@,
                    complete,
                ),
            decreases physical@.len() - k,
        {
            let index: usize = physical[physical.len() - 1 - k];
            let cells = grid.row(index);
            proof {
                assert(line.take(k + 1).drop_last() =~= line.take(k as int));
                assert(line.take(k + 1).last() == line[k as int]);
            }
            complete = append_grid_row(&cells, &mut output, ansi, max_bytes);
            k = k + 1;
        }
        proof {
            lemma_append_rows_stops(start_text, line, k as int, ansi, max_bytes as int);
        }
        returned = returned + 1;
        if !complete {
            proof {
                lemma_captured_stops(all, returned as int, ansi, max_bytes as int);
            }
            return CaptureResult { text: output, lines: returned, truncated: true };
        }
    }
    assert(all.take(returned as int) =~= all);
    CaptureResult { text: output, lines: returned, truncated: cut }
}

proof fn lemma_append_rows_stops(
    out: Seq<char>,
    rows: Seq<Seq<CellView>>,
    n: int,
    ansi: bool,
    max: int,
)
    requires
        0 <= n <= rows.len(),
        n == rows.len() || !append_rows(out, rows.take(n), ansi, max).1,
    ensures
        append_rows(out, rows, ansi, max) == append_rows(out, rows.take(n), ansi, max),
    decreases rows.len() - n,
{
    if n < rows.len() {
        assert(rows.take(n + 1).drop_last() =~= rows.take(n));
        lemma_append_rows_stops(out, rows, n + 1, ansi, max);
    } else {
        assert(rows.take(n) =~= rows);
    }
}

/// Captures text of the terminal in at most `max_bytes` bytes.
pub fn backend_capture<G: GridRows>(
    grid: &G,
    mode: CaptureMode,
    lines: usize,
    ansi: bool,
    max_bytes: usize,
) -> (result: CaptureResult)
    requires
        grid.screen().wf(),
    ensures
        (Captured {
            text: result.text@,
            lines: result.lines as nat,
            truncated: result.truncated,
        }) == capture(grid.screen(), mode, lines as nat, ansi, max_bytes as nat),
        text::utf8_len(result.text@) <= max_bytes,
        result.lines <= wanted_lines(lines as nat),
        safe_text(result.text@),
        !ansi || mode == CaptureMode::Detection ==> plain_text(result.text@),
{
    proof {
        law_capture_is_bounded(grid.screen(), mode, lines as nat, ansi, max_bytes as nat);
        law_capture_is_safe(grid.screen(), mode, lines as nat, ansi, max_bytes as nat);
    }
    let wanted: usize = if lines < 1 {
        1
    } else {
        lines
    };
    match mode {
        CaptureMode::Detection => capture_bottom(grid, wanted, false, max_bytes),
        CaptureMode::Visible => capture_bottom(grid, wanted, ansi, max_bytes),
        CaptureMode::RecentUnwrapped => capture_recent(grid, wanted, ansi, max_bytes),
    }
}

} // verus!
