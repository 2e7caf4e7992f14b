//! What captures hold: which rows, in which order, and how they are joined.
use vstd::prelude::*;

use crate::terminal::capture;
use crate::terminal::capture::{CaptureMode, Captured, Search};
use crate::terminal::cell::CellView;
use crate::terminal::row;
use crate::terminal::screen;
use crate::terminal::screen::Screen;
use crate::text;

verus! {

/// What a row reads, with its styles or without.
pub open spec fn piece(r: Seq<CellView>, ansi: bool) -> Seq<char> {
    if ansi {
        row::row_styled(r)
    } else {
        row::row_plain(r)
    }
}

/// Whether the text of the row is joined with the next one: it goes on there, and
/// wrapped rows are joined.
pub open spec fn goes_on(rows: Seq<Seq<CellView>>, at: int, unwrap: bool) -> bool {
    unwrap && row::row_wraps(rows[at])
}

/// What stands between a row and the one above it: nothing where the text goes on,
/// else a line break.
pub open spec fn break_above(rows: Seq<Seq<CellView>>, at: int, unwrap: bool) -> Seq<char> {
    if goes_on(rows, at - 1, unwrap) {
        Seq::<char>::empty()
    } else {
        seq!['\n']
    }
}

/// The rows from `from` up to but not `to`, from the top down.
pub open spec fn joined(
    rows: Seq<Seq<CellView>>,
    from: int,
    to: int,
    unwrap: bool,
    ansi: bool,
) -> Seq<char>
    decreases to - from,
{
    if to <= from {
        Seq::<char>::empty()
    } else if to == from + 1 {
        piece(rows[from], ansi)
    } else {
        joined(rows, from, to - 1, unwrap, ansi) + (break_above(rows, to - 1, unwrap) + piece(
            rows[to - 1],
            ansi,
        ))
    }
}

/// Whether a line starts with the row: it is the oldest, or the row above it does
/// not go on.
pub open spec fn starts_line(rows: Seq<Seq<CellView>>, at: int) -> bool {
    at == 0 || !row::row_wraps(rows[at - 1])
}

/// How many lines start in the rows from `from` up to but not `to`.
pub open spec fn lines_in(rows: Seq<Seq<CellView>>, from: int, to: int) -> nat
    decreases to - from,
{
    if to <= from {
        0
    } else {
        lines_in(rows, from + 1, to) + if starts_line(rows, from) {
            1nat
        } else {
            0nat
        }
    }
}

// ---------------------------------------------------------------------------
// Captured lines
// ---------------------------------------------------------------------------

/// Whether the line is the rows between two cuts, and breaks where the rows do.
spec fn is_line(
    rows: Seq<Seq<CellView>>,
    line: Seq<Seq<CellView>>,
    lo: int,
    hi: int,
    unwrap: bool,
) -> bool {
    &&& 0 <= lo < hi <= rows.len()
    &&& line == rows.subrange(lo, hi)
    &&& forall|j: int| lo <= j < hi - 1 ==> #[trigger] goes_on(rows, j, unwrap)
}

spec fn is_line_at(
    rows: Seq<Seq<CellView>>,
    lines: Seq<Seq<Seq<CellView>>>,
    cuts: Seq<int>,
    unwrap: bool,
    i: int,
) -> bool {
    &&& is_line(rows, lines[i], cuts[i], cuts[i + 1], unwrap)
    &&& i > 0 ==> !goes_on(rows, cuts[i] - 1, unwrap)
}

/// Whether the lines are the rows between the cuts, and break where the rows do.
spec fn is_cut(
    rows: Seq<Seq<CellView>>,
    lines: Seq<Seq<Seq<CellView>>>,
    cuts: Seq<int>,
    unwrap: bool,
) -> bool {
    &&& cuts.len() == lines.len() + 1
    &&& forall|i: int| 0 <= i < lines.len() ==> #[trigger] is_line_at(rows, lines, cuts, unwrap, i)
}

proof fn lemma_append_row(out: Seq<char>, r: Seq<CellView>, ansi: bool, max: int)
    ensures
        capture::append_row(out, r, ansi, max).1 ==> capture::append_row(out, r, ansi, max).0
            == out + piece(r, ansi),
        !ansi ==> capture::append_row(out, r, ansi, max).0.is_prefix_of(out + piece(r, ansi)),
        text::utf8_len(out + piece(r, ansi)) + (if ansi {
            4int
        } else {
            0
        }) <= max ==> capture::append_row(out, r, ansi, max).1,
{
    text::lemma_utf8_len_add(out, piece(r, ansi));
    row::lemma_row_ansi_complete(out, r, max);
    row::lemma_fitted_prefix(out, row::row_plain(r), max);
}

proof fn lemma_prefix(a: Seq<char>, b: Seq<char>, c: Seq<char>)
    requires
        a.is_prefix_of(b),
    ensures
        a.is_prefix_of(b + c),
{
    assert((b + c).subrange(0, a.len() as int) =~= b.subrange(0, a.len() as int));
}

/// The rows of one line, one after another.
spec fn run(rows: Seq<Seq<CellView>>, ansi: bool) -> Seq<char>
    decreases rows.len(),
{
    if rows.len() == 0 {
        Seq::<char>::empty()
    } else {
        run(rows.drop_last(), ansi) + piece(rows.last(), ansi)
    }
}

proof fn lemma_append_rows(out: Seq<char>, rows: Seq<Seq<CellView>>, ansi: bool, max: int)
    ensures
        capture::append_rows(out, rows, ansi, max).1 ==> capture::append_rows(
            out,
            rows,
            ansi,
            max,
        ).0 == out + run(rows, ansi),
        !ansi ==> capture::append_rows(out, rows, ansi, max).0.is_prefix_of(out + run(rows, ansi)),
        text::utf8_len(out + run(rows, ansi)) + (if ansi {
            4int
        } else {
            0
        }) <= max ==> capture::append_rows(out, rows, ansi, max).1,
    decreases rows.len(),
{
    if rows.len() == 0 {
        assert(out + run(rows, ansi) =~= out);
        assert(out.subrange(0, out.len() as int) =~= out);
    } else {
        let front = rows.drop_last();
        lemma_append_rows(out, front, ansi, max);
        let before = capture::append_rows(out, front, ansi, max);
        let so_far = out + run(front, ansi);
        let last = piece(rows.last(), ansi);
        assert(out + run(rows, ansi) =~= so_far + last);
        text::lemma_utf8_len_add(so_far, last);
        lemma_append_row(before.0, rows.last(), ansi, max);
        if !ansi {
            lemma_prefix(before.0, so_far, last);
        }
    }
}

/// A line reads as its rows joined.
proof fn lemma_joined_line(
    rows: Seq<Seq<CellView>>,
    from: int,
    lo: int,
    hi: int,
    unwrap: bool,
    ansi: bool,
)
    requires
        0 <= from <= lo < hi <= rows.len(),
        forall|j: int| lo <= j < hi - 1 ==> #[trigger] goes_on(rows, j, unwrap),
    ensures
        joined(rows, from, hi, unwrap, ansi) == (if lo == from {
            run(rows.subrange(lo, hi), ansi)
        } else {
            joined(rows, from, lo, unwrap, ansi) + break_above(rows, lo, unwrap) + run(
                rows.subrange(lo, hi),
                ansi,
            )
        }),
    decreases hi - lo,
{
    let line = rows.subrange(lo, hi);
    assert(line.drop_last() =~= rows.subrange(lo, hi - 1));
    assert(line.last() == rows[hi - 1]);
    let last = piece(rows[hi - 1], ansi);
    if hi == lo + 1 {
        assert(run(line.drop_last(), ansi) =~= Seq::<char>::empty());
        assert(run(line, ansi) =~= last);
        if lo > from {
            let a = joined(rows, from, lo, unwrap, ansi);
            let b = break_above(rows, lo, unwrap);
            assert(a + (b + last) =~= a + b + last);
        }
    } else {
        lemma_joined_line(rows, from, lo, hi - 1, unwrap, ansi);
        assert(goes_on(rows, hi - 2, unwrap));
        let a = joined(rows, from, hi - 1, unwrap, ansi);
        assert(break_above(rows, hi - 1, unwrap) + last =~= last);
        assert(joined(rows, from, hi, unwrap, ansi) == a + last);
        if lo > from {
            let x = joined(rows, from, lo, unwrap, ansi) + break_above(rows, lo, unwrap);
            let y = run(rows.subrange(lo, hi - 1), ansi);
            assert(x + y + last =~= x + (y + last));
        }
    }
}

/// What a capture of the lines holds.
spec fn holds(
    c: Captured,
    rows: Seq<Seq<CellView>>,
    from: int,
    to: int,
    unwrap: bool,
    ansi: bool,
    count: nat,
    max: int,
) -> bool {
    let whole = joined(rows, from, to, unwrap, ansi);
    &&& !c.truncated ==> c.text == whole && c.lines == count
    &&& !ansi ==> c.text.is_prefix_of(whole)
    &&& text::utf8_len(whole) + (if ansi {
        4int
    } else {
        0
    }) <= max ==> !c.truncated
}

proof fn lemma_captured_step(
    before: Captured,
    rows: Seq<Seq<CellView>>,
    line: Seq<Seq<CellView>>,
    from: int,
    lo: int,
    hi: int,
    unwrap: bool,
    ansi: bool,
    count: nat,
    max: int,
)
    requires
        holds(before, rows, from, lo, unwrap, ansi, count, max),
        is_line(rows, line, lo, hi, unwrap),
        0 <= from <= lo,
        lo == from <==> count == 0,
        count == 0 ==> before == (Captured {
            text: Seq::<char>::empty(),
            lines: 0,
            truncated: false,
        }),
        count > 0 ==> !goes_on(rows, lo - 1, unwrap),
    ensures
        ({
            let start = if before.lines > 0 {
                before.text.push('\n')
            } else {
                before.text
            };
            let end = capture::append_rows(start, line, ansi, max);
            let after = if before.truncated {
                before
            } else if before.lines > 0 && !row::bounded(before.text, seq!['\n'], max).1 {
                Captured { truncated: true, ..before }
            } else {
                Captured { text: end.0, lines: before.lines + 1, truncated: !end.1 }
            };
            holds(after, rows, from, hi, unwrap, ansi, count + 1, max)
        }),
{
    lemma_joined_line(rows, from, lo, hi, unwrap, ansi);
    let so_far = joined(rows, from, lo, unwrap, ansi);
    let whole = joined(rows, from, hi, unwrap, ansi);
    let text = run(line, ansi);
    if count == 0 {
        assert(Seq::<char>::empty() + text =~= text);
        lemma_append_rows(before.text, line, ansi, max);
    } else {
        let gap = seq!['\n'];
        assert(whole == so_far + gap + text);
        text::lemma_utf8_len_add(so_far + gap, text);
        assert(so_far + gap =~= so_far.push('\n'));
        text::lemma_utf8_len_push(so_far, '\n');
        if !ansi {
            lemma_prefix(before.text, so_far, gap + text);
            assert(so_far + (gap + text) =~= whole);
        }
        if !before.truncated {
            capture::lemma_newline_fits(before.text, max);
            lemma_append_rows(before.text.push('\n'), line, ansi, max);
        }
    }
}

proof fn lemma_captured(
    rows: Seq<Seq<CellView>>,
    lines: Seq<Seq<Seq<CellView>>>,
    cuts: Seq<int>,
    unwrap: bool,
    ansi: bool,
    max: int,
)
    requires
        is_cut(rows, lines, cuts, unwrap),
        0 <= cuts[0],
    ensures
        holds(
            capture::capture_lines(lines, ansi, max),
            rows,
            cuts[0],
            cuts.last(),
            unwrap,
            ansi,
            lines.len(),
            max,
        ),
    decreases lines.len(),
{
    let c = capture::capture_lines(lines, ansi, max);
    if lines.len() == 0 {
        assert(c.text.subrange(0, 0) =~= c.text);
    } else {
        let n = lines.len() - 1;
        let front = lines.drop_last();
        let short = cuts.drop_last();
        assert forall|i: int| 0 <= i < front.len() implies #[trigger] is_line_at(
            rows,
            front,
            short,
            unwrap,
            i,
        ) by {
            assert(is_line_at(rows, lines, cuts, unwrap, i));
        }
        lemma_captured(rows, front, short, unwrap, ansi, max);
        assert(is_line_at(rows, lines, cuts, unwrap, n));
        lemma_cuts_grow(rows, lines, cuts, unwrap, n);
        lemma_capture_count(front, ansi, max);
        let before = capture::capture_lines(front, ansi, max);
        if n == 0 {
            assert(front =~= Seq::<Seq<Seq<CellView>>>::empty());
        }
        assert(short.last() == cuts[n]);
        assert(short[0] == cuts[0]);
        assert(lines.last() == lines[n]);
        lemma_captured_step(
            before,
            rows,
            lines[n],
            cuts[0],
            cuts[n],
            cuts[n + 1],
            unwrap,
            ansi,
            n as nat,
            max,
        );
    }
}

proof fn lemma_capture_count(lines: Seq<Seq<Seq<CellView>>>, ansi: bool, max: int)
    ensures
        lines.len() > 0 ==> capture::capture_lines(lines, ansi, max).truncated
            || capture::capture_lines(lines, ansi, max).lines > 0,
        lines.len() == 0 ==> capture::capture_lines(lines, ansi, max).lines == 0,
    decreases lines.len(),
{
    if lines.len() > 0 {
        lemma_capture_count(lines.drop_last(), ansi, max);
    }
}

proof fn lemma_cuts_grow(
    rows: Seq<Seq<CellView>>,
    lines: Seq<Seq<Seq<CellView>>>,
    cuts: Seq<int>,
    unwrap: bool,
    n: int,
)
    requires
        is_cut(rows, lines, cuts, unwrap),
        0 <= n <= lines.len(),
    ensures
        cuts[0] + n <= cuts[n],
    decreases n,
{
    if n > 0 {
        lemma_cuts_grow(rows, lines, cuts, unwrap, n - 1);
        assert(is_line_at(rows, lines, cuts, unwrap, n - 1));
    }
}

// ---------------------------------------------------------------------------
// The search for the last lines
// ---------------------------------------------------------------------------

/// Below which row the line `i` ends, counted from the newest line up.
spec fn end_of(n: int, found: Seq<Seq<int>>, i: int) -> int
    decreases i,
{
    if i <= 0 {
        n
    } else {
        end_of(n, found, i - 1) - found[i - 1].len()
    }
}

proof fn lemma_end_of_push(n: int, found: Seq<Seq<int>>, f: Seq<int>, i: int)
    requires
        0 <= i <= found.len(),
    ensures
        end_of(n, found.push(f), i) == end_of(n, found, i),
    decreases i,
{
    if i > 0 {
        lemma_end_of_push(n, found, f, i - 1);
        assert(found.push(f)[i - 1] == found[i - 1]);
    }
}

/// Whether the numbers are those of the rows of one line, from the row above `hi`
/// up.
spec fn counts_up(rows: Seq<Seq<CellView>>, f: Seq<int>, hi: int) -> bool {
    &&& f.len() <= hi <= rows.len()
    &&& forall|k: int| 0 <= k < f.len() ==> #[trigger] f[k] == hi - 1 - k
    &&& forall|j: int| hi - f.len() <= j < hi - 1 ==> #[trigger] goes_on(rows, j, true)
}

spec fn is_found_at(rows: Seq<Seq<CellView>>, found: Seq<Seq<int>>, i: int) -> bool {
    &&& found[i].len() > 0
    &&& counts_up(rows, found[i], end_of(rows.len() as int, found, i))
    &&& i > 0 ==> !goes_on(rows, end_of(rows.len() as int, found, i) - 1, true)
}

/// Whether the lines found are one above the other, up from the newest row.
spec fn are_found(rows: Seq<Seq<CellView>>, found: Seq<Seq<int>>) -> bool {
    forall|i: int| 0 <= i < found.len() ==> #[trigger] is_found_at(rows, found, i)
}

proof fn lemma_found_push(rows: Seq<Seq<CellView>>, found: Seq<Seq<int>>, f: Seq<int>)
    requires
        are_found(rows, found),
        f.len() > 0,
        counts_up(rows, f, end_of(rows.len() as int, found, found.len() as int)),
        found.len() > 0 ==> !goes_on(
            rows,
            end_of(rows.len() as int, found, found.len() as int) - 1,
            true,
        ),
    ensures
        are_found(rows, found.push(f)),
        end_of(rows.len() as int, found.push(f), found.len() as int + 1) == end_of(
            rows.len() as int,
            found,
            found.len() as int,
        ) - f.len(),
{
    let all = found.push(f);
    let n = rows.len() as int;
    assert forall|i: int| 0 <= i < all.len() implies #[trigger] is_found_at(rows, all, i) by {
        lemma_end_of_push(n, found, f, i);
        if i < found.len() {
            assert(is_found_at(rows, found, i));
            assert(all[i] == found[i]);
        }
    }
    lemma_end_of_push(n, found, f, found.len() as int);
    assert(all[found.len() as int] == f);
}

/// The bytes of the rows.
spec fn bytes_in(rows: Seq<Seq<CellView>>, from: int, to: int) -> nat
    decreases to - from,
{
    if to <= from {
        0
    } else {
        bytes_in(rows, from + 1, to) + text::utf8_len(row::row_plain(rows[from]))
    }
}

/// What is known of the search after it has read the newest `n` rows.
spec fn is_searched(rows: Seq<Seq<CellView>>, n: nat, wanted: nat, s: Search) -> bool {
    let total = rows.len() as int;
    let hi = end_of(total, s.found, s.found.len() as int);
    let lo = total - n;
    &&& are_found(rows, s.found)
    &&& s.done ==> s.found.len() > 0
    &&& !s.done ==> {
        &&& counts_up(rows, s.current, hi)
        &&& hi - s.current.len() == lo
        &&& n > 0 ==> (s.current.len() == 0 <==> starts_line(rows, lo))
        &&& s.found.len() > 0 ==> starts_line(rows, hi)
        &&& s.found.len() == lines_in(rows, lo, total)
        &&& s.bytes == bytes_in(rows, lo, total)
        &&& s.read == n
        &&& !s.truncated
    }
    &&& s.done && !s.truncated ==> {
        &&& 0 <= hi < total
        &&& starts_line(rows, hi)
        &&& s.found.len() == wanted
        &&& lines_in(rows, hi, total) == wanted
    }
}

proof fn lemma_searched(rows: Seq<Seq<CellView>>, n: nat, wanted: nat, max: nat, max_rows: nat)
    requires
        n <= rows.len(),
        wanted >= 1,
    ensures
        is_searched(
            rows,
            n,
            wanted,
            capture::search(rows, n, wanted, max, max_rows),
        ),
        capture::search(rows, n, wanted, max, max_rows).found.len() <= wanted,
        !capture::search(rows, n, wanted, max, max_rows).done ==> capture::search(
            rows,
            n,
            wanted,
            max,
            max_rows,
        ).found.len() < wanted,
    decreases n,
{
    let total = rows.len() as int;
    if n > 0 {
        lemma_searched(rows, (n - 1) as nat, wanted, max, max_rows);
        let b = capture::search(rows, (n - 1) as nat, wanted, max, max_rows);
        let s = capture::search(rows, n, wanted, max, max_rows);
        if !b.done {
            let index = total - n;
            let hi = end_of(total, b.found, b.found.len() as int);
            if b.found.len() > 0 && hi > 0 {
                assert(!goes_on(rows, hi - 1, true));
            }
            if b.current.len() == 0 && b.found.len() == 0 {
                assert(n - 1 == 0);
            }
            let read = b.current.push(index);
            assert(hi - b.current.len() == index + 1);
            if n > 1 && b.current.len() > 0 {
                assert(!starts_line(rows, index + 1));
                assert(goes_on(rows, index, true));
            }
            assert(counts_up(rows, read, hi)) by {
                assert forall|k: int| 0 <= k < read.len() implies #[trigger] read[k] == hi - 1
                    - k by {
                    if k < b.current.len() {
                        assert(read[k] == b.current[k]);
                    }
                }
                assert forall|j: int| hi - read.len() <= j < hi - 1 implies #[trigger] goes_on(
                    rows,
                    j,
                    true,
                ) by {
                }
            }
            if s.truncated {
                let line = if b.current.len() == 0 {
                    seq![index]
                } else {
                    b.current
                };
                if b.current.len() == 0 {
                    assert(read =~= seq![index]);
                }
                lemma_found_push(rows, b.found, line);
            } else if starts_line(rows, index) {
                lemma_found_push(rows, b.found, read);
            }
        }
    }
}

proof fn lemma_lines_in_more(rows: Seq<Seq<CellView>>, a: int, b: int, to: int)
    requires
        a <= b,
    ensures
        lines_in(rows, a, to) >= lines_in(rows, b, to),
        a < b && a < to && starts_line(rows, a) ==> lines_in(rows, a, to) > lines_in(rows, b, to),
    decreases b - a,
{
    if a < b {
        lemma_lines_in_more(rows, a + 1, b, to);
    }
}

proof fn lemma_bytes_in_more(rows: Seq<Seq<CellView>>, a: int, b: int, to: int)
    requires
        a <= b,
    ensures
        bytes_in(rows, a, to) >= bytes_in(rows, b, to),
    decreases b - a,
{
    if a < b {
        lemma_bytes_in_more(rows, a + 1, b, to);
    }
}

proof fn lemma_bytes_in_last(rows: Seq<Seq<CellView>>, from: int, to: int)
    requires
        from < to,
    ensures
        bytes_in(rows, from, to) == bytes_in(rows, from, to - 1) + text::utf8_len(
            row::row_plain(rows[to - 1]),
        ),
    decreases to - from,
{
    reveal_with_fuel(bytes_in, 2);
    if from + 1 < to {
        lemma_bytes_in_last(rows, from + 1, to);
    }
}

/// The rows are no longer than they are joined.
proof fn lemma_joined_bytes(rows: Seq<Seq<CellView>>, from: int, to: int)
    requires
        from <= to,
    ensures
        bytes_in(rows, from, to) <= text::utf8_len(joined(rows, from, to, true, false)),
    decreases to - from,
{
    if from < to {
        lemma_joined_bytes(rows, from, to - 1);
        lemma_bytes_in_last(rows, from, to);
        if to > from + 1 {
            let a = joined(rows, from, to - 1, true, false);
            let b = break_above(rows, to - 1, true);
            let last = row::row_plain(rows[to - 1]);
            text::lemma_utf8_len_add(a, b + last);
            text::lemma_utf8_len_add(b, last);
        }
    }
}

/// Whether the last lines are those from the row on: it starts a line, and there
/// are as many lines from there on as are wanted, or no more above it.
pub open spec fn are_last_lines(rows: Seq<Seq<CellView>>, from: int, wanted: nat) -> bool {
    &&& 0 <= from < rows.len()
    &&& starts_line(rows, from)
    &&& lines_in(rows, from, rows.len() as int) == wanted || from == 0 && lines_in(
        rows,
        from,
        rows.len() as int,
    ) <= wanted
}

proof fn lemma_search_uncut(
    rows: Seq<Seq<CellView>>,
    n: nat,
    wanted: nat,
    max: nat,
    max_rows: nat,
    from: int,
)
    requires
        n <= rows.len(),
        wanted >= 1,
        are_last_lines(rows, from, wanted),
        bytes_in(rows, from, rows.len() as int) <= max,
        rows.len() - from <= max_rows,
    ensures
        !capture::search(rows, n, wanted, max, max_rows).truncated,
    decreases n,
{
    if n > 0 {
        let total = rows.len() as int;
        lemma_search_uncut(rows, (n - 1) as nat, wanted, max, max_rows, from);
        lemma_searched(rows, (n - 1) as nat, wanted, max, max_rows);
        let b = capture::search(rows, (n - 1) as nat, wanted, max, max_rows);
        if !b.done {
            let index = total - n;
            if index >= from {
                lemma_bytes_in_more(rows, from, index, total);
                let t = row::row_plain(rows[index]);
                text::lemma_fitting(t, max - b.bytes - text::utf8_len(Seq::<char>::empty()));
            } else {
                lemma_lines_in_more(rows, index + 1, from, total);
            }
        }
    }
}

proof fn lemma_found_are_cut(rows: Seq<Seq<CellView>>, found: Seq<Seq<int>>) -> (cuts: Seq<int>)
    requires
        are_found(rows, found),
    ensures
        is_cut(rows, capture::found_lines(rows, found), cuts, true),
        cuts[0] == end_of(rows.len() as int, found, found.len() as int),
        cuts.last() == rows.len(),
{
    let total = rows.len() as int;
    let count = found.len() as int;
    let lines = capture::found_lines(rows, found);
    let cuts = Seq::new((count + 1) as nat, |i: int| end_of(total, found, count - i));
    assert forall|i: int| 0 <= i < lines.len() implies #[trigger] is_line_at(
        rows,
        lines,
        cuts,
        true,
        i,
    ) by {
        let k = count - 1 - i;
        assert(is_found_at(rows, found, k));
        let hi = end_of(total, found, k);
        let lo = hi - found[k].len();
        assert(cuts[i] == end_of(total, found, k + 1));
        assert(cuts[i] == lo && cuts[i + 1] == hi);
        assert(lines[i] =~= rows.subrange(lo, hi)) by {
            let line = found[k];
            assert(lines[i].len() == line.len());
            assert forall|m: int| 0 <= m < line.len() implies lines[i][m] == rows.subrange(
                lo,
                hi,
            )[m] by {
                assert(line[line.len() - 1 - m] == lo + m);
            }
        }
        if i > 0 {
            assert(is_found_at(rows, found, k + 1));
        }
    }
    cuts
}

// ---------------------------------------------------------------------------
// Laws
// ---------------------------------------------------------------------------

/// Whether the capture holds the rows from `from` on, from the top down: as far as
/// it goes, and all of them where nothing is left out. Then it starts with a line,
/// and has as many as are wanted, or all there are.
pub open spec fn is_recent(
    c: Captured,
    rows: Seq<Seq<CellView>>,
    from: int,
    wanted: nat,
    ansi: bool,
) -> bool {
    let to = rows.len() as int;
    &&& 0 <= from < to
    &&& !ansi ==> c.text.is_prefix_of(joined(rows, from, to, true, false))
    &&& !c.truncated ==> {
        &&& c.text == joined(rows, from, to, true, ansi)
        &&& c.lines == lines_in(rows, from, to)
        &&& are_last_lines(rows, from, wanted)
    }
}

proof fn lemma_recent(s: Screen, lines: nat, ansi: bool, max: nat) -> (from: int)
    requires
        s.wf(),
    ensures
        is_recent(
            capture::capture(s, CaptureMode::RecentUnwrapped, lines, ansi, max),
            s.rows,
            from,
            capture::wanted_lines(lines),
            ansi,
        ),
        ({
            let wanted = capture::wanted_lines(lines);
            let end = capture::search(
                s.rows,
                s.rows.len(),
                wanted,
                max,
                capture::row_limit(max),
            );
            let c = capture::capture_lines(
                capture::found_lines(s.rows, end.found),
                ansi,
                max as int,
            );
            &&& holds(
                c,
                s.rows,
                from,
                s.rows.len() as int,
                true,
                ansi,
                end.found.len(),
                max as int,
            )
            &&& !end.truncated ==> are_last_lines(s.rows, from, wanted)
        }),
{
    let rows = s.rows;
    let total = rows.len() as int;
    let wanted = capture::wanted_lines(lines);
    let end = capture::search(rows, rows.len(), wanted, max, capture::row_limit(max));
    lemma_searched(rows, rows.len(), wanted, max, capture::row_limit(max));
    let found = end.found;
    let cuts = lemma_found_are_cut(rows, found);
    let from = cuts[0];
    if !end.done {
        assert(starts_line(rows, 0));
        assert(end.current.len() == 0);
        assert(from == 0);
    }
    assert(found.len() > 0) by {
        if found.len() == 0 {
            assert(lines_in(rows, 0, total) == 0);
            assert(starts_line(rows, 0));
        }
    }
    let all = capture::found_lines(rows, found);
    assert(is_line_at(rows, all, cuts, true, 0));
    lemma_cuts_grow(rows, all, cuts, true, all.len() as int);
    lemma_captured(rows, all, cuts, true, ansi, max as int);
    from
}

/// A capture of the last lines holds the newest rows, from the top down: the rows
/// of an earlier line stand above those of a later one, and no row is missing in
/// between or below. Wrapped rows are joined, and every other row ends its line.
/// Where nothing is left out, these are the lines asked for, or all there are.
pub proof fn law_recent_captures_hold_the_newest_rows(
    s: Screen,
    lines: nat,
    ansi: bool,
    max: nat,
)
    requires
        s.wf(),
        lines >= 1,
    ensures
        exists|from: int| #[trigger]
            is_recent(
                capture::capture(s, CaptureMode::RecentUnwrapped, lines, ansi, max),
                s.rows,
                from,
                lines,
                ansi,
            ),
{
    let from = lemma_recent(s, lines, ansi, max);
}

/// The last lines are captured whole wherever they fit into the limit. The limit
/// also bounds how many rows are read: one for every eight bytes is never too many.
pub proof fn law_recent_captures_are_whole_where_they_fit(
    s: Screen,
    lines: nat,
    ansi: bool,
    max: nat,
    from: int,
)
    requires
        s.wf(),
        lines >= 1,
        are_last_lines(s.rows, from, lines),
        (s.rows.len() - from) * 8 <= max || s.rows.len() - from == 1,
        text::utf8_len(joined(s.rows, from, s.rows.len() as int, true, false)) <= max,
        ansi ==> text::utf8_len(joined(s.rows, from, s.rows.len() as int, true, true)) + 4 <= max,
    ensures
        ({
            let to = s.rows.len() as int;
            let c = capture::capture(s, CaptureMode::RecentUnwrapped, lines, ansi, max);
            &&& c.text == joined(s.rows, from, to, true, ansi)
            &&& c.lines == lines_in(s.rows, from, to)
            &&& !c.truncated
        }),
{
    let rows = s.rows;
    let total = rows.len() as int;
    lemma_joined_bytes(rows, from, total);
    assert(rows.len() - from <= capture::row_limit(max)) by {
        broadcast use vstd::layout::layout_of_primitives;

        let word = vstd::layout::size_of::<usize>();
        assert(word == 4 || word == 8);
        let n = rows.len() - from;
        if n > 1 {
            assert(n <= max / word) by (nonlinear_arith)
                requires
                    n * 8 <= max,
                    word == 4 || word == 8,
                    n >= 0,
            ;
        }
    }
    lemma_search_uncut(rows, rows.len(), lines, max, capture::row_limit(max), from);
    let first = lemma_recent(s, lines, ansi, max);
    assert(are_last_lines(rows, first, lines));
    if first < from {
        lemma_lines_in_more(rows, first, from, total);
    } else if from < first {
        lemma_lines_in_more(rows, from, first, total);
    }
}

/// The rows of the screen are captured from the top down, each on a line of its
/// own: as far as the limit goes, and all of the last ones asked for where they
/// fit. For detection they are never styled.
pub proof fn law_screen_captures_hold_the_last_rows(
    s: Screen,
    mode: CaptureMode,
    lines: nat,
    ansi: bool,
    max: nat,
)
    requires
        s.wf(),
        lines >= 1,
        mode == CaptureMode::Visible || mode == CaptureMode::Detection,
    ensures
        ({
            let to = s.rows.len() as int;
            let from = if lines < s.lines {
                to - lines
            } else {
                to - s.lines
            };
            let styled = ansi && mode == CaptureMode::Visible;
            let whole = joined(s.rows, from, to, false, styled);
            let c = capture::capture(s, mode, lines, ansi, max);
            &&& !styled ==> c.text.is_prefix_of(whole)
            &&& !c.truncated ==> c.text == whole && c.lines == to - from
            &&& text::utf8_len(whole) + (if styled {
                4int
            } else {
                0
            }) <= max ==> !c.truncated
        }),
{
    let rows = s.rows;
    let to = rows.len() as int;
    let from = if lines < s.lines {
        to - lines
    } else {
        to - s.lines
    };
    let styled = ansi && mode == CaptureMode::Visible;
    let all = capture::single_rows(screen::bottom_rows(s, lines));
    assert(screen::bottom_rows(s, lines) =~= rows.skip(from));
    let cuts = Seq::new((to - from + 1) as nat, |i: int| from + i);
    assert forall|i: int| 0 <= i < all.len() implies #[trigger] is_line_at(
        rows,
        all,
        cuts,
        false,
        i,
    ) by {
        assert(all[i] =~= rows.subrange(from + i, from + i + 1));
    }
    lemma_captured(rows, all, cuts, false, styled, max as int);
}

} // verus!
