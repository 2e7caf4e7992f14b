//! Where an agent's prompt is being written.
use vstd::prelude::*;

use crate::terminal::cell;
use crate::terminal::cell::{Cell, CellView};
use crate::terminal::screen::{GridRows, Screen};

verus! {

/// The rows of a prompt, from the blank row above it to the blank row below.
#[derive(Clone, Copy, Debug, PartialEq, Eq, Structural)]
pub struct CodexComposerRegion {
    pub top: u16,
    pub bottom: u16,
}

/// Whether the row holds nothing but blanks.
pub open spec fn blank_row(r: Seq<CellView>) -> bool {
    forall|col: int| 0 <= col < r.len() ==> (#[trigger] r[col]).c == '\0' || r[col].c == ' '
}

/// Whether one of the first three columns holds the prompt mark.
pub open spec fn prompt_row(r: Seq<CellView>) -> bool {
    exists|col: int| 0 <= col < r.len() && col < 3 && (#[trigger] r[col]).c == '\u{203a}'
}

/// The line of the cursor, counted from the top of the live screen.
pub open spec fn cursor_row(s: Screen) -> int {
    if s.cursor.1 < 0 {
        0
    } else {
        s.cursor.1
    }
}

/// Whether the rows from `top` to `bottom` of the live screen hold the prompt
/// that is being written: the nearest prompt mark at or up to eight rows above
/// the cursor, a blank row directly above it, no blank row from there to the
/// cursor, and the nearest blank row at most eight rows below the cursor. A view
/// that is scrolled back shows none, and neither does a tiny screen.
pub open spec fn composer_at(s: Screen, top: int, bottom: int) -> bool {
    let cursor = cursor_row(s);
    &&& s.offset == 0 && s.lines >= 3 && s.columns >= 4 && cursor < s.lines
    &&& 0 <= top < cursor && cursor - 8 <= top + 1
    &&& prompt_row(s.live(top + 1))
    &&& forall|r: int| top + 1 < r <= cursor ==> !prompt_row(#[trigger] s.live(r))
    &&& blank_row(s.live(top))
    &&& forall|r: int| top + 1 <= r <= cursor ==> !blank_row(#[trigger] s.live(r))
    &&& cursor < bottom < s.lines && bottom <= cursor + 8
    &&& blank_row(s.live(bottom))
    &&& forall|r: int| cursor < r < bottom ==> !blank_row(#[trigger] s.live(r))
}

fn row_is_blank(r: &Vec<Cell>) -> (b: bool)
    ensures
        b == blank_row(cell::row_view(r@)),
{
    let ghost v = cell::row_view(r@);
    let mut col: usize = 0;
    while col < r.len()
        invariant
            v == cell::row_view(r@),
            col <= r@.len(),
            forall|k: int| 0 <= k < col ==> (#[trigger] v[k]).c == '\0' || v[k].c == ' ',
        decreases r@.len() - col,
    {
        let c: char = r[col].c;
        assert(v[col as int].c == c);
        if !(c == '\0' || c == ' ') {
            return false;
        }
        col = col + 1;
    }
    true
}

fn row_has_prompt(r: &Vec<Cell>) -> (b: bool)
    ensures
        b == prompt_row(cell::row_view(r@)),
{
    let ghost v = cell::row_view(r@);
    let mut col: usize = 0;
    while col < r.len() && col < 3
        invariant
            v == cell::row_view(r@),
            col <= r@.len(),
            forall|k: int| 0 <= k < col ==> (#[trigger] v[k]).c != '\u{203a}',
        decreases r@.len() - col,
    {
        let c: char = r[col].c;
        assert(v[col as int].c == c);
        if c == '\u{203a}' {
            return true;
        }
        col = col + 1;
    }
    false
}

/// The prompt that is being written, where there is one.
pub fn codex_composer_region<G: GridRows>(grid: &G) -> (region: Option<CodexComposerRegion>)
    requires
        grid.screen().wf(),
    ensures
        match region {
            Some(r) => composer_at(grid.screen(), r.top as int, r.bottom as int),
            None => forall|top: int, bottom: int| !composer_at(grid.screen(), top, bottom),
        },
{
    let ghost s = grid.screen();
    if grid.display_offset() != 0 {
        return None;
    }
    let rows: usize = grid.screen_lines();
    let cols: usize = grid.columns();
    let history: usize = grid.history_size();
    if rows < 3 || cols < 4 {
        return None;
    }
    let line: i32 = grid.cursor_line();
    let cursor: usize = if line < 0 {
        0
    } else {
        line as usize
    };
    if cursor >= rows {
        return None;
    }
    // The nearest prompt at or above the cursor.
    let floor: usize = if cursor < 8 {
        0
    } else {
        cursor - 8
    };
    let mut prompt: usize = cursor;
    let mut cells = grid.row(history + prompt);
    while !row_has_prompt(&cells)
        invariant
            s == grid.screen(),
            s.wf(),
            s.offset == 0,
            history == s.history(),
            cursor == cursor_row(s),
            floor <= prompt <= cursor < s.lines,
            floor == (if cursor < 8 {
                0
            } else {
                cursor - 8
            }),
            cell::row_view(cells@) == s.live(prompt as int),
            forall|r: int| prompt < r <= cursor ==> !prompt_row(#[trigger] s.live(r)),
        decreases prompt,
    {
        if prompt == floor {
            assert forall|top: int, bottom: int| !composer_at(s, top, bottom) by {
                if composer_at(s, top, bottom) {
                    assert(prompt_row(s.live(top + 1)));
                }
            }
            return None;
        }
        prompt = prompt - 1;
        cells = grid.row(history + prompt);
    }
    assert forall|top: int, bottom: int| composer_at(s, top, bottom) implies top + 1 == prompt by {
        if top + 1 < prompt {
            assert(prompt_row(s.live(prompt as int)));
        }
        if top + 1 > prompt {
            assert(prompt_row(s.live(top + 1)));
        }
    }
    if prompt == 0 {
        return None;
    }
    let top: usize = prompt - 1;
    let above = grid.row(history + top);
    if !row_is_blank(&above) {
        return None;
    }
    // No blank row from the prompt to the cursor.
    let mut r: usize = prompt;
    while r <= cursor
        invariant
            s == grid.screen(),
            s.wf(),
            history == s.history(),
            cursor == cursor_row(s),
            prompt <= r <= cursor + 1,
            cursor < s.lines,
            forall|k: int| prompt <= k < r ==> !blank_row(#[trigger] s.live(k)),
            forall|t: int, b: int| composer_at(s, t, b) ==> t + 1 == prompt,
        decreases cursor + 1 - r,
    {
        let cells = grid.row(history + r);
        if row_is_blank(&cells) {
            assert(blank_row(s.live(r as int)));
            return None;
        }
        r = r + 1;
    }
    // The nearest blank row below the cursor.
    let limit: usize = if cursor + 8 < rows - 1 {
        cursor + 8
    } else {
        rows - 1
    };
    let mut bottom: usize = cursor + 1;
    while bottom <= limit
        invariant
            s == grid.screen(),
            s.wf(),
            s.offset == 0,
            s.lines == rows,
            s.lines >= 3,
            s.columns >= 4,
            history == s.history(),
            cursor == cursor_row(s),
            cursor < rows,
            limit == (if cursor + 8 < rows - 1 {
                cursor + 8
            } else {
                rows - 1
            }),
            cursor < bottom <= limit + 1,
            top + 1 == prompt,
            prompt <= cursor,
            cursor - 8 <= prompt,
            prompt_row(s.live(prompt as int)),
            blank_row(s.live(top as int)),
            forall|k: int| prompt < k <= cursor ==> !prompt_row(#[trigger] s.live(k)),
            forall|k: int| prompt <= k <= cursor ==> !blank_row(#[trigger] s.live(k)),
            forall|k: int| cursor < k < bottom ==> !blank_row(#[trigger] s.live(k)),
            forall|t: int, b: int| composer_at(s, t, b) ==> t + 1 == prompt,
        decreases limit + 1 - bottom,
    {
        let cells = grid.row(history + bottom);
        if row_is_blank(&cells) {
            assert(blank_row(s.live(bottom as int)));
            assert(composer_at(s, top as int, bottom as int));
            return Some(CodexComposerRegion { top: top as u16, bottom: bottom as u16 });
        }
        bottom = bottom + 1;
    }
    assert forall|t: int, b: int| !composer_at(s, t, b) by {
        if composer_at(s, t, b) {
            assert(blank_row(s.live(b)));
        }
    }
    None
}

/// A screen has at most one prompt that is being written.
pub proof fn law_composer_region_is_unique(s: Screen, top: int, bottom: int, t: int, b: int)
    requires
        composer_at(s, top, bottom),
        composer_at(s, t, b),
    ensures
        top == t,
        bottom == b,
{
    assert(prompt_row(s.live(top + 1)));
    assert(prompt_row(s.live(t + 1)));
    assert(blank_row(s.live(bottom)));
    assert(blank_row(s.live(b)));
}

/// A prompt that is found holds the cursor between two blank rows, and starts with the
/// prompt mark.
pub proof fn law_prompts_hold_the_cursor(s: Screen, top: int, bottom: int)
    requires
        composer_at(s, top, bottom),
    ensures
        top < s.cursor.1 < bottom,
        blank_row(s.live(top)),
        blank_row(s.live(bottom)),
        prompt_row(s.live(top + 1)),
        forall|r: int| top < r < bottom ==> !blank_row(#[trigger] s.live(r)),
{
}

/// A prompt is found wherever the cursor is in one that is not too tall: up to eight
/// rows from the mark to the cursor, and up to eight from there to the blank row below.
pub proof fn law_prompts_are_found(s: Screen, top: int, bottom: int)
    requires
        s.offset == 0,
        s.lines >= 3,
        s.columns >= 4,
        0 <= top < s.cursor.1 < bottom < s.lines,
        s.cursor.1 - top <= 9,
        bottom - s.cursor.1 <= 8,
        blank_row(s.live(top)),
        blank_row(s.live(bottom)),
        forall|r: int| top < r < bottom ==> !blank_row(#[trigger] s.live(r)),
        forall|r: int| top < r <= s.cursor.1 ==> prompt_row(#[trigger] s.live(r)) == (r == top + 1),
    ensures
        composer_at(s, top, bottom),
{
}

} // verus!
