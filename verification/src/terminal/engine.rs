//! The terminal engine: a grid and a parser of the `alacritty_terminal` crate,
//! and what is read from them.
use vstd::prelude::*;
use vstd::string::*;

use std::sync::mpsc::Sender;
use std::sync::{Arc, Mutex};

use alacritty_terminal::event::{Event, EventListener};
use alacritty_terminal::grid::{Dimensions, Scroll};
use alacritty_terminal::index::{Column, Line, Point};
use alacritty_terminal::term::{Config, Term};
use alacritty_terminal::vte::ansi::{Color as VtColor, Processor};

use crate::terminal::capture;
use crate::terminal::capture::{CaptureMode, CaptureResult};
use crate::terminal::cell;
use crate::terminal::cell::{
    flag_set, Cell, CellColor, CellView, FLAG_LEADING_WIDE_CHAR_SPACER,
};
use crate::terminal::composer;
use crate::terminal::composer::CodexComposerRegion;
use crate::terminal::row;
use crate::terminal::row::{push_text, RetainedRowLayout};
use crate::terminal::screen;
use crate::terminal::screen::{DrawnCell, GridRows, Screen};
use crate::terminal::snapshot;
use crate::text;
use crate::text::trim_end_matches;

verus! {

// ---------------------------------------------------------------------------
// The outside types
// ---------------------------------------------------------------------------

/// `alacritty_terminal::term::Term`: a terminal with its grid. What the library
/// reads of it is [`screen_of`].
#[verifier::external_type_specification]
#[verifier::external_body]
#[verifier::reject_recursive_types(T)]
pub struct ExTerm<T>(Term<T>);

/// `alacritty_terminal::event::Event`: what a terminal asks of its owner.
#[verifier::external_type_specification]
#[verifier::external_body]
pub struct ExEvent(Event);

/// `std::sync::mpsc::Sender`: the way back to the child process.
#[verifier::external_type_specification]
#[verifier::external_body]
#[verifier::reject_recursive_types(T)]
pub struct ExSender<T>(std::sync::mpsc::Sender<T>);

/// `std::sync::Mutex`: guards the window title.
#[verifier::external_type_specification]
#[verifier::external_body]
#[verifier::reject_recursive_types(T)]
pub struct ExMutex<T: ?Sized>(std::sync::Mutex<T>);

/// The parser of `vte::ansi`, with what it keeps between two calls. (Its bound
/// by a trait of that crate keeps the type itself from being declared.)
#[verifier::external_body]
pub struct VtParser {
    inner: Processor,
}

/// Input for the child process.
#[derive(Debug)]
pub enum InputAction {
    Bytes(Vec<u8>),
}

type TitleSlot = Arc<Mutex<Option<String>>>;

/// Receives what the terminal asks for: replies go back to the child process,
/// the window title is kept.
pub struct EventProxy {
    tx: Sender<InputAction>,
    title: TitleSlot,
}

/// An event of the terminal, as far as the engine heeds it.
#[derive(Debug)]
pub enum VtEvent {
    PtyWrite(String),
    Title(String),
    ResetTitle,
    Other,
}

/// What an event leads to.
#[derive(Debug)]
pub enum Routed {
    /// Send these bytes to the child process.
    Reply(Vec<u8>),
    /// Keep this window title, or none.
    Title(Option<String>),
    /// Nothing.
    Ignored,
}

/// What the event is, as [`VtEvent`] tells it.
pub uninterp spec fn event_case(event: Event) -> VtEvent;

/// Tells the variants of `alacritty_terminal`'s `Event` apart and moves out the
/// text that three of them carry; every other variant is `Other`.
#[verifier::external_body]
fn read_event(event: Event) -> (e: VtEvent)
    ensures
        e == event_case(event),
{
    match event {
        Event::PtyWrite(text) => VtEvent::PtyWrite(text),
        Event::Title(title) => VtEvent::Title(title),
        Event::ResetTitle => VtEvent::ResetTitle,
        Event::MouseCursorDirty | Event::CursorBlinkingChange | Event::Wakeup => VtEvent::Other,
        Event::Bell | Event::Exit | Event::ChildExit(_) => VtEvent::Other,
        Event::ClipboardStore(_, _) | Event::ClipboardLoad(_, _) => VtEvent::Other,
        Event::ColorRequest(_, _) | Event::TextAreaSizeRequest(_) => VtEvent::Other,
    }
}

/// `Sender::send`: hands the bytes to the receiver, or drops them where it is
/// gone. Nothing is returned, so nothing is claimed.
#[verifier::external_body]
fn send_reply(tx: &Sender<InputAction>, bytes: Vec<u8>) {
    let _ = tx.send(InputAction::Bytes(bytes));
}

/// `Mutex::lock` for writing: replaces the title. Nothing is returned, so
/// nothing is claimed.
#[verifier::external_body]
fn store_title(slot: &Arc<Mutex<Option<String>>>, title: Option<String>) {
    if let Ok(mut guard) = slot.lock() {
        *guard = title;
    }
}

/// `Mutex::new`: a slot without a title.
#[verifier::external_body]
fn new_title() -> Arc<Mutex<Option<String>>> {
    Arc::new(Mutex::new(None))
}

/// `Arc::clone`: another handle on the same title.
#[verifier::external_body]
fn share_title(slot: &Arc<Mutex<Option<String>>>) -> (r: Arc<Mutex<Option<String>>>)
    ensures
        r == *slot,
{
    slot.clone()
}

/// What an event leads to: a reply is the text's UTF-8 bytes.
pub open spec fn routed(event: VtEvent, r: Routed) -> bool {
    match event {
        VtEvent::PtyWrite(t) => r matches Routed::Reply(b) && b@ == vstd::utf8::encode_utf8(t@),
        VtEvent::Title(t) => r == Routed::Title(Some(t)),
        VtEvent::ResetTitle => r == Routed::Title(None),
        VtEvent::Other => r is Ignored,
    }
}

/// Decides what an event leads to.
pub fn route(event: VtEvent) -> (r: Routed)
    ensures
        routed(event, r),
{
    match event {
        VtEvent::PtyWrite(t) => Routed::Reply(t.as_str().as_bytes_vec()),
        VtEvent::Title(t) => Routed::Title(Some(t)),
        VtEvent::ResetTitle => Routed::Title(None),
        VtEvent::Other => Routed::Ignored,
    }
}

impl EventListener for EventProxy {
    fn send_event(&self, event: Event) {
        match route(read_event(event)) {
            Routed::Reply(bytes) => send_reply(&self.tx, bytes),
            Routed::Title(title) => store_title(&self.title, title),
            Routed::Ignored => {},
        }
    }
}

/// The size of a terminal.
#[derive(Clone, Copy)]
struct Dims {
    cols: usize,
    rows: usize,
}

impl Dimensions for Dims {
    fn total_lines(&self) -> usize {
        self.rows
    }

    fn screen_lines(&self) -> usize {
        self.rows
    }

    fn columns(&self) -> usize {
        self.cols
    }
}

// ---------------------------------------------------------------------------
// The outside calls
// ---------------------------------------------------------------------------

/// Mode bit: the cursor is shown.
pub const MODE_SHOW_CURSOR: u32 = 0x1;

/// Mode bit: cursor keys send application sequences.
pub const MODE_APP_CURSOR: u32 = 0x2;

/// Mode bit: clicks are reported.
pub const MODE_MOUSE_REPORT_CLICK: u32 = 0x8;

/// Mode bit: pastes are bracketed.
pub const MODE_BRACKETED_PASTE: u32 = 0x10;

/// Mode bit: mouse reports use the SGR encoding.
pub const MODE_SGR_MOUSE: u32 = 0x20;

/// Mode bit: every mouse motion is reported.
pub const MODE_MOUSE_MOTION: u32 = 0x40;

/// Mode bit: the alternate screen is shown.
pub const MODE_ALT_SCREEN: u32 = 0x1000;

/// Mode bit: drags are reported.
pub const MODE_MOUSE_DRAG: u32 = 0x2000;

/// Mode bit: the wheel sends cursor keys on the alternate screen.
pub const MODE_ALTERNATE_SCROLL: u32 = 0x8000;

/// The modes of a new terminal: the cursor is shown, lines wrap, alternate
/// scrolling and urgency hints are on.
pub const MODES_DEFAULT: u32 = 0x28081;

/// The most rows that may be retained above a screen: with the tallest screen
/// on top of them, every line still has an `i32` number.
pub const MAX_HISTORY_ROWS: usize = 2_147_418_112;

/// What the terminal's active grid holds, with the configured history limit and
/// the mode bits.
pub uninterp spec fn screen_of(term: Term<EventProxy>) -> Screen;

/// What the terminal's grid holds after the bytes were parsed.
pub uninterp spec fn advanced_screen(
    term: Term<EventProxy>,
    parser: VtParser,
    bytes: Seq<u8>,
) -> Screen;

/// The listener that the terminal was made with.
pub uninterp spec fn listener_of(term: Term<EventProxy>) -> EventProxy;

/// The window title that the terminal keeps for itself.
pub uninterp spec fn kept_title(term: Term<EventProxy>) -> Option<Seq<char>>;

/// The window title that the listener knows after the bytes were parsed, where it
/// knew `title` before.
pub uninterp spec fn advanced_title(
    term: Term<EventProxy>,
    parser: VtParser,
    bytes: Seq<u8>,
    title: Option<Seq<char>>,
) -> Option<Seq<char>>;

/// Whether no wide character can come of what the parser keeps: of the character
/// that it would repeat, of a character that is not yet complete, and of what
/// waits in a synchronized update.
pub uninterp spec fn keeps_narrow(parser: VtParser) -> bool;

/// Whether the terminal is as it was made: nothing was ever done to it.
pub uninterp spec fn is_unused(term: Term<EventProxy>) -> bool;

/// Whether the parser is as it was made: it has read nothing.
pub uninterp spec fn has_read_nothing(parser: VtParser) -> bool;

/// What the terminal's grid holds after its size was changed.
pub uninterp spec fn resized_screen(term: Term<EventProxy>, cols: nat, lines: nat) -> Screen;

/// What the terminal reads between two columns of one line.
pub uninterp spec fn bounds_text(
    term: Term<EventProxy>,
    line: int,
    left: int,
    right: int,
) -> Seq<char>;

/// A terminal's grid: its history keeps to a limit that leaves every line a
/// number, and so does the view. The alternate screen has no history and is not
/// scrolled. A grid of one column holds no wide character.
pub open spec fn grid_wf(s: Screen) -> bool {
    &&& s.wf()
    &&& s.history() <= s.limit <= MAX_HISTORY_ROWS
    &&& s.offset <= s.limit
    &&& s.modes & MODE_ALT_SCREEN == MODE_ALT_SCREEN ==> s.history() == 0 && s.offset == 0
    &&& s.columns == 1 ==> s.narrow()
}

/// Whether the bytes spell no wide character, whatever is kept of the bytes
/// before them: a character of theirs lies below the first wide one.
pub open spec fn narrow_bytes(bytes: Seq<u8>) -> bool {
    forall|i: int| 0 <= i < bytes.len() ==> #[trigger] bytes[i] < 0xe1
}

/// A cell that nothing was written to: a blank in the default colours.
pub open spec fn blank_cell() -> CellView {
    CellView {
        c: ' ',
        zerowidth: Seq::<char>::empty(),
        fg: CellColor::Named(256),
        bg: CellColor::Named(257),
        flags: 0,
    }
}

/// The grid of a new terminal.
pub open spec fn fresh_screen(cols: nat, lines: nat, limit: nat) -> Screen {
    Screen {
        rows: Seq::new(lines, |r: int| Seq::new(cols, |c: int| blank_cell())),
        columns: cols,
        lines,
        offset: 0,
        limit,
        modes: MODES_DEFAULT,
        cursor: (0, 0),
    }
}

/// The grid after its history limit was set. The oldest rows over the limit are
/// dropped; on the alternate screen, which has no history, only the limit
/// changes.
pub open spec fn limited_screen(s: Screen, limit: nat) -> Screen {
    if s.modes & MODE_ALT_SCREEN == MODE_ALT_SCREEN {
        Screen { limit, ..s }
    } else {
        Screen {
            rows: if s.history() > limit {
                s.rows.skip(s.history() - limit)
            } else {
                s.rows
            },
            offset: if s.offset > limit {
                limit
            } else {
                s.offset
            },
            limit,
            ..s
        }
    }
}

/// Whether the grid can be one column wide: the alternate screen is not shown,
/// and no wide character is retained.
pub open spec fn fits_column(s: Screen) -> bool {
    s.modes & MODE_ALT_SCREEN != MODE_ALT_SCREEN && s.narrow()
}

/// How a view is scrolled.
#[derive(Clone, Copy, Debug, PartialEq, Eq, Structural)]
pub enum ScrollTo {
    /// By this many rows, up into the history.
    Delta(i32),
    Top,
    Bottom,
}

/// The offset that scrolling leads to: never above the oldest row, never below
/// the live screen.
pub open spec fn scrolled_offset(s: Screen, to: ScrollTo) -> int {
    match to {
        ScrollTo::Delta(count) => {
            let target = s.offset + count;
            if target < 0 {
                0
            } else if target > s.history() {
                s.history()
            } else {
                target
            }
        },
        ScrollTo::Top => s.history(),
        ScrollTo::Bottom => 0,
    }
}

/// `Processor::new`: a parser that has read nothing.
#[verifier::external_body]
fn new_parser() -> (parser: VtParser)
    ensures
        keeps_narrow(parser),
        has_read_nothing(parser),
{
    VtParser { inner: Processor::new() }
}

/// `Term::new` with the default configuration and this history limit: blank
/// cells, the cursor at the top left, the default modes, no title.
#[verifier::external_body]
fn new_term(history: usize, cols: usize, rows: usize, proxy: EventProxy) -> (term: Term<EventProxy>)
    requires
        1 <= cols <= u16::MAX,
        1 <= rows <= u16::MAX,
        history <= MAX_HISTORY_ROWS,
    ensures
        screen_of(term) == fresh_screen(cols as nat, rows as nat, history as nat),
        listener_of(term) == proxy,
        kept_title(term) is None,
        is_unused(term),
{
    let config = Config { scrolling_history: history, ..Config::default() };
    Term::new(config, &Dims { cols, rows }, proxy)
}

/// `Term::set_options` with the default configuration and this history limit. The
/// terminal also tells its listener the title that it keeps; that is returned, as
/// the listener's slot holds it. (Nothing panics while it holds the lock of the
/// slot, so that the lock is always granted.)
#[verifier::external_body]
fn set_history(
    term: &mut Term<EventProxy>,
    history: usize,
    slot: &Arc<Mutex<Option<String>>>,
) -> (title: Option<String>)
    requires
        grid_wf(screen_of(*old(term))),
        history <= MAX_HISTORY_ROWS,
        listener_of(*old(term)).title == *slot,
    ensures
        screen_of(*final(term)) == limited_screen(screen_of(*old(term)), history as nat),
        listener_of(*final(term)) == listener_of(*old(term)),
        kept_title(*final(term)) == kept_title(*old(term)),
        text::opt_text(title) == kept_title(*old(term)),
{
    term.set_options(Config { scrolling_history: history, ..Config::default() });
    slot.lock().ok().and_then(|guard| guard.clone())
}

/// `Term::resize`: changes the size and reflows the text. The size, the modes
/// and the limit are stated; how the text reflows is named. The crate needs two
/// columns to hold a wide character: with fewer, reflowing one never ends. The
/// alternate screen hides a grid that is reflowed with it.
#[verifier::external_body]
fn resize_term(term: &mut Term<EventProxy>, cols: usize, rows: usize)
    requires
        grid_wf(screen_of(*old(term))),
        1 <= cols <= u16::MAX,
        1 <= rows <= u16::MAX,
        cols == 1 ==> screen_of(*old(term)).columns == 1 || fits_column(screen_of(*old(term))),
    ensures
        screen_of(*final(term)) == resized_screen(*old(term), cols as nat, rows as nat),
        grid_wf(screen_of(*final(term))),
        screen_of(*old(term)).in_view() ==> screen_of(*final(term)).in_view(),
        screen_of(*final(term)).columns == cols,
        screen_of(*final(term)).lines == rows,
        screen_of(*final(term)).limit == screen_of(*old(term)).limit,
        screen_of(*final(term)).modes == screen_of(*old(term)).modes,
        listener_of(*final(term)) == listener_of(*old(term)),
        kept_title(*final(term)) == kept_title(*old(term)),
{
    term.resize(Dims { cols, rows });
}

/// `Processor::advance`: parses the bytes and applies them to the terminal, whose
/// listener takes in the titles that they set. That the size and the limit stay
/// is stated; what the bytes do to the grid and to the title is named. A region
/// that scrolls moves a view that is scrolled back, up to the limit, also where
/// no row goes into the history. The crate needs two columns to write a wide
/// character; no character below U+1000 is wide. On a terminal as it was made, a
/// text that clears the screen and then writes rows of printable ASCII that have
/// room there, each change of style in front of its character, shows those
/// characters: each goes into the cell at the cursor, which then moves right, and
/// the sequences that select a style move nothing. The title so far goes into the
/// listener's slot, and the title afterwards is what the slot holds. (Nothing
/// panics while it holds the lock of the slot, so that the lock is always granted.)
#[verifier::external_body]
fn advance_term(
    term: &mut Term<EventProxy>,
    parser: &mut VtParser,
    bytes: &[u8],
    slot: &Arc<Mutex<Option<String>>>,
    title: Option<String>,
) -> (after: Option<String>)
    requires
        grid_wf(screen_of(*old(term))),
        screen_of(*old(term)).columns >= 2 || narrow_bytes(bytes@) && keeps_narrow(*old(parser)),
        listener_of(*old(term)).title == *slot,
    ensures
        screen_of(*final(term)) == advanced_screen(*old(term), *old(parser), bytes@),
        grid_wf(screen_of(*final(term))),
        screen_of(*final(term)).columns == screen_of(*old(term)).columns,
        screen_of(*final(term)).lines == screen_of(*old(term)).lines,
        screen_of(*final(term)).limit == screen_of(*old(term)).limit,
        listener_of(*final(term)) == listener_of(*old(term)),
        narrow_bytes(bytes@) && keeps_narrow(*old(parser)) ==> keeps_narrow(*final(parser)),
        is_unused(*old(term)) && has_read_nothing(*old(parser)) ==> forall|
            g: Seq<Seq<snapshot::Glyph>>,
        |
            snapshot::has_room(g, screen_of(*old(term)).columns, screen_of(*old(term)).lines)
                && bytes@ == vstd::utf8::encode_utf8(#[trigger] snapshot::drawing(g))
                ==> snapshot::shows(screen_of(*final(term)), g),
        text::opt_text(after) == advanced_title(
            *old(term),
            *old(parser),
            bytes@,
            text::opt_text(title),
        ),
{
    if let Ok(mut guard) = slot.lock() {
        *guard = title;
    }
    parser.inner.advance(term, bytes);
    slot.lock().ok().and_then(|guard| guard.clone())
}

/// `Term::scroll_display`: moves the view and nothing else. Wherever the view was,
/// it ends within what is retained.
#[verifier::external_body]
fn scroll_term(term: &mut Term<EventProxy>, to: ScrollTo)
    requires
        grid_wf(screen_of(*old(term))),
        to matches ScrollTo::Delta(count) ==> screen_of(*old(term)).offset + count <= i32::MAX,
    ensures
        screen_of(*final(term)) == (Screen {
            offset: scrolled_offset(screen_of(*old(term)), to) as nat,
            ..screen_of(*old(term))
        }),
        listener_of(*final(term)) == listener_of(*old(term)),
        kept_title(*final(term)) == kept_title(*old(term)),
{
    term.scroll_display(match to {
        ScrollTo::Delta(count) => Scroll::Delta(count),
        ScrollTo::Top => Scroll::Top,
        ScrollTo::Bottom => Scroll::Bottom,
    });
}

/// `Dimensions::columns` of the grid.
#[verifier::external_body]
fn grid_columns(term: &Term<EventProxy>) -> (n: usize)
    requires
        screen_of(*term).wf(),
    ensures
        n == screen_of(*term).columns,
{
    term.grid().columns()
}

/// `Dimensions::screen_lines` of the grid.
#[verifier::external_body]
fn grid_lines(term: &Term<EventProxy>) -> (n: usize)
    requires
        screen_of(*term).wf(),
    ensures
        n == screen_of(*term).lines,
{
    term.grid().screen_lines()
}

/// `Dimensions::history_size` of the grid.
#[verifier::external_body]
fn grid_history(term: &Term<EventProxy>) -> (n: usize)
    requires
        screen_of(*term).wf(),
    ensures
        n == screen_of(*term).history(),
{
    term.grid().history_size()
}

/// `Grid::display_offset`.
#[verifier::external_body]
fn grid_offset(term: &Term<EventProxy>) -> (n: usize)
    requires
        screen_of(*term).wf(),
    ensures
        n == screen_of(*term).offset,
{
    term.grid().display_offset()
}

/// The position of the grid's cursor: its column and its line.
#[verifier::external_body]
fn grid_cursor(term: &Term<EventProxy>) -> (at: (usize, i32))
    ensures
        at.0 == screen_of(*term).cursor.0,
        at.1 == screen_of(*term).cursor.1,
{
    let point = term.grid().cursor.point;
    (point.column.0, point.line.0)
}

/// `Term::mode`, as bits.
#[verifier::external_body]
fn term_modes(term: &Term<EventProxy>) -> (bits: u32)
    ensures
        bits == screen_of(*term).modes,
{
    term.mode().bits()
}

/// `Index` of the grid by line and column. Line 0 is the top of the live screen
/// and the history lies above it.
#[verifier::external_body]
fn grid_cell(term: &Term<EventProxy>, line: i32, column: usize) -> (c: Cell)
    requires
        screen_of(*term).wf(),
        -screen_of(*term).history() <= line < screen_of(*term).lines,
        column < screen_of(*term).columns,
    ensures
        c@ == screen_of(*term).live(line as int)[column as int],
{
    let cell = &term.grid()[Line(line)][Column(column)];
    let color = |c: VtColor| match c {
        VtColor::Spec(rgb) => CellColor::Spec(rgb.r, rgb.g, rgb.b),
        VtColor::Indexed(i) => CellColor::Indexed(i),
        VtColor::Named(n) => CellColor::Named(n as u16),
    };
    let zerowidth = cell.zerowidth().map(|z| z.to_vec()).unwrap_or_default();
    Cell { c: cell.c, zerowidth, fg: color(cell.fg), bg: color(cell.bg), flags: cell.flags.bits() }
}

/// Whether a line can be read from `left` to `right`: the first cell is no
/// second half without a first, and the oldest row does not end in the blank
/// of a wide character that went to the next row.
pub open spec fn readable(s: Screen, index: int, left: int, right: int) -> bool {
    &&& 0 <= index < s.rows.len()
    &&& 0 <= left <= right < s.columns
    &&& !(left == 0 && cell::is_spacer(s.rows[index][0]))
    &&& !(index == 0 && right == s.columns - 1 && cell::has_flag(
        s.rows[index].last().flags,
        FLAG_LEADING_WIDE_CHAR_SPACER,
    ))
}

/// `Term::bounds_to_string` on one line: the text between the two columns, a
/// wide character whole, without a trailing line break. For a row of plain cells
/// that is the text of its occupied cells; with tabs it depends on the tab stops
/// too, and what it is then is only named. The call steps one column left from a second half, and one line up
/// from a line that ends in the blank of a wrapped wide character; the inputs
/// for which there is none are left out.
#[verifier::external_body]
fn read_bounds(term: &Term<EventProxy>, line: i32, left: usize, right: usize) -> (s: String)
    requires
        screen_of(*term).wf(),
        readable(
            screen_of(*term),
            screen_of(*term).history() + line,
            left as int,
            right as int,
        ),
    ensures
        s@ == bounds_text(*term, line as int, left as int, right as int),
        row::is_plain_row(screen_of(*term).live(line as int)) ==> s@ == row::line_text(
            screen_of(*term).live(line as int),
            left as int,
            right as int,
        ),
{
    let start = Point::new(Line(line), Column(left));
    let end = Point::new(Line(line), Column(right));
    term.bounds_to_string(start, end)
}

// ---------------------------------------------------------------------------
// History budgets
// ---------------------------------------------------------------------------

/// A conservative estimate of one retained cell.
pub const HISTORY_CELL_BYTES: usize = 32;

/// A conservative estimate of what a retained row costs beside its cells.
pub const HISTORY_ROW_OVERHEAD_BYTES: usize = 512;

/// The estimated bytes of one retained row.
pub open spec fn row_cost(cols: nat) -> nat {
    let cells = if cols < 1 {
        1
    } else {
        cols
    };
    let bytes = cells * 32 + 512;
    if cells * 32 > usize::MAX || bytes > usize::MAX {
        usize::MAX as nat
    } else {
        bytes
    }
}

/// How many rows a byte budget retains: what it affords, and at least one.
pub open spec fn budget_rows(bytes: nat, cols: nat) -> nat {
    let rows = bytes / row_cost(cols);
    if rows < 1 {
        1
    } else {
        rows
    }
}

/// A budget for which every retained line has a number, at any width.
pub open spec fn budget_ok(bytes: nat) -> bool {
    bytes / 544 <= MAX_HISTORY_ROWS
}

/// The estimated bytes of one retained row of this width.
pub fn estimated_row_bytes(cols: usize) -> (n: usize)
    ensures
        n == row_cost(cols as nat),
        n >= 544,
{
    let cells: usize = if cols < 1 {
        1
    } else {
        cols
    };
    match cells.checked_mul(HISTORY_CELL_BYTES) {
        Some(bytes) => match bytes.checked_add(HISTORY_ROW_OVERHEAD_BYTES) {
            Some(n) => n,
            None => usize::MAX,
        },
        None => usize::MAX,
    }
}

/// How many rows a byte budget retains at this width.
pub fn history_rows_for_budget(bytes: usize, cols: u16) -> (n: usize)
    ensures
        n == budget_rows(bytes as nat, if cols < 1 { 1 } else { cols as nat }),
        budget_ok(bytes as nat) ==> n <= MAX_HISTORY_ROWS,
{
    let cols: u16 = if cols < 1 {
        1
    } else {
        cols
    };
    let cost: usize = estimated_row_bytes(cols as usize);
    let n: usize = bytes / cost;
    assert(bytes as nat / cost as nat <= bytes as nat / 544) by (nonlinear_arith)
        requires
            cost >= 544,
    ;
    if n < 1 {
        1
    } else {
        n
    }
}

/// The retained rows stay within the budget, unless it affords none.
pub proof fn law_history_stays_within_budget(bytes: nat, cols: nat)
    ensures
        budget_rows(bytes, cols) >= 1,
        bytes >= row_cost(cols) ==> budget_rows(bytes, cols) * row_cost(cols) <= bytes,
        bytes < row_cost(cols) ==> budget_rows(bytes, cols) == 1,
{
    let cost = row_cost(cols);
    assert(cost >= 1);
    vstd::arithmetic::div_mod::lemma_fundamental_div_mod(bytes as int, cost as int);
    vstd::arithmetic::mul::lemma_mul_is_commutative(cost as int, (bytes / cost) as int);
    if bytes < cost {
        vstd::arithmetic::div_mod::lemma_basic_div(bytes as int, cost as int);
    }
    if bytes >= cost {
        assert(bytes / cost >= 1) by (nonlinear_arith)
            requires
                bytes >= cost,
                cost >= 1,
        ;
    }
}

// ---------------------------------------------------------------------------
// The engine
// ---------------------------------------------------------------------------

/// Where the cursor is drawn.
#[derive(Clone, Copy, Debug, PartialEq, Eq, Structural)]
pub struct Cursor {
    pub x: u16,
    pub y: u16,
    pub visible: bool,
}

/// What a terminal retains, in rows and in bytes.
#[derive(Clone, Copy, Debug, PartialEq, Eq)]
pub struct HistoryMetrics {
    pub offset: usize,
    pub retained_rows: usize,
    pub budget_bytes: usize,
    pub retained_bytes: usize,
    pub estimated_grid_bytes: usize,
    pub cache_bytes: Option<usize>,
    pub compacted_rows: Option<usize>,
    pub allocated_cells: Option<usize>,
    pub exact_bytes: bool,
}

/// What the grid's storage says of itself.
#[derive(Clone, Copy, Debug, PartialEq, Eq)]
pub struct GridUsage {
    pub estimated_grid_bytes: usize,
    pub cache_bytes: Option<usize>,
    pub compacted_rows: Option<usize>,
    pub allocated_cells: Option<usize>,
}

/// A terminal of a pane.
pub struct AlacrittyEngine {
    term: Term<EventProxy>,
    parser: VtParser,
    slot: TitleSlot,
    title: Option<String>,
    history_budget_bytes: usize,
    output_generation: u64,
}

/// Where the cursor is drawn: nowhere while the view is scrolled back, so that
/// it does not cover an old line.
pub open spec fn drawn_cursor(s: Screen) -> Cursor {
    Cursor {
        x: s.cursor.0 as u16,
        y: composer::cursor_row(s) as u16,
        visible: s.modes & MODE_SHOW_CURSOR == MODE_SHOW_CURSOR && s.offset == 0,
    }
}

/// The columns that a selection takes of a row: from the start, to the end, and
/// in between from the leftmost column of either to the last column.
pub open spec fn selected_columns(
    s: Screen,
    start: (int, int),
    end: (int, int),
    index: int,
) -> (int, int) {
    let last = s.columns - 1;
    let left = if index == start.0 {
        start.1
    } else if start.1 < end.1 {
        start.1
    } else {
        end.1
    };
    let right = if index == end.0 {
        end.1
    } else {
        last
    };
    (
        if left < last {
            left
        } else {
            last
        },
        if right < last {
            right
        } else {
            last
        },
    )
}

/// Whether every row of the selection can be read.
pub open spec fn selection_readable(s: Screen, start: (int, int), end: (int, int)) -> bool {
    forall|index: int|
        start.0 <= index <= end.0 && 0 <= index < s.rows.len() ==> {
            let cols = #[trigger] selected_columns(s, start, end, index);
            cols.0 <= cols.1 ==> readable(s, index, cols.0, cols.1)
        }
}

/// How many rows a selection takes.
pub open spec fn selected_rows(s: Screen, start: (int, int), end: (int, int)) -> nat {
    let total = s.rows.len();
    let stop = if end.0 < total {
        end.0 + 1
    } else {
        total as int
    };
    if start.0 < stop {
        (stop - start.0) as nat
    } else {
        0
    }
}

/// Whether every cell of the selected rows reads as it shows.
pub open spec fn plain_selection(s: Screen, start: (int, int), end: (int, int)) -> bool {
    forall|index: int|
        start.0 <= index <= end.0 && 0 <= index < s.rows.len() ==> row::is_plain_row(
            #[trigger] s.rows[index],
        )
}

/// What a selected row reads where its cells are plain.
pub open spec fn plain_line(s: Screen, start: (int, int), end: (int, int), index: int) -> Seq<char> {
    let cols = selected_columns(s, start, end, index);
    if cols.0 <= cols.1 {
        row::line_text(s.rows[index], cols.0, cols.1)
    } else {
        Seq::<char>::empty()
    }
}

/// What the selected rows read where their cells are plain, in order.
pub open spec fn plain_lines(s: Screen, start: (int, int), end: (int, int)) -> Seq<Seq<char>> {
    Seq::new(selected_rows(s, start, end), |i: int| plain_line(s, start, end, start.0 + i))
}

/// The lines of a selection without their trailing blanks, one below the other.
pub open spec fn joined_lines(lines: Seq<Seq<char>>) -> Seq<char>
    decreases lines.len(),
{
    if lines.len() == 0 {
        Seq::<char>::empty()
    } else if lines.len() == 1 {
        text::trim_end_char(lines[0], ' ')
    } else {
        joined_lines(lines.drop_last()).push('\n') + text::trim_end_char(lines.last(), ' ')
    }
}

/// Joins the lines of a selection: without their trailing blanks, one below the
/// other. There is no text where there is no line.
pub fn join_lines(lines: &Vec<String>) -> (out: Option<String>)
    ensures
        out is Some <==> lines@.len() > 0,
        out matches Some(s) ==> s@ == joined_lines(Seq::new(lines@.len(), |i: int| lines@[i]@)),
{
    if lines.len() == 0 {
        return None;
    }
    let ghost all = Seq::new(lines@.len(), |i: int| lines@[i]@);
    let mut out = trim_end_matches(lines[0].as_str(), ' ');
    assert(out@ == joined_lines(all.take(1)));
    let mut i: usize = 1;
    while i < lines.len()
        invariant
            1 <= i <= lines@.len(),
            all == Seq::new(lines@.len(), |k: int| lines@[k]@),
            out@ == joined_lines(all.take(i as int)),
        decreases lines@.len() - i,
    {
        assert(all.take(i + 1).drop_last() =~= all.take(i as int));
        out.push('\n');
        let line = trim_end_matches(lines[i].as_str(), ' ');
        push_text(&mut out, line.as_str());
        i = i + 1;
    }
    assert(all.take(i as int) =~= all);
    Some(out)
}

impl GridRows for AlacrittyEngine {
    closed spec fn screen(&self) -> Screen {
        screen_of(self.term)
    }

    fn columns(&self) -> (n: usize) {
        grid_columns(&self.term)
    }

    fn screen_lines(&self) -> (n: usize) {
        grid_lines(&self.term)
    }

    fn history_size(&self) -> (n: usize) {
        grid_history(&self.term)
    }

    fn display_offset(&self) -> (n: usize) {
        grid_offset(&self.term)
    }

    fn cursor_line(&self) -> (n: i32) {
        grid_cursor(&self.term).1
    }

    fn row(&self, index: usize) -> (cells: Vec<Cell>) {
        let columns: usize = grid_columns(&self.term);
        let line: i32 = index as i32 - grid_history(&self.term) as i32;
        let mut cells: Vec<Cell> = Vec::new();
        let mut column: usize = 0;
        let ghost s = screen_of(self.term);
        while column < columns
            invariant
                s == screen_of(self.term),
                s.wf(),
                columns == s.columns,
                index < s.rows.len(),
                line == index - s.history(),
                column <= columns,
                cells@.len() == column,
                forall|k: int| 0 <= k < column ==> (#[trigger] cells@[k])@ == s.rows[index as int][k],
            decreases columns - column,
        {
            cells.push(grid_cell(&self.term, line, column));
            column = column + 1;
        }
        assert(cell::row_view(cells@) =~= s.rows[index as int]);
        cells
    }
}

impl AlacrittyEngine {
    /// The byte budget of the history.
    pub closed spec fn budget(&self) -> nat {
        self.history_budget_bytes as nat
    }

    /// How often output was parsed.
    pub closed spec fn generation(&self) -> u64 {
        self.output_generation
    }

    /// The terminal and its parser.
    pub closed spec fn parts(&self) -> (Term<EventProxy>, VtParser) {
        (self.term, self.parser)
    }

    /// Whether nothing was ever done to the terminal.
    pub closed spec fn is_unused(&self) -> bool {
        is_unused(self.term) && has_read_nothing(self.parser)
    }

    /// The window title that the child process set.
    pub closed spec fn title_text(&self) -> Option<Seq<char>> {
        text::opt_text(self.title)
    }

    /// Whether the terminal tells its titles to the slot that the engine reads.
    pub closed spec fn listens(&self) -> bool {
        listener_of(self.term).title == self.slot
    }

    /// The grid is sound, the budget gives every retained line a number, and the
    /// terminal's titles are heard.
    pub open spec fn wf(&self) -> bool {
        &&& grid_wf(self.screen())
        &&& budget_ok(self.budget())
        &&& self.listens()
    }

    /// A terminal of this size, with a history of `history_budget_bytes`. The
    /// replies of the terminal go to `resp_tx`.
    pub fn new(
        cols: u16,
        rows: u16,
        resp_tx: Sender<InputAction>,
        history_budget_bytes: usize,
    ) -> (engine: AlacrittyEngine)
        requires
            budget_ok(history_budget_bytes as nat),
        ensures
            engine.wf(),
            engine.budget() == history_budget_bytes,
            engine.generation() == 0,
            engine.title_text() is None,
            kept_title(engine.parts().0) is None,
            keeps_narrow(engine.parts().1),
            engine.is_unused(),
            ({
                let c = if cols < 1 {
                    1
                } else {
                    cols as nat
                };
                let r = if rows < 1 {
                    1
                } else {
                    rows as nat
                };
                engine.screen() == fresh_screen(c, r, budget_rows(history_budget_bytes as nat, c))
            }),
    {
        let c: usize = if cols < 1 {
            1
        } else {
            cols as usize
        };
        let r: usize = if rows < 1 {
            1
        } else {
            rows as usize
        };
        let slot = new_title();
        let proxy = EventProxy { tx: resp_tx, title: share_title(&slot) };
        let limit: usize = history_rows_for_budget(history_budget_bytes, cols);
        assert(0u16 & 0x460u16 == 0) by (bit_vector);
        let term = new_term(limit, c, r, proxy);
        AlacrittyEngine {
            term,
            parser: new_parser(),
            slot,
            title: None,
            history_budget_bytes,
            output_generation: 0,
        }
    }

    fn apply_history_budget(&mut self)
        requires
            old(self).wf(),
        ensures
            final(self).wf(),
            final(self).screen() == limited_screen(
                old(self).screen(),
                budget_rows(old(self).budget(), old(self).screen().columns),
            ),
            final(self).budget() == old(self).budget(),
            final(self).generation() == old(self).generation(),
            final(self).title_text() == kept_title(old(self).parts().0),
            kept_title(final(self).parts().0) == kept_title(old(self).parts().0),
            final(self).parts().1 == old(self).parts().1,
    {
        let cols: usize = grid_columns(&self.term);
        let limit: usize = history_rows_for_budget(self.history_budget_bytes, cols as u16);
        self.title = set_history(&mut self.term, limit, &self.slot);
    }

    /// Parses output of the child process. A view that is scrolled back may then
    /// reach beyond what is retained, until it is scrolled again. A terminal of one
    /// column takes no wide character. The snapshot of a plain screen, fed to a new
    /// terminal of its size, shows the same rows again.
    pub fn advance(&mut self, bytes: &[u8])
        requires
            old(self).wf(),
            old(self).screen().columns >= 2 || narrow_bytes(bytes@) && keeps_narrow(
                old(self).parts().1,
            ),
        ensures
            final(self).wf(),
            final(self).screen() == advanced_screen(
                old(self).parts().0,
                old(self).parts().1,
                bytes@,
            ),
            final(self).screen().columns == old(self).screen().columns,
            final(self).screen().lines == old(self).screen().lines,
            final(self).screen().limit == old(self).screen().limit,
            final(self).budget() == old(self).budget(),
            final(self).title_text() == advanced_title(
                old(self).parts().0,
                old(self).parts().1,
                bytes@,
                old(self).title_text(),
            ),
            narrow_bytes(bytes@) && keeps_narrow(old(self).parts().1) ==> keeps_narrow(
                final(self).parts().1,
            ),
            final(self).generation() == (if old(self).generation() == u64::MAX {
                0
            } else {
                old(self).generation() + 1
            }),
            old(self).is_unused() ==> forall|s: Screen|
                snapshot::is_plain_ascii(s) && s.columns == old(self).screen().columns && s.lines
                    == old(self).screen().lines && bytes@ == vstd::utf8::encode_utf8(
                    #[trigger] snapshot::snapshot_code(s),
                ) ==> snapshot::same_rows(s, final(self).screen()),
    {
        let title = text::copy_opt(&self.title);
        self.title = advance_term(&mut self.term, &mut self.parser, bytes, &self.slot, title);
        self.output_generation = self.output_generation.wrapping_add(1);
        proof {
            if old(self).is_unused() {
                assert forall|s: Screen|
                    snapshot::is_plain_ascii(s) && s.columns == old(self).screen().columns
                        && s.lines == old(self).screen().lines && bytes@
                        == vstd::utf8::encode_utf8(
                        #[trigger] snapshot::snapshot_code(s),
                    ) implies snapshot::same_rows(s, self.screen()) by {
                    let g = snapshot::written_rows(s);
                    snapshot::lemma_snapshot_is_drawing(s);
                    snapshot::lemma_written_rows_have_room(s);
                    assert(bytes@ == vstd::utf8::encode_utf8(snapshot::drawing(g)));
                    snapshot::lemma_drawn_again(s, self.screen());
                }
            }
        }
    }

    /// How often output was parsed, modulo two to the sixty-fourth.
    pub fn output_generation(&self) -> (n: u64)
        ensures
            n == self.generation(),
    {
        self.output_generation
    }

    /// Whether the terminal can be made one column wide: no wide character is
    /// retained, and the alternate screen, which hides other rows, is not shown.
    pub fn can_be_one_column(&self) -> (b: bool)
        requires
            self.wf(),
        ensures
            b == fits_column(self.screen()),
    {
        !self.has_mode(MODE_ALT_SCREEN) && screen::is_narrow(self)
    }

    /// Changes the size and fits the history to the budget at the new width. The
    /// title is then the one that the terminal keeps for itself.
    pub fn resize(&mut self, cols: u16, rows: u16)
        requires
            old(self).wf(),
            cols < 2 ==> old(self).screen().columns == 1 || fits_column(old(self).screen()),
        ensures
            final(self).wf(),
            ({
                let c = if cols < 1 {
                    1
                } else {
                    cols as nat
                };
                let r = if rows < 1 {
                    1
                } else {
                    rows as nat
                };
                &&& final(self).screen() == limited_screen(
                    resized_screen(old(self).parts().0, c, r),
                    budget_rows(old(self).budget(), c),
                )
                &&& final(self).screen().columns == c
                &&& final(self).screen().lines == r
            }),
            final(self).screen().modes == old(self).screen().modes,
            old(self).screen().in_view() ==> final(self).screen().in_view(),
            final(self).budget() == old(self).budget(),
            final(self).generation() == old(self).generation(),
            final(self).title_text() == kept_title(old(self).parts().0),
            kept_title(final(self).parts().0) == kept_title(old(self).parts().0),
            final(self).parts().1 == old(self).parts().1,
    {
        let c: usize = if cols < 1 {
            1
        } else {
            cols as usize
        };
        let r: usize = if rows < 1 {
            1
        } else {
            rows as usize
        };
        resize_term(&mut self.term, c, r);
        self.apply_history_budget();
    }

    /// Where the cursor is drawn.
    pub fn cursor(&self) -> (c: Cursor)
        requires
            self.wf(),
        ensures
            c == drawn_cursor(self.screen()),
    {
        let (column, line) = grid_cursor(&self.term);
        let line: i32 = if line < 0 {
            0
        } else {
            line
        };
        Cursor {
            x: #[verifier::truncate]
            (column as u16),
            y: #[verifier::truncate]
            (line as u16),
            visible: self.has_mode(MODE_SHOW_CURSOR) && grid_offset(&self.term) == 0,
        }
    }

    /// Whether all of these mode bits are set.
    fn has_mode(&self, bits: u32) -> (b: bool)
        ensures
            b == (self.screen().modes & bits == bits),
    {
        term_modes(&self.term) & bits == bits
    }

    /// Whether any of these mode bits is set.
    fn any_mode(&self, bits: u32) -> (b: bool)
        ensures
            b == (self.screen().modes & bits != 0),
    {
        term_modes(&self.term) & bits != 0
    }

    /// The prompt that is being written, where there is one.
    pub fn codex_composer_region(&self) -> (region: Option<CodexComposerRegion>)
        requires
            self.wf(),
        ensures
            match region {
                Some(r) => composer::composer_at(self.screen(), r.top as int, r.bottom as int),
                None => forall|top: int, bottom: int|
                    !composer::composer_at(self.screen(), top, bottom),
            },
    {
        composer::codex_composer_region(self)
    }

    /// Every cell in view, from the top left.
    pub fn for_each_cell(&self) -> (out: Vec<DrawnCell>)
        requires
            self.wf(),
            self.screen().in_view(),
        ensures
            screen::drawn_view(out@) == screen::drawn_cells(self.screen(), self.screen().lines),
    {
        screen::for_each_cell(self)
    }

    /// The text of the last `n` rows of the live screen, wherever the view is.
    pub fn detection_text(&self, n: u16) -> (out: String)
        requires
            self.wf(),
        ensures
            out@ == screen::joined_text(screen::bottom_rows(self.screen(), n as nat)),
    {
        screen::detection_text(self, n)
    }

    /// The text of each row in view.
    pub fn visible_rows(&self) -> (out: Vec<String>)
        requires
            self.wf(),
            self.screen().in_view(),
        ensures
            out@.len() == self.screen().lines,
            forall|r: int|
                0 <= r < out@.len() ==> (#[trigger] out@[r])@ == row::visible_text(
                    self.screen().viewed(r),
                ),
    {
        screen::visible_rows(self)
    }

    /// The text of each row in view, one character for each column.
    pub fn visible_rows_aligned(&self) -> (out: Vec<String>)
        requires
            self.wf(),
            self.screen().in_view(),
        ensures
            out@.len() == self.screen().lines,
            forall|r: int|
                0 <= r < out@.len() ==> (#[trigger] out@[r])@ == row::aligned_text(
                    self.screen().viewed(r),
                ),
    {
        screen::visible_rows_aligned(self)
    }

    /// Captures text of the terminal in at most `max_bytes` bytes.
    pub fn backend_capture(
        &self,
        mode: CaptureMode,
        lines: usize,
        ansi: bool,
        max_bytes: usize,
    ) -> (result: CaptureResult)
        requires
            self.wf(),
        ensures
            (capture::Captured {
                text: result.text@,
                lines: result.lines as nat,
                truncated: result.truncated,
            }) == capture::capture(self.screen(), mode, lines as nat, ansi, max_bytes as nat),
            text::utf8_len(result.text@) <= max_bytes,
            result.lines <= capture::wanted_lines(lines as nat),
            capture::safe_text(result.text@),
            !ansi || mode == CaptureMode::Detection ==> capture::plain_text(result.text@),
    {
        capture::backend_capture(self, mode, lines, ansi, max_bytes)
    }

    /// The window title, where the child process set one.
    pub fn title(&self) -> (title: Option<String>)
        ensures
            text::opt_text(title) == self.title_text(),
    {
        text::copy_opt(&self.title)
    }

    /// Sets the byte budget of the history and drops what is over it. Says
    /// whether the budget shrank, so that its owner can give memory back.
    pub fn set_history_budget(&mut self, bytes: usize) -> (shrinking: bool)
        requires
            old(self).wf(),
            budget_ok(bytes as nat),
        ensures
            final(self).wf(),
            shrinking == (bytes < old(self).budget()),
            final(self).budget() == bytes,
            final(self).screen() == limited_screen(
                old(self).screen(),
                budget_rows(bytes as nat, old(self).screen().columns),
            ),
            final(self).generation() == old(self).generation(),
            final(self).title_text() == kept_title(old(self).parts().0),
            kept_title(final(self).parts().0) == kept_title(old(self).parts().0),
            final(self).parts().1 == old(self).parts().1,
    {
        let shrinking: bool = bytes < self.history_budget_bytes;
        self.history_budget_bytes = bytes;
        self.apply_history_budget();
        shrinking
    }

    /// Scrolls the view by `delta` rows, up into the history. The alternate
    /// screen is never scrolled.
    pub fn scroll(&mut self, delta: i32)
        requires
            old(self).wf(),
            old(self).screen().offset + delta <= i32::MAX,
        ensures
            final(self).wf(),
            final(self).screen() == (if old(self).screen().modes & MODE_ALT_SCREEN
                == MODE_ALT_SCREEN {
                old(self).screen()
            } else {
                Screen {
                    offset: scrolled_offset(old(self).screen(), ScrollTo::Delta(delta)) as nat,
                    ..old(self).screen()
                }
            }),
            final(self).budget() == old(self).budget(),
            final(self).generation() == old(self).generation(),
            final(self).title_text() == old(self).title_text(),
            kept_title(final(self).parts().0) == kept_title(old(self).parts().0),
            final(self).parts().1 == old(self).parts().1,
    {
        if !self.has_mode(MODE_ALT_SCREEN) {
            scroll_term(&mut self.term, ScrollTo::Delta(delta));
        }
    }

    /// Scrolls the view to the oldest row. The alternate screen is never
    /// scrolled.
    pub fn scroll_to_top(&mut self)
        requires
            old(self).wf(),
        ensures
            final(self).wf(),
            final(self).screen() == (if old(self).screen().modes & MODE_ALT_SCREEN
                == MODE_ALT_SCREEN {
                old(self).screen()
            } else {
                Screen { offset: old(self).screen().history() as nat, ..old(self).screen() }
            }),
            final(self).budget() == old(self).budget(),
            final(self).generation() == old(self).generation(),
            final(self).title_text() == old(self).title_text(),
            kept_title(final(self).parts().0) == kept_title(old(self).parts().0),
            final(self).parts().1 == old(self).parts().1,
    {
        if !self.has_mode(MODE_ALT_SCREEN) {
            scroll_term(&mut self.term, ScrollTo::Top);
        }
    }

    /// Scrolls the view to the live screen.
    pub fn scroll_to_bottom(&mut self)
        requires
            old(self).wf(),
        ensures
            final(self).wf(),
            final(self).screen() == (Screen { offset: 0, ..old(self).screen() }),
            final(self).budget() == old(self).budget(),
            final(self).generation() == old(self).generation(),
            final(self).title_text() == old(self).title_text(),
            kept_title(final(self).parts().0) == kept_title(old(self).parts().0),
            final(self).parts().1 == old(self).parts().1,
    {
        scroll_term(&mut self.term, ScrollTo::Bottom);
    }

    /// Scrolls the view to this offset, or as far as there is history. The
    /// alternate screen is never scrolled.
    pub fn scroll_to(&mut self, offset: usize)
        requires
            old(self).wf(),
        ensures
            final(self).wf(),
            final(self).screen() == (if old(self).screen().modes & MODE_ALT_SCREEN
                == MODE_ALT_SCREEN {
                old(self).screen()
            } else {
                Screen {
                    offset: if offset < old(self).screen().history() {
                        offset as nat
                    } else {
                        old(self).screen().history() as nat
                    },
                    ..old(self).screen()
                }
            }),
            final(self).budget() == old(self).budget(),
            final(self).generation() == old(self).generation(),
            final(self).title_text() == old(self).title_text(),
            kept_title(final(self).parts().0) == kept_title(old(self).parts().0),
            final(self).parts().1 == old(self).parts().1,
    {
        if self.has_mode(MODE_ALT_SCREEN) {
            return ;
        }
        let max: usize = grid_history(&self.term);
        let target: i32 = if offset < max {
            offset as i32
        } else {
            max as i32
        };
        let current: i32 = grid_offset(&self.term) as i32;
        scroll_term(&mut self.term, ScrollTo::Delta(target - current));
    }

    /// How many rows the view is above the live screen.
    pub fn scroll_offset(&self) -> (n: usize)
        requires
            self.wf(),
        ensures
            n == self.screen().offset,
    {
        grid_offset(&self.term)
    }

    /// How many rows are retained above the live screen.
    pub fn history_len(&self) -> (n: usize)
        requires
            self.wf(),
        ensures
            n == self.screen().history(),
    {
        grid_history(&self.term)
    }

    /// What the terminal retains. `usage` is what the grid's storage says of
    /// itself; the bytes of the rows are estimated from their number.
    pub fn history_metrics(&self, usage: GridUsage) -> (m: HistoryMetrics)
        requires
            self.wf(),
        ensures
            m.offset == self.screen().offset,
            m.retained_rows == self.screen().history(),
            m.budget_bytes == self.budget(),
            ({
                let bytes = self.screen().history() * row_cost(self.screen().columns);
                m.retained_bytes == (if bytes > usize::MAX {
                    usize::MAX as int
                } else {
                    bytes
                })
            }),
            m.estimated_grid_bytes == usage.estimated_grid_bytes,
            m.cache_bytes == usage.cache_bytes,
            m.compacted_rows == usage.compacted_rows,
            m.allocated_cells == usage.allocated_cells,
            !m.exact_bytes,
    {
        let retained_rows: usize = grid_history(&self.term);
        let cost: usize = estimated_row_bytes(grid_columns(&self.term));
        let retained_bytes: usize = match retained_rows.checked_mul(cost) {
            Some(n) => n,
            None => usize::MAX,
        };
        HistoryMetrics {
            offset: grid_offset(&self.term),
            retained_rows,
            budget_bytes: self.history_budget_bytes,
            retained_bytes,
            estimated_grid_bytes: usage.estimated_grid_bytes,
            cache_bytes: usage.cache_bytes,
            compacted_rows: usage.compacted_rows,
            allocated_cells: usage.allocated_cells,
            exact_bytes: false,
        }
    }

    /// How many rows there are, the live screen included.
    pub fn retained_row_count(&self) -> (n: usize)
        requires
            self.wf(),
        ensures
            n == self.screen().rows.len(),
    {
        grid_history(&self.term) + grid_lines(&self.term)
    }

    /// The text of a retained row, where there is one of this index.
    pub fn retained_row_text(&self, index: usize) -> (out: Option<String>)
        requires
            self.wf(),
        ensures
            out is Some <==> index < self.screen().rows.len(),
            out matches Some(s) ==> s@ == row::row_text(self.screen().rows[index as int]),
    {
        screen::retained_row_text(self, index)
    }

    /// Every retained row with its index, oldest first.
    pub fn for_each_retained_row(&self) -> (out: Vec<(usize, String)>)
        requires
            self.wf(),
        ensures
            out@.len() == self.screen().rows.len(),
            forall|i: int|
                #![trigger out@[i]]
                0 <= i < out@.len() ==> out@[i].0 == i && out@[i].1@ == row::row_text(
                    self.screen().rows[i],
                ),
    {
        screen::for_each_retained_row(self)
    }

    /// How the columns of a retained row divide into words, where there is a row
    /// of this index.
    pub fn retained_row_layout(&self, index: usize) -> (out: Option<RetainedRowLayout>)
        requires
            self.wf(),
        ensures
            out is Some <==> index < self.screen().rows.len(),
            out matches Some(layout) ==> {
                &&& layout.whitespace@ == row::layout_whitespace(self.screen().rows[index as int])
                &&& layout.has_text == (row::layout_scan(
                    self.screen().rows[index as int],
                ).last_content is Some)
            },
    {
        screen::retained_row_layout(self, index)
    }

    /// The columns that a selection takes of a row.
    fn row_columns(
        &self,
        start: (usize, usize),
        end: (usize, usize),
        index: usize,
    ) -> (cols: (usize, usize))
        requires
            self.wf(),
        ensures
            (cols.0 as int, cols.1 as int) == selected_columns(
                self.screen(),
                (start.0 as int, start.1 as int),
                (end.0 as int, end.1 as int),
                index as int,
            ),
    {
        let last: usize = grid_columns(&self.term) - 1;
        let left: usize = if index == start.0 {
            start.1
        } else if start.1 < end.1 {
            start.1
        } else {
            end.1
        };
        let right: usize = if index == end.0 {
            end.1
        } else {
            last
        };
        (
            if left < last {
                left
            } else {
                last
            },
            if right < last {
                right
            } else {
                last
            },
        )
    }

    /// Whether every row of the selection can be read.
    pub fn retained_selection_readable(&self, start: (usize, usize), end: (usize, usize)) -> (b: bool)
        requires
            self.wf(),
        ensures
            b == selection_readable(
                self.screen(),
                (start.0 as int, start.1 as int),
                (end.0 as int, end.1 as int),
            ),
    {
        let ghost s = self.screen();
        let ghost st = (start.0 as int, start.1 as int);
        let ghost en = (end.0 as int, end.1 as int);
        let total: usize = grid_history(&self.term) + grid_lines(&self.term);
        let last: usize = grid_columns(&self.term) - 1;
        let mut index: usize = start.0;
        while index < total && index <= end.0
            invariant
                self.wf(),
                s == self.screen(),
                st == (start.0 as int, start.1 as int),
                en == (end.0 as int, end.1 as int),
                total == s.rows.len(),
                last == s.columns - 1,
                index >= start.0,
                forall|k: int|
                    start.0 <= k < index && k < s.rows.len() && k <= end.0 ==> {
                        let cols = #[trigger] selected_columns(s, st, en, k);
                        cols.0 <= cols.1 ==> readable(s, k, cols.0, cols.1)
                    },
            decreases total - index,
        {
            let (left, right) = self.row_columns(start, end, index);
            if left <= right {
                let cells = self.row(index);
                let ghost rv = cell::row_view(cells@);
                assert(rv == s.rows[index as int]);
                assert(cells@.len() == rv.len());
                assert(rv[0] == cells@[0]@);
                assert(rv.last() == cells@[last as int]@);
                let bad_start: bool = left == 0 && cells[0].spacer();
                let bad_end: bool = index == 0 && right == last && flag_set(
                    cells[last].flags,
                    FLAG_LEADING_WIDE_CHAR_SPACER,
                );
                if bad_start || bad_end {
                    assert(!readable(s, index as int, left as int, right as int));
                    assert(selected_columns(s, st, en, index as int) == (
                        left as int,
                        right as int,
                    ));
                    return false;
                }
            }
            index = index + 1;
        }
        true
    }

    /// The text of a selection of retained rows, from its start to its end, each
    /// given as a row and a column. There is none where the selection is empty.
    pub fn retained_selection_text(&self, selection: ((usize, usize), (usize, usize))) -> (out:
        Option<String>)
        requires
            self.wf(),
            selection_readable(
                self.screen(),
                (selection.0.0 as int, selection.0.1 as int),
                (selection.1.0 as int, selection.1.1 as int),
            ),
        ensures
            out is Some <==> selection.0.0 <= selection.1.0 && selection.0.0
                < self.screen().rows.len(),
            out matches Some(t) ==> t@ == joined_lines(
                self.selected_lines(
                    (selection.0.0 as int, selection.0.1 as int),
                    (selection.1.0 as int, selection.1.1 as int),
                ),
            ),
            out is Some && plain_selection(
                self.screen(),
                (selection.0.0 as int, selection.0.1 as int),
                (selection.1.0 as int, selection.1.1 as int),
            ) ==> out->0@ == joined_lines(
                plain_lines(
                    self.screen(),
                    (selection.0.0 as int, selection.0.1 as int),
                    (selection.1.0 as int, selection.1.1 as int),
                ),
            ),
    {
        let (start, end) = selection;
        let ghost s = self.screen();
        let ghost st = (start.0 as int, start.1 as int);
        let ghost en = (end.0 as int, end.1 as int);
        let total: usize = grid_history(&self.term) + grid_lines(&self.term);
        let history: usize = grid_history(&self.term);
        let mut lines: Vec<String> = Vec::new();
        let mut index: usize = start.0;
        while index < total && index <= end.0
            invariant
                self.wf(),
                s == self.screen(),
                st == (start.0 as int, start.1 as int),
                en == (end.0 as int, end.1 as int),
                selection_readable(s, st, en),
                total == s.rows.len(),
                history == s.history(),
                index >= start.0,
                start.0 <= end.0 && start.0 < total ==> index <= end.0 + 1 && index <= total,
                !(start.0 <= end.0 && start.0 < total) ==> index == start.0,
                lines@.len() == index - start.0,
                forall|i: int|
                    0 <= i < lines@.len() ==> (#[trigger] lines@[i])@ == self.selected_line(
                        st,
                        en,
                        start.0 + i,
                    ),
                plain_selection(s, st, en) ==> forall|i: int|
                    0 <= i < lines@.len() ==> (#[trigger] lines@[i])@ == plain_line(
                        s,
                        st,
                        en,
                        start.0 + i,
                    ),
            decreases total - index,
        {
            let (left, right) = self.row_columns(start, end, index);
            assert(selected_columns(s, st, en, index as int) == (left as int, right as int));
            if left <= right {
                let line: i32 = index as i32 - history as i32;
                lines.push(read_bounds(&self.term, line, left, right));
            } else {
                lines.push(String::new());
            }
            index = index + 1;
        }
        assert(Seq::new(lines@.len(), |i: int| lines@[i]@) =~= self.selected_lines(st, en));
        assert(plain_selection(s, st, en) ==> Seq::new(lines@.len(), |i: int| lines@[i]@)
            =~= plain_lines(s, st, en));
        join_lines(&lines)
    }

    /// What the terminal reads of a selected row.
    pub closed spec fn selected_line(&self, start: (int, int), end: (int, int), index: int) -> Seq<
        char,
    > {
        let cols = selected_columns(self.screen(), start, end, index);
        if cols.0 <= cols.1 {
            bounds_text(self.term, index - self.screen().history(), cols.0, cols.1)
        } else {
            Seq::<char>::empty()
        }
    }

    /// What the terminal reads of the selected rows, in order.
    pub open spec fn selected_lines(&self, start: (int, int), end: (int, int)) -> Seq<Seq<char>> {
        Seq::new(
            selected_rows(self.screen(), start, end),
            |i: int| self.selected_line(start, end, start.0 + i),
        )
    }

    /// Whether the alternate screen is shown.
    pub fn alt_screen(&self) -> (b: bool)
        ensures
            b == (self.screen().modes & MODE_ALT_SCREEN == MODE_ALT_SCREEN),
    {
        self.has_mode(MODE_ALT_SCREEN)
    }

    /// Whether the application asked for any mouse report.
    pub fn mouse_report(&self) -> (b: bool)
        ensures
            b == (self.screen().modes & (MODE_MOUSE_REPORT_CLICK | MODE_MOUSE_MOTION
                | MODE_MOUSE_DRAG) != 0),
    {
        self.any_mode(MODE_MOUSE_REPORT_CLICK | MODE_MOUSE_MOTION | MODE_MOUSE_DRAG)
    }

    /// Whether the wheel sends cursor keys on the alternate screen.
    pub fn alternate_scroll(&self) -> (b: bool)
        ensures
            b == (self.screen().modes & MODE_ALTERNATE_SCROLL == MODE_ALTERNATE_SCROLL),
    {
        self.has_mode(MODE_ALTERNATE_SCROLL)
    }

    /// Whether cursor keys send application sequences.
    pub fn application_cursor(&self) -> (b: bool)
        ensures
            b == (self.screen().modes & MODE_APP_CURSOR == MODE_APP_CURSOR),
    {
        self.has_mode(MODE_APP_CURSOR)
    }

    /// Whether the application asked for reports of drags.
    pub fn mouse_drag(&self) -> (b: bool)
        ensures
            b == (self.screen().modes & (MODE_MOUSE_DRAG | MODE_MOUSE_MOTION) != 0),
    {
        self.any_mode(MODE_MOUSE_DRAG | MODE_MOUSE_MOTION)
    }

    /// Whether the application asked for reports of every motion.
    pub fn mouse_motion(&self) -> (b: bool)
        ensures
            b == (self.screen().modes & MODE_MOUSE_MOTION == MODE_MOUSE_MOTION),
    {
        self.has_mode(MODE_MOUSE_MOTION)
    }

    /// Whether mouse reports use the SGR encoding.
    pub fn sgr_mouse(&self) -> (b: bool)
        ensures
            b == (self.screen().modes & MODE_SGR_MOUSE == MODE_SGR_MOUSE),
    {
        self.has_mode(MODE_SGR_MOUSE)
    }

    /// Whether pastes are bracketed.
    pub fn bracketed_paste(&self) -> (b: bool)
        ensures
            b == (self.screen().modes & MODE_BRACKETED_PASTE == MODE_BRACKETED_PASTE),
    {
        self.has_mode(MODE_BRACKETED_PASTE)
    }

    /// The live screen as text that draws it again.
    pub fn snapshot_ansi(&self) -> (out: String)
        requires
            self.wf(),
            self.screen().in_view(),
        ensures
            out@ == snapshot::snapshot_code(self.screen()),
    {
        snapshot::snapshot_ansi(self)
    }
}

/// What is detected of a terminal does not depend on where its view is.
pub proof fn law_detection_ignores_the_view(s: Screen, offset: nat, n: nat)
    ensures
        screen::joined_text(screen::bottom_rows(Screen { offset, ..s }, n))
            == screen::joined_text(screen::bottom_rows(s, n)),
{
}

/// Lowering the limit drops history at once, keeps every newer row, and leaves
/// the view within what is left.
pub proof fn law_limit_drops_the_oldest_rows(s: Screen, limit: nat)
    requires
        grid_wf(s),
        limit <= MAX_HISTORY_ROWS,
        s.modes & MODE_ALT_SCREEN != MODE_ALT_SCREEN,
    ensures
        grid_wf(limited_screen(s, limit)),
        limited_screen(s, limit).history() <= limit,
        s.history() <= limit ==> limited_screen(s, limit).rows == s.rows,
        forall|i: int|
            0 <= i < limited_screen(s, limit).rows.len() ==> #[trigger] limited_screen(
                s,
                limit,
            ).rows[i] == s.rows[s.rows.len() - limited_screen(s, limit).rows.len() + i],
{
}

/// Scrolling moves the view up by as many rows as asked for, and back down by as
/// many, as far as there are rows. The top is the oldest row and the bottom the live
/// screen.
pub proof fn law_scrolling_moves_the_view(s: Screen, n: int)
    requires
        s.in_view(),
        s.history() >= 0,
        i32::MIN <= n <= i32::MAX,
    ensures
        0 <= s.offset + n <= s.history() ==> scrolled_offset(s, ScrollTo::Delta(n as i32))
            == s.offset + n,
        s.offset + n > s.history() ==> scrolled_offset(s, ScrollTo::Delta(n as i32)) == s.history(),
        s.offset + n < 0 ==> scrolled_offset(s, ScrollTo::Delta(n as i32)) == 0,
        n > 0 && s.offset < s.history() ==> scrolled_offset(s, ScrollTo::Delta(n as i32)) > s.offset,
        scrolled_offset(s, ScrollTo::Bottom) == 0,
        (Screen { offset: scrolled_offset(s, ScrollTo::Top) as nat, ..s }).viewed(0) == s.rows[0],
        (Screen { offset: scrolled_offset(s, ScrollTo::Bottom) as nat, ..s }).viewed(0) == s.live(0),
{
}

/// Scrolling up and then down by as many rows shows what was shown, where there were
/// that many rows above.
pub proof fn law_scrolling_back_undoes_scrolling(s: Screen, n: int)
    requires
        0 <= n <= i32::MAX,
        s.offset + n <= s.history(),
    ensures
        ({
            let up = Screen {
                offset: scrolled_offset(s, ScrollTo::Delta(n as i32)) as nat,
                ..s
            };
            scrolled_offset(up, ScrollTo::Delta(-n as i32)) == s.offset
        }),
{
}

/// A budget retains as many rows as it affords: one more would exceed it.
pub proof fn law_budgets_are_used_up(bytes: nat, cols: nat)
    requires
        bytes >= row_cost(cols),
    ensures
        (budget_rows(bytes, cols) + 1) * row_cost(cols) > bytes,
{
    let cost = row_cost(cols);
    vstd::arithmetic::div_mod::lemma_fundamental_div_mod(bytes as int, cost as int);
    let q = bytes / cost;
    assert(q >= 1) by (nonlinear_arith)
        requires
            bytes >= cost,
            cost >= 1,
            q == bytes / cost,
    ;
    let r = bytes % cost;
    assert((q + 1) * cost > bytes) by (nonlinear_arith)
        requires
            bytes == cost * q + r,
            r < cost,
    ;
}

/// The cursor is shown where it is on the live screen, and not at all while the view
/// is scrolled back or the program hides it.
pub proof fn law_the_cursor_is_shown_on_the_live_screen_only(s: Screen)
    requires
        0 <= s.cursor.0 <= u16::MAX,
        0 <= s.cursor.1 <= u16::MAX,
    ensures
        drawn_cursor(s).visible ==> s.offset == 0 && drawn_cursor(s).x == s.cursor.0
            && drawn_cursor(s).y == s.cursor.1,
        s.offset == 0 && s.modes & 0x1 == 0x1 ==> drawn_cursor(s).visible,
        s.modes & 0x1 == 0 ==> !drawn_cursor(s).visible,
{
}

/// The text of a selection is that of its rows from the top down, one to a line: the
/// first line is the first row's, and what follows the break is the rest.
pub proof fn law_selected_lines_stand_in_order(first: Seq<char>, rest: Seq<Seq<char>>)
    requires
        rest.len() > 0,
    ensures
        joined_lines(seq![first] + rest) == joined_lines(seq![first]) + seq!['\n'] + joined_lines(
            rest,
        ),
    decreases rest.len(),
{
    let all = seq![first] + rest;
    assert(all.drop_last() =~= seq![first] + rest.drop_last());
    assert(all.last() == rest.last());
    let last = text::trim_end_char(rest.last(), ' ');
    if rest.len() == 1 {
        assert(all.drop_last() =~= seq![first]);
        assert(joined_lines(all) =~= joined_lines(seq![first]) + seq!['\n'] + last);
    } else {
        law_selected_lines_stand_in_order(first, rest.drop_last());
        assert(joined_lines(all) =~= joined_lines(seq![first]) + seq!['\n'] + joined_lines(rest));
    }
}

/// What is copied of a row is what is marked of it: the columns of a selection that
/// are read are those whose cells are shown as selected.
pub proof fn law_marked_cells_are_copied(
    s: Screen,
    start: (int, int),
    end: (int, int),
    index: int,
    col: int,
)
    requires
        crate::selection::not_after(start, end),
        s.columns >= 1,
        0 <= start.1 < s.columns,
        0 <= end.1 < s.columns,
        start.0 <= index <= end.0,
        0 <= col < s.columns,
    ensures
        ({
            let cols = selected_columns(s, start, end, index);
            cols.0 <= col <= cols.1 <==> crate::selection::in_text_range(
                start,
                end,
                s.columns - 1,
                (index, col),
            )
        }),
{
}

/// A selection takes every row from its first to its last, as far as there are any.
pub proof fn law_selections_take_every_row(s: Screen, start: (int, int), end: (int, int))
    requires
        0 <= start.0 <= end.0,
        start.0 < s.rows.len(),
    ensures
        end.0 < s.rows.len() ==> selected_rows(s, start, end) == end.0 - start.0 + 1,
        end.0 >= s.rows.len() ==> selected_rows(s, start, end) == s.rows.len() - start.0,
        forall|i: int|
            0 <= i < selected_rows(s, start, end) ==> #[trigger] plain_lines(s, start, end)[i]
                == plain_line(s, start, end, start.0 + i),
{
}

} // verus!
