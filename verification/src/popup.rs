//! Context menus on the screen: their labels, and where their rows are.
use vstd::prelude::*;
use vstd::string::*;

use crate::geometry;
use crate::geometry::{bordered_inner, Rect};
use crate::menus::{
    AgentMenuItem, Catalog, DiffMenuItem, FileMenuItem, ModuleMenuAction, PaneMenuItem, TabMenuItem,
    WsMenuItem,
};
use crate::text;

verus! {

/// A row of a popup.
#[derive(Debug)]
pub struct MenuRow {
    pub text: String,
    pub divider: bool,
    pub destructive: bool,
}

// ---------------------------------------------------------------------------
// Geometry
// ---------------------------------------------------------------------------

/// The width of a popup without rows, in columns of text.
pub const EMPTY_WIDTH: u16 = 6;

/// The least width of a popup.
pub const POPUP_WIDTH_MIN: u16 = 12;

/// The widest label that a popup can take.
pub const LABEL_WIDTH_MAX: usize = 65_532;

/// How many lines a row takes: two where it is tapped.
pub open spec fn row_height(mobile: bool) -> u16 {
    if mobile {
        2
    } else {
        1
    }
}

/// How many lines so many rows take.
pub open spec fn lines_of(rows: int, mobile: bool) -> int {
    if mobile {
        2 * rows
    } else {
        rows
    }
}

/// The widest of the labels.
pub open spec fn widest(widths: Seq<usize>) -> nat
    decreases widths.len(),
{
    if widths.len() == 0 {
        0
    } else if widths.last() > widest(widths.drop_last()) {
        widths.last() as nat
    } else {
        widest(widths.drop_last())
    }
}

/// The width for labels.
pub open spec fn label_width(widths: Seq<usize>) -> nat {
    if widths.len() == 0 {
        EMPTY_WIDTH as nat
    } else {
        widest(widths)
    }
}

/// Whether a popup with these labels can be laid out in the area.
pub open spec fn fits(area: Rect, widths: Seq<usize>, mobile: bool) -> bool {
    &&& mobile || area.width >= POPUP_WIDTH_MIN
    &&& widest(widths) <= LABEL_WIDTH_MAX
    &&& lines_of(widths.len() as int, mobile) + 2 <= u16::MAX
}

/// The popup for so many rows with labels so wide: as wide as they need and at
/// the anchor, moved so that it stays on the screen. A tapped popup takes the
/// whole width at the bottom.
pub open spec fn popup_rect(
    area: Rect,
    anchor: (u16, u16),
    rows: nat,
    label: nat,
    mobile: bool,
) -> Rect {
    let w = if mobile {
        geometry::max16(area.width, 1)
    } else {
        geometry::clamp16((label + 3) as u16, POPUP_WIDTH_MIN, geometry::max16(area.width, 1))
    };
    let h = geometry::min16((lines_of(rows as int, mobile) + 2) as u16, geometry::max16(area.height, 1));
    let x = if mobile {
        area.x
    } else {
        geometry::max16(
            geometry::min16(anchor.0, geometry::sat_sub(area.right_spec(), w)),
            area.x,
        )
    };
    let y = if mobile {
        geometry::sat_sub(area.bottom_spec(), h)
    } else {
        geometry::max16(
            geometry::min16(anchor.1, geometry::sat_sub(area.bottom_spec(), h)),
            area.y,
        )
    };
    Rect::cut(x, y, w, h)
}

/// The popup stays within its area.
pub proof fn law_popup_stays_on_screen(
    area: Rect,
    anchor: (u16, u16),
    rows: nat,
    label: nat,
    mobile: bool,
)
    requires
        area.width >= 1 && area.height >= 1,
        area.x + area.width <= u16::MAX,
        area.y + area.height <= u16::MAX,
        mobile || area.width >= POPUP_WIDTH_MIN,
        label <= LABEL_WIDTH_MAX,
        lines_of(rows as int, mobile) + 2 <= u16::MAX,
    ensures
        ({
            let p = popup_rect(area, anchor, rows, label, mobile);
            &&& area.x <= p.x && p.right_spec() <= area.right_spec()
            &&& area.y <= p.y && p.bottom_spec() <= area.bottom_spec()
            &&& p.width >= 1 && p.height >= 1
        }),
{
}

/// The lines of row `i`.
pub open spec fn row_rect(inner: Rect, i: int, mobile: bool) -> Rect {
    Rect {
        x: inner.x,
        y: (inner.y + lines_of(i, mobile)) as u16,
        width: inner.width,
        height: geometry::min16(row_height(mobile), (inner.height - lines_of(i, mobile)) as u16),
    }
}

/// The line on which the label of a row is.
pub open spec fn text_rect(row: Rect) -> Rect {
    Rect { x: row.x, y: (row.y + (row.height - 1) / 2) as u16, width: row.width, height: 1 }
}

/// Where a popup and its rows are.
#[derive(Debug, PartialEq, Eq)]
pub struct Popup {
    pub outer: Rect,
    pub inner: Rect,
    /// The rows that are visible, from the first on.
    pub rows: Vec<Rect>,
    /// The lines of their labels.
    pub labels: Vec<Rect>,
}

impl Popup {
    /// Whether this is the layout of a popup.
    pub open spec fn is_laid_out(
        self,
        area: Rect,
        anchor: (u16, u16),
        widths: Seq<usize>,
        mobile: bool,
    ) -> bool {
        let n = widths.len();
        &&& self.outer == popup_rect(area, anchor, n, label_width(widths), mobile)
        &&& self.inner == geometry::inside_border(self.outer)
        &&& self.rows@.len() <= n
        &&& self.labels@.len() == self.rows@.len()
        &&& forall|i: int|
            0 <= i < self.rows@.len() ==> lines_of(i, mobile) < self.inner.height
                && #[trigger] self.rows@[i] == row_rect(self.inner, i, mobile)
        &&& forall|i: int|
            0 <= i < self.rows@.len() ==> #[trigger] self.labels@[i] == text_rect(self.rows@[i])
        &&& self.rows@.len() < n ==> lines_of(self.rows@.len() as int, mobile) >= self.inner.height
    }
}

fn min_of(a: u16, b: u16) -> (m: u16)
    ensures
        m == geometry::min16(a, b),
{
    if a < b {
        a
    } else {
        b
    }
}

fn max_of(a: u16, b: u16) -> (m: u16)
    ensures
        m == geometry::max16(a, b),
{
    if a > b {
        a
    } else {
        b
    }
}

fn widest_of(widths: &Vec<usize>) -> (w: usize)
    ensures
        w == widest(widths@),
{
    let mut w: usize = 0;
    let mut i: usize = 0;
    assert(widths@.take(0) =~= Seq::<usize>::empty());
    while i < widths.len()
        invariant
            i <= widths@.len(),
            w == widest(widths@.take(i as int)),
        decreases widths@.len() - i,
    {
        assert(widths@.take(i + 1).drop_last() =~= widths@.take(i as int));
        if widths[i] > w {
            w = widths[i];
        }
        i = i + 1;
    }
    assert(widths@.take(i as int) =~= widths@);
    w
}

/// Whether a popup with these labels can be laid out in the area.
pub fn can_lay_out(area: Rect, widths: &Vec<usize>, mobile: bool) -> (b: bool)
    ensures
        b == fits(area, widths@, mobile),
{
    let n: usize = widths.len();
    let most: usize = if mobile {
        32_766
    } else {
        65_533
    };
    (mobile || area.width >= POPUP_WIDTH_MIN) && widest_of(widths) <= LABEL_WIDTH_MAX && n <= most
}

/// How many of `n` rows are inside a border of this height.
pub open spec fn shown_count(n: nat, height: u16, mobile: bool) -> nat {
    let room = if mobile {
        (height as nat + 1) / 2
    } else {
        height as nat
    };
    if n < room {
        n
    } else {
        room
    }
}

/// The rows of a popup that are visible.
pub open spec fn visible_rows(
    area: Rect,
    anchor: (u16, u16),
    widths: Seq<usize>,
    mobile: bool,
) -> Seq<Rect> {
    let outer = popup_rect(area, anchor, widths.len(), label_width(widths), mobile);
    let inner = geometry::inside_border(outer);
    Seq::new(
        shown_count(widths.len(), inner.height, mobile),
        |i: int| row_rect(inner, i, mobile),
    )
}

/// The rows of a layout are the visible ones.
pub proof fn lemma_laid_out_rows(
    popup: Popup,
    area: Rect,
    anchor: (u16, u16),
    widths: Seq<usize>,
    mobile: bool,
)
    requires
        popup.is_laid_out(area, anchor, widths, mobile),
    ensures
        popup.rows@ == visible_rows(area, anchor, widths, mobile),
{
    let n = popup.rows@.len();
    if n > 0 {
        assert(popup.rows@[n - 1] == row_rect(popup.inner, n - 1, mobile));
    }
    assert(popup.rows@ =~= visible_rows(area, anchor, widths, mobile));
}

// ---------------------------------------------------------------------------
// Labels on the screen
// ---------------------------------------------------------------------------

/// How many columns a text takes on the screen.
pub uninterp spec fn shown_width(text: Seq<char>) -> usize;

/// `Span::width` of ratatui: how many columns the text takes on the screen, by the
/// Unicode widths of its characters. That it depends on the text alone is all that
/// is claimed of it.
#[verifier::external_body]
fn text_width(text: &str) -> (n: usize)
    ensures
        n == shown_width(text@),
{
    ratatui::text::Span::raw(text).width()
}

/// How wide the labels of rows are on the screen.
pub open spec fn label_widths(rows: Seq<MenuRow>) -> Seq<usize> {
    Seq::new(rows.len(), |i: int| shown_width(rows[i].text@))
}

/// How wide the labels of rows are on the screen.
pub fn measure(rows: &Vec<MenuRow>) -> (widths: Vec<usize>)
    ensures
        widths@ == label_widths(rows@),
{
    let mut widths: Vec<usize> = Vec::new();
    let mut i: usize = 0;
    while i < rows.len()
        invariant
            i <= rows@.len(),
            widths@ == label_widths(rows@).take(i as int),
        decreases rows@.len() - i,
    {
        widths.push(text_width(rows[i].text.as_str()));
        i = i + 1;
        assert(widths@ =~= label_widths(rows@).take(i as int));
    }
    assert(widths@ =~= label_widths(rows@));
    widths
}

/// How wide the labels of a submenu are on the screen.
pub open spec fn target_widths<T>(targets: Seq<(T, String)>) -> Seq<usize> {
    Seq::new(targets.len(), |i: int| shown_width(targets[i].1@))
}

/// How wide the labels of a submenu are on the screen.
pub fn measure_targets<T>(targets: &Vec<(T, String)>) -> (widths: Vec<usize>)
    ensures
        widths@ == target_widths(targets@),
{
    let mut widths: Vec<usize> = Vec::new();
    let mut i: usize = 0;
    while i < targets.len()
        invariant
            i <= targets@.len(),
            widths@ == target_widths(targets@).take(i as int),
        decreases targets@.len() - i,
    {
        widths.push(text_width(targets[i].1.as_str()));
        i = i + 1;
        assert(widths@ =~= target_widths(targets@).take(i as int));
    }
    assert(widths@ =~= target_widths(targets@));
    widths
}

/// Lays out a popup for these rows, where it can be laid out in the area.
pub fn lay_out_rows(area: Rect, anchor: (u16, u16), rows: &Vec<MenuRow>, mobile: bool) -> (popup: Option<
    Popup,
>)
    ensures
        match popup {
            Some(p) => fits(area, label_widths(rows@), mobile) && p.is_laid_out(
                area,
                anchor,
                label_widths(rows@),
                mobile,
            ),
            None => !fits(area, label_widths(rows@), mobile),
        },
{
    let widths = measure(rows);
    if can_lay_out(area, &widths, mobile) {
        Some(lay_out(area, anchor, &widths, mobile))
    } else {
        None
    }
}

/// Lays out a popup for rows whose labels are so wide on the screen. Rows that do
/// not fit are left out.
pub fn lay_out(area: Rect, anchor: (u16, u16), widths: &Vec<usize>, mobile: bool) -> (popup: Popup)
    requires
        fits(area, widths@, mobile),
    ensures
        popup.is_laid_out(area, anchor, widths@, mobile),
{
    let label: u16 = if widths.len() == 0 {
        EMPTY_WIDTH
    } else {
        widest_of(widths) as u16
    };
    let height: u16 = if mobile {
        2
    } else {
        1
    };
    let n: usize = widths.len();
    let lines: u16 = if mobile {
        n as u16 * 2
    } else {
        n as u16
    };
    assert(lines == lines_of(n as int, mobile));
    let w: u16 = if mobile {
        max_of(area.width, 1)
    } else if label + 3 < POPUP_WIDTH_MIN {
        POPUP_WIDTH_MIN
    } else {
        min_of(label + 3, max_of(area.width, 1))
    };
    let h: u16 = min_of(lines + 2, max_of(area.height, 1));
    let x: u16 = if mobile {
        area.x
    } else {
        max_of(min_of(anchor.0, area.right().saturating_sub(w)), area.x)
    };
    let y: u16 = if mobile {
        area.bottom().saturating_sub(h)
    } else {
        max_of(min_of(anchor.1, area.bottom().saturating_sub(h)), area.y)
    };
    let outer = Rect::new(x, y, w, h);
    let inner = bordered_inner(outer);
    let mut rows: Vec<Rect> = Vec::new();
    let mut labels: Vec<Rect> = Vec::new();
    let mut i: usize = 0;
    let mut top: u16 = 0;
    while i < n && top < inner.height
        invariant
            i <= n,
            height == row_height(mobile),
            top == lines_of(i as int, mobile),
            lines_of(n as int, mobile) + 2 <= u16::MAX,
            inner == geometry::inside_border(outer),
            outer.y + outer.height <= u16::MAX,
            rows@.len() == i,
            labels@.len() == i,
            forall|k: int|
                0 <= k < i ==> lines_of(k, mobile) < inner.height && #[trigger] rows@[k]
                    == row_rect(inner, k, mobile),
            forall|k: int| 0 <= k < i ==> #[trigger] labels@[k] == text_rect(rows@[k]),
        decreases n - i,
    {
        let row = Rect {
            x: inner.x,
            y: inner.y + top,
            width: inner.width,
            height: min_of(height, inner.height - top),
        };
        assert(row == row_rect(inner, i as int, mobile));
        let line = Rect {
            x: row.x,
            y: row.y + (row.height - 1) / 2,
            width: row.width,
            height: 1,
        };
        rows.push(row);
        labels.push(line);
        i = i + 1;
        top = top + height;
    }
    assert forall|k: int| 0 <= k < rows@.len() implies #[trigger] lines_of(k, mobile)
        < inner.height by {
        assert(rows@[k] == row_rect(inner, k, mobile));
    }
    Popup { outer, inner, rows, labels }
}

/// The rows of a popup lie inside its border, one below the other.
pub proof fn law_rows_do_not_overlap(
    popup: Popup,
    area: Rect,
    anchor: (u16, u16),
    widths: Seq<usize>,
    mobile: bool,
    i: int,
    j: int,
    c: u16,
    r: u16,
)
    requires
        popup.is_laid_out(area, anchor, widths, mobile),
        0 <= i < popup.rows@.len(),
        0 <= j < popup.rows@.len(),
        popup.rows@[i].has_cell(c, r),
    ensures
        popup.inner.has_cell(c, r),
        popup.rows@[j].has_cell(c, r) ==> i == j,
{
    let (a, b) = (popup.rows@[i], popup.rows@[j]);
    assert(a == row_rect(popup.inner, i, mobile));
    assert(b == row_rect(popup.inner, j, mobile));
}

/// Whether the pointer is on the row.
pub fn row_is_hovered(row: Rect, hover: Option<(u16, u16)>) -> (b: bool)
    ensures
        b == (hover is Some && row.has_cell((hover->0).0, (hover->0).1)),
{
    match hover {
        Some((column, line)) => row.contains(column, line),
        None => false,
    }
}

/// How a row is drawn.
#[derive(Clone, Copy, Debug, PartialEq, Eq, Structural)]
pub enum RowLook {
    /// A line across the popup.
    Line,
    Hovered,
    Destructive,
    Plain,
}

/// How a row is drawn.
pub fn row_look(item: &MenuRow, row: Rect, hover: Option<(u16, u16)>) -> (look: RowLook)
    ensures
        look == (if item.divider {
            RowLook::Line
        } else if hover is Some && row.has_cell((hover->0).0, (hover->0).1) {
            RowLook::Hovered
        } else if item.destructive {
            RowLook::Destructive
        } else {
            RowLook::Plain
        }),
{
    if item.divider {
        RowLook::Line
    } else if row_is_hovered(row, hover) {
        RowLook::Hovered
    } else if item.destructive {
        RowLook::Destructive
    } else {
        RowLook::Plain
    }
}

// ---------------------------------------------------------------------------
// Labels
// ---------------------------------------------------------------------------

/// The upper case of a character, by the tables of Unicode.
pub uninterp spec fn upper_text(c: char) -> Seq<char>;

/// `char::to_uppercase` of std, collected into a text: the upper case of a
/// character by the tables of Unicode, which can be more than one character.
#[verifier::external_body]
fn upper(c: char) -> (s: String)
    ensures
        s@ == upper_text(c),
{
    c.to_uppercase().to_string()
}

/// The text with its first character in upper case.
pub open spec fn capitalized(s: Seq<char>) -> Seq<char> {
    if s.len() == 0 {
        s
    } else {
        upper_text(s[0]) + s.skip(1)
    }
}

/// The text with its first character in upper case.
pub fn cap_first(s: &str) -> (r: String)
    ensures
        r@ == capitalized(s@),
{
    let n: usize = s.unicode_len();
    if n == 0 {
        return String::new();
    }
    let mut r = upper(s.get_char(0));
    let rest = s.substring_char(1, n);
    r.append(rest);
    assert(r@ =~= capitalized(s@));
    r
}

/// The title of a module's action; nothing where there is none.
pub open spec fn module_text(extras: Seq<ModuleMenuAction>, i: usize) -> Seq<char> {
    if i < extras.len() {
        extras[i as int].title@
    } else {
        seq![]
    }
}

/// The title of a module's action.
pub fn module_label(extras: &Vec<ModuleMenuAction>, i: usize) -> (label: String)
    ensures
        label@ == module_text(extras@, i),
{
    if i < extras.len() {
        extras[i].title.clone()
    } else {
        String::new()
    }
}

/// The label of a row that opens another popup.
pub open spec fn opener(s: Seq<char>) -> Seq<char> {
    s + " ▸"@
}

fn with_arrow(s: &str) -> (r: String)
    ensures
        r@ == opener(s@),
{
    let mut r: String = s.to_owned();
    r.append(" ▸");
    r
}

/// The label of a row of the agent menu.
pub open spec fn agent_text(it: AgentMenuItem, cat: Catalog, extras: Seq<ModuleMenuAction>) -> Seq<char> {
    match it {
        AgentMenuItem::Resume => cat.menu_resume@,
        AgentMenuItem::RenamePane => cat.menu_rename@,
        AgentMenuItem::Pin => cat.menu_pin@,
        AgentMenuItem::Unpin => cat.menu_unpin@,
        AgentMenuItem::Close => capitalized(cat.act_close@),
        AgentMenuItem::Divider => seq![],
        AgentMenuItem::Module(i) => module_text(extras, i),
    }
}

/// The label of a row of the agent menu.
pub fn agent_label(it: AgentMenuItem, cat: &Catalog, extras: &Vec<ModuleMenuAction>) -> (label: String)
    ensures
        label@ == agent_text(it, *cat, extras@),
{
    match it {
        AgentMenuItem::Resume => cat.menu_resume.to_owned(),
        AgentMenuItem::RenamePane => cat.menu_rename.to_owned(),
        AgentMenuItem::Pin => cat.menu_pin.to_owned(),
        AgentMenuItem::Unpin => cat.menu_unpin.to_owned(),
        AgentMenuItem::Close => cap_first(cat.act_close),
        AgentMenuItem::Divider => String::new(),
        AgentMenuItem::Module(i) => module_label(extras, i),
    }
}

/// The label of a row of the workspace menu.
pub open spec fn ws_text(it: WsMenuItem, cat: Catalog, extras: Seq<ModuleMenuAction>) -> Seq<char> {
    match it {
        WsMenuItem::Pin => cat.menu_pin@,
        WsMenuItem::Unpin => cat.menu_unpin@,
        WsMenuItem::Close => capitalized(cat.act_close@),
        WsMenuItem::Rename => cat.menu_rename@,
        WsMenuItem::DeleteWorktree => cat.menu_delete_worktree@,
        WsMenuItem::NewWorktree => cat.menu_new_worktree@,
        WsMenuItem::OpenWorktree => cat.menu_open_worktree@,
        WsMenuItem::Divider => seq![],
        WsMenuItem::OpenGit => cat.menu_open_git@,
        WsMenuItem::OpenOrch => cat.menu_open_board@,
        WsMenuItem::OpenMission => cat.mc_open@,
        WsMenuItem::Module(i) => module_text(extras, i),
    }
}

/// The label of a row of the workspace menu.
pub fn ws_label(it: WsMenuItem, cat: &Catalog, extras: &Vec<ModuleMenuAction>) -> (label: String)
    ensures
        label@ == ws_text(it, *cat, extras@),
{
    match it {
        WsMenuItem::Pin => cat.menu_pin.to_owned(),
        WsMenuItem::Unpin => cat.menu_unpin.to_owned(),
        WsMenuItem::Close => cap_first(cat.act_close),
        WsMenuItem::Rename => cat.menu_rename.to_owned(),
        WsMenuItem::DeleteWorktree => cat.menu_delete_worktree.to_owned(),
        WsMenuItem::NewWorktree => cat.menu_new_worktree.to_owned(),
        WsMenuItem::OpenWorktree => cat.menu_open_worktree.to_owned(),
        WsMenuItem::Divider => String::new(),
        WsMenuItem::OpenGit => cat.menu_open_git.to_owned(),
        WsMenuItem::OpenOrch => cat.menu_open_board.to_owned(),
        WsMenuItem::OpenMission => cat.mc_open.to_owned(),
        WsMenuItem::Module(i) => module_label(extras, i),
    }
}

/// The label of a row of the pane menu.
pub open spec fn pane_text(it: PaneMenuItem, cat: Catalog, extras: Seq<ModuleMenuAction>) -> Seq<char> {
    match it {
        PaneMenuItem::SplitVertical => cat.menu_split_vertical@,
        PaneMenuItem::SplitHorizontal => cat.menu_split_horizontal@,
        PaneMenuItem::ForkPane => cat.menu_fork_pane@,
        PaneMenuItem::OpenLink => cat.menu_open_link@,
        PaneMenuItem::OpenFile => cat.menu_open_file@,
        PaneMenuItem::RunningCmd => cat.menu_running_cmd@,
        PaneMenuItem::RenamePane => cat.menu_rename@,
        PaneMenuItem::MoveToTab => opener(cat.menu_move_to_tab@),
        PaneMenuItem::Divider => seq![],
        PaneMenuItem::Close => capitalized(cat.act_close@),
        PaneMenuItem::Module(i) => module_text(extras, i),
    }
}

/// The label of a row of the pane menu.
pub fn pane_label(it: PaneMenuItem, cat: &Catalog, extras: &Vec<ModuleMenuAction>) -> (label: String)
    ensures
        label@ == pane_text(it, *cat, extras@),
{
    match it {
        PaneMenuItem::SplitVertical => cat.menu_split_vertical.to_owned(),
        PaneMenuItem::SplitHorizontal => cat.menu_split_horizontal.to_owned(),
        PaneMenuItem::ForkPane => cat.menu_fork_pane.to_owned(),
        PaneMenuItem::OpenLink => cat.menu_open_link.to_owned(),
        PaneMenuItem::OpenFile => cat.menu_open_file.to_owned(),
        PaneMenuItem::RunningCmd => cat.menu_running_cmd.to_owned(),
        PaneMenuItem::RenamePane => cat.menu_rename.to_owned(),
        PaneMenuItem::MoveToTab => with_arrow(cat.menu_move_to_tab),
        PaneMenuItem::Divider => String::new(),
        PaneMenuItem::Close => cap_first(cat.act_close),
        PaneMenuItem::Module(i) => module_label(extras, i),
    }
}

/// The label of a row of the tab menu.
pub open spec fn tab_item_text(it: TabMenuItem, cat: Catalog, extras: Seq<ModuleMenuAction>) -> Seq<
    char,
> {
    match it {
        TabMenuItem::Rename => cat.menu_rename@,
        TabMenuItem::MoveLeft => capitalized(cat.act_move@) + " "@ + cat.side_left@,
        TabMenuItem::MoveRight => capitalized(cat.act_move@) + " "@ + cat.side_right@,
        TabMenuItem::SwapWith => opener(cat.tab_swap_with@),
        TabMenuItem::Divider => seq![],
        TabMenuItem::Module(i) => module_text(extras, i),
    }
}

/// The label of a row of the tab menu.
pub fn tab_label(it: TabMenuItem, cat: &Catalog, extras: &Vec<ModuleMenuAction>) -> (label: String)
    ensures
        label@ == tab_item_text(it, *cat, extras@),
{
    match it {
        TabMenuItem::Rename => cat.menu_rename.to_owned(),
        TabMenuItem::MoveLeft => {
            let mut label = cap_first(cat.act_move);
            label.append(" ");
            label.append(cat.side_left);
            label
        },
        TabMenuItem::MoveRight => {
            let mut label = cap_first(cat.act_move);
            label.append(" ");
            label.append(cat.side_right);
            label
        },
        TabMenuItem::SwapWith => with_arrow(cat.tab_swap_with),
        TabMenuItem::Divider => String::new(),
        TabMenuItem::Module(i) => module_label(extras, i),
    }
}

/// The label of a row of the file menu.
pub open spec fn file_text(it: FileMenuItem, editors: Seq<(String, String)>) -> Seq<char> {
    match it {
        FileMenuItem::OpenReadonly => "Open (Read-Only)"@,
        FileMenuItem::OpenWith(i) => if i < editors.len() {
            "Open in "@ + editors[i as int].1@
        } else {
            seq![]
        },
        FileMenuItem::NewFile => "New File"@,
        FileMenuItem::NewFolder => "New Folder"@,
        FileMenuItem::Rename => "Rename"@,
        FileMenuItem::CopyPath => "Copy Path"@,
        FileMenuItem::Divider => seq![],
        FileMenuItem::Delete => "Delete"@,
    }
}

/// The label of a row of the file menu.
pub fn file_label(it: FileMenuItem, editors: &Vec<(String, String)>) -> (label: String)
    ensures
        label@ == file_text(it, editors@),
{
    match it {
        FileMenuItem::OpenReadonly => "Open (Read-Only)".to_owned(),
        FileMenuItem::OpenWith(i) => {
            if i < editors.len() {
                let mut label: String = "Open in ".to_owned();
                label.append(editors[i].1.as_str());
                label
            } else {
                String::new()
            }
        },
        FileMenuItem::NewFile => "New File".to_owned(),
        FileMenuItem::NewFolder => "New Folder".to_owned(),
        FileMenuItem::Rename => "Rename".to_owned(),
        FileMenuItem::CopyPath => "Copy Path".to_owned(),
        FileMenuItem::Divider => String::new(),
        FileMenuItem::Delete => "Delete".to_owned(),
    }
}

/// The label of a row of the diff menu.
pub open spec fn diff_text(it: DiffMenuItem) -> Seq<char> {
    match it {
        DiffMenuItem::OpenPreview => "Open Preview"@,
        DiffMenuItem::OpenPane => "Open in Pane"@,
        DiffMenuItem::OpenTab => "Open in Tab"@,
        DiffMenuItem::CopyPath => "Copy Path"@,
    }
}

/// The label of a row of the diff menu.
pub fn diff_label(it: DiffMenuItem) -> (label: String)
    ensures
        label@ == diff_text(it),
{
    match it {
        DiffMenuItem::OpenPreview => "Open Preview".to_owned(),
        DiffMenuItem::OpenPane => "Open in Pane".to_owned(),
        DiffMenuItem::OpenTab => "Open in Tab".to_owned(),
        DiffMenuItem::CopyPath => "Copy Path".to_owned(),
    }
}

/// A popup opens at its anchor, as wide as its widest label needs and as high as its
/// rows and its border. Where it would not fit there it ends at the edge of the
/// screen. A tapped one lies at the bottom and takes the whole width.
pub proof fn law_popups_open_at_their_anchor(
    area: Rect,
    anchor: (u16, u16),
    rows: nat,
    label: nat,
    mobile: bool,
)
    requires
        area.x + area.width <= u16::MAX,
        area.y + area.height <= u16::MAX,
        area.x <= anchor.0,
        area.y <= anchor.1,
        label <= LABEL_WIDTH_MAX,
        area.width >= POPUP_WIDTH_MIN,
        area.height >= 1,
        (if mobile {
            2 * rows
        } else {
            rows
        }) + 2 <= u16::MAX,
    ensures
        ({
            let p = popup_rect(area, anchor, rows, label, mobile);
            let right = area.x + area.width;
            let bottom = area.y + area.height;
            if mobile {
                &&& p.x == area.x
                &&& p.width == area.width
                &&& p.y + p.height == bottom
                &&& p.height == (if 2 * rows + 2 <= area.height {
                    2 * rows + 2
                } else {
                    area.height as nat
                })
            } else {
                &&& p.width == (if label + 3 < 12 {
                    12
                } else if label + 3 <= area.width {
                    label + 3
                } else {
                    area.width as nat
                })
                &&& p.height == (if rows + 2 <= area.height {
                    rows + 2
                } else {
                    area.height as nat
                })
                &&& p.x == anchor.0 || anchor.0 + p.width > right && p.x + p.width == right
                &&& p.y == anchor.1 || anchor.1 + p.height > bottom && p.y + p.height == bottom
            }
        }),
{
}

/// The rows stand in the popup from the top down, each over its whole width, and the
/// label of a row is on a line of the row.
pub proof fn law_rows_stand_from_the_top_down(inner: Rect, i: int, mobile: bool)
    requires
        0 <= i,
        inner.y + inner.height <= u16::MAX,
        (if mobile {
            2 * i
        } else {
            i
        }) < inner.height,
    ensures
        ({
            let r = row_rect(inner, i, mobile);
            let line = text_rect(r);
            &&& r.x == inner.x && r.width == inner.width
            &&& r.y == inner.y + (if mobile {
                2 * i
            } else {
                i
            })
            &&& r.y + r.height <= inner.y + inner.height
            &&& r.height >= 1
            &&& line.x == r.x && line.width == r.width && line.height == 1
            &&& r.y <= line.y < r.y + r.height
        }),
{
}

/// The width for labels is that of the widest of them.
pub proof fn law_labels_fit_the_widest(widths: Seq<usize>, i: int)
    requires
        0 <= i < widths.len(),
    ensures
        widths[i] <= label_width(widths),
        exists|k: int| 0 <= k < widths.len() && #[trigger] widths[k] == label_width(widths),
    decreases widths.len(),
{
    let last = widths.len() - 1;
    assert(widths[last] == widths.last());
    let rest = widths.drop_last();
    if rest.len() > 0 {
        let j = if i < rest.len() {
            i
        } else {
            0
        };
        law_labels_fit_the_widest(rest, j);
        assert(rest[j] == widths[j]);
        let k = choose|k: int| 0 <= k < rest.len() && #[trigger] rest[k] == label_width(rest);
        assert(widths[k] == rest[k]);
        if widths.last() > widest(rest) {
            assert(widths[last] == label_width(widths));
        }
    } else {
        assert(widest(rest) == 0);
        assert(widths[last] == label_width(widths));
    }
}

/// Pinning and unpinning, splitting either way, opening a link or a file, and moving to
/// either side go by what the catalog calls them.
pub proof fn law_rows_are_called_what_they_do(cat: Catalog, extras: Seq<ModuleMenuAction>)
    ensures
        ws_text(WsMenuItem::Pin, cat, extras) == cat.menu_pin@,
        ws_text(WsMenuItem::Unpin, cat, extras) == cat.menu_unpin@,
        agent_text(AgentMenuItem::Pin, cat, extras) == cat.menu_pin@,
        agent_text(AgentMenuItem::Unpin, cat, extras) == cat.menu_unpin@,
        pane_text(PaneMenuItem::SplitVertical, cat, extras) == cat.menu_split_vertical@,
        pane_text(PaneMenuItem::SplitHorizontal, cat, extras) == cat.menu_split_horizontal@,
        pane_text(PaneMenuItem::OpenLink, cat, extras) == cat.menu_open_link@,
        pane_text(PaneMenuItem::OpenFile, cat, extras) == cat.menu_open_file@,
        cat.side_left@.is_suffix_of(tab_item_text(TabMenuItem::MoveLeft, cat, extras)),
        cat.side_right@.is_suffix_of(tab_item_text(TabMenuItem::MoveRight, cat, extras)),
{
    let (l, r) = (
        tab_item_text(TabMenuItem::MoveLeft, cat, extras),
        tab_item_text(TabMenuItem::MoveRight, cat, extras),
    );
    assert(cat.side_left@ =~= l.subrange(l.len() - cat.side_left@.len(), l.len() as int));
    assert(cat.side_right@ =~= r.subrange(r.len() - cat.side_right@.len(), r.len() as int));
}

} // verus!
