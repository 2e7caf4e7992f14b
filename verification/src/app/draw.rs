//! The context menus of a session on the screen. Each is drawn in two steps: the
//! rows with their labels, and, once it is known how wide the labels are, where
//! the rows are.
use vstd::prelude::*;
use vstd::string::*;

use super::contexts;
use super::contexts::hit;
use super::App;
use crate::geometry;
use crate::geometry::Rect;
use crate::menus;
use crate::menus::{
    build_diff_items, AgentMenuItem, FileMenuItem, PaneMenuItem, TabMenuItem, TabMenuTarget,
    WsMenuItem,
};
use crate::popup;
use crate::popup::{
    agent_label, can_lay_out, diff_label, file_label, lay_out, measure, measure_targets, pane_label,
    tab_label, ws_label, MenuRow, Popup,
};
use crate::workspace::MoveTarget;

verus! {

/// There is no room for a menu: the area is too narrow, or a label or the number of
/// rows is over every bound.
#[derive(Clone, Copy, Debug, PartialEq, Eq, Structural)]
pub struct NoRoom;

/// Items with the rows in which they are shown.
pub open spec fn zipped<T>(items: Seq<T>, rects: Seq<Rect>) -> Seq<(T, Rect)> {
    Seq::new(
        if items.len() < rects.len() {
            items.len()
        } else {
            rects.len()
        },
        |i: int| (items[i], rects[i]),
    )
}

/// Whether the item has its row where its line is inside the border, and none
/// where it is not.
pub open spec fn shown_where_it_fits<T>(
    rows: Seq<(T, Rect)>,
    items: Seq<T>,
    inner: Rect,
    mobile: bool,
    k: int,
) -> bool {
    if popup::lines_of(k, mobile) < inner.height {
        k < rows.len() && rows[k] == (items[k], popup::row_rect(inner, k, mobile))
    } else {
        k >= rows.len()
    }
}

/// Whether every item whose line is inside the border has its row there, and no
/// other has one.
pub open spec fn shows_fitting<T>(
    rows: Seq<(T, Rect)>,
    items: Seq<T>,
    inner: Rect,
    mobile: bool,
) -> bool {
    &&& rows.len() <= items.len()
    &&& forall|k: int|
        0 <= k < items.len() ==> #[trigger] shown_where_it_fits(rows, items, inner, mobile, k)
}

proof fn lemma_shows_fitting<T>(
    items: Seq<T>,
    p: Popup,
    area: Rect,
    anchor: (u16, u16),
    widths: Seq<usize>,
    mobile: bool,
)
    requires
        p.is_laid_out(area, anchor, widths, mobile),
        widths.len() == items.len(),
    ensures
        shows_fitting(zipped(items, p.rows@), items, p.inner, mobile),
{
    let rows = zipped(items, p.rows@);
    assert(rows.len() <= items.len());
    assert forall|k: int| 0 <= k < items.len() implies #[trigger] shown_where_it_fits(
        rows,
        items,
        p.inner,
        mobile,
        k,
    ) by {
        if k < p.rows@.len() {
            assert(p.rows@[k] == popup::row_rect(p.inner, k, mobile));
        }
    }
}

/// Items with the rows in which they are shown.
fn zip_rows<T: Copy>(items: &Vec<T>, rects: &Vec<Rect>) -> (rows: Vec<(T, Rect)>)
    ensures
        rows@ == zipped(items@, rects@),
{
    let mut rows: Vec<(T, Rect)> = Vec::new();
    let mut i: usize = 0;
    while i < items.len() && i < rects.len()
        invariant
            i <= items@.len(),
            i <= rects@.len(),
            rows@.len() == i,
            forall|k: int| 0 <= k < i ==> #[trigger] rows@[k] == (items@[k], rects@[k]),
        decreases items@.len() - i,
    {
        rows.push((items[i], rects[i]));
        i = i + 1;
    }
    assert(rows@ =~= zipped(items@, rects@));
    rows
}

// ---------------------------------------------------------------------------
// Menus that open another one
// ---------------------------------------------------------------------------

/// What a row is for the menu that it may open.
#[derive(Clone, Copy, Debug, PartialEq, Eq, Structural)]
pub enum RowClass {
    /// It opens the other menu.
    Opener,
    Divider,
    Other,
}

/// The first row that opens the other menu.
pub open spec fn opener_rect(rows: Seq<(RowClass, Rect)>, n: int) -> Option<Rect>
    decreases rows.len() - n,
{
    if n < 0 || n >= rows.len() {
        None
    } else if rows[n].0 is Opener {
        Some(rows[n].1)
    } else {
        opener_rect(rows, n + 1)
    }
}

/// Whether the pointer is on a row that opens nothing.
pub open spec fn over_other(rows: Seq<(RowClass, Rect)>, col: u16, row: u16) -> bool {
    exists|i: int|
        0 <= i < rows.len() && (#[trigger] rows[i]).0 is Other && rows[i].1.has_cell(col, row)
}

/// Whether the other menu is open: the row that opens it and the menu itself keep
/// it open, another row closes it, and anywhere else it stays as it is.
pub open spec fn stays_open(
    open: bool,
    rows: Seq<(RowClass, Rect)>,
    over_submenu: bool,
    hover: Option<(u16, u16)>,
) -> bool {
    match (opener_rect(rows, 0), hover) {
        (Some(parent), Some(h)) => if parent.has_cell(h.0, h.1) || over_submenu {
            true
        } else if over_other(rows, h.0, h.1) {
            false
        } else {
            open
        },
        _ => open,
    }
}

/// Where the other menu is anchored: beside the row that opens it.
pub open spec fn sub_anchor(parent: Rect) -> (u16, u16) {
    (geometry::sat_add(parent.right_spec(), 1), geometry::sat_sub(parent.y, 1))
}

fn find_opener(rows: &Vec<(RowClass, Rect)>) -> (r: Option<Rect>)
    ensures
        r == opener_rect(rows@, 0),
{
    let mut n: usize = 0;
    while n < rows.len()
        invariant
            n <= rows@.len(),
            opener_rect(rows@, 0) == opener_rect(rows@, n as int),
        decreases rows@.len() - n,
    {
        if rows[n].0 == RowClass::Opener {
            return Some(rows[n].1);
        }
        n = n + 1;
    }
    None
}

fn is_over_other(rows: &Vec<(RowClass, Rect)>, col: u16, row: u16) -> (b: bool)
    ensures
        b == over_other(rows@, col, row),
{
    let mut n: usize = 0;
    while n < rows.len()
        invariant
            n <= rows@.len(),
            forall|k: int|
                0 <= k < n ==> !((#[trigger] rows@[k]).0 is Other && rows@[k].1.has_cell(col, row)),
        decreases rows@.len() - n,
    {
        if rows[n].0 == RowClass::Other && rows[n].1.contains(col, row) {
            return true;
        }
        n = n + 1;
    }
    false
}

fn keep_open(
    open: bool,
    rows: &Vec<(RowClass, Rect)>,
    over_submenu: bool,
    hover: Option<(u16, u16)>,
) -> (b: bool)
    ensures
        b == stays_open(open, rows@, over_submenu, hover),
{
    match (find_opener(rows), hover) {
        (Some(parent), Some((col, row))) => {
            if parent.contains(col, row) || over_submenu {
                true
            } else if is_over_other(rows, col, row) {
                false
            } else {
                open
            }
        },
        _ => open,
    }
}

/// The class of a row of the tab menu.
pub open spec fn tab_class(item: TabMenuItem) -> RowClass {
    match item {
        TabMenuItem::SwapWith => RowClass::Opener,
        TabMenuItem::Divider => RowClass::Divider,
        _ => RowClass::Other,
    }
}

/// The class of a row of the pane menu.
pub open spec fn pane_class(item: PaneMenuItem) -> RowClass {
    match item {
        PaneMenuItem::MoveToTab => RowClass::Opener,
        PaneMenuItem::Divider => RowClass::Divider,
        _ => RowClass::Other,
    }
}

/// The classes of the rows of the tab menu.
pub open spec fn tab_classes(items: Seq<TabMenuItem>) -> Seq<RowClass> {
    Seq::new(items.len(), |i: int| tab_class(items[i]))
}

/// The classes of the rows of the pane menu.
pub open spec fn pane_classes(items: Seq<PaneMenuItem>) -> Seq<RowClass> {
    Seq::new(items.len(), |i: int| pane_class(items[i]))
}

impl App {
    /// The rows of the menu of the workspace at the position.
    pub open spec fn ws_row_items(&self, index: usize, is_repo: bool) -> Seq<WsMenuItem> {
        menus::ws_rows(
            index < self.workspaces@.len() && self.workspaces@[index as int].pinned,
            index < self.workspaces@.len() && contexts::is_linked(self.workspaces@[index as int]),
            self.counts_as_repo(index, is_repo),
            match self.ws_menu {
                Some(m) => m.module_actions@.len(),
                None => 0,
            },
        )
    }

    /// The rows of the open workspace menu, with their labels.
    pub fn ws_menu_rows(&self, is_repo: bool) -> (rows: Vec<MenuRow>)
        ensures
            match (self.ws_menu, self.ws_menu_place()) {
                (Some(menu), Some(i)) => {
                    let items = self.ws_row_items(i as usize, is_repo);
                    &&& rows@.len() == items.len()
                    &&& forall|k: int|
                        0 <= k < items.len() ==> {
                            &&& (#[trigger] rows@[k]).text@ == popup::ws_text(
                                items[k],
                                self.catalog,
                                menu.module_actions@,
                            )
                            &&& rows@[k].divider == (items[k] is Divider)
                            &&& rows@[k].destructive == (items[k] is Close
                                || items[k] is DeleteWorktree)
                        }
                },
                _ => rows@.len() == 0,
            },
    {
        let mut rows: Vec<MenuRow> = Vec::new();
        let index: usize = match self.ws_menu_target_index() {
            Some(i) => i,
            None => {
                return rows;
            },
        };
        match &self.ws_menu {
            Some(menu) => {
                let items = self.ws_menu_items(index, is_repo);
                let mut k: usize = 0;
                while k < items.len()
                    invariant
                        k <= items@.len(),
                        rows@.len() == k,
                        forall|j: int|
                            0 <= j < k ==> {
                                &&& (#[trigger] rows@[j]).text@ == popup::ws_text(
                                    items@[j],
                                    self.catalog,
                                    menu.module_actions@,
                                )
                                &&& rows@[j].divider == (items@[j] is Divider)
                                &&& rows@[j].destructive == (items@[j] is Close
                                    || items@[j] is DeleteWorktree)
                            },
                    decreases items@.len() - k,
                {
                    let it: WsMenuItem = items[k];
                    rows.push(
                        MenuRow {
                            text: ws_label(it, &self.catalog, &menu.module_actions),
                            divider: matches!(it, WsMenuItem::Divider),
                            destructive: matches!(it, WsMenuItem::Close | WsMenuItem::DeleteWorktree),
                        },
                    );
                    k = k + 1;
                }
            },
            None => {},
        }
        rows
    }

    /// Where the workspace of the open menu is.
    pub open spec fn ws_menu_place(&self) -> Option<int> {
        match self.ws_menu {
            Some(m) => self.place_of_workspace(m.workspace_id@),
            None => None,
        }
    }

    /// What laying out the workspace menu for labels of these widths leaves behind.
    pub open spec fn ws_menu_placed(
        &self,
        after: &App,
        p: Option<Popup>,
        area: Rect,
        widths: Seq<usize>,
        is_repo: bool,
    ) -> bool {
        &&& match (self.ws_menu, self.ws_menu_place()) {
            (Some(menu), Some(i)) => {
                &&& p is Some
                &&& p->0.is_laid_out(area, menu.anchor, widths, self.compact)
                &&& after.ws_menu is Some
                &&& after.ws_menu->0 == (menus::WsMenu {
                    items: after.ws_menu->0.items,
                    ..menu
                })
                &&& after.ws_menu->0.items@ == zipped(
                    self.ws_row_items(i as usize, is_repo),
                    p->0.rows@,
                )
                &&& shows_fitting(
                    after.ws_menu->0.items@,
                    self.ws_row_items(i as usize, is_repo),
                    p->0.inner,
                    self.compact,
                )
            },
            _ => p is None && after.ws_menu is None,
        }
        &&& *after == (App { ws_menu: after.ws_menu, ..*self })
    }

    /// Lays out the workspace menu for labels of these widths. A menu whose workspace
    /// is gone closes.
    pub fn place_ws_menu(&mut self, area: Rect, widths: &Vec<usize>, is_repo: bool) -> (p: Option<
        Popup,
    >)
        requires
            old(self).ws_menu is Some && old(self).ws_menu_place() is Some ==> popup::fits(
                area,
                widths@,
                old(self).compact,
            ),
            old(self).ws_menu is Some && old(self).ws_menu_place() is Some ==> widths@.len() == old(
                self,
            ).ws_row_items(old(self).ws_menu_place()->0 as usize, is_repo).len(),
        ensures
            old(self).wf() ==> final(self).wf(),
            old(self).ws_menu_placed(final(self), p, area, widths@, is_repo),
    {
        let index: usize = match self.ws_menu_target_index() {
            Some(i) => i,
            None => {
                self.ws_menu = None;
                return None;
            },
        };
        let items = self.ws_menu_items(index, is_repo);
        let mobile: bool = self.compact;
        match &mut self.ws_menu {
            Some(menu) => {
                let p = lay_out(area, menu.anchor, widths, mobile);
                menu.items = zip_rows(&items, &p.rows);
                proof {
                    lemma_shows_fitting(items@, p, area, menu.anchor, widths@, mobile);
                }
                Some(p)
            },
            None => None,
        }
    }

    // -----------------------------------------------------------------------
    // Agents
    // -----------------------------------------------------------------------

    /// The rows of the open agent menu.
    pub open spec fn agent_row_items(&self) -> Seq<AgentMenuItem> {
        match self.agent_menu {
            Some(m) => menus::agent_rows(
                m.target,
                match m.target {
                    menus::AgentTarget::Live(id) => self.pinned_agents@.contains(id),
                    menus::AgentTarget::Session(_) => false,
                },
                m.module_actions@.len(),
            ),
            None => seq![],
        }
    }

    /// The rows of the open agent menu, with their labels.
    pub fn agent_menu_rows(&self) -> (rows: Vec<MenuRow>)
        ensures
            rows@.len() == self.agent_row_items().len(),
            forall|k: int|
                0 <= k < rows@.len() ==> {
                    let it = self.agent_row_items()[k];
                    &&& (#[trigger] rows@[k]).text@ == popup::agent_text(
                        it,
                        self.catalog,
                        self.agent_menu->0.module_actions@,
                    )
                    &&& rows@[k].divider == (it is Divider)
                    &&& rows@[k].destructive == (it is Close)
                },
    {
        let mut rows: Vec<MenuRow> = Vec::new();
        match &self.agent_menu {
            Some(menu) => {
                let items = self.agent_menu_items(menu.target);
                let mut k: usize = 0;
                while k < items.len()
                    invariant
                        items@ == self.agent_row_items(),
                        self.agent_menu == Some(*menu),
                        k <= items@.len(),
                        rows@.len() == k,
                        forall|j: int|
                            0 <= j < k ==> {
                                &&& (#[trigger] rows@[j]).text@ == popup::agent_text(
                                    items@[j],
                                    self.catalog,
                                    menu.module_actions@,
                                )
                                &&& rows@[j].divider == (items@[j] is Divider)
                                &&& rows@[j].destructive == (items@[j] is Close)
                            },
                    decreases items@.len() - k,
                {
                    let it: AgentMenuItem = items[k];
                    rows.push(
                        MenuRow {
                            text: agent_label(it, &self.catalog, &menu.module_actions),
                            divider: matches!(it, AgentMenuItem::Divider),
                            destructive: matches!(it, AgentMenuItem::Close),
                        },
                    );
                    k = k + 1;
                }
            },
            None => {},
        }
        rows
    }

    /// What laying out the agent menu for labels of these widths leaves behind.
    pub open spec fn agent_menu_placed(
        &self,
        after: &App,
        p: Option<Popup>,
        area: Rect,
        widths: Seq<usize>,
    ) -> bool {
        &&& match self.agent_menu {
            Some(menu) => {
                &&& p is Some
                &&& p->0.is_laid_out(area, menu.anchor, widths, self.compact)
                &&& after.agent_menu is Some
                &&& after.agent_menu->0 == (menus::AgentMenu {
                    items: after.agent_menu->0.items,
                    ..menu
                })
                &&& after.agent_menu->0.items@ == zipped(
                    self.agent_row_items(),
                    p->0.rows@,
                )
                &&& shows_fitting(
                    after.agent_menu->0.items@,
                    self.agent_row_items(),
                    p->0.inner,
                    self.compact,
                )
            },
            None => p is None && after.agent_menu is None,
        }
        &&& *after == (App { agent_menu: after.agent_menu, ..*self })
    }

    /// Lays out the agent menu for labels of these widths.
    pub fn place_agent_menu(&mut self, area: Rect, widths: &Vec<usize>) -> (p: Option<Popup>)
        requires
            old(self).agent_menu is Some ==> popup::fits(
                area,
                widths@,
                old(self).compact,
            ),
            old(self).agent_menu is Some ==> widths@.len() == old(self).agent_row_items().len(),
        ensures
            old(self).wf() ==> final(self).wf(),
            old(self).agent_menu_placed(final(self), p, area, widths@),
    {
        let items: Vec<AgentMenuItem> = match &self.agent_menu {
            Some(menu) => self.agent_menu_items(menu.target),
            None => {
                return None;
            },
        };
        let mobile: bool = self.compact;
        match &mut self.agent_menu {
            Some(menu) => {
                let p = lay_out(area, menu.anchor, widths, mobile);
                menu.items = zip_rows(&items, &p.rows);
                proof {
                    lemma_shows_fitting(items@, p, area, menu.anchor, widths@, mobile);
                }
                Some(p)
            },
            None => None,
        }
    }

    // -----------------------------------------------------------------------
    // Files, diffs and docks
    // -----------------------------------------------------------------------

    /// The rows of the open file menu, with their labels.
    pub fn file_menu_rows(&self) -> (rows: Vec<MenuRow>)
        ensures
            match self.file_menu {
                Some(menu) => {
                    let items = menus::file_rows(menu.is_dir, menu.editors@.len());
                    &&& rows@.len() == items.len()
                    &&& forall|k: int|
                        0 <= k < items.len() ==> {
                            &&& (#[trigger] rows@[k]).text@ == popup::file_text(
                                items[k],
                                menu.editors@,
                            )
                            &&& rows@[k].divider == (items[k] is Divider)
                            &&& rows@[k].destructive == (items[k] is Delete)
                        }
                },
                None => rows@.len() == 0,
            },
    {
        let mut rows: Vec<MenuRow> = Vec::new();
        match &self.file_menu {
            Some(menu) => {
                let items = menu.build_items();
                let mut k: usize = 0;
                while k < items.len()
                    invariant
                        k <= items@.len(),
                        rows@.len() == k,
                        forall|j: int|
                            0 <= j < k ==> {
                                &&& (#[trigger] rows@[j]).text@ == popup::file_text(
                                    items@[j],
                                    menu.editors@,
                                )
                                &&& rows@[j].divider == (items@[j] is Divider)
                                &&& rows@[j].destructive == (items@[j] is Delete)
                            },
                    decreases items@.len() - k,
                {
                    let it: FileMenuItem = items[k];
                    rows.push(
                        MenuRow {
                            text: file_label(it, &menu.editors),
                            divider: matches!(it, FileMenuItem::Divider),
                            destructive: matches!(it, FileMenuItem::Delete),
                        },
                    );
                    k = k + 1;
                }
            },
            None => {},
        }
        rows
    }

    /// What laying out the file menu for labels of these widths leaves behind.
    pub open spec fn file_menu_placed(
        &self,
        after: &App,
        p: Option<Popup>,
        area: Rect,
        widths: Seq<usize>,
    ) -> bool {
        &&& match self.file_menu {
            Some(menu) => {
                &&& p is Some
                &&& p->0.is_laid_out(area, menu.anchor, widths, self.compact)
                &&& after.file_menu is Some
                &&& after.file_menu->0 == (menus::FileMenu {
                    items: after.file_menu->0.items,
                    ..menu
                })
                &&& after.file_menu->0.items@ == zipped(
                    menus::file_rows(menu.is_dir, menu.editors@.len()),
                    p->0.rows@,
                )
                &&& shows_fitting(
                    after.file_menu->0.items@,
                    menus::file_rows(menu.is_dir, menu.editors@.len()),
                    p->0.inner,
                    self.compact,
                )
            },
            None => p is None && after.file_menu is None,
        }
        &&& *after == (App { file_menu: after.file_menu, ..*self })
    }

    /// Lays out the file menu for labels of these widths.
    pub fn place_file_menu(&mut self, area: Rect, widths: &Vec<usize>) -> (p: Option<Popup>)
        requires
            old(self).file_menu is Some ==> popup::fits(
                area,
                widths@,
                old(self).compact,
            ),
            old(self).file_menu is Some ==> widths@.len() == menus::file_rows(
                old(self).file_menu->0.is_dir,
                old(self).file_menu->0.editors@.len(),
            ).len(),
        ensures
            old(self).wf() ==> final(self).wf(),
            old(self).file_menu_placed(final(self), p, area, widths@),
    {
        let mobile: bool = self.compact;
        match &mut self.file_menu {
            Some(menu) => {
                let items = menu.build_items();
                let p = lay_out(area, menu.anchor, widths, mobile);
                menu.items = zip_rows(&items, &p.rows);
                proof {
                    lemma_shows_fitting(items@, p, area, menu.anchor, widths@, mobile);
                }
                Some(p)
            },
            None => None,
        }
    }

    /// The rows of the diff menu, with their labels.
    pub fn diff_menu_rows(&self) -> (rows: Vec<MenuRow>)
        ensures
            if self.diff_menu is Some {
                &&& rows@.len() == menus::diff_rows().len()
                &&& forall|k: int|
                    0 <= k < rows@.len() ==> (#[trigger] rows@[k]).text@ == popup::diff_text(
                        menus::diff_rows()[k],
                    ) && !rows@[k].divider && !rows@[k].destructive
            } else {
                rows@.len() == 0
            },
    {
        let mut rows: Vec<MenuRow> = Vec::new();
        if self.diff_menu.is_none() {
            return rows;
        }
        let items = build_diff_items();
        let mut k: usize = 0;
        while k < items.len()
            invariant
                items@ == menus::diff_rows(),
                k <= items@.len(),
                rows@.len() == k,
                forall|j: int|
                    0 <= j < k ==> (#[trigger] rows@[j]).text@ == popup::diff_text(items@[j])
                        && !rows@[j].divider && !rows@[j].destructive,
            decreases items@.len() - k,
        {
            rows.push(MenuRow { text: diff_label(items[k]), divider: false, destructive: false });
            k = k + 1;
        }
        rows
    }

    /// What laying out the diff menu for labels of these widths leaves behind.
    pub open spec fn diff_menu_placed(
        &self,
        after: &App,
        p: Option<Popup>,
        area: Rect,
        widths: Seq<usize>,
    ) -> bool {
        &&& match self.diff_menu {
            Some(menu) => {
                &&& p is Some
                &&& p->0.is_laid_out(area, menu.anchor, widths, self.compact)
                &&& after.diff_menu is Some
                &&& after.diff_menu->0 == (menus::DiffMenu {
                    items: after.diff_menu->0.items,
                    ..menu
                })
                &&& after.diff_menu->0.items@ == zipped(menus::diff_rows(), p->0.rows@)
                &&& shows_fitting(
                    after.diff_menu->0.items@,
                    menus::diff_rows(),
                    p->0.inner,
                    self.compact,
                )
            },
            None => p is None && after.diff_menu is None,
        }
        &&& *after == (App { diff_menu: after.diff_menu, ..*self })
    }

    /// Lays out the diff menu for labels of these widths.
    pub fn place_diff_menu(&mut self, area: Rect, widths: &Vec<usize>) -> (p: Option<Popup>)
        requires
            old(self).diff_menu is Some ==> popup::fits(
                area,
                widths@,
                old(self).compact,
            ),
            old(self).diff_menu is Some ==> widths@.len() == menus::diff_rows().len(),
        ensures
            old(self).wf() ==> final(self).wf(),
            old(self).diff_menu_placed(final(self), p, area, widths@),
    {
        let mobile: bool = self.compact;
        match &mut self.diff_menu {
            Some(menu) => {
                let items = build_diff_items();
                let p = lay_out(area, menu.anchor, widths, mobile);
                menu.items = zip_rows(&items, &p.rows);
                proof {
                    lemma_shows_fitting(items@, p, area, menu.anchor, widths@, mobile);
                }
                Some(p)
            },
            None => None,
        }
    }

    /// The rows of the open dock menu, as the module declared them when it opened.
    pub fn dock_menu_rows(&self) -> (rows: Vec<MenuRow>)
        ensures
            match self.dock_menu {
                Some(menu) => {
                    &&& rows@.len() == menu.items@.len()
                    &&& forall|k: int|
                        0 <= k < rows@.len() ==> {
                            &&& (#[trigger] rows@[k]).text == menu.items@[k].title
                            &&& rows@[k].divider == (menu.items@[k].action@.len() == 0)
                            &&& rows@[k].destructive == menu.items@[k].destructive
                        }
                },
                None => rows@.len() == 0,
            },
    {
        let mut rows: Vec<MenuRow> = Vec::new();
        match &self.dock_menu {
            Some(menu) => {
                let mut k: usize = 0;
                while k < menu.items.len()
                    invariant
                        k <= menu.items@.len(),
                        rows@.len() == k,
                        forall|j: int|
                            0 <= j < k ==> {
                                &&& (#[trigger] rows@[j]).text == menu.items@[j].title
                                &&& rows@[j].divider == (menu.items@[j].action@.len() == 0)
                                &&& rows@[j].destructive == menu.items@[j].destructive
                            },
                    decreases menu.items@.len() - k,
                {
                    let it = &menu.items[k];
                    rows.push(
                        MenuRow {
                            text: it.title.clone(),
                            divider: it.is_divider(),
                            destructive: it.destructive,
                        },
                    );
                    k = k + 1;
                }
            },
            None => {},
        }
        rows
    }

    /// What laying out the dock menu for labels of these widths leaves behind.
    pub open spec fn dock_menu_placed(
        &self,
        after: &App,
        p: Option<Popup>,
        area: Rect,
        widths: Seq<usize>,
    ) -> bool {
        &&& match self.dock_menu {
            Some(menu) => {
                &&& p is Some
                &&& p->0.is_laid_out(area, menu.anchor, widths, self.compact)
                &&& after.dock_menu is Some
                &&& after.dock_menu->0 == (crate::docks::DockMenu {
                    rects: after.dock_menu->0.rects,
                    ..menu
                })
                &&& after.dock_menu->0.rects@ == p->0.rows@
                &&& forall|k: int|
                    0 <= k < menu.items@.len() && popup::lines_of(k, self.compact)
                        < p->0.inner.height ==> k < p->0.rows@.len() && #[trigger] p->0.rows@[k]
                        == popup::row_rect(p->0.inner, k, self.compact)
            },
            None => p is None && after.dock_menu is None,
        }
        &&& *after == (App { dock_menu: after.dock_menu, ..*self })
    }

    /// Lays out the dock menu for labels of these widths.
    pub fn place_dock_menu(&mut self, area: Rect, widths: &Vec<usize>) -> (p: Option<Popup>)
        requires
            old(self).dock_menu is Some ==> popup::fits(
                area,
                widths@,
                old(self).compact,
            ),
            old(self).dock_menu is Some ==> widths@.len() == old(self).dock_menu->0.items@.len(),
        ensures
            old(self).wf() ==> final(self).wf(),
            old(self).dock_menu_placed(final(self), p, area, widths@),
    {
        let mobile: bool = self.compact;
        match &mut self.dock_menu {
            Some(menu) => {
                let p = lay_out(area, menu.anchor, widths, mobile);
                menu.rects = copy_rects(&p.rows);
                Some(p)
            },
            None => None,
        }
    }
}

fn copy_rects(rects: &Vec<Rect>) -> (out: Vec<Rect>)
    ensures
        out@ == rects@,
{
    let mut out: Vec<Rect> = Vec::new();
    let mut i: usize = 0;
    while i < rects.len()
        invariant
            i <= rects@.len(),
            out@ == rects@.take(i as int),
        decreases rects@.len() - i,
    {
        out.push(rects[i]);
        i = i + 1;
        assert(out@ =~= rects@.take(i as int));
    }
    assert(out@ =~= rects@);
    out
}

/// The classes of the rows of the tab menu.
fn tab_class_list(items: &Vec<TabMenuItem>) -> (list: Vec<RowClass>)
    ensures
        list@ == tab_classes(items@),
{
    let mut list: Vec<RowClass> = Vec::new();
    let mut i: usize = 0;
    while i < items.len()
        invariant
            i <= items@.len(),
            list@.len() == i,
            forall|k: int| 0 <= k < i ==> #[trigger] list@[k] == tab_class(items@[k]),
        decreases items@.len() - i,
    {
        list.push(
            match items[i] {
                TabMenuItem::SwapWith => RowClass::Opener,
                TabMenuItem::Divider => RowClass::Divider,
                _ => RowClass::Other,
            },
        );
        i = i + 1;
    }
    assert(list@ =~= tab_classes(items@));
    list
}

/// The classes of the rows of the pane menu.
fn pane_class_list(items: &Vec<PaneMenuItem>) -> (list: Vec<RowClass>)
    ensures
        list@ == pane_classes(items@),
{
    let mut list: Vec<RowClass> = Vec::new();
    let mut i: usize = 0;
    while i < items.len()
        invariant
            i <= items@.len(),
            list@.len() == i,
            forall|k: int| 0 <= k < i ==> #[trigger] list@[k] == pane_class(items@[k]),
        decreases items@.len() - i,
    {
        list.push(
            match items[i] {
                PaneMenuItem::MoveToTab => RowClass::Opener,
                PaneMenuItem::Divider => RowClass::Divider,
                _ => RowClass::Other,
            },
        );
        i = i + 1;
    }
    assert(list@ =~= pane_classes(items@));
    list
}

/// Whether the rows are those of the tabs on offer, as far as they are visible.
pub open spec fn swap_rows(
    now: Seq<(TabMenuTarget, Rect)>,
    targets: Seq<(TabMenuTarget, String)>,
    rects: Seq<Rect>,
) -> bool {
    &&& now.len() == (if targets.len() < rects.len() {
        targets.len()
    } else {
        rects.len()
    })
    &&& forall|k: int|
        0 <= k < now.len() ==> {
            &&& (#[trigger] now[k]).0.workspace == targets[k].0.workspace
            &&& now[k].0.leaves@ == targets[k].0.leaves@
            &&& now[k].1 == rects[k]
        }
}

fn zip_swaps(targets: &Vec<(TabMenuTarget, String)>, rects: &Vec<Rect>) -> (rows: Vec<
    (TabMenuTarget, Rect),
>)
    ensures
        swap_rows(rows@, targets@, rects@),
{
    let mut rows: Vec<(TabMenuTarget, Rect)> = Vec::new();
    let mut i: usize = 0;
    while i < targets.len() && i < rects.len()
        invariant
            i <= targets@.len(),
            i <= rects@.len(),
            rows@.len() == i,
            forall|k: int|
                0 <= k < i ==> {
                    &&& (#[trigger] rows@[k]).0.workspace == targets@[k].0.workspace
                    &&& rows@[k].0.leaves@ == targets@[k].0.leaves@
                    &&& rows@[k].1 == rects@[k]
                },
        decreases targets@.len() - i,
    {
        rows.push((targets[i].0.copy(), rects[i]));
        i = i + 1;
    }
    rows
}

/// Whether the rows are those of the places on offer, as far as they are visible.
pub open spec fn move_rows(
    now: Seq<(MoveTarget, Rect)>,
    targets: Seq<(MoveTarget, String)>,
    rects: Seq<Rect>,
) -> bool {
    &&& now.len() == (if targets.len() < rects.len() {
        targets.len()
    } else {
        rects.len()
    })
    &&& forall|k: int| 0 <= k < now.len() ==> #[trigger] now[k] == (targets[k].0, rects[k])
}

fn zip_moves(targets: &Vec<(MoveTarget, String)>, rects: &Vec<Rect>) -> (rows: Vec<
    (MoveTarget, Rect),
>)
    ensures
        move_rows(rows@, targets@, rects@),
{
    let mut rows: Vec<(MoveTarget, Rect)> = Vec::new();
    let mut i: usize = 0;
    while i < targets.len() && i < rects.len()
        invariant
            i <= targets@.len(),
            i <= rects@.len(),
            rows@.len() == i,
            forall|k: int| 0 <= k < i ==> #[trigger] rows@[k] == (targets@[k].0, rects@[k]),
        decreases targets@.len() - i,
    {
        rows.push((targets[i].0, rects[i]));
        i = i + 1;
    }
    rows
}

impl App {
    /// The rows of the open tab menu.
    pub open spec fn tab_row_items(&self) -> Seq<TabMenuItem> {
        match self.tab_menu {
            Some(m) => m.rows(),
            None => seq![],
        }
    }

    /// The rows of the open tab menu, with their labels.
    pub fn tab_menu_rows(&self) -> (rows: Vec<MenuRow>)
        ensures
            rows@.len() == self.tab_row_items().len(),
            forall|k: int|
                0 <= k < rows@.len() ==> {
                    let it = self.tab_row_items()[k];
                    &&& (#[trigger] rows@[k]).text@ == popup::tab_item_text(
                        it,
                        self.catalog,
                        self.tab_menu->0.module_actions@,
                    )
                    &&& rows@[k].divider == (it is Divider)
                    &&& rows@[k].destructive == false
                },
    {
        let mut rows: Vec<MenuRow> = Vec::new();
        match &self.tab_menu {
            Some(menu) => {
                let items = self.tab_menu_items();
                let mut k: usize = 0;
                while k < items.len()
                    invariant
                        items@ == self.tab_row_items(),
                        self.tab_menu == Some(*menu),
                        k <= items@.len(),
                        rows@.len() == k,
                        forall|j: int|
                            0 <= j < k ==> {
                                &&& (#[trigger] rows@[j]).text@ == popup::tab_item_text(
                                    items@[j],
                                    self.catalog,
                                    menu.module_actions@,
                                )
                                &&& rows@[j].divider == (items@[j] is Divider)
                                &&& rows@[j].destructive == false
                            },
                    decreases items@.len() - k,
                {
                    let it: TabMenuItem = items[k];
                    rows.push(
                        MenuRow {
                            text: tab_label(it, &self.catalog, &menu.module_actions),
                            divider: matches!(it, TabMenuItem::Divider),
                            destructive: false,
                        },
                    );
                    k = k + 1;
                }
            },
            None => {},
        }
        rows
    }

    /// Whether the menu that the tab menu may open is shown once the tab menu is laid
    /// out for labels of these widths.
    pub open spec fn tab_submenu_shown(&self, area: Rect, widths: Seq<usize>) -> bool {
        let menu = self.tab_menu->0;
        let rows = zipped(
            tab_classes(self.tab_row_items()),
            popup::visible_rows(area, menu.anchor, widths, self.compact),
        );
        let over_submenu = self.hover is Some && contexts::hit_from(
            menu.swap_rects@,
            (self.hover->0).0,
            (self.hover->0).1,
            0,
        ) is Some;
        stays_open(menu.swap_open, rows, over_submenu, self.hover) && opener_rect(rows, 0) is Some
            && menu.swap_targets@.len() > 0
    }

    /// Whether the menu that the tab menu may open is shown.
    fn is_tab_submenu_shown(&self, area: Rect, widths: &Vec<usize>) -> (b: bool)
        requires
            self.tab_menu is Some,
            popup::fits(area, widths@, self.compact),
        ensures
            b == self.tab_submenu_shown(area, widths@),
    {
        let items = self.tab_menu_items();
        match &self.tab_menu {
            Some(menu) => {
                let outer = lay_out(area, menu.anchor, widths, self.compact);
                proof {
                    popup::lemma_laid_out_rows(outer, area, menu.anchor, widths@, self.compact);
                }
                let rows = zip_rows(&tab_class_list(&items), &outer.rows);
                let over_submenu: bool = match self.hover {
                    Some((col, row)) => hit(&menu.swap_rects, col, row).is_some(),
                    None => false,
                };
                keep_open(menu.swap_open, &rows, over_submenu, self.hover) && find_opener(
                    &rows,
                ).is_some() && menu.swap_targets.len() > 0
            },
            None => false,
        }
    }

    /// Whether the tab menu, and the menu that it may have opened, are laid out.
    /// `inner` is the other menu, where it is shown.
    pub open spec fn tab_menu_drawn(
        &self,
        after: &App,
        menu: menus::TabMenu,
        area: Rect,
        widths: Seq<usize>,
        sub_widths: Seq<usize>,
        outer: Popup,
        inner: Option<Popup>,
    ) -> bool {
        let items = self.tab_row_items();
        let rows = zipped(tab_classes(items), outer.rows@);
        let parent = opener_rect(rows, 0);
        let over_submenu = self.hover is Some && contexts::hit_from(
            menu.swap_rects@,
            (self.hover->0).0,
            (self.hover->0).1,
            0,
        ) is Some;
        let open = stays_open(menu.swap_open, rows, over_submenu, self.hover);
        let shown = open && parent is Some && menu.swap_targets@.len() > 0;
        let now = after.tab_menu->0;
        &&& outer.is_laid_out(area, menu.anchor, widths, self.compact)
        &&& after.tab_menu is Some
        &&& now == (menus::TabMenu {
            items: now.items,
            swap_open: open,
            swap_rects: now.swap_rects,
            ..menu
        })
        &&& now.items@ == zipped(items, outer.rows@)
        &&& shows_fitting(now.items@, items, outer.inner, self.compact)
        &&& inner is Some == shown
        &&& if shown {
            &&& inner->0.is_laid_out(area, sub_anchor(parent->0), sub_widths, self.compact)
            &&& swap_rows(now.swap_rects@, menu.swap_targets@, inner->0.rows@)
            &&& now.swap_rects@.len() == inner->0.rows@.len()
        } else {
            now.swap_rects@.len() == 0
        }
        &&& *after == (App { tab_menu: after.tab_menu, ..*self })
    }

    /// Lays out the tab menu, and the menu that its row for tabs opens, for labels of
    /// these widths.
    pub fn place_tab_menu(
        &mut self,
        area: Rect,
        widths: &Vec<usize>,
        sub_widths: &Vec<usize>,
    ) -> (p: Option<(Popup, Option<Popup>)>)
        requires
            old(self).tab_menu is Some ==> popup::fits(area, widths@, old(self).compact),
            old(self).tab_menu is Some ==> widths@.len() == old(self).tab_row_items().len(),
            old(self).tab_menu is Some && old(self).tab_submenu_shown(area, widths@) ==> popup::fits(
                area,
                sub_widths@,
                old(self).compact,
            ) && sub_widths@.len() == old(self).tab_menu->0.swap_targets@.len(),
        ensures
            old(self).wf() ==> final(self).wf(),
            match old(self).tab_menu {
                Some(menu) => {
                    &&& p is Some
                    &&& old(self).tab_menu_drawn(
                        final(self),
                        menu,
                        area,
                        widths@,
                        sub_widths@,
                        (p->0).0,
                        (p->0).1,
                    )
                },
                None => p is None && *final(self) == *old(self),
            },
    {
        let items = self.tab_menu_items();
        let mobile: bool = self.compact;
        let hover: Option<(u16, u16)> = self.hover;
        match &mut self.tab_menu {
            Some(menu) => {
                let outer = lay_out(area, menu.anchor, widths, mobile);
                let rows = zip_rows(&tab_class_list(&items), &outer.rows);
                let over_submenu: bool = match hover {
                    Some((col, row)) => hit(&menu.swap_rects, col, row).is_some(),
                    None => false,
                };
                let open: bool = keep_open(menu.swap_open, &rows, over_submenu, hover);
                menu.items = zip_rows(&items, &outer.rows);
                proof {
                    lemma_shows_fitting(items@, outer, area, menu.anchor, widths@, mobile);
                    popup::lemma_laid_out_rows(outer, area, menu.anchor, widths@, mobile);
                }
                menu.swap_open = open;
                let parent = find_opener(&rows);
                let inner: Option<Popup> = match parent {
                    Some(rect) => {
                        if open && menu.swap_targets.len() > 0 {
                            let anchor: (u16, u16) = (
                                rect.right().saturating_add(1),
                                rect.y.saturating_sub(1),
                            );
                            Some(lay_out(area, anchor, sub_widths, mobile))
                        } else {
                            None
                        }
                    },
                    None => None,
                };
                menu.swap_rects = match &inner {
                    Some(sub) => zip_swaps(&menu.swap_targets, &sub.rows),
                    None => Vec::new(),
                };
                Some((outer, inner))
            },
            None => None,
        }
    }
}

impl App {
    /// The rows of the open pane menu.
    pub open spec fn pane_row_items(&self) -> Seq<PaneMenuItem> {
        match self.pane_menu {
            Some(m) => menus::pane_rows(
                m.move_targets@.len() > 0,
                m.can_fork,
                m.link is Some && m.link->0 is Url,
                m.link is Some && m.link->0 is File,
                m.module_actions@.len(),
            ),
            None => seq![],
        }
    }

    /// The rows of the open pane menu, with their labels.
    pub fn pane_menu_rows(&self) -> (rows: Vec<MenuRow>)
        ensures
            rows@.len() == self.pane_row_items().len(),
            forall|k: int|
                0 <= k < rows@.len() ==> {
                    let it = self.pane_row_items()[k];
                    &&& (#[trigger] rows@[k]).text@ == popup::pane_text(
                        it,
                        self.catalog,
                        self.pane_menu->0.module_actions@,
                    )
                    &&& rows@[k].divider == (it is Divider)
                    &&& rows@[k].destructive == (it is Close)
                },
    {
        let mut rows: Vec<MenuRow> = Vec::new();
        match &self.pane_menu {
            Some(menu) => {
                let items = self.pane_menu_items();
                let mut k: usize = 0;
                while k < items.len()
                    invariant
                        items@ == self.pane_row_items(),
                        self.pane_menu == Some(*menu),
                        k <= items@.len(),
                        rows@.len() == k,
                        forall|j: int|
                            0 <= j < k ==> {
                                &&& (#[trigger] rows@[j]).text@ == popup::pane_text(
                                    items@[j],
                                    self.catalog,
                                    menu.module_actions@,
                                )
                                &&& rows@[j].divider == (items@[j] is Divider)
                                &&& rows@[j].destructive == (items@[j] is Close)
                            },
                    decreases items@.len() - k,
                {
                    let it: PaneMenuItem = items[k];
                    rows.push(
                        MenuRow {
                            text: pane_label(it, &self.catalog, &menu.module_actions),
                            divider: matches!(it, PaneMenuItem::Divider),
                            destructive: matches!(it, PaneMenuItem::Close),
                        },
                    );
                    k = k + 1;
                }
            },
            None => {},
        }
        rows
    }

    /// Whether the menu that the pane menu may open is shown once the pane menu is laid
    /// out for labels of these widths.
    pub open spec fn pane_submenu_shown(&self, area: Rect, widths: Seq<usize>) -> bool {
        let menu = self.pane_menu->0;
        let rows = zipped(
            pane_classes(self.pane_row_items()),
            popup::visible_rows(area, menu.anchor, widths, self.compact),
        );
        let over_submenu = self.hover is Some && contexts::hit_from(
            menu.tab_rects@,
            (self.hover->0).0,
            (self.hover->0).1,
            0,
        ) is Some;
        stays_open(menu.move_open, rows, over_submenu, self.hover) && opener_rect(rows, 0) is Some
            && menu.move_targets@.len() > 0
    }

    /// Whether the menu that the pane menu may open is shown.
    fn is_pane_submenu_shown(&self, area: Rect, widths: &Vec<usize>) -> (b: bool)
        requires
            self.pane_menu is Some,
            popup::fits(area, widths@, self.compact),
        ensures
            b == self.pane_submenu_shown(area, widths@),
    {
        let items = self.pane_menu_items();
        match &self.pane_menu {
            Some(menu) => {
                let outer = lay_out(area, menu.anchor, widths, self.compact);
                proof {
                    popup::lemma_laid_out_rows(outer, area, menu.anchor, widths@, self.compact);
                }
                let rows = zip_rows(&pane_class_list(&items), &outer.rows);
                let over_submenu: bool = match self.hover {
                    Some((col, row)) => hit(&menu.tab_rects, col, row).is_some(),
                    None => false,
                };
                keep_open(menu.move_open, &rows, over_submenu, self.hover) && find_opener(
                    &rows,
                ).is_some() && menu.move_targets.len() > 0
            },
            None => false,
        }
    }

    /// Whether the pane menu, and the menu that it may have opened, are laid out.
    /// `inner` is the other menu, where it is shown.
    pub open spec fn pane_menu_drawn(
        &self,
        after: &App,
        menu: menus::PaneMenu,
        area: Rect,
        widths: Seq<usize>,
        sub_widths: Seq<usize>,
        outer: Popup,
        inner: Option<Popup>,
    ) -> bool {
        let items = self.pane_row_items();
        let rows = zipped(pane_classes(items), outer.rows@);
        let parent = opener_rect(rows, 0);
        let over_submenu = self.hover is Some && contexts::hit_from(
            menu.tab_rects@,
            (self.hover->0).0,
            (self.hover->0).1,
            0,
        ) is Some;
        let open = stays_open(menu.move_open, rows, over_submenu, self.hover);
        let shown = open && parent is Some && menu.move_targets@.len() > 0;
        let now = after.pane_menu->0;
        &&& outer.is_laid_out(area, menu.anchor, widths, self.compact)
        &&& after.pane_menu is Some
        &&& now == (menus::PaneMenu {
            items: now.items,
            move_open: open,
            tab_rects: now.tab_rects,
            ..menu
        })
        &&& now.items@ == zipped(items, outer.rows@)
        &&& shows_fitting(now.items@, items, outer.inner, self.compact)
        &&& inner is Some == shown
        &&& if shown {
            &&& inner->0.is_laid_out(area, sub_anchor(parent->0), sub_widths, self.compact)
            &&& move_rows(now.tab_rects@, menu.move_targets@, inner->0.rows@)
            &&& now.tab_rects@.len() == inner->0.rows@.len()
        } else {
            now.tab_rects@.len() == 0
        }
        &&& *after == (App { pane_menu: after.pane_menu, ..*self })
    }

    /// Lays out the pane menu, and the menu that its row for tabs opens, for labels of
    /// these widths.
    pub fn place_pane_menu(
        &mut self,
        area: Rect,
        widths: &Vec<usize>,
        sub_widths: &Vec<usize>,
    ) -> (p: Option<(Popup, Option<Popup>)>)
        requires
            old(self).pane_menu is Some ==> popup::fits(area, widths@, old(self).compact),
            old(self).pane_menu is Some ==> widths@.len() == old(self).pane_row_items().len(),
            old(self).pane_menu is Some && old(self).pane_submenu_shown(area, widths@) ==> popup::fits(
                area,
                sub_widths@,
                old(self).compact,
            ) && sub_widths@.len() == old(self).pane_menu->0.move_targets@.len(),
        ensures
            old(self).wf() ==> final(self).wf(),
            match old(self).pane_menu {
                Some(menu) => {
                    &&& p is Some
                    &&& old(self).pane_menu_drawn(
                        final(self),
                        menu,
                        area,
                        widths@,
                        sub_widths@,
                        (p->0).0,
                        (p->0).1,
                    )
                },
                None => p is None && *final(self) == *old(self),
            },
    {
        let items = self.pane_menu_items();
        let mobile: bool = self.compact;
        let hover: Option<(u16, u16)> = self.hover;
        match &mut self.pane_menu {
            Some(menu) => {
                let outer = lay_out(area, menu.anchor, widths, mobile);
                let rows = zip_rows(&pane_class_list(&items), &outer.rows);
                let over_submenu: bool = match hover {
                    Some((col, row)) => hit(&menu.tab_rects, col, row).is_some(),
                    None => false,
                };
                let open: bool = keep_open(menu.move_open, &rows, over_submenu, hover);
                menu.items = zip_rows(&items, &outer.rows);
                proof {
                    lemma_shows_fitting(items@, outer, area, menu.anchor, widths@, mobile);
                    popup::lemma_laid_out_rows(outer, area, menu.anchor, widths@, mobile);
                }
                menu.move_open = open;
                let parent = find_opener(&rows);
                let inner: Option<Popup> = match parent {
                    Some(rect) => {
                        if open && menu.move_targets.len() > 0 {
                            let anchor: (u16, u16) = (
                                rect.right().saturating_add(1),
                                rect.y.saturating_sub(1),
                            );
                            Some(lay_out(area, anchor, sub_widths, mobile))
                        } else {
                            None
                        }
                    },
                    None => None,
                };
                menu.tab_rects = match &inner {
                    Some(sub) => zip_moves(&menu.move_targets, &sub.rows),
                    None => Vec::new(),
                };
                Some((outer, inner))
            },
            None => None,
        }
    }
}

// ---------------------------------------------------------------------------
// Menus as wide as their labels
// ---------------------------------------------------------------------------

impl App {
    /// How wide the labels of the open workspace menu are on the screen.
    pub open spec fn ws_widths(&self, is_repo: bool) -> Seq<usize> {
        let items = self.ws_row_items(self.ws_menu_place()->0 as usize, is_repo);
        Seq::new(
            items.len(),
            |k: int|
                popup::shown_width(
                    popup::ws_text(items[k], self.catalog, self.ws_menu->0.module_actions@),
                ),
        )
    }

    /// Lays out the workspace menu, as wide as its labels are on the screen. A menu
    /// whose workspace is gone closes. Nothing changes where there is no room for it.
    pub fn draw_ws_menu(&mut self, area: Rect, is_repo: bool) -> (r: Result<Option<Popup>, NoRoom>)
        ensures
            old(self).wf() ==> final(self).wf(),
            ({
                let open = old(self).ws_menu is Some && old(self).ws_menu_place() is Some;
                let room = popup::fits(area, old(self).ws_widths(is_repo), old(self).compact);
                match r {
                    Ok(p) => (open ==> room) && old(self).ws_menu_placed(
                        final(self),
                        p,
                        area,
                        old(self).ws_widths(is_repo),
                        is_repo,
                    ),
                    Err(_) => open && !room && *final(self) == *old(self),
                }
            }),
    {
        let rows = self.ws_menu_rows(is_repo);
        let widths = measure(&rows);
        let open: bool = self.ws_menu_target_index().is_some();
        if open {
            assert(widths@ =~= self.ws_widths(is_repo));
            if !can_lay_out(area, &widths, self.compact) {
                return Err(NoRoom);
            }
        }
        Ok(self.place_ws_menu(area, &widths, is_repo))
    }

    /// How wide the labels of the open agent menu are on the screen.
    pub open spec fn agent_widths(&self) -> Seq<usize> {
        let items = self.agent_row_items();
        Seq::new(
            items.len(),
            |k: int|
                popup::shown_width(
                    popup::agent_text(items[k], self.catalog, self.agent_menu->0.module_actions@),
                ),
        )
    }

    /// Lays out the agent menu, as wide as its labels are on the screen.
    /// Nothing changes where there is no room for it.
    pub fn draw_agent_menu(&mut self, area: Rect) -> (r: Result<Option<Popup>, NoRoom>)
        ensures
            old(self).wf() ==> final(self).wf(),
            ({
                let open = old(self).agent_menu is Some;
                let room = popup::fits(area, old(self).agent_widths(), old(self).compact);
                match r {
                    Ok(p) => (open ==> room) && old(self).agent_menu_placed(
                        final(self),
                        p,
                        area,
                        old(self).agent_widths(),
                    ),
                    Err(_) => open && !room && *final(self) == *old(self),
                }
            }),
    {
        let rows = self.agent_menu_rows();
        let widths = measure(&rows);
        let open: bool = self.agent_menu.is_some();
        if open {
            assert(widths@ =~= self.agent_widths());
            if !can_lay_out(area, &widths, self.compact) {
                return Err(NoRoom);
            }
        }
        Ok(self.place_agent_menu(area, &widths))
    }

    /// How wide the labels of the open file menu are on the screen.
    pub open spec fn file_widths(&self) -> Seq<usize> {
        let items = menus::file_rows(
            self.file_menu->0.is_dir,
            self.file_menu->0.editors@.len(),
        );
        Seq::new(
            items.len(),
            |k: int| popup::shown_width(popup::file_text(items[k], self.file_menu->0.editors@)),
        )
    }

    /// Lays out the file menu, as wide as its labels are on the screen.
    /// Nothing changes where there is no room for it.
    pub fn draw_file_menu(&mut self, area: Rect) -> (r: Result<Option<Popup>, NoRoom>)
        ensures
            old(self).wf() ==> final(self).wf(),
            ({
                let open = old(self).file_menu is Some;
                let room = popup::fits(area, old(self).file_widths(), old(self).compact);
                match r {
                    Ok(p) => (open ==> room) && old(self).file_menu_placed(
                        final(self),
                        p,
                        area,
                        old(self).file_widths(),
                    ),
                    Err(_) => open && !room && *final(self) == *old(self),
                }
            }),
    {
        let rows = self.file_menu_rows();
        let widths = measure(&rows);
        let open: bool = self.file_menu.is_some();
        if open {
            assert(widths@ =~= self.file_widths());
            if !can_lay_out(area, &widths, self.compact) {
                return Err(NoRoom);
            }
        }
        Ok(self.place_file_menu(area, &widths))
    }

    /// How wide the labels of the open diff menu are on the screen.
    pub open spec fn diff_widths(&self) -> Seq<usize> {
        let items = menus::diff_rows();
        Seq::new(
            items.len(),
            |k: int| popup::shown_width(popup::diff_text(items[k])),
        )
    }

    /// Lays out the diff menu, as wide as its labels are on the screen.
    /// Nothing changes where there is no room for it.
    pub fn draw_diff_menu(&mut self, area: Rect) -> (r: Result<Option<Popup>, NoRoom>)
        ensures
            old(self).wf() ==> final(self).wf(),
            ({
                let open = old(self).diff_menu is Some;
                let room = popup::fits(area, old(self).diff_widths(), old(self).compact);
                match r {
                    Ok(p) => (open ==> room) && old(self).diff_menu_placed(
                        final(self),
                        p,
                        area,
                        old(self).diff_widths(),
                    ),
                    Err(_) => open && !room && *final(self) == *old(self),
                }
            }),
    {
        let rows = self.diff_menu_rows();
        let widths = measure(&rows);
        let open: bool = self.diff_menu.is_some();
        if open {
            assert(widths@ =~= self.diff_widths());
            if !can_lay_out(area, &widths, self.compact) {
                return Err(NoRoom);
            }
        }
        Ok(self.place_diff_menu(area, &widths))
    }

    /// How wide the labels of the open dock menu are on the screen.
    pub open spec fn dock_widths(&self) -> Seq<usize> {
        let items = self.dock_menu->0.items@;
        Seq::new(
            items.len(),
            |k: int| popup::shown_width(items[k].title@),
        )
    }

    /// Lays out the dock menu, as wide as its labels are on the screen.
    /// Nothing changes where there is no room for it.
    pub fn draw_dock_menu(&mut self, area: Rect) -> (r: Result<Option<Popup>, NoRoom>)
        ensures
            old(self).wf() ==> final(self).wf(),
            ({
                let open = old(self).dock_menu is Some;
                let room = popup::fits(area, old(self).dock_widths(), old(self).compact);
                match r {
                    Ok(p) => (open ==> room) && old(self).dock_menu_placed(
                        final(self),
                        p,
                        area,
                        old(self).dock_widths(),
                    ),
                    Err(_) => open && !room && *final(self) == *old(self),
                }
            }),
    {
        let rows = self.dock_menu_rows();
        let widths = measure(&rows);
        let open: bool = self.dock_menu.is_some();
        if open {
            assert(widths@ =~= self.dock_widths());
            if !can_lay_out(area, &widths, self.compact) {
                return Err(NoRoom);
            }
        }
        Ok(self.place_dock_menu(area, &widths))
    }

    /// How wide the labels of the open tab menu are on the screen.
    pub open spec fn tab_widths(&self) -> Seq<usize> {
        let items = self.tab_row_items();
        Seq::new(
            items.len(),
            |k: int|
                popup::shown_width(
                    popup::tab_item_text(items[k], self.catalog, self.tab_menu->0.module_actions@),
                ),
        )
    }

    /// Whether there is room for the open tab menu, and for the menu that it opens
    /// where that is shown.
    pub open spec fn tab_menu_has_room(&self, area: Rect) -> bool {
        &&& popup::fits(area, self.tab_widths(), self.compact)
        &&& self.tab_submenu_shown(area, self.tab_widths()) ==> popup::fits(
            area,
            popup::target_widths(self.tab_menu->0.swap_targets@),
            self.compact,
        )
    }

    /// Lays out the tab menu, and the menu that its row for tabs opens, as wide as
    /// their labels are on the screen. Nothing changes where there is no room.
    pub fn draw_tab_menu(&mut self, area: Rect) -> (r: Result<
        Option<(Popup, Option<Popup>)>,
        NoRoom,
    >)
        ensures
            old(self).wf() ==> final(self).wf(),
            match (old(self).tab_menu, r) {
                (Some(menu), Ok(p)) => {
                    &&& old(self).tab_menu_has_room(area)
                    &&& p is Some
                    &&& old(self).tab_menu_drawn(
                        final(self),
                        menu,
                        area,
                        old(self).tab_widths(),
                        popup::target_widths(menu.swap_targets@),
                        (p->0).0,
                        (p->0).1,
                    )
                },
                (Some(_), Err(_)) => !old(self).tab_menu_has_room(area) && *final(self) == *old(
                    self,
                ),
                (None, _) => r == Ok::<Option<(Popup, Option<Popup>)>, NoRoom>(None)
                    && *final(self) == *old(self),
            },
    {
        let rows = self.tab_menu_rows();
        let widths = measure(&rows);
        let sub_widths: Vec<usize> = match &self.tab_menu {
            Some(menu) => measure_targets(&menu.swap_targets),
            None => {
                return Ok(None);
            },
        };
        assert(widths@ =~= self.tab_widths());
        if !can_lay_out(area, &widths, self.compact) {
            return Err(NoRoom);
        }
        if self.is_tab_submenu_shown(area, &widths) && !can_lay_out(
            area,
            &sub_widths,
            self.compact,
        ) {
            return Err(NoRoom);
        }
        Ok(self.place_tab_menu(area, &widths, &sub_widths))
    }

    /// How wide the labels of the open pane menu are on the screen.
    pub open spec fn pane_widths(&self) -> Seq<usize> {
        let items = self.pane_row_items();
        Seq::new(
            items.len(),
            |k: int|
                popup::shown_width(
                    popup::pane_text(items[k], self.catalog, self.pane_menu->0.module_actions@),
                ),
        )
    }

    /// Whether there is room for the open pane menu, and for the menu that it opens
    /// where that is shown.
    pub open spec fn pane_menu_has_room(&self, area: Rect) -> bool {
        &&& popup::fits(area, self.pane_widths(), self.compact)
        &&& self.pane_submenu_shown(area, self.pane_widths()) ==> popup::fits(
            area,
            popup::target_widths(self.pane_menu->0.move_targets@),
            self.compact,
        )
    }

    /// Lays out the pane menu, and the menu that its row for tabs opens, as wide as
    /// their labels are on the screen. Nothing changes where there is no room.
    pub fn draw_pane_menu(&mut self, area: Rect) -> (r: Result<
        Option<(Popup, Option<Popup>)>,
        NoRoom,
    >)
        ensures
            old(self).wf() ==> final(self).wf(),
            match (old(self).pane_menu, r) {
                (Some(menu), Ok(p)) => {
                    &&& old(self).pane_menu_has_room(area)
                    &&& p is Some
                    &&& old(self).pane_menu_drawn(
                        final(self),
                        menu,
                        area,
                        old(self).pane_widths(),
                        popup::target_widths(menu.move_targets@),
                        (p->0).0,
                        (p->0).1,
                    )
                },
                (Some(_), Err(_)) => !old(self).pane_menu_has_room(area) && *final(self) == *old(
                    self,
                ),
                (None, _) => r == Ok::<Option<(Popup, Option<Popup>)>, NoRoom>(None)
                    && *final(self) == *old(self),
            },
    {
        let rows = self.pane_menu_rows();
        let widths = measure(&rows);
        let sub_widths: Vec<usize> = match &self.pane_menu {
            Some(menu) => measure_targets(&menu.move_targets),
            None => {
                return Ok(None);
            },
        };
        assert(widths@ =~= self.pane_widths());
        if !can_lay_out(area, &widths, self.compact) {
            return Err(NoRoom);
        }
        if self.is_pane_submenu_shown(area, &widths) && !can_lay_out(
            area,
            &sub_widths,
            self.compact,
        ) {
            return Err(NoRoom);
        }
        Ok(self.place_pane_menu(area, &widths, &sub_widths))
    }
}

proof fn lemma_opener_rect(rows: Seq<(RowClass, Rect)>, n: int)
    requires
        0 <= n <= rows.len(),
    ensures
        match opener_rect(rows, n) {
            Some(r) => exists|k: int|
                n <= k < rows.len() && (#[trigger] rows[k]).0 is Opener && rows[k].1 == r,
            None => forall|k: int| n <= k < rows.len() ==> !((#[trigger] rows[k]).0 is Opener),
        },
    decreases rows.len() - n,
{
    if n < rows.len() {
        if rows[n].0 is Opener {
            assert(rows[n].1 == opener_rect(rows, n)->0);
        } else {
            lemma_opener_rect(rows, n + 1);
        }
    }
}

/// Pointing at the row that opens another menu opens it, and pointing at a row that
/// does something else closes it. Pointing into that menu keeps it open, and
/// pointing elsewhere, or nowhere, leaves it as it is.
pub proof fn law_pointing_opens_and_closes_submenus(
    open: bool,
    rows: Seq<(RowClass, Rect)>,
    over_submenu: bool,
    col: u16,
    row: u16,
    k: int,
)
    requires
        0 <= k < rows.len(),
        rows[k].0 is Opener,
        forall|j: int| 0 <= j < rows.len() && j != k ==> !((#[trigger] rows[j]).0 is Opener),
    ensures
        ({
            let now = stays_open(open, rows, over_submenu, Some((col, row)));
            &&& rows[k].1.has_cell(col, row) ==> now
            &&& over_submenu ==> now
            &&& !over_submenu && !rows[k].1.has_cell(col, row) && (exists|j: int|
                0 <= j < rows.len() && (#[trigger] rows[j]).0 is Other && rows[j].1.has_cell(
                    col,
                    row,
                )) ==> !now
            &&& !over_submenu && (forall|j: int|
                0 <= j < rows.len() ==> !(#[trigger] rows[j]).1.has_cell(col, row)) ==> now == open
        }),
        stays_open(open, rows, over_submenu, None) == open,
{
    lemma_opener_rect(rows, 0);
}

/// A menu that a row opens stands beside that row: to the right of every cell of it,
/// with its first row on the same line, where there is room.
pub proof fn law_submenus_open_beside_their_row(
    area: Rect,
    parent: Rect,
    rows: nat,
    label: nat,
    col: u16,
)
    requires
        area.x + area.width <= u16::MAX,
        area.y + area.height <= u16::MAX,
        area.x <= parent.x,
        area.y + 1 <= parent.y,
        parent.x + parent.width < u16::MAX,
        label <= popup::LABEL_WIDTH_MAX,
        area.width >= popup::POPUP_WIDTH_MIN,
        area.height >= 1,
        rows + 2 <= area.height,
        parent.x <= col < parent.x + parent.width,
        ({
            let p = popup::popup_rect(area, sub_anchor(parent), rows, label, false);
            &&& parent.x + parent.width + 1 + p.width <= area.x + area.width
            &&& parent.y - 1 + p.height <= area.y + area.height
        }),
    ensures
        ({
            let p = popup::popup_rect(area, sub_anchor(parent), rows, label, false);
            &&& col < p.x
            &&& p.x == parent.x + parent.width + 1
            &&& p.y + 1 == parent.y
        }),
{
    popup::law_popups_open_at_their_anchor(area, sub_anchor(parent), rows, label, false);
}

} // verus!
