//! Context menus of a session: opening them, clicking into them, and what their
//! rows do.
use vstd::prelude::*;
use vstd::string::*;

use super::{ActionTarget, App, Effect, MenuContext};
use crate::geometry::Rect;
use crate::ids;
use crate::ids::{drop_id, has_id, PaneId};
use crate::layout::Axis;
use crate::menus;
use crate::menus::{
    build_agent_items, build_pane_items, build_ws_items, AgentMenu, AgentMenuItem, AgentTarget,
    Key, LinkTarget, ModuleMenuAction, PaneMenu, PaneMenuItem, TabMenu, TabMenuItem, TabMenuTarget,
    TabMoveDirection, WsMenu, WsMenuItem,
};
use crate::text;
use crate::text::{push_decimal, same_text};
use crate::workspace;
use crate::workspace::{MoveTarget, Tab, Workspace};

verus! {

/// The first row from `n` on that is at the cell.
pub open spec fn hit_from<T>(rows: Seq<(T, Rect)>, col: u16, row: u16, n: int) -> Option<int>
    decreases rows.len() - n,
{
    if n < 0 || n >= rows.len() {
        None
    } else if rows[n].1.has_cell(col, row) {
        Some(n)
    } else {
        hit_from(rows, col, row, n + 1)
    }
}

/// The row that is at the cell.
pub fn hit<T>(rows: &Vec<(T, Rect)>, col: u16, row: u16) -> (at: Option<usize>)
    ensures
        match at {
            Some(i) => i < rows@.len() && hit_from(rows@, col, row, 0) == Some(i as int),
            None => hit_from(rows@, col, row, 0) is None,
        },
{
    let mut n: usize = 0;
    while n < rows.len()
        invariant
            n <= rows@.len(),
            hit_from(rows@, col, row, 0) == hit_from(rows@, col, row, n as int),
        decreases rows@.len() - n,
    {
        if rows[n].1.contains(col, row) {
            return Some(n);
        }
        n = n + 1;
    }
    None
}

/// What a module's action asks for.
pub open spec fn module_effects(
    context: MenuContext,
    actions: Seq<ModuleMenuAction>,
    i: usize,
    target: ActionTarget,
) -> Seq<Effect> {
    if i < actions.len() {
        seq![Effect::RunModule { context, action: actions[i as int], target }]
    } else {
        seq![]
    }
}

impl App {
    /// Whether nothing but these effects was added.
    pub open spec fn only_asked(&self, after: &App, more: Seq<Effect>) -> bool {
        &&& after.outbox@ == self.outbox@ + more
        &&& *after == (App { outbox: after.outbox, ..*self })
    }

    /// Whether nothing but this message was shown.
    pub open spec fn only_said(&self, after: &App, message: Seq<char>) -> bool {
        &&& after.toast is Some
        &&& after.toast->0@ == message
        &&& *after == (App { toast: after.toast, ..*self })
    }

    /// Asks for something.
    fn ask(&mut self, effect: Effect)
        ensures
            old(self).only_asked(final(self), seq![effect]),
    {
        let ghost before = self.outbox@;
        self.outbox.push(effect);
        assert(self.outbox@ =~= before + seq![effect]);
    }

    /// Has a module's action run.
    fn ask_module(
        &mut self,
        context: MenuContext,
        actions: &Vec<ModuleMenuAction>,
        i: usize,
        target: ActionTarget,
    )
        ensures
            old(self).only_asked(final(self), module_effects(context, actions@, i, target)),
    {
        if i < actions.len() {
            self.ask(Effect::RunModule { context, action: actions[i].copy(), target });
        } else {
            assert(self.outbox@ =~= self.outbox@ + Seq::<Effect>::empty());
        }
    }
}

// ---------------------------------------------------------------------------
// Tabs
// ---------------------------------------------------------------------------

/// The number of a tab, counted from one.
pub open spec fn number_text(index: nat) -> Seq<char> {
    "#"@ + text::decimal_text(index + 1)
}

/// How a tab is called in a menu.
pub open spec fn tab_text(tab: Tab, index: nat) -> Seq<char> {
    match tab.name {
        Some(n) => n@,
        None => if tab.git is Some {
            "git"@
        } else if tab.orch {
            "orch"@
        } else if tab.mission {
            "ctrl"@
        } else {
            number_text(index)
        },
    }
}

fn number_label(index: usize) -> (label: String)
    requires
        index < usize::MAX,
    ensures
        label@ == number_text(index as nat),
{
    let mut label: String = "#".to_owned();
    push_decimal(&mut label, index + 1);
    label
}

/// How a tab is called in a menu: by its name, by the dashboard that it is, or by
/// its number.
pub fn tab_menu_label(tab: &Tab, index: usize) -> (label: String)
    requires
        index < usize::MAX,
    ensures
        label@ == tab_text(*tab, index as nat),
{
    match &tab.name {
        Some(n) => n.clone(),
        None => {
            if tab.is_git() {
                "git".to_owned()
            } else if tab.is_orch() {
                "orch".to_owned()
            } else if tab.is_mission() {
                "ctrl".to_owned()
            } else {
                number_label(index)
            }
        },
    }
}

/// The position of the `k`-th of the other tabs.
pub open spec fn other_tab(index: int, k: int) -> int {
    if k < index {
        k
    } else {
        k + 1
    }
}

/// Whether these are the other tabs of a workspace, with their labels.
pub open spec fn are_swap_targets(
    list: Seq<(TabMenuTarget, String)>,
    tabs: Seq<Tab>,
    workspace: usize,
    index: int,
) -> bool {
    &&& list.len() == tabs.len() - 1
    &&& forall|k: int|
        0 <= k < list.len() ==> {
            let (target, label) = #[trigger] list[k];
            let at = other_tab(index, k);
            &&& target.workspace == workspace
            &&& target.leaves@ == tabs[at].layout.leaf_seq()
            &&& label@ == tab_text(tabs[at], at as nat)
        }
}

impl App {
    /// The other tabs of a workspace, with their labels.
    fn swap_targets(&self, workspace: usize, index: usize) -> (list: Vec<(TabMenuTarget, String)>)
        requires
            workspace < self.workspaces@.len(),
            index < self.workspaces@[workspace as int].tabs@.len(),
        ensures
            are_swap_targets(
                list@,
                self.workspaces@[workspace as int].tabs@,
                workspace,
                index as int,
            ),
    {
        let tabs = &self.workspaces[workspace].tabs;
        let mut list: Vec<(TabMenuTarget, String)> = Vec::new();
        let mut i: usize = 0;
        while i < tabs.len()
            invariant
                index < tabs@.len(),
                i <= tabs@.len(),
                list@.len() == (if i <= index {
                    i as int
                } else {
                    i - 1
                }),
                forall|k: int|
                    0 <= k < list@.len() ==> {
                        let (target, label) = #[trigger] list@[k];
                        let at = other_tab(index as int, k);
                        &&& target.workspace == workspace
                        &&& target.leaves@ == tabs@[at].layout.leaf_seq()
                        &&& label@ == tab_text(tabs@[at], at as nat)
                    },
            decreases tabs@.len() - i,
        {
            if i != index {
                let target = TabMenuTarget { workspace, leaves: tabs[i].layout.leaves() };
                list.push((target, tab_menu_label(&tabs[i], i)));
            }
            i = i + 1;
        }
        list
    }

    /// Opens the context menu of a tab of the active workspace, at the click.
    /// `module_actions` is what modules offer there.
    pub fn open_tab_menu(
        &mut self,
        index: usize,
        col: u16,
        row: u16,
        module_actions: Vec<ModuleMenuAction>,
    )
        requires
            old(self).wf(),
        ensures
            final(self).wf(),
            if old(self).workspaces@.len() > 0 && index < old(self).active().tabs@.len() {
                let tabs = old(self).active().tabs@;
                &&& final(self).tab_menu is Some
                &&& ({
                    let m = final(self).tab_menu->0;
                    &&& m.target.workspace == old(self).active_ws
                    &&& m.target.leaves@ == tabs[index as int].layout.leaf_seq()
                    &&& m.anchor == (col, row)
                    &&& m.items@.len() == 0
                    &&& m.module_actions == module_actions
                    &&& m.can_rename == tabs[index as int].is_panes()
                    &&& m.can_move_left == (index > 0)
                    &&& m.can_move_right == (index + 1 < tabs.len())
                    &&& are_swap_targets(
                        m.swap_targets@,
                        tabs,
                        old(self).active_ws,
                        index as int,
                    )
                    &&& !m.swap_open
                    &&& m.swap_rects@.len() == 0
                })
                &&& *final(self) == (App { tab_menu: final(self).tab_menu, ..*old(self) })
            } else {
                *final(self) == *old(self)
            },
    {
        let workspace: usize = self.active_ws;
        let target = match self.tab_menu_target(workspace, index) {
            Some(t) => t,
            None => {
                return ;
            },
        };
        let count: usize = self.workspaces[workspace].tabs.len();
        let can_rename: bool = self.workspaces[workspace].tabs[index].is_renameable();
        let swap_targets = self.swap_targets(workspace, index);
        self.tab_menu = Some(
            TabMenu {
                target,
                anchor: (col, row),
                items: Vec::new(),
                module_actions,
                can_rename,
                can_move_left: index > 0,
                can_move_right: index + 1 < count,
                swap_targets,
                swap_open: false,
                swap_rects: Vec::new(),
            },
        );
    }

    /// The rows of the open tab menu.
    pub fn tab_menu_items(&self) -> (items: Vec<TabMenuItem>)
        ensures
            items@ == (match self.tab_menu {
                Some(m) => m.rows(),
                None => Seq::<TabMenuItem>::empty(),
            }),
    {
        match &self.tab_menu {
            Some(m) => m.build_items(),
            None => Vec::new(),
        }
    }

    /// What a row of the tab menu leaves behind once the menu is closed: the
    /// action is done to the tab that was meant, wherever it is now.
    pub open spec fn tab_action_done(&self, after: &App, menu: TabMenu, item: TabMenuItem) -> bool {
        let w = menu.target.workspace;
        match self.target_place(menu.target) {
            None => self.only_said(after, self.catalog.tab_changed_reopen_menu@),
            Some(i) => match item {
                TabMenuItem::Rename => if w == self.active_ws {
                    self.tab_rename_opened(after, i as usize)
                } else {
                    *after == *self
                },
                TabMenuItem::MoveLeft => if i == 0 {
                    self.only_said(after, self.catalog.tab_cannot_move_left@)
                } else {
                    self.tab_moved(
                        after,
                        w,
                        i as usize,
                        (i - 1) as usize,
                        after.workspaces@[w as int].active_tab,
                    )
                },
                TabMenuItem::MoveRight => if i + 1 == self.workspaces@[w as int].tabs@.len() {
                    self.only_said(after, self.catalog.tab_cannot_move_right@)
                } else {
                    self.tab_moved(
                        after,
                        w,
                        i as usize,
                        (i + 1) as usize,
                        after.workspaces@[w as int].active_tab,
                    )
                },
                TabMenuItem::SwapWith | TabMenuItem::Divider => *after == *self,
                TabMenuItem::Module(k) => self.only_asked(
                    after,
                    module_effects(
                        MenuContext::Tab,
                        menu.module_actions@,
                        k,
                        ActionTarget::Tab { workspace: w, tab: i as usize },
                    ),
                ),
            },
        }
    }

    /// Moves a tab by one position, or says that it cannot.
    fn move_or_say(&mut self, w: usize, i: usize, direction: TabMoveDirection)
        requires
            old(self).wf(),
            w < old(self).workspaces@.len(),
            i < old(self).workspaces@[w as int].tabs@.len(),
        ensures
            final(self).wf(),
            if old(self).adjacent_error(w, i, direction) is Some {
                old(self).only_said(
                    final(self),
                    match direction {
                        TabMoveDirection::Left => old(self).catalog.tab_cannot_move_left@,
                        TabMoveDirection::Right => old(self).catalog.tab_cannot_move_right@,
                    },
                )
            } else {
                old(self).tab_moved(
                    final(self),
                    w,
                    i,
                    super::tabs::adjacent(i as int, direction) as usize,
                    final(self).workspaces@[w as int].active_tab,
                )
            },
    {
        if self.move_tab_direction_in_workspace(w, i, direction).is_err() {
            let msg = match direction {
                TabMoveDirection::Left => self.catalog.tab_cannot_move_left,
                TabMoveDirection::Right => self.catalog.tab_cannot_move_right,
            };
            self.show_toast(msg.to_owned());
        }
    }

    /// Does what a row of the tab menu says, and closes the menu.
    pub fn tab_menu_action(&mut self, item: TabMenuItem)
        requires
            old(self).wf(),
        ensures
            final(self).wf(),
            match old(self).tab_menu {
                Some(menu) => (App { tab_menu: None, ..*old(self) }).tab_action_done(
                    final(self),
                    menu,
                    item,
                ),
                None => *final(self) == *old(self),
            },
    {
        let mut open: Option<TabMenu> = None;
        core::mem::swap(&mut open, &mut self.tab_menu);
        let menu: TabMenu = match open {
            Some(m) => m,
            None => {
                return ;
            },
        };
        self.do_tab_action(&menu, item);
    }

    /// Does what a row of the tab menu says.
    fn do_tab_action(&mut self, menu: &TabMenu, item: TabMenuItem)
        requires
            old(self).wf(),
        ensures
            final(self).wf(),
            old(self).tab_action_done(final(self), *menu, item),
    {
        let (w, i) = match self.resolve_tab_menu_target(&menu.target) {
            Some(at) => at,
            None => {
                let msg = self.catalog.tab_changed_reopen_menu.to_owned();
                self.show_toast(msg);
                return ;
            },
        };
        match item {
            TabMenuItem::Rename => {
                if w == self.active_ws {
                    self.open_tab_rename(i);
                }
            },
            TabMenuItem::MoveLeft => {
                self.move_or_say(w, i, TabMoveDirection::Left);
            },
            TabMenuItem::MoveRight => {
                self.move_or_say(w, i, TabMoveDirection::Right);
            },
            TabMenuItem::SwapWith => {},
            TabMenuItem::Divider => {},
            TabMenuItem::Module(k) => {
                self.ask_module(
                    MenuContext::Tab,
                    &menu.module_actions,
                    k,
                    ActionTarget::Tab { workspace: w, tab: i },
                );
            },
        }
    }

    /// What choosing a tab to exchange leaves behind.
    pub open spec fn swap_chosen(
        &self,
        after: &App,
        source: TabMenuTarget,
        target: TabMenuTarget,
    ) -> bool {
        match (self.target_place(source), self.target_place(target)) {
            (Some(i), Some(j)) => if source.workspace != target.workspace {
                self.only_said(after, self.catalog.tab_changed_reopen_menu@)
            } else if i == j {
                *after == *self
            } else {
                self.tabs_exchanged(
                    after,
                    source.workspace,
                    i as usize,
                    j as usize,
                    after.workspaces@[source.workspace as int].active_tab,
                )
            },
            _ => self.only_said(after, self.catalog.tab_changed_reopen_menu@),
        }
    }

    /// Exchanges two tabs, wherever they are now.
    fn exchange(&mut self, source: &TabMenuTarget, target: &TabMenuTarget)
        requires
            old(self).wf(),
        ensures
            final(self).wf(),
            old(self).swap_chosen(final(self), *source, *target),
    {
        let from = self.resolve_tab_menu_target(source);
        let to = self.resolve_tab_menu_target(target);
        match (from, to) {
            (Some((w, i)), Some((v, j))) => {
                if w == v {
                    let _ = self.swap_tabs_in_workspace(w, i, j);
                    return ;
                }
            },
            _ => {},
        }
        let msg = self.catalog.tab_changed_reopen_menu.to_owned();
        self.show_toast(msg);
    }

    /// Closes the menu and exchanges its tab with the `k`-th tab on offer.
    fn choose_swap(&mut self, k: usize)
        requires
            old(self).wf(),
            old(self).tab_menu is Some,
            k < old(self).tab_menu->0.swap_rects@.len(),
        ensures
            final(self).wf(),
            (App { tab_menu: None, ..*old(self) }).swap_chosen(
                final(self),
                old(self).tab_menu->0.target,
                old(self).tab_menu->0.swap_rects@[k as int].0,
            ),
    {
        let mut open: Option<TabMenu> = None;
        core::mem::swap(&mut open, &mut self.tab_menu);
        match open {
            Some(menu) => {
                self.exchange(&menu.target, &menu.swap_rects[k].0);
            },
            None => {},
        }
    }

    /// A click while the tab menu is open: on a tab to exchange, on a row, or
    /// elsewhere, which closes the menu.
    pub fn tab_menu_click(&mut self, col: u16, row: u16)
        requires
            old(self).wf(),
        ensures
            final(self).wf(),
            match old(self).tab_menu {
                None => *final(self) == *old(self),
                Some(menu) => match hit_from(menu.swap_rects@, col, row, 0) {
                    Some(k) => (App { tab_menu: None, ..*old(self) }).swap_chosen(
                        final(self),
                        menu.target,
                        menu.swap_rects@[k].0,
                    ),
                    None => match hit_from(menu.items@, col, row, 0) {
                        None => *final(self) == (App { tab_menu: None, ..*old(self) }),
                        Some(k) => match menu.items@[k].0 {
                            TabMenuItem::SwapWith => *final(self) == (App {
                                tab_menu: Some(TabMenu { swap_open: true, ..menu }),
                                ..*old(self)
                            }),
                            TabMenuItem::Divider => *final(self) == *old(self),
                            item => (App { tab_menu: None, ..*old(self) }).tab_action_done(
                                final(self),
                                menu,
                                item,
                            ),
                        },
                    },
                },
            },
    {
        let (swap, chosen): (Option<usize>, Option<TabMenuItem>) = match &self.tab_menu {
            Some(menu) => match hit(&menu.swap_rects, col, row) {
                Some(k) => (Some(k), None),
                None => match hit(&menu.items, col, row) {
                    Some(k) => (None, Some(menu.items[k].0)),
                    None => (None, None),
                },
            },
            None => {
                return ;
            },
        };
        match swap {
            Some(k) => {
                self.choose_swap(k);
                return ;
            },
            None => {},
        }
        match chosen {
            Some(TabMenuItem::SwapWith) => {
                match &mut self.tab_menu {
                    Some(menu) => {
                        menu.swap_open = true;
                    },
                    None => {},
                }
            },
            Some(TabMenuItem::Divider) => {},
            Some(item) => {
                self.tab_menu_action(item);
            },
            None => {
                self.tab_menu = None;
            },
        }
    }

    /// A key while the tab menu is open: `Esc` closes it.
    pub fn handle_tab_menu_key(&mut self, key: Key)
        requires
            old(self).wf(),
        ensures
            final(self).wf(),
            *final(self) == (App {
                tab_menu: if key is Esc {
                    None
                } else {
                    old(self).tab_menu
                },
                ..*old(self)
            }),
    {
        if key == Key::Esc {
            self.tab_menu = None;
        }
    }
}

// ---------------------------------------------------------------------------
// Workspaces
// ---------------------------------------------------------------------------

/// Whether the workspace is a linked worktree.
pub open spec fn is_linked(w: Workspace) -> bool {
    w.worktree is Some && w.worktree->0.linked
}

impl App {
    /// Opens the context menu of a workspace, at the click. `is_repo` is whether
    /// it is in a repository now.
    pub fn open_ws_menu(
        &mut self,
        index: usize,
        col: u16,
        row: u16,
        is_repo: bool,
        module_actions: Vec<ModuleMenuAction>,
    )
        requires
            old(self).wf(),
        ensures
            final(self).wf(),
            if index < old(self).workspaces@.len() {
                &&& final(self).ws_menu is Some
                &&& ({
                    let m = final(self).ws_menu->0;
                    &&& m.workspace_id == old(self).workspaces@[index as int].id
                    &&& m.is_repo == is_repo
                    &&& m.anchor == (col, row)
                    &&& m.items@.len() == 0
                    &&& m.module_actions == module_actions
                })
                &&& *final(self) == (App { ws_menu: final(self).ws_menu, ..*old(self) })
            } else {
                *final(self) == *old(self)
            },
    {
        if index < self.workspaces.len() {
            self.ws_menu = Some(
                WsMenu {
                    workspace_id: self.workspaces[index].id.clone(),
                    is_repo,
                    anchor: (col, row),
                    items: Vec::new(),
                    module_actions,
                },
            );
        }
    }

    /// Whether the workspace counts as in a repository: by the menu, where that
    /// is its menu, else by what is so now.
    pub open spec fn counts_as_repo(&self, index: usize, is_repo: bool) -> bool {
        if index < self.workspaces@.len() && self.ws_menu is Some
            && self.ws_menu->0.workspace_id@ == self.workspaces@[index as int].id@ {
            self.ws_menu->0.is_repo
        } else {
            index < self.workspaces@.len() && is_repo
        }
    }

    /// The rows of the menu of a workspace. `is_repo` is whether it is in a
    /// repository now; an open menu keeps to what was so when it opened.
    pub fn ws_menu_items(&self, index: usize, is_repo: bool) -> (items: Vec<WsMenuItem>)
        ensures
            items@ == menus::ws_rows(
                index < self.workspaces@.len() && self.workspaces@[index as int].pinned,
                index < self.workspaces@.len() && is_linked(self.workspaces@[index as int]),
                self.counts_as_repo(index, is_repo),
                match self.ws_menu {
                    Some(m) => m.module_actions@.len(),
                    None => 0,
                },
            ),
    {
        let extras: usize = match &self.ws_menu {
            Some(m) => m.module_actions.len(),
            None => 0,
        };
        if index >= self.workspaces.len() {
            return build_ws_items(false, false, false, extras);
        }
        let w = &self.workspaces[index];
        let repo: bool = match &self.ws_menu {
            Some(m) => {
                if same_text(m.workspace_id.as_str(), w.id.as_str()) {
                    m.is_repo
                } else {
                    is_repo
                }
            },
            None => is_repo,
        };
        let linked: bool = match &w.worktree {
            Some(m) => m.linked,
            None => false,
        };
        build_ws_items(w.pinned, linked, repo, extras)
    }

    /// Where the workspace of the open menu is now.
    pub fn ws_menu_target_index(&self) -> (at: Option<usize>)
        ensures
            match at {
                Some(i) => self.ws_menu is Some && i < self.workspaces@.len()
                    && self.place_of_workspace(self.ws_menu->0.workspace_id@) == Some(i as int),
                None => self.ws_menu is None || self.place_of_workspace(
                    self.ws_menu->0.workspace_id@,
                ) is None,
            },
    {
        match &self.ws_menu {
            Some(m) => self.find_workspace(m.workspace_id.as_str()),
            None => None,
        }
    }

    /// What a row of the workspace menu leaves behind once the menu is closed: the
    /// action is done to the workspace that was meant, wherever it is now; where
    /// it is gone nothing is done. `is_repo` is whether it is in a
    /// repository now, and `worktrees` the folder of the repository's worktrees,
    /// where that exists.
    pub open spec fn ws_action_done(
        &self,
        after: &App,
        menu: WsMenu,
        item: WsMenuItem,
        is_repo: bool,
        worktrees: Option<String>,
    ) -> bool {
        match self.place_of_workspace(menu.workspace_id@) {
            None => *after == *self,
            Some(i) => {
                let w = self.workspaces@[i];
                match item {
                    WsMenuItem::Divider => *after == *self,
                    WsMenuItem::Pin | WsMenuItem::Unpin => {
                        &&& after.workspaces@ == self.workspaces@.update(
                            i,
                            Workspace { pinned: item is Pin, ..w },
                        )
                        &&& *after == (App {
                            workspaces: after.workspaces,
                            session_dirty: self.session_dirty || w.pinned != (item is Pin),
                            ..*self
                        })
                    },
                    WsMenuItem::Module(k) => self.only_asked(
                        after,
                        module_effects(
                            MenuContext::Workspace,
                            menu.module_actions@,
                            k,
                            ActionTarget::Workspace(i as usize),
                        ),
                    ),
                    WsMenuItem::Rename => *after == (App {
                        ws_rename: Some(
                            menus::WsRename { workspace_id: w.id, buffer: w.name },
                        ),
                        ..*self
                    }),
                    WsMenuItem::Close => self.workspace_closed(after, i as usize),
                    WsMenuItem::DeleteWorktree => *after == (App {
                        worktree_delete: Some(menu.workspace_id),
                        ..*self
                    }),
                    WsMenuItem::NewWorktree => if is_repo {
                        &&& after.worktree_repo == Some(w.cwd)
                        &&& text::opt_text(after.worktree_prompt) == Some(Seq::<char>::empty())
                        &&& *after == (App {
                            worktree_repo: after.worktree_repo,
                            worktree_prompt: after.worktree_prompt,
                            worktree_error: None,
                            ..*self
                        })
                    } else {
                        *after == *self
                    },
                    WsMenuItem::OpenWorktree => if is_repo {
                        self.only_asked(
                            after,
                            seq![
                                Effect::PickFolder(
                                    match worktrees {
                                        Some(dir) => dir,
                                        None => w.cwd,
                                    },
                                ),
                            ],
                        )
                    } else {
                        *after == *self
                    },
                    WsMenuItem::OpenGit => self.only_asked(
                        after,
                        seq![Effect::OpenGit(i as usize)],
                    ),
                    WsMenuItem::OpenOrch => (App { active_ws: i as usize, ..*self }).only_asked(
                        after,
                        seq![Effect::OpenOrch],
                    ),
                    WsMenuItem::OpenMission => self.only_asked(
                        after,
                        seq![Effect::OpenMission(i as usize)],
                    ),
                }
            },
        }
    }

    /// Does what a row of the workspace menu says, and closes the menu.
    pub fn ws_menu_action(&mut self, item: WsMenuItem, is_repo: bool, worktrees: Option<String>)
        requires
            old(self).wf(),
        ensures
            final(self).wf(),
            match old(self).ws_menu {
                Some(menu) => (App { ws_menu: None, ..*old(self) }).ws_action_done(
                    final(self),
                    menu,
                    item,
                    is_repo,
                    worktrees,
                ),
                None => *final(self) == *old(self),
            },
    {
        let mut open: Option<WsMenu> = None;
        core::mem::swap(&mut open, &mut self.ws_menu);
        let menu: WsMenu = match open {
            Some(m) => m,
            None => {
                return ;
            },
        };
        self.do_ws_action(&menu, item, is_repo, worktrees);
    }

    /// Does what a row of the workspace menu says.
    #[verifier::rlimit(60)]
    fn do_ws_action(
        &mut self,
        menu: &WsMenu,
        item: WsMenuItem,
        is_repo: bool,
        worktrees: Option<String>,
    )
        requires
            old(self).wf(),
        ensures
            final(self).wf(),
            old(self).ws_action_done(final(self), *menu, item, is_repo, worktrees),
    {
        let index: usize = match self.find_workspace(menu.workspace_id.as_str()) {
            Some(i) => i,
            None => {
                return ;
            },
        };
        match item {
            WsMenuItem::Divider => {},
            WsMenuItem::Pin => {
                let _ = self.set_workspace_pinned(index, true);
            },
            WsMenuItem::Unpin => {
                let _ = self.set_workspace_pinned(index, false);
            },
            WsMenuItem::Module(k) => {
                self.ask_module(
                    MenuContext::Workspace,
                    &menu.module_actions,
                    k,
                    ActionTarget::Workspace(index),
                );
            },
            WsMenuItem::Rename => {
                self.open_ws_rename(index);
            },
            WsMenuItem::Close => {
                self.close_workspace(index);
            },
            WsMenuItem::DeleteWorktree => {
                self.worktree_delete = Some(menu.workspace_id.clone());
            },
            WsMenuItem::NewWorktree => {
                if is_repo {
                    self.worktree_repo = Some(self.workspaces[index].cwd.clone());
                    self.worktree_prompt = Some(String::new());
                    self.worktree_error = None;
                }
            },
            WsMenuItem::OpenWorktree => {
                if is_repo {
                    let start: String = match worktrees {
                        Some(dir) => dir,
                        None => self.workspaces[index].cwd.clone(),
                    };
                    self.ask(Effect::PickFolder(start));
                }
            },
            WsMenuItem::OpenGit => {
                self.ask(Effect::OpenGit(index));
            },
            WsMenuItem::OpenOrch => {
                self.active_ws = index;
                self.ask(Effect::OpenOrch);
            },
            WsMenuItem::OpenMission => {
                self.ask(Effect::OpenMission(index));
            },
        }
    }

    /// A click while the workspace menu is open: on a row, or elsewhere, which
    /// closes the menu. A divider does nothing.
    pub fn ws_menu_click(&mut self, col: u16, row: u16, is_repo: bool, worktrees: Option<String>)
        requires
            old(self).wf(),
        ensures
            final(self).wf(),
            match old(self).ws_menu {
                None => *final(self) == *old(self),
                Some(menu) => match hit_from(menu.items@, col, row, 0) {
                    None => *final(self) == (App { ws_menu: None, ..*old(self) }),
                    Some(k) => if menu.items@[k].0 is Divider {
                        *final(self) == *old(self)
                    } else {
                        (App { ws_menu: None, ..*old(self) }).ws_action_done(
                            final(self),
                            menu,
                            menu.items@[k].0,
                            is_repo,
                            worktrees,
                        )
                    },
                },
            },
    {
        let chosen: Option<WsMenuItem> = match &self.ws_menu {
            Some(menu) => match hit(&menu.items, col, row) {
                Some(k) => Some(menu.items[k].0),
                None => None,
            },
            None => None,
        };
        match chosen {
            Some(WsMenuItem::Divider) => {},
            Some(item) => {
                self.ws_menu_action(item, is_repo, worktrees);
            },
            None => {
                self.ws_menu = None;
            },
        }
    }

    /// A key while the workspace menu is open: `Esc` closes it.
    pub fn handle_ws_menu_key(&mut self, key: Key)
        requires
            old(self).wf(),
        ensures
            final(self).wf(),
            *final(self) == (App {
                ws_menu: if key is Esc {
                    None
                } else {
                    old(self).ws_menu
                },
                ..*old(self)
            }),
    {
        if key == Key::Esc {
            self.ws_menu = None;
        }
    }
}

// ---------------------------------------------------------------------------
// Panes
// ---------------------------------------------------------------------------

/// The tabs of panes but one, with their labels.
pub open spec fn move_list(tabs: Seq<Tab>, active: int, n: nat) -> Seq<(MoveTarget, Seq<char>)>
    decreases n,
{
    if n == 0 {
        seq![]
    } else {
        let before = move_list(tabs, active, (n - 1) as nat);
        let i = n - 1;
        if i == active || !tabs[i].is_panes() {
            before
        } else {
            before.push(
                (
                    MoveTarget::Tab(i as usize),
                    match tabs[i].name {
                        Some(name) => name@,
                        None => number_text(i as nat),
                    },
                ),
            )
        }
    }
}

/// Where a pane of the tab can be moved: to another tab of panes, or to a new
/// one, unless that changes nothing.
pub open spec fn move_choices(tabs: Seq<Tab>, active: int, new_tab: Seq<char>) -> Seq<
    (MoveTarget, Seq<char>),
> {
    let others = move_list(tabs, active, tabs.len());
    if others.len() > 0 || tabs[active].layout.leaf_seq().len() > 1 {
        others.push((MoveTarget::NewTab, new_tab))
    } else {
        others
    }
}

/// What targets with labels say.
pub open spec fn choice_views(list: Seq<(MoveTarget, String)>) -> Seq<(MoveTarget, Seq<char>)> {
    Seq::new(list.len(), |i: int| (list[i].0, list[i].1@))
}

impl App {
    /// Where a pane of the active tab can be moved.
    pub fn pane_move_targets(&self) -> (targets: Vec<(MoveTarget, String)>)
        requires
            self.wf(),
            self.workspaces@.len() > 0,
        ensures
            choice_views(targets@) == move_choices(
                self.active().tabs@,
                self.active().active_tab as int,
                self.catalog.menu_new_tab@,
            ),
    {
        let w = self.ws();
        let active: usize = w.active_tab;
        let mut targets: Vec<(MoveTarget, String)> = Vec::new();
        let mut i: usize = 0;
        assert(choice_views(targets@) =~= move_list(w.tabs@, active as int, 0));
        while i < w.tabs.len()
            invariant
                i <= w.tabs@.len(),
                choice_views(targets@) == move_list(w.tabs@, active as int, i as nat),
            decreases w.tabs@.len() - i,
        {
            let ghost before = choice_views(targets@);
            if i != active && w.tabs[i].is_renameable() {
                let label: String = match &w.tabs[i].name {
                    Some(n) => n.clone(),
                    None => number_label(i),
                };
                targets.push((MoveTarget::Tab(i), label));
                assert(choice_views(targets@) =~= before.push((MoveTarget::Tab(i), label@)));
            }
            i = i + 1;
        }
        let ghost others = choice_views(targets@);
        if targets.len() > 0 || w.tabs[active].layout.len() > 1 {
            let label = self.catalog.menu_new_tab.to_owned();
            targets.push((MoveTarget::NewTab, label));
            assert(choice_views(targets@) =~= others.push((MoveTarget::NewTab, label@)));
        }
        targets
    }

    /// Opens the context menu of a pane, at the click. On a dashboard there is
    /// none. `can_fork` is whether its agent can be forked, and `link` what is
    /// under the click.
    pub fn open_pane_menu(
        &mut self,
        pane: PaneId,
        col: u16,
        row: u16,
        can_fork: bool,
        link: Option<LinkTarget>,
        module_actions: Vec<ModuleMenuAction>,
    )
        requires
            old(self).wf(),
            old(self).workspaces@.len() > 0,
        ensures
            final(self).wf(),
            if old(self).active_tab().is_panes() {
                &&& final(self).pane_menu is Some
                &&& ({
                    let m = final(self).pane_menu->0;
                    &&& m.pane == pane
                    &&& m.anchor == (col, row)
                    &&& m.items@.len() == 0
                    &&& m.module_actions == module_actions
                    &&& choice_views(m.move_targets@) == move_choices(
                        old(self).active().tabs@,
                        old(self).active().active_tab as int,
                        old(self).catalog.menu_new_tab@,
                    )
                    &&& !m.move_open
                    &&& m.tab_rects@.len() == 0
                    &&& m.link == link
                    &&& m.can_fork == can_fork
                })
                &&& *final(self) == (App { pane_menu: final(self).pane_menu, ..*old(self) })
            } else {
                *final(self) == *old(self)
            },
    {
        if self.active_is_git() || self.active_is_orch() || self.active_is_mission() {
            return ;
        }
        let move_targets = self.pane_move_targets();
        self.pane_menu = Some(
            PaneMenu {
                pane,
                anchor: (col, row),
                items: Vec::new(),
                module_actions,
                move_targets,
                move_open: false,
                tab_rects: Vec::new(),
                link,
                can_fork,
            },
        );
    }

    /// The rows of the pane menu.
    pub fn pane_menu_items(&self) -> (items: Vec<PaneMenuItem>)
        ensures
            items@ == (match self.pane_menu {
                Some(m) => menus::pane_rows(
                    m.move_targets@.len() > 0,
                    m.can_fork,
                    m.link is Some && m.link->0 is Url,
                    m.link is Some && m.link->0 is File,
                    m.module_actions@.len(),
                ),
                None => menus::pane_rows(false, false, false, false, 0),
            }),
    {
        match &self.pane_menu {
            Some(m) => {
                let (url, file): (bool, bool) = match &m.link {
                    Some(LinkTarget::Url(_)) => (true, false),
                    Some(LinkTarget::File { .. }) => (false, true),
                    None => (false, false),
                };
                build_pane_items(
                    m.move_targets.len() > 0,
                    m.can_fork,
                    url,
                    file,
                    m.module_actions.len(),
                )
            },
            None => build_pane_items(false, false, false, false, 0),
        }
    }

    /// The session with the menu closed and the focus of the active tab on the
    /// pane, wherever that is.
    pub open spec fn menu_pane_focused(&self, after: &App, pane: PaneId) -> bool {
        let w = self.active_ws as int;
        let t = self.active().active_tab as int;
        let tab = self.active_tab();
        &&& super::tabs::only_tabs_changed(self.workspaces@, after.workspaces@, w)
        &&& after.workspaces@[w].active_tab == t
        &&& after.workspaces@[w].tabs@ == self.active().tabs@.update(
            t,
            Tab { layout: crate::layout::TileLayout { focus: pane, ..tab.layout }, ..tab },
        )
        &&& *after == (App { pane_menu: None, workspaces: after.workspaces, ..*self })
    }

    /// Closes the pane menu and gives its pane the focus.
    fn focus_menu_pane(&mut self, pane: PaneId)
        requires
            old(self).wf(),
            old(self).workspaces@.len() > 0,
        ensures
            final(self).wf(),
            final(self).workspaces@.len() > 0,
            old(self).menu_pane_focused(final(self), pane),
    {
        self.pane_menu = None;
        let w: usize = self.active_ws;
        let ghost before = self.workspaces@;
        assert(before[w as int].wf());
        let t: usize = self.workspaces[w].active_tab;
        self.workspaces[w].focus_pane(t, pane);
        proof {
            let after = self.workspaces@[w as int];
            assert(self.workspaces@ =~= before.update(w as int, after));
            workspace::lemma_tree_update(before, w as int, after);
        }
    }

    /// What a row of the pane menu does once its pane has the focus.
    pub open spec fn pane_action_done(&self, after: &App, menu: PaneMenu, item: PaneMenuItem) -> bool {
        match item {
            PaneMenuItem::Divider | PaneMenuItem::MoveToTab => *after == *self,
            PaneMenuItem::Module(k) => self.only_asked(
                after,
                module_effects(
                    MenuContext::Pane,
                    menu.module_actions@,
                    k,
                    ActionTarget::PaneWithSelection(menu.pane),
                ),
            ),
            PaneMenuItem::SplitVertical => self.only_asked(after, seq![Effect::Split(Axis::Col)]),
            PaneMenuItem::SplitHorizontal => self.only_asked(after, seq![Effect::Split(Axis::Row)]),
            PaneMenuItem::ForkPane => self.only_asked(after, seq![Effect::Fork(menu.pane)]),
            PaneMenuItem::OpenLink | PaneMenuItem::OpenFile => match menu.link {
                Some(t) => self.only_asked(after, seq![Effect::ActivateLink(t)]),
                None => *after == *self,
            },
            PaneMenuItem::RunningCmd => self.only_asked(
                after,
                seq![Effect::InspectCommand(menu.pane)],
            ),
            PaneMenuItem::RenamePane => self.pane_rename_opened(after, menu.pane),
            PaneMenuItem::Close => self.pane_closed(after, menu.pane),
        }
    }

    /// Does what a row of the pane menu says to its pane, and closes the menu.
    pub fn pane_menu_action(&mut self, item: PaneMenuItem)
        requires
            old(self).wf(),
            old(self).workspaces@.len() > 0 || old(self).pane_menu is None,
        ensures
            final(self).wf(),
            match old(self).pane_menu {
                Some(menu) => exists|focused: App| #[trigger]
                    old(self).menu_pane_focused(&focused, menu.pane) && focused.pane_action_done(
                        final(self),
                        menu,
                        item,
                    ),
                None => *final(self) == *old(self),
            },
    {
        let mut open: Option<PaneMenu> = None;
        core::mem::swap(&mut open, &mut self.pane_menu);
        let menu: PaneMenu = match open {
            Some(m) => m,
            None => {
                return ;
            },
        };
        self.focus_menu_pane(menu.pane);
        let ghost focused = *self;
        assert(old(self).menu_pane_focused(&focused, menu.pane));
        self.do_pane_action(&menu, item);
    }

    /// Does what a row of the pane menu says.
    fn do_pane_action(&mut self, menu: &PaneMenu, item: PaneMenuItem)
        requires
            old(self).wf(),
            old(self).workspaces@.len() > 0,
        ensures
            final(self).wf(),
            old(self).pane_action_done(final(self), *menu, item),
    {
        match item {
            PaneMenuItem::Divider => {},
            PaneMenuItem::MoveToTab => {},
            PaneMenuItem::Module(k) => {
                self.ask_module(
                    MenuContext::Pane,
                    &menu.module_actions,
                    k,
                    ActionTarget::PaneWithSelection(menu.pane),
                );
            },
            PaneMenuItem::SplitVertical => {
                self.ask(Effect::Split(Axis::Col));
            },
            PaneMenuItem::SplitHorizontal => {
                self.ask(Effect::Split(Axis::Row));
            },
            PaneMenuItem::ForkPane => {
                self.ask(Effect::Fork(menu.pane));
            },
            PaneMenuItem::OpenLink | PaneMenuItem::OpenFile => {
                match &menu.link {
                    Some(t) => {
                        self.ask(Effect::ActivateLink(t.copy()));
                    },
                    None => {},
                }
            },
            PaneMenuItem::RunningCmd => {
                self.ask(Effect::InspectCommand(menu.pane));
            },
            PaneMenuItem::RenamePane => {
                self.open_pane_rename(menu.pane);
            },
            PaneMenuItem::Close => {
                self.close_pane(menu.pane);
            },
        }
    }

    /// A click while the pane menu is open: on a tab to move to, on a row, or
    /// elsewhere, which closes the menu. `tab_id` is the identity of a new tab.
    pub fn pane_menu_click(&mut self, col: u16, row: u16, tab_id: String)
        requires
            old(self).wf(),
            old(self).workspaces@.len() > 0 || old(self).pane_menu is None,
        ensures
            final(self).wf(),
            match old(self).pane_menu {
                None => *final(self) == *old(self),
                Some(menu) => {
                    let closed = App { pane_menu: None, ..*old(self) };
                    match hit_from(menu.tab_rects@, col, row, 0) {
                        Some(k) => match closed.pane_move_error(menu.pane, menu.tab_rects@[k].0) {
                            Some(_) => *final(self) == closed,
                            None => exists|at: menus::PaneMoveResult| #[trigger]
                                closed.pane_moved(
                                    final(self),
                                    menu.pane,
                                    menu.tab_rects@[k].0,
                                    tab_id,
                                    at,
                                ),
                        },
                        None => match hit_from(menu.items@, col, row, 0) {
                            None => *final(self) == closed,
                            Some(k) => match menu.items@[k].0 {
                                PaneMenuItem::MoveToTab => *final(self) == (App {
                                    pane_menu: Some(PaneMenu { move_open: true, ..menu }),
                                    ..*old(self)
                                }),
                                PaneMenuItem::Divider => *final(self) == *old(self),
                                item => exists|focused: App| #[trigger]
                                    old(self).menu_pane_focused(&focused, menu.pane)
                                        && focused.pane_action_done(final(self), menu, item),
                            },
                        },
                    }
                },
            },
    {
        let (target, chosen): (Option<(PaneId, MoveTarget)>, Option<PaneMenuItem>) =
            match &self.pane_menu {
            Some(menu) => match hit(&menu.tab_rects, col, row) {
                Some(k) => (Some((menu.pane, menu.tab_rects[k].0)), None),
                None => match hit(&menu.items, col, row) {
                    Some(k) => (None, Some(menu.items[k].0)),
                    None => (None, None),
                },
            },
            None => {
                return ;
            },
        };
        match target {
            Some((pane, to)) => {
                self.pane_menu = None;
                let _ = self.move_pane_to_tab(pane, to, tab_id);
                return ;
            },
            None => {},
        }
        match chosen {
            Some(PaneMenuItem::MoveToTab) => {
                match &mut self.pane_menu {
                    Some(menu) => {
                        menu.move_open = true;
                    },
                    None => {},
                }
            },
            Some(PaneMenuItem::Divider) => {},
            Some(item) => {
                self.pane_menu_action(item);
            },
            None => {
                self.pane_menu = None;
            },
        }
    }

    /// A key while the pane menu is open: `Esc` closes it.
    pub fn handle_pane_menu_key(&mut self, key: Key)
        requires
            old(self).wf(),
        ensures
            final(self).wf(),
            *final(self) == (App {
                pane_menu: if key is Esc {
                    None
                } else {
                    old(self).pane_menu
                },
                ..*old(self)
            }),
    {
        if key == Key::Esc {
            self.pane_menu = None;
        }
    }
}

// ---------------------------------------------------------------------------
// Agents
// ---------------------------------------------------------------------------

impl App {
    /// Opens the context menu of an agent, at the click. Modules offer something
    /// for a running agent only.
    pub fn open_agent_menu(
        &mut self,
        target: AgentTarget,
        col: u16,
        row: u16,
        module_actions: Vec<ModuleMenuAction>,
    )
        requires
            old(self).wf(),
        ensures
            final(self).wf(),
            final(self).agent_menu is Some,
            ({
                let m = final(self).agent_menu->0;
                &&& m.target == target
                &&& m.anchor == (col, row)
                &&& m.items@.len() == 0
                &&& m.module_actions@ == (if target is Live {
                    module_actions@
                } else {
                    Seq::<ModuleMenuAction>::empty()
                })
            }),
            *final(self) == (App { agent_menu: final(self).agent_menu, ..*old(self) }),
    {
        let module_actions: Vec<ModuleMenuAction> = match target {
            AgentTarget::Live(_) => module_actions,
            AgentTarget::Session(_) => Vec::new(),
        };
        self.agent_menu = Some(
            AgentMenu { target, anchor: (col, row), items: Vec::new(), module_actions },
        );
    }

    /// The rows of the menu of an agent.
    pub fn agent_menu_items(&self, target: AgentTarget) -> (items: Vec<AgentMenuItem>)
        ensures
            items@ == menus::agent_rows(
                target,
                match target {
                    AgentTarget::Live(id) => self.pinned_agents@.contains(id),
                    AgentTarget::Session(_) => false,
                },
                match self.agent_menu {
                    Some(m) => m.module_actions@.len(),
                    None => 0,
                },
            ),
    {
        let pinned: bool = match target {
            AgentTarget::Live(id) => has_id(&self.pinned_agents, id),
            AgentTarget::Session(_) => false,
        };
        let extras: usize = match &self.agent_menu {
            Some(m) => m.module_actions.len(),
            None => 0,
        };
        build_agent_items(target, pinned, extras)
    }

    /// What going to a pane and closing it leaves behind.
    pub open spec fn agent_closed(&self, after: &App, id: PaneId) -> bool {
        if workspace::session_has(self.workspaces@, id) {
            exists|there: App| #[trigger]
                self.pane_focused(&there, id) && there.pane_closed(after, id)
        } else {
            self.pane_closed(after, id)
        }
    }

    /// What a row of the agent menu leaves behind once the menu is closed.
    pub open spec fn agent_action_done(
        &self,
        after: &App,
        target: AgentTarget,
        actions: Seq<ModuleMenuAction>,
        item: AgentMenuItem,
    ) -> bool {
        match (item, target) {
            (AgentMenuItem::Resume, AgentTarget::Session(i)) => self.only_asked(
                after,
                seq![Effect::Resume(i)],
            ),
            (AgentMenuItem::Close, AgentTarget::Session(i)) => self.session_dismissed(after, i),
            (AgentMenuItem::Close, AgentTarget::Live(id)) => self.agent_closed(after, id),
            (AgentMenuItem::RenamePane, AgentTarget::Live(id)) => self.pane_rename_opened(
                after,
                id,
            ),
            (AgentMenuItem::Pin, AgentTarget::Live(id)) => {
                &&& after.pinned_agents@ == (if self.pinned_agents@.contains(id) {
                    self.pinned_agents@
                } else {
                    self.pinned_agents@.push(id)
                })
                &&& *after == (App { pinned_agents: after.pinned_agents, ..*self })
            },
            (AgentMenuItem::Unpin, AgentTarget::Live(id)) => {
                &&& after.pinned_agents@ == ids::without_id(self.pinned_agents@, id)
                &&& *after == (App { pinned_agents: after.pinned_agents, ..*self })
            },
            (AgentMenuItem::Module(k), AgentTarget::Live(id)) => self.only_asked(
                after,
                module_effects(MenuContext::Agent, actions, k, ActionTarget::Pane(id)),
            ),
            _ => *after == *self,
        }
    }

    /// Goes to a pane and closes it.
    fn close_agent(&mut self, id: PaneId)
        requires
            old(self).wf(),
            old(self).workspaces@.len() > 0,
        ensures
            final(self).wf(),
            old(self).agent_closed(final(self), id),
    {
        self.focus_pane_global(id);
        let ghost there = *self;
        self.close_pane(id);
        assert(workspace::session_has(old(self).workspaces@, id) ==> old(self).pane_focused(
            &there,
            id,
        ) && there.pane_closed(self, id));
    }

    /// Does what a row of the agent menu says, and closes the menu.
    pub fn agent_menu_action(&mut self, item: AgentMenuItem)
        requires
            old(self).wf(),
            old(self).workspaces@.len() > 0 || !(item is Close && old(self).agent_menu is Some && old(
                self,
            ).agent_menu->0.target is Live),
        ensures
            final(self).wf(),
            match old(self).agent_menu {
                Some(menu) => (App { agent_menu: None, ..*old(self) }).agent_action_done(
                    final(self),
                    menu.target,
                    menu.module_actions@,
                    item,
                ),
                None => *final(self) == *old(self),
            },
    {
        let mut open: Option<AgentMenu> = None;
        core::mem::swap(&mut open, &mut self.agent_menu);
        match open {
            Some(menu) => {
                self.do_agent_action(menu.target, &menu.module_actions, item);
            },
            None => {},
        }
    }

    /// Does what a row of the agent menu says.
    fn do_agent_action(
        &mut self,
        target: AgentTarget,
        actions: &Vec<ModuleMenuAction>,
        item: AgentMenuItem,
    )
        requires
            old(self).wf(),
            old(self).workspaces@.len() > 0 || !(item is Close && target is Live),
        ensures
            final(self).wf(),
            old(self).agent_action_done(final(self), target, actions@, item),
    {
        match (item, target) {
            (AgentMenuItem::Resume, AgentTarget::Session(i)) => {
                self.ask(Effect::Resume(i));
            },
            (AgentMenuItem::Close, AgentTarget::Session(i)) => {
                self.dismiss_session(i);
            },
            (AgentMenuItem::Close, AgentTarget::Live(id)) => {
                self.close_agent(id);
            },
            (AgentMenuItem::RenamePane, AgentTarget::Live(id)) => {
                self.open_pane_rename(id);
            },
            (AgentMenuItem::Pin, AgentTarget::Live(id)) => {
                if !has_id(&self.pinned_agents, id) {
                    self.pinned_agents.push(id);
                }
            },
            (AgentMenuItem::Unpin, AgentTarget::Live(id)) => {
                drop_id(&mut self.pinned_agents, id);
            },
            (AgentMenuItem::Module(k), AgentTarget::Live(id)) => {
                self.ask_module(MenuContext::Agent, actions, k, ActionTarget::Pane(id));
            },
            _ => {},
        }
    }

    /// A click while the agent menu is open: on a row, or elsewhere, which closes
    /// the menu. A divider does nothing.
    pub fn agent_menu_click(&mut self, col: u16, row: u16)
        requires
            old(self).wf(),
            old(self).workspaces@.len() > 0 || !(old(self).agent_menu is Some && old(
                self,
            ).agent_menu->0.target is Live),
        ensures
            final(self).wf(),
            match old(self).agent_menu {
                None => *final(self) == *old(self),
                Some(menu) => match hit_from(menu.items@, col, row, 0) {
                    None => *final(self) == (App { agent_menu: None, ..*old(self) }),
                    Some(k) => if menu.items@[k].0 is Divider {
                        *final(self) == *old(self)
                    } else {
                        (App { agent_menu: None, ..*old(self) }).agent_action_done(
                            final(self),
                            menu.target,
                            menu.module_actions@,
                            menu.items@[k].0,
                        )
                    },
                },
            },
    {
        let chosen: Option<AgentMenuItem> = match &self.agent_menu {
            Some(menu) => match hit(&menu.items, col, row) {
                Some(k) => Some(menu.items[k].0),
                None => None,
            },
            None => None,
        };
        match chosen {
            Some(AgentMenuItem::Divider) => {},
            Some(item) => {
                self.agent_menu_action(item);
            },
            None => {
                self.agent_menu = None;
            },
        }
    }

    /// A key while the agent menu is open: `Esc` closes it.
    pub fn handle_agent_menu_key(&mut self, key: Key)
        requires
            old(self).wf(),
        ensures
            final(self).wf(),
            *final(self) == (App {
                agent_menu: if key is Esc {
                    None
                } else {
                    old(self).agent_menu
                },
                ..*old(self)
            }),
    {
        if key == Key::Esc {
            self.agent_menu = None;
        }
    }
}

proof fn lemma_hit_from<T>(rows: Seq<(T, Rect)>, col: u16, row: u16, n: int)
    requires
        0 <= n <= rows.len(),
    ensures
        match hit_from(rows, col, row, n) {
            Some(i) => n <= i < rows.len() && rows[i].1.has_cell(col, row) && forall|k: int|
                n <= k < i ==> !(#[trigger] rows[k]).1.has_cell(col, row),
            None => forall|k: int|
                n <= k < rows.len() ==> !(#[trigger] rows[k]).1.has_cell(col, row),
        },
    decreases rows.len() - n,
{
    if n < rows.len() && !rows[n].1.has_cell(col, row) {
        lemma_hit_from(rows, col, row, n + 1);
    }
}

/// A click is for the row under it, and for none where there is no row under it.
pub proof fn law_clicks_are_for_the_row_under_them<T>(
    rows: Seq<(T, Rect)>,
    col: u16,
    row: u16,
    k: int,
)
    requires
        0 <= k < rows.len(),
        forall|j: int|
            0 <= j < rows.len() && j != k ==> !((#[trigger] rows[j]).1.has_cell(col, row)
                && rows[k].1.has_cell(col, row)),
    ensures
        rows[k].1.has_cell(col, row) <==> hit_from(rows, col, row, 0) == Some(k),
        hit_from(rows, col, row, 0) is None ==> !rows[k].1.has_cell(col, row),
{
    lemma_hit_from(rows, col, row, 0);
}

/// The tabs that one can be exchanged with are all the others, each once, in order.
pub proof fn law_every_other_tab_can_be_swapped_with(len: nat, index: int, a: int, b: int)
    requires
        0 <= index < len,
        0 <= a < b < len - 1,
    ensures
        other_tab(index, a) < other_tab(index, b),
        0 <= other_tab(index, a) < len,
        0 <= other_tab(index, b) < len,
        other_tab(index, a) != index && other_tab(index, b) != index,
{
}

/// A tab without a name goes by its number, counted from one; a dashboard by what it
/// is.
pub proof fn law_tabs_go_by_name_or_number(tab: Tab, index: nat)
    ensures
        tab.name is Some ==> tab_text(tab, index) == tab.name->0@,
        tab.name is None && tab.is_panes() ==> tab_text(tab, index) == seq!['#']
            + text::decimal_text(index + 1),
        tab.name is None && tab.git is Some ==> tab_text(tab, index) == seq!['g', 'i', 't'],
{
    reveal_strlit("#");
    reveal_strlit("git");
    assert("#"@ =~= seq!['#']);
    assert("git"@ =~= seq!['g', 'i', 't']);
}

/// Whether the tab is one of the choices.
pub open spec fn offers(choices: Seq<(MoveTarget, Seq<char>)>, i: usize) -> bool {
    exists|k: int| 0 <= k < choices.len() && (#[trigger] choices[k]).0 == MoveTarget::Tab(i)
}

proof fn lemma_offers_push(
    choices: Seq<(MoveTarget, Seq<char>)>,
    choice: (MoveTarget, Seq<char>),
    i: usize,
)
    ensures
        offers(choices.push(choice), i) == (offers(choices, i) || choice.0 == MoveTarget::Tab(i)),
{
    let out = choices.push(choice);
    if offers(choices, i) {
        let k = choose|k: int|
            0 <= k < choices.len() && (#[trigger] choices[k]).0 == MoveTarget::Tab(i);
        assert(out[k] == choices[k]);
    }
    if choice.0 == MoveTarget::Tab(i) {
        assert(out[choices.len() as int] == choice);
    }
    if offers(out, i) {
        let k = choose|k: int| 0 <= k < out.len() && (#[trigger] out[k]).0 == MoveTarget::Tab(i);
        if k < choices.len() {
            assert(choices[k] == out[k]);
        }
    }
}

proof fn lemma_move_list(tabs: Seq<Tab>, active: int, n: nat, i: usize)
    requires
        n <= tabs.len() <= usize::MAX,
    ensures
        offers(move_list(tabs, active, n), i) <==> i < n && i != active && tabs[i as int].is_panes(),
    decreases n,
{
    if n > 0 {
        lemma_move_list(tabs, active, (n - 1) as nat, i);
        let before = move_list(tabs, active, (n - 1) as nat);
        let label = match tabs[n - 1].name {
            Some(name) => name@,
            None => number_text((n - 1) as nat),
        };
        lemma_offers_push(before, (MoveTarget::Tab((n - 1) as usize), label), i);
    }
}

/// A pane can be moved to every other tab of panes, and to a new tab unless it is
/// alone in its tab and there is no other.
pub proof fn law_panes_can_move_to_every_other_tab(
    tabs: Seq<Tab>,
    active: int,
    new_tab: Seq<char>,
    i: usize,
)
    requires
        tabs.len() <= usize::MAX,
        0 <= active < tabs.len(),
        i < tabs.len(),
    ensures
        offers(move_choices(tabs, active, new_tab), i) <==> i != active
            && tabs[i as int].is_panes(),
        tabs[active].layout.leaf_seq().len() > 1 ==> move_choices(tabs, active, new_tab).len() > 0
            && move_choices(tabs, active, new_tab).last() == (MoveTarget::NewTab, new_tab),
        tabs.len() == 1 && tabs[active].layout.leaf_seq().len() <= 1 ==> move_choices(
            tabs,
            active,
            new_tab,
        ).len() == 0,
{
    let others = move_list(tabs, active, tabs.len());
    lemma_move_list(tabs, active, tabs.len(), i);
    lemma_offers_push(others, (MoveTarget::NewTab, new_tab), i);
    if tabs.len() == 1 {
        reveal_with_fuel(move_list, 2);
    }
}

/// The tab menu moves a tab by one position, to the side that its row says, and the
/// tab that it passes takes its place.
pub proof fn law_the_tab_menu_moves_by_one(before: App, after: App, menu: TabMenu, i: int)
    requires
        before.target_place(menu.target) == Some(i),
        0 <= i < before.workspaces@[menu.target.workspace as int].tabs@.len(),
        menu.target.workspace < before.workspaces@.len(),
        before.workspaces@[menu.target.workspace as int].tabs@.len() <= usize::MAX,
    ensures
        ({
            let w = menu.target.workspace as int;
            let (old_tabs, tabs) = (before.workspaces@[w].tabs@, after.workspaces@[w].tabs@);
            &&& before.tab_action_done(&after, menu, TabMenuItem::MoveLeft) && i > 0 ==> tabs[i - 1]
                == old_tabs[i] && tabs[i] == old_tabs[i - 1] && tabs.len() == old_tabs.len()
            &&& before.tab_action_done(&after, menu, TabMenuItem::MoveRight) && i + 1
                < old_tabs.len() ==> tabs[i + 1] == old_tabs[i] && tabs[i] == old_tabs[i + 1]
                && tabs.len() == old_tabs.len()
        }),
{
}

/// The pane menu splits as its rows say: vertically into columns, horizontally into
/// rows. What it asks for comes after what was asked before.
pub proof fn law_the_pane_menu_splits_as_it_says(before: App, after: App, menu: PaneMenu)
    ensures
        before.pane_action_done(&after, menu, PaneMenuItem::SplitVertical) ==> after.outbox@
            == before.outbox@.push(Effect::Split(Axis::Col)),
        before.pane_action_done(&after, menu, PaneMenuItem::SplitHorizontal) ==> after.outbox@
            == before.outbox@.push(Effect::Split(Axis::Row)),
        before.pane_action_done(&after, menu, PaneMenuItem::ForkPane) ==> after.outbox@
            == before.outbox@.push(Effect::Fork(menu.pane)),
{
    assert(before.outbox@ + seq![Effect::Split(Axis::Col)] =~= before.outbox@.push(
        Effect::Split(Axis::Col),
    ));
    assert(before.outbox@ + seq![Effect::Split(Axis::Row)] =~= before.outbox@.push(
        Effect::Split(Axis::Row),
    ));
    assert(before.outbox@ + seq![Effect::Fork(menu.pane)] =~= before.outbox@.push(
        Effect::Fork(menu.pane),
    ));
}

/// The workspace menu pins and unpins the workspace that it is for, wherever that is
/// now, and no other. Pinning one that is pinned is nothing to save.
pub proof fn law_the_workspace_menu_pins_its_workspace(
    before: App,
    after: App,
    menu: WsMenu,
    item: WsMenuItem,
    is_repo: bool,
    worktrees: Option<String>,
    i: int,
    k: int,
)
    requires
        before.place_of_workspace(menu.workspace_id@) == Some(i),
        0 <= i < before.workspaces@.len(),
        0 <= k < before.workspaces@.len(),
        item is Pin || item is Unpin,
        before.ws_action_done(&after, menu, item, is_repo, worktrees),
    ensures
        item is Pin ==> after.workspaces@[i].pinned,
        item is Unpin ==> !after.workspaces@[i].pinned,
        k != i ==> after.workspaces@[k] == before.workspaces@[k],
        after.workspaces@[i].tabs == before.workspaces@[i].tabs,
        before.workspaces@[i].pinned != after.workspaces@[i].pinned ==> after.session_dirty,
        before.workspaces@[i].pinned == after.workspaces@[i].pinned ==> after.session_dirty
            == before.session_dirty,
{
}

/// The agent menu pins and unpins the agent that it is for, and no other.
pub proof fn law_the_agent_menu_pins_its_agent(
    before: App,
    after: App,
    id: PaneId,
    other: PaneId,
    actions: Seq<ModuleMenuAction>,
)
    requires
        other != id,
    ensures
        before.agent_action_done(&after, AgentTarget::Live(id), actions, AgentMenuItem::Pin) ==> {
            &&& after.pinned_agents@.contains(id)
            &&& after.pinned_agents@.contains(other) == before.pinned_agents@.contains(other)
        },
        before.agent_action_done(&after, AgentTarget::Live(id), actions, AgentMenuItem::Unpin)
            ==> {
            &&& !after.pinned_agents@.contains(id)
            &&& after.pinned_agents@.contains(other) == before.pinned_agents@.contains(other)
        },
{
    let pins = before.pinned_agents@;
    ids::lemma_without_id(pins, id);
    let more = pins.push(id);
    assert(more[pins.len() as int] == id);
    if pins.contains(other) {
        let i = choose|i: int| 0 <= i < pins.len() && pins[i] == other;
        assert(more[i] == other);
    }
    if more.contains(other) {
        let i = choose|i: int| 0 <= i < more.len() && more[i] == other;
        assert(pins[i] == other);
    }
}

} // verus!
