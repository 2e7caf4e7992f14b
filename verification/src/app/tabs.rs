//! Tabs of a session: moving, exchanging, focusing and renaming them, and
//! moving panes between them.
use vstd::prelude::*;
use vstd::string::*;

use super::{App, Effect, SessionEvent};
use crate::ids::PaneId;
use crate::menus::{
    PaneMoveError, PaneMoveResult, TabFocusError, TabMoveDirection, TabMoveError, TabRenameError,
    TAB_NAME_MAX,
};
use crate::text;
use crate::text::{char_count, trim};
use crate::workspace;
use crate::workspace::{locate, MoveTarget, Tab, Workspace};

verus! {

/// Whether nothing but the tabs of one workspace and which of them is active
/// may differ.
pub open spec fn only_tabs_changed(before: Seq<Workspace>, after: Seq<Workspace>, w: int) -> bool {
    &&& after == before.update(w, after[w])
    &&& after[w] == (Workspace {
        tabs: after[w].tabs,
        active_tab: after[w].active_tab,
        ..before[w]
    })
}

/// The position beside a tab.
pub open spec fn adjacent(at: int, direction: TabMoveDirection) -> int {
    match direction {
        TabMoveDirection::Left => at - 1,
        TabMoveDirection::Right => at + 1,
    }
}

impl App {
    /// Why a tab cannot be moved, or exchanged with another.
    pub open spec fn tab_move_error(&self, workspace: usize, from: usize, to: usize) -> Option<
        TabMoveError,
    > {
        if workspace >= self.workspaces@.len() || from
            >= self.workspaces@[workspace as int].tabs@.len() || to
            >= self.workspaces@[workspace as int].tabs@.len() {
            Some(TabMoveError::PositionOutOfRange)
        } else if from == to {
            Some(TabMoveError::SamePosition)
        } else {
            None
        }
    }

    /// Why a tab cannot be moved by one position.
    pub open spec fn adjacent_error(
        &self,
        workspace: usize,
        from: usize,
        direction: TabMoveDirection,
    ) -> Option<TabMoveError> {
        if workspace >= self.workspaces@.len() || from
            >= self.workspaces@[workspace as int].tabs@.len() {
            Some(TabMoveError::PositionOutOfRange)
        } else if direction is Left && from == 0 {
            Some(TabMoveError::AlreadyFirst)
        } else if direction is Right && from + 1 == self.workspaces@[workspace as int].tabs@.len() {
            Some(TabMoveError::AlreadyLast)
        } else {
            None
        }
    }

    /// What moving a tab leaves behind.
    pub open spec fn tab_moved(
        &self,
        after: &App,
        workspace: usize,
        from: usize,
        to: usize,
        active: usize,
    ) -> bool {
        let w = workspace as int;
        &&& only_tabs_changed(self.workspaces@, after.workspaces@, w)
        &&& after.workspaces@[w].tabs@ == workspace::tabs_moved(
            self.workspaces@[w].tabs@,
            from as int,
            to as int,
        )
        &&& active == after.workspaces@[w].active_tab
        &&& active == workspace::moved_position(
            self.workspaces@[w].active_tab as int,
            from as int,
            to as int,
        )
        &&& after.workspaces@[w].tabs@[active as int]
            == self.workspaces@[w].tabs@[self.workspaces@[w].active_tab as int]
        &&& after.outbox@ == self.outbox@.push(
            Effect::Event(
                SessionEvent::TabMoved {
                    workspace,
                    from: (from + 1) as usize,
                    to: (to + 1) as usize,
                    active: (active + 1) as usize,
                    swap: false,
                },
            ),
        )
        &&& *after == (App {
            workspaces: after.workspaces,
            session_dirty: true,
            outbox: after.outbox,
            ..*self
        })
    }

    /// What exchanging two tabs leaves behind.
    pub open spec fn tabs_exchanged(
        &self,
        after: &App,
        workspace: usize,
        first: usize,
        second: usize,
        active: usize,
    ) -> bool {
        let w = workspace as int;
        &&& only_tabs_changed(self.workspaces@, after.workspaces@, w)
        &&& after.workspaces@[w].tabs@ == workspace::tabs_swapped(
            self.workspaces@[w].tabs@,
            first as int,
            second as int,
        )
        &&& active == after.workspaces@[w].active_tab
        &&& active == workspace::swapped_position(
            self.workspaces@[w].active_tab as int,
            first as int,
            second as int,
        )
        &&& after.workspaces@[w].tabs@[active as int]
            == self.workspaces@[w].tabs@[self.workspaces@[w].active_tab as int]
        &&& after.outbox@ == self.outbox@.push(
            Effect::Event(
                SessionEvent::TabMoved {
                    workspace,
                    from: (first + 1) as usize,
                    to: (second + 1) as usize,
                    active: (active + 1) as usize,
                    swap: true,
                },
            ),
        )
        &&& *after == (App {
            workspaces: after.workspaces,
            session_dirty: true,
            outbox: after.outbox,
            ..*self
        })
    }

    /// Moves a tab of a workspace to another position and returns the position of
    /// the active tab, which stays the tab that it was.
    pub fn move_tab_in_workspace(&mut self, workspace: usize, from: usize, to: usize) -> (r: Result<
        usize,
        TabMoveError,
    >)
        requires
            old(self).wf(),
        ensures
            final(self).wf(),
            match old(self).tab_move_error(workspace, from, to) {
                Some(e) => r == Err::<usize, TabMoveError>(e) && *final(self) == *old(self),
                None => r is Ok && old(self).tab_moved(final(self), workspace, from, to, r->Ok_0),
            },
    {
        if workspace >= self.workspaces.len() {
            return Err(TabMoveError::PositionOutOfRange);
        }
        let len: usize = self.workspaces[workspace].tabs.len();
        if from >= len || to >= len {
            return Err(TabMoveError::PositionOutOfRange);
        }
        if from == to {
            return Err(TabMoveError::SamePosition);
        }
        let ghost before = self.workspaces@;
        assert(before[workspace as int].wf());
        self.workspaces[workspace].move_tab(from, to);
        let active: usize = self.workspaces[workspace].active_tab;
        proof {
            workspace::law_moving_a_tab_keeps_every_tab(
                before[workspace as int].tabs@,
                from as int,
                to as int,
            );
            workspace::lemma_tree_update(
                before,
                workspace as int,
                self.workspaces@[workspace as int],
            );
            assert(self.workspaces@ =~= before.update(
                workspace as int,
                self.workspaces@[workspace as int],
            ));
        }
        self.session_dirty = true;
        self.outbox.push(
            Effect::Event(
                SessionEvent::TabMoved {
                    workspace,
                    from: from + 1,
                    to: to + 1,
                    active: active + 1,
                    swap: false,
                },
            ),
        );
        Ok(active)
    }

    /// Exchanges two tabs of a workspace and returns the position of the active
    /// tab, which stays the tab that it was.
    pub fn swap_tabs_in_workspace(&mut self, workspace: usize, first: usize, second: usize) -> (r:
        Result<usize, TabMoveError>)
        requires
            old(self).wf(),
        ensures
            final(self).wf(),
            match old(self).tab_move_error(workspace, first, second) {
                Some(e) => r == Err::<usize, TabMoveError>(e) && *final(self) == *old(self),
                None => r is Ok && old(self).tabs_exchanged(
                    final(self),
                    workspace,
                    first,
                    second,
                    r->Ok_0,
                ),
            },
    {
        if workspace >= self.workspaces.len() {
            return Err(TabMoveError::PositionOutOfRange);
        }
        let len: usize = self.workspaces[workspace].tabs.len();
        if first >= len || second >= len {
            return Err(TabMoveError::PositionOutOfRange);
        }
        if first == second {
            return Err(TabMoveError::SamePosition);
        }
        let ghost before = self.workspaces@;
        assert(before[workspace as int].wf());
        self.workspaces[workspace].swap_tabs(first, second);
        let active: usize = self.workspaces[workspace].active_tab;
        proof {
            workspace::law_swapping_tabs_keeps_every_tab(
                before[workspace as int].tabs@,
                first as int,
                second as int,
            );
            workspace::lemma_tree_update(
                before,
                workspace as int,
                self.workspaces@[workspace as int],
            );
            assert(self.workspaces@ =~= before.update(
                workspace as int,
                self.workspaces@[workspace as int],
            ));
        }
        self.session_dirty = true;
        self.outbox.push(
            Effect::Event(
                SessionEvent::TabMoved {
                    workspace,
                    from: first + 1,
                    to: second + 1,
                    active: active + 1,
                    swap: true,
                },
            ),
        );
        Ok(active)
    }

    /// Moves a tab of the active workspace to another position.
    pub fn move_tab(&mut self, from: usize, to: usize) -> (r: Result<usize, TabMoveError>)
        requires
            old(self).wf(),
        ensures
            final(self).wf(),
            match old(self).tab_move_error(old(self).active_ws, from, to) {
                Some(e) => r == Err::<usize, TabMoveError>(e) && *final(self) == *old(self),
                None => r is Ok && old(self).tab_moved(
                    final(self),
                    old(self).active_ws,
                    from,
                    to,
                    r->Ok_0,
                ),
            },
    {
        self.move_tab_in_workspace(self.active_ws, from, to)
    }

    /// Exchanges two tabs of the active workspace.
    pub fn swap_tabs(&mut self, first: usize, second: usize) -> (r: Result<usize, TabMoveError>)
        requires
            old(self).wf(),
        ensures
            final(self).wf(),
            match old(self).tab_move_error(old(self).active_ws, first, second) {
                Some(e) => r == Err::<usize, TabMoveError>(e) && *final(self) == *old(self),
                None => r is Ok && old(self).tabs_exchanged(
                    final(self),
                    old(self).active_ws,
                    first,
                    second,
                    r->Ok_0,
                ),
            },
    {
        self.swap_tabs_in_workspace(self.active_ws, first, second)
    }

    /// The position beside a tab.
    pub fn adjacent_tab_position(
        &self,
        workspace: usize,
        from: usize,
        direction: TabMoveDirection,
    ) -> (r: Result<usize, TabMoveError>)
        ensures
            match self.adjacent_error(workspace, from, direction) {
                Some(e) => r == Err::<usize, TabMoveError>(e),
                None => r is Ok && r->Ok_0 == adjacent(from as int, direction),
            },
    {
        if workspace >= self.workspaces.len() {
            return Err(TabMoveError::PositionOutOfRange);
        }
        let len: usize = self.workspaces[workspace].tabs.len();
        if from >= len {
            return Err(TabMoveError::PositionOutOfRange);
        }
        match direction {
            TabMoveDirection::Left => {
                if from == 0 {
                    Err(TabMoveError::AlreadyFirst)
                } else {
                    Ok(from - 1)
                }
            },
            TabMoveDirection::Right => {
                if from + 1 < len {
                    Ok(from + 1)
                } else {
                    Err(TabMoveError::AlreadyLast)
                }
            },
        }
    }

    /// Moves a tab of a workspace by one position.
    pub fn move_tab_direction_in_workspace(
        &mut self,
        workspace: usize,
        from: usize,
        direction: TabMoveDirection,
    ) -> (r: Result<usize, TabMoveError>)
        requires
            old(self).wf(),
        ensures
            final(self).wf(),
            match old(self).adjacent_error(workspace, from, direction) {
                Some(e) => r == Err::<usize, TabMoveError>(e) && *final(self) == *old(self),
                None => r is Ok && old(self).tab_moved(
                    final(self),
                    workspace,
                    from,
                    adjacent(from as int, direction) as usize,
                    r->Ok_0,
                ),
            },
    {
        match self.adjacent_tab_position(workspace, from, direction) {
            Ok(to) => self.move_tab_in_workspace(workspace, from, to),
            Err(e) => Err(e),
        }
    }

    /// Moves a tab of the active workspace, by default its active tab, by one
    /// position. Returns where it was, where it is, and the position of the
    /// active tab.
    pub fn move_tab_direction(&mut self, from: Option<usize>, direction: TabMoveDirection) -> (r:
        Result<(usize, usize, usize), TabMoveError>)
        requires
            old(self).wf(),
            old(self).workspaces@.len() > 0,
        ensures
            final(self).wf(),
            ({
                let at = match from {
                    Some(f) => f,
                    None => old(self).active().active_tab,
                };
                match old(self).adjacent_error(old(self).active_ws, at, direction) {
                    Some(e) => r == Err::<(usize, usize, usize), TabMoveError>(e) && *final(self)
                        == *old(self),
                    None => r is Ok && r->Ok_0.0 == at && r->Ok_0.1 == adjacent(
                        at as int,
                        direction,
                    ) && old(self).tab_moved(
                        final(self),
                        old(self).active_ws,
                        at,
                        r->Ok_0.1,
                        r->Ok_0.2,
                    ),
                }
            }),
    {
        let from: usize = match from {
            Some(f) => f,
            None => self.ws().active_tab,
        };
        match self.adjacent_tab_position(self.active_ws, from, direction) {
            Ok(to) => match self.move_tab_in_workspace(self.active_ws, from, to) {
                Ok(active) => Ok((from, to, active)),
                Err(e) => Err(e),
            },
            Err(e) => Err(e),
        }
    }

    /// Makes a tab of a workspace the active one, and that workspace active.
    pub fn focus_tab_in_workspace(&mut self, workspace: usize, index: usize) -> (r: Result<
        (),
        TabFocusError,
    >)
        requires
            old(self).wf(),
        ensures
            final(self).wf(),
            if workspace < old(self).workspaces@.len() && index < old(
                self,
            ).workspaces@[workspace as int].tabs@.len() {
                &&& r is Ok
                &&& final(self).workspaces@ == old(self).workspaces@.update(
                    workspace as int,
                    Workspace { active_tab: index, ..old(self).workspaces@[workspace as int] },
                )
                &&& *final(self) == (App {
                    workspaces: final(self).workspaces,
                    active_ws: workspace,
                    ..*old(self)
                })
            } else {
                r == Err::<(), TabFocusError>(TabFocusError::PositionOutOfRange) && *final(self)
                    == *old(self)
            },
    {
        if workspace >= self.workspaces.len() || index >= self.workspaces[workspace].tabs.len() {
            return Err(TabFocusError::PositionOutOfRange);
        }
        let ghost before = self.workspaces@;
        assert(before[workspace as int].wf());
        self.active_ws = workspace;
        self.workspaces[workspace].active_tab = index;
        proof {
            let w = Workspace { active_tab: index, ..before[workspace as int] };
            assert(self.workspaces@ =~= before.update(workspace as int, w));
            workspace::lemma_tree_update(before, workspace as int, w);
        }
        Ok(())
    }

    /// Makes a tab of the active workspace the active one.
    pub fn focus_tab(&mut self, index: usize) -> (r: Result<(), TabFocusError>)
        requires
            old(self).wf(),
        ensures
            final(self).wf(),
            if old(self).active_ws < old(self).workspaces@.len() && index < old(
                self,
            ).active().tabs@.len() {
                &&& r is Ok
                &&& final(self).workspaces@ == old(self).workspaces@.update(
                    old(self).active_ws as int,
                    Workspace { active_tab: index, ..old(self).active() },
                )
                &&& *final(self) == (App { workspaces: final(self).workspaces, ..*old(self) })
            } else {
                r == Err::<(), TabFocusError>(TabFocusError::PositionOutOfRange) && *final(self)
                    == *old(self)
            },
    {
        self.focus_tab_in_workspace(self.active_ws, index)
    }

    /// Makes a tab of the active workspace the active one, where there is such a
    /// tab.
    pub fn switch_tab(&mut self, index: usize)
        requires
            old(self).wf(),
        ensures
            final(self).wf(),
            if old(self).active_ws < old(self).workspaces@.len() && index < old(
                self,
            ).active().tabs@.len() {
                &&& final(self).workspaces@ == old(self).workspaces@.update(
                    old(self).active_ws as int,
                    Workspace { active_tab: index, ..old(self).active() },
                )
                &&& *final(self) == (App { workspaces: final(self).workspaces, ..*old(self) })
            } else {
                *final(self) == *old(self)
            },
    {
        let _ = self.focus_tab(index);
    }

    /// Why a tab cannot be given this name.
    pub open spec fn tab_rename_error(&self, workspace: usize, index: usize, name: Seq<char>) -> Option<
        TabRenameError,
    > {
        if text::trim_text(name).len() > TAB_NAME_MAX {
            Some(TabRenameError::NameTooLong)
        } else if workspace >= self.workspaces@.len() || index
            >= self.workspaces@[workspace as int].tabs@.len() {
            Some(TabRenameError::PositionOutOfRange)
        } else if !self.workspaces@[workspace as int].tabs@[index as int].is_panes() {
            Some(TabRenameError::Dashboard)
        } else {
            None
        }
    }

    /// What renaming a tab leaves behind: an empty name takes the name away.
    pub open spec fn tab_renamed(
        &self,
        after: &App,
        workspace: usize,
        index: usize,
        name: Seq<char>,
    ) -> bool {
        let w = workspace as int;
        let tab = after.workspaces@[w].tabs@[index as int];
        &&& only_tabs_changed(self.workspaces@, after.workspaces@, w)
        &&& after.workspaces@[w].active_tab == self.workspaces@[w].active_tab
        &&& after.workspaces@[w].tabs@ == self.workspaces@[w].tabs@.update(index as int, tab)
        &&& tab == (Tab { name: tab.name, ..self.workspaces@[w].tabs@[index as int] })
        &&& text::opt_text(tab.name) == (if text::trim_text(name).len() == 0 {
            None::<Seq<char>>
        } else {
            Some(text::trim_text(name))
        })
        &&& *after == (App { workspaces: after.workspaces, session_dirty: true, ..*self })
    }

    /// Names a tab of a workspace.
    pub fn rename_tab_in_workspace(&mut self, workspace: usize, index: usize, name: &str) -> (r:
        Result<(), TabRenameError>)
        requires
            old(self).wf(),
        ensures
            final(self).wf(),
            match old(self).tab_rename_error(workspace, index, name@) {
                Some(e) => r == Err::<(), TabRenameError>(e) && *final(self) == *old(self),
                None => r is Ok && old(self).tab_renamed(final(self), workspace, index, name@),
            },
    {
        let name = trim(name);
        if char_count(name.as_str()) > TAB_NAME_MAX {
            return Err(TabRenameError::NameTooLong);
        }
        if workspace >= self.workspaces.len() || index >= self.workspaces[workspace].tabs.len() {
            return Err(TabRenameError::PositionOutOfRange);
        }
        if !self.workspaces[workspace].tabs[index].is_renameable() {
            return Err(TabRenameError::Dashboard);
        }
        let ghost before = self.workspaces@;
        assert(before[workspace as int].wf());
        let empty: bool = char_count(name.as_str()) == 0;
        self.workspaces[workspace].tabs[index].name = if empty {
            None
        } else {
            Some(name)
        };
        proof {
            let w = workspace as int;
            let after = self.workspaces@[w];
            let tab = after.tabs@[index as int];
            assert(after.tabs@ =~= before[w].tabs@.update(index as int, tab));
            assert forall|p: PaneId| workspace::tab_has(tab, p) == workspace::tab_has(
                before[w].tabs@[index as int],
                p,
            ) by {}
            workspace::lemma_tabs_update(before[w].tabs@, index as int, tab);
            assert forall|p: PaneId| #[trigger]
                workspace::tabs_have(after.tabs@, p) implies workspace::tabs_have(
                before[w].tabs@,
                p,
            ) by {
                if workspace::tab_has(tab, p) {
                    assert(workspace::tab_has(before[w].tabs@[index as int], p));
                }
            }
            workspace::lemma_tree_update(before, w, after);
            assert(self.workspaces@ =~= before.update(w, after));
        }
        self.session_dirty = true;
        Ok(())
    }

    /// Names a tab of the active workspace.
    pub fn rename_tab(&mut self, index: usize, name: &str) -> (r: Result<(), TabRenameError>)
        requires
            old(self).wf(),
        ensures
            final(self).wf(),
            match old(self).tab_rename_error(old(self).active_ws, index, name@) {
                Some(e) => r == Err::<(), TabRenameError>(e) && *final(self) == *old(self),
                None => r is Ok && old(self).tab_renamed(
                    final(self),
                    old(self).active_ws,
                    index,
                    name@,
                ),
            },
    {
        self.rename_tab_in_workspace(self.active_ws, index, name)
    }

    /// Why a pane cannot be moved.
    pub open spec fn pane_move_error(&self, pane: PaneId, target: MoveTarget) -> Option<
        PaneMoveError,
    > {
        if !workspace::session_has(self.workspaces@, pane) {
            Some(PaneMoveError::PaneNotFound)
        } else {
            let (wi, src) = self.place_of(pane);
            let tabs = self.workspaces@[wi].tabs@;
            if !tabs[src].is_panes() {
                Some(PaneMoveError::SourceNotPaneTab)
            } else {
                match target {
                    MoveTarget::Tab(ti) => if ti >= tabs.len() {
                        Some(PaneMoveError::TargetOutOfRange)
                    } else if ti == src {
                        Some(PaneMoveError::SameTab)
                    } else if !tabs[ti as int].is_panes() {
                        Some(PaneMoveError::TargetNotPaneTab)
                    } else {
                        None
                    },
                    MoveTarget::NewTab => if tabs.len() == 1 && tabs[src].layout.leaf_seq().len()
                        == 1 {
                        Some(PaneMoveError::NoChange)
                    } else {
                        None
                    },
                }
            }
        }
    }

    /// Which tab of which workspace a pane of the session is in.
    pub open spec fn place_of(&self, pane: PaneId) -> (int, int) {
        choose|at: (int, int)| workspace::located(self.workspaces@, pane, at)
    }

    /// Which tab of which workspace a pane is in.
    pub fn find_pane(&self, pane: PaneId) -> (at: Option<(usize, usize)>)
        requires
            self.wf(),
        ensures
            match at {
                Some(a) => {
                    &&& workspace::session_has(self.workspaces@, pane)
                    &&& self.place_of(pane) == (a.0 as int, a.1 as int)
                    &&& workspace::located(self.workspaces@, pane, (a.0 as int, a.1 as int))
                    &&& self.workspaces@[a.0 as int].wf()
                },
                None => !workspace::session_has(self.workspaces@, pane),
            },
    {
        match locate(&self.workspaces, pane) {
            Some((wi, ti)) => {
                proof {
                    let ws = self.workspaces@;
                    let at = (wi as int, ti as int);
                    assert(workspace::tab_has(ws[wi as int].tabs@[ti as int], pane));
                    assert(workspace::tabs_have(ws[wi as int].tabs@, pane));
                    workspace::lemma_located_once(ws, pane, at, self.place_of(pane));
                }
                Some((wi, ti))
            },
            None => None,
        }
    }

    /// What moving a pane leaves behind.
    pub open spec fn pane_moved(
        &self,
        after: &App,
        pane: PaneId,
        target: MoveTarget,
        tab_id: String,
        at: PaneMoveResult,
    ) -> bool {
        let (wi, src) = self.place_of(pane);
        &&& at.workspace == wi
        &&& at.tab == workspace::landing(self.workspaces@[wi].tabs@, src, pane, target)
        &&& only_tabs_changed(self.workspaces@, after.workspaces@, wi)
        &&& after.workspaces@[wi].tabs@ == workspace::tabs_with_pane_moved(
            self.workspaces@[wi].tabs@,
            src,
            pane,
            target,
            tab_id,
        )
        &&& after.workspaces@[wi].active_tab == at.tab
        &&& after.outbox@ == self.outbox@.push(
            Effect::Event(
                SessionEvent::PaneMoved {
                    pane,
                    workspace: at.workspace,
                    tab: (at.tab + 1) as usize,
                },
            ),
        )
        &&& *after == (App {
            workspaces: after.workspaces,
            active_ws: at.workspace,
            zoomed: false,
            scroll_pane: None,
            session_dirty: true,
            outbox: after.outbox,
            ..*self
        })
    }

    /// Decides whether a pane can be moved, and says where it is.
    pub fn check_pane_move(&self, pane: PaneId, target: MoveTarget) -> (r: Result<
        (usize, usize),
        PaneMoveError,
    >)
        requires
            self.wf(),
        ensures
            match self.pane_move_error(pane, target) {
                Some(e) => r == Err::<(usize, usize), PaneMoveError>(e),
                None => {
                    &&& r is Ok
                    &&& self.place_of(pane) == (r->Ok_0.0 as int, r->Ok_0.1 as int)
                    &&& workspace::located(
                        self.workspaces@,
                        pane,
                        (r->Ok_0.0 as int, r->Ok_0.1 as int),
                    )
                    &&& target matches MoveTarget::Tab(ti) ==> ti
                        < self.workspaces@[r->Ok_0.0 as int].tabs@.len() && ti != r->Ok_0.1
                },
            },
    {
        let (wi, src) = match self.find_pane(pane) {
            Some(at) => at,
            None => {
                return Err(PaneMoveError::PaneNotFound);
            },
        };
        if !self.workspaces[wi].tabs[src].is_renameable() {
            return Err(PaneMoveError::SourceNotPaneTab);
        }
        match target {
            MoveTarget::Tab(ti) => {
                if ti >= self.workspaces[wi].tabs.len() {
                    return Err(PaneMoveError::TargetOutOfRange);
                }
                if ti == src {
                    return Err(PaneMoveError::SameTab);
                }
                if !self.workspaces[wi].tabs[ti].is_renameable() {
                    return Err(PaneMoveError::TargetNotPaneTab);
                }
            },
            MoveTarget::NewTab => {
                if self.workspaces[wi].tabs.len() == 1 && self.workspaces[wi].tabs[src].layout.len()
                    == 1 {
                    return Err(PaneMoveError::NoChange);
                }
            },
        }
        Ok((wi, src))
    }

    /// Moves a pane to another tab of its workspace; its process goes on. Nothing
    /// is touched where the move is refused. A tab that the pane leaves empty is
    /// gone, and the focus goes with the pane. `tab_id` is the identity of a new
    /// tab.
    pub fn move_pane_to_tab(&mut self, pane: PaneId, target: MoveTarget, tab_id: String) -> (r:
        Result<PaneMoveResult, PaneMoveError>)
        requires
            old(self).wf(),
        ensures
            final(self).wf(),
            match old(self).pane_move_error(pane, target) {
                Some(e) => r == Err::<PaneMoveResult, PaneMoveError>(e) && *final(self) == *old(
                    self,
                ),
                None => r is Ok && old(self).pane_moved(
                    final(self),
                    pane,
                    target,
                    tab_id,
                    r->Ok_0,
                ),
            },
    {
        let (wi, src) = match self.check_pane_move(pane, target) {
            Ok(at) => at,
            Err(e) => {
                return Err(e);
            },
        };
        let ghost before = self.workspaces@;
        assert(before[wi as int].wf());
        let ghost id = tab_id;
        let at: usize = self.workspaces[wi].move_pane(src, pane, target, tab_id);
        let count: usize = self.workspaces[wi].tabs.len();
        assert(at < count);
        assert(workspace::tree_wf(self.workspaces@)) by {
            workspace::lemma_pane_moved(
                before[wi as int].tabs@,
                src as int,
                pane,
                target,
                id,
            );
            workspace::lemma_tree_update(before, wi as int, self.workspaces@[wi as int]);
            assert(self.workspaces@ =~= before.update(wi as int, self.workspaces@[wi as int]));
        }
        self.active_ws = wi;
        self.zoomed = false;
        self.scroll_pane = None;
        self.session_dirty = true;
        self.outbox.push(
            Effect::Event(SessionEvent::PaneMoved { pane, workspace: wi, tab: at + 1 }),
        );
        Ok(PaneMoveResult { workspace: wi, tab: at })
    }
}

/// A tab that moves to the left changes places with the tab on its left, and one that
/// moves to the right with the tab on its right.
pub proof fn law_tabs_move_past_their_neighbour(tabs: Seq<Tab>, at: int)
    requires
        0 <= at < tabs.len(),
    ensures
        at > 0 ==> ({
            let t = workspace::tabs_moved(tabs, at, adjacent(at, TabMoveDirection::Left));
            t[at - 1] == tabs[at] && t[at] == tabs[at - 1]
        }),
        at + 1 < tabs.len() ==> ({
            let t = workspace::tabs_moved(tabs, at, adjacent(at, TabMoveDirection::Right));
            t[at + 1] == tabs[at] && t[at] == tabs[at + 1]
        }),
{
}

/// A move is announced with the places counted from one: where the tab was, where it
/// is now, and where the active tab is.
pub proof fn law_tab_moves_are_announced(
    app: App,
    after: App,
    workspace: usize,
    from: usize,
    to: usize,
    active: usize,
)
    requires
        app.wf(),
        after.wf(),
        app.tab_move_error(workspace, from, to) is None,
        app.tab_moved(&after, workspace, from, to, active),
    ensures
        ({
            let before = app.workspaces@[workspace as int];
            let now = after.workspaces@[workspace as int];
            after.outbox@.last() matches Effect::Event(SessionEvent::TabMoved {
                workspace: w,
                from: f,
                to: t,
                active: a,
                swap,
            }) && w == workspace && f >= 1 && t >= 1 && a >= 1 && before.tabs@[f - 1]
                == now.tabs@[t - 1] && before.tabs@[f - 1] == before.tabs@[from as int] && a - 1
                == now.active_tab && !swap
        }),
{
    let before = app.workspaces@[workspace as int];
    let now = after.workspaces@[workspace as int];
    assert(from < before.tabs.len() && to < before.tabs.len());
    assert(now.wf());
    assert(active < now.tabs.len());
    workspace::law_a_moved_tab_is_where_it_was_sent(before.tabs@, from as int, to as int);
}

/// An exchange is announced with the places of both tabs, counted from one: what was at
/// either is now at the other.
pub proof fn law_tab_exchanges_are_announced(
    app: App,
    after: App,
    workspace: usize,
    first: usize,
    second: usize,
    active: usize,
)
    requires
        app.wf(),
        after.wf(),
        app.tab_move_error(workspace, first, second) is None,
        app.tabs_exchanged(&after, workspace, first, second, active),
    ensures
        ({
            let before = app.workspaces@[workspace as int];
            let now = after.workspaces@[workspace as int];
            after.outbox@.last() matches Effect::Event(SessionEvent::TabMoved {
                workspace: w,
                from: f,
                to: t,
                active: a,
                swap,
            }) && w == workspace && f >= 1 && t >= 1 && a >= 1 && before.tabs@[f - 1]
                == now.tabs@[t - 1] && before.tabs@[t - 1] == now.tabs@[f - 1]
                && before.tabs@[f - 1] == before.tabs@[first as int] && a - 1 == now.active_tab
                && swap
        }),
{
    let before = app.workspaces@[workspace as int];
    let now = after.workspaces@[workspace as int];
    assert(first < before.tabs.len() && second < before.tabs.len());
    assert(now.wf());
    assert(active < now.tabs.len());
}

/// A moved pane is shown: its workspace and the tab that it is in now are the active
/// ones, it has the focus there, and it is announced with that place.
pub proof fn law_moved_panes_are_shown(
    app: App,
    after: App,
    pane: PaneId,
    target: MoveTarget,
    tab_id: String,
    at: PaneMoveResult,
)
    requires
        app.wf(),
        after.wf(),
        app.pane_move_error(pane, target) is None,
        app.pane_moved(&after, pane, target, tab_id, at),
    ensures
        ({
            let w = after.workspaces@[after.active_ws as int];
            &&& at.workspace == after.active_ws && at.tab == w.active_tab
            &&& w.tabs@[w.active_tab as int].layout.focus == pane
            &&& !after.zoomed
            &&& after.outbox@.last() matches Effect::Event(SessionEvent::PaneMoved {
                pane: p,
                workspace: ws,
                tab: t,
            }) && p == pane && ws == after.active_ws && t - 1 == w.active_tab
        }),
{
    let (wi, src) = app.place_of(pane);
    let w = app.workspaces@[wi];
    assert(workspace::session_has(app.workspaces@, pane));
    let k = choose|k: int|
        0 <= k < app.workspaces@.len() && workspace::tabs_have(
            (#[trigger] app.workspaces@[k]).tabs@,
            pane,
        );
    let i = choose|i: int|
        0 <= i < app.workspaces@[k].tabs@.len() && workspace::tab_has(
            #[trigger] app.workspaces@[k].tabs@[i],
            pane,
        );
    assert(workspace::located(app.workspaces@, pane, (k, i)));
    assert(workspace::located(app.workspaces@, pane, (wi, src)));
    assert(w.wf());
    let now = after.workspaces@[wi];
    workspace::law_a_moved_pane_is_where_it_was_sent(w.tabs@, src, pane, target, tab_id);
    assert(at.tab < now.tabs.len());
}

} // verus!
