//! Workspaces of a session: opening, naming and ordering them, and going
//! through workspaces, tabs and panes.
use vstd::prelude::*;
use vstd::string::*;

use super::panes;
use super::tabs;
use super::{App, Effect, SessionEvent};
use crate::grouping;
use crate::grouping::{group_worktrees, pin_order};
use crate::ids::PaneId;
use crate::layout;
use crate::layout::{position_of, TileLayout, TileNode};
use crate::menus::{Mode, WorkspaceUpdateError, WS_NAME_MAX};
use crate::paths;
use crate::paths::{path_in, plan_worktree, ws_name};
use crate::ring::wrap;
use crate::status::Pane;
use crate::text;
use crate::text::{char_count, same_text, trim};
use crate::workspace;
use crate::workspace::{tab_of, Tab, Workspace, WorktreeMembership};

verus! {

/// What the surroundings found or made for a workspace that is opened.
#[derive(Debug)]
pub struct Opening {
    pub workspace_id: String,
    pub tab_id: String,
    pub branch: Option<String>,
    pub worktree: Option<WorktreeMembership>,
    /// The identity of the first pane.
    pub pane: PaneId,
    /// Its shell, where that could be started.
    pub spawned: Option<Pane>,
}

/// The repository that a directory belongs to. `common_dir` is the common git
/// directory of the repository, and `cwd` the directory itself, both without
/// links. A main checkout holds its git directory; a linked worktree does not.
pub fn worktree_membership(common_dir: Option<String>, cwd: &str) -> (m: Option<
    WorktreeMembership,
>)
    ensures
        m == (match common_dir {
            Some(dir) => Some(
                WorktreeMembership { common_dir: dir, linked: !paths::lies_in(dir@, cwd@) },
            ),
            None => None,
        }),
{
    match common_dir {
        Some(dir) => {
            let linked: bool = !path_in(dir.as_str(), cwd);
            Some(WorktreeMembership { common_dir: dir, linked })
        },
        None => None,
    }
}

/// A tab of one pane.
pub open spec fn single_tab(id: String, pane: PaneId) -> Tab {
    Tab {
        id,
        layout: TileLayout { root: TileNode::Leaf(pane), focus: pane },
        git: None,
        orch: false,
        mission: false,
        name: None,
    }
}

/// The message about a workspace that could not be opened.
pub open spec fn open_failure(name: Seq<char>) -> Seq<char> {
    "couldn't open "@ + name + " — shell failed to start"@
}

/// Whether this is a new workspace at the directory with one pane.
pub open spec fn is_new_workspace(w: Workspace, cwd: Seq<char>, opening: Opening) -> bool {
    &&& w.id == opening.workspace_id
    &&& w.name@ == paths::ws_name_text(cwd)
    &&& w.cwd@ == cwd
    &&& w.branch == opening.branch
    &&& w.git_ahead_behind is None
    &&& w.worktree == opening.worktree
    &&& w.tabs@ == seq![single_tab(opening.tab_id, opening.pane)]
    &&& w.active_tab == 0
    &&& !w.pinned
}

pub proof fn lemma_new_workspace(w: Workspace, tab_id: String, pane: PaneId)
    requires
        w.tabs@ == seq![single_tab(tab_id, pane)],
        w.active_tab == 0,
    ensures
        w.wf(),
        forall|p: PaneId| #[trigger] workspace::tabs_have(w.tabs@, p) == (p == pane),
{
    let tab = single_tab(tab_id, pane);
    assert(tab.layout.leaf_seq() =~= seq![pane]);
    assert(tab.layout.leaf_seq()[0] == pane);
    workspace::lemma_single_pane(tab, pane);
    assert(w.tabs@[0] == tab);
    assert forall|p: PaneId| #[trigger] workspace::tabs_have(w.tabs@, p) == (p == pane) by {
        if p == pane {
            assert(workspace::tab_has(w.tabs@[0], p));
        }
    }
}

/// A new workspace with one pane.
pub fn new_workspace_at(
    cwd: String,
    workspace_id: String,
    tab_id: String,
    branch: Option<String>,
    worktree: Option<WorktreeMembership>,
    pane: PaneId,
) -> (w: Workspace)
    ensures
        w.id == workspace_id,
        w.name@ == paths::ws_name_text(cwd@),
        w.cwd == cwd,
        w.branch == branch,
        w.git_ahead_behind is None,
        w.worktree == worktree,
        w.tabs@ == seq![single_tab(tab_id, pane)],
        w.active_tab == 0,
        !w.pinned,
{
    let name = ws_name(cwd.as_str());
    let mut tabs: Vec<Tab> = Vec::new();
    tabs.push(Tab::panes(tab_id, TileLayout::new(pane)));
    assert(tabs@ =~= seq![single_tab(tab_id, pane)]);
    Workspace {
        id: workspace_id,
        name,
        cwd,
        branch,
        git_ahead_behind: None,
        worktree,
        tabs,
        active_tab: 0,
        pinned: false,
    }
}

impl App {
    /// Opens a tab with a shell in the active workspace, where the shell could be
    /// started.
    pub fn new_tab(&mut self, tab_id: String, id: PaneId, spawned: Option<Pane>, now: u64)
        requires
            old(self).wf(),
            old(self).workspaces@.len() > 0,
            !workspace::session_has(old(self).workspaces@, id),
        ensures
            final(self).wf(),
            match spawned {
                Some(pane) => {
                    &&& old(self).pane_kept(final(self), id, pane, now)
                    &&& tabs::only_tabs_changed(
                        old(self).workspaces@,
                        final(self).workspaces@,
                        old(self).active_ws as int,
                    )
                    &&& final(self).active().tabs@ == old(self).active().tabs@.push(
                        single_tab(tab_id, id),
                    )
                    &&& final(self).active().active_tab == old(self).active().tabs@.len()
                    &&& final(self).outbox@ == old(self).outbox@ + panes::announced(id) + seq![
                        Effect::Event(
                            SessionEvent::TabCreated {
                                tab: (old(self).active().tabs@.len() + 1) as usize,
                            },
                        ),
                    ]
                    &&& *final(self) == (App {
                        panes: final(self).panes,
                        status: final(self).status,
                        workspaces: final(self).workspaces,
                        zoomed: false,
                        session_dirty: true,
                        outbox: final(self).outbox,
                        ..*old(self)
                    })
                },
                None => *final(self) == *old(self),
            },
    {
        match self.spawn_into(id, spawned, now) {
            Some(_) => {},
            None => {
                return ;
            },
        }
        let w: usize = self.active_ws;
        let ghost before = self.workspaces@;
        let tab = Tab::panes(tab_id, TileLayout::new(id));
        proof {
            assert(before[w as int].wf());
            workspace::lemma_single_pane(tab, id);
            if workspace::tabs_have(before[w as int].tabs@, id) {
                assert(workspace::session_has(before, id));
            }
        }
        self.workspaces[w].push_tab(tab);
        let count: usize = self.workspaces[w].tabs.len();
        assert(workspace::tree_wf(self.workspaces@)) by {
            workspace::lemma_tree_update(before, w as int, self.workspaces@[w as int]);
            assert(self.workspaces@ =~= before.update(w as int, self.workspaces@[w as int]));
        }
        self.outbox.push(Effect::Event(SessionEvent::TabCreated { tab: count }));
        assert(self.outbox@ =~= old(self).outbox@ + panes::announced(id) + seq![
            Effect::Event(SessionEvent::TabCreated { tab: count }),
        ]);
    }

    /// What opening a workspace leaves behind.
    pub open spec fn workspace_opened(
        &self,
        after: &App,
        cwd: Seq<char>,
        opening: Opening,
        now: u64,
    ) -> bool {
        let n = self.workspaces@.len();
        &&& self.pane_kept(after, opening.pane, opening.spawned->0, now)
        &&& after.workspaces@ == self.workspaces@.push(after.workspaces@.last())
        &&& is_new_workspace(after.workspaces@.last(), cwd, opening)
        &&& after.active_ws == n
        &&& after.outbox@ == self.outbox@ + panes::announced(opening.pane) + seq![
            Effect::Event(SessionEvent::WorkspaceCreated { workspace: n as usize }),
        ]
        &&& *after == (App {
            panes: after.panes,
            status: after.status,
            workspaces: after.workspaces,
            active_ws: after.active_ws,
            zoomed: false,
            session_dirty: true,
            outbox: after.outbox,
            ..*self
        })
    }

    /// What is left where a workspace could not be opened: a message.
    pub open spec fn opening_failed(&self, after: &App, cwd: Seq<char>) -> bool {
        &&& after.toast is Some
        &&& after.toast->0@ == open_failure(paths::ws_name_text(cwd))
        &&& *after == (App { toast: after.toast, ..*self })
    }

    /// Opens a workspace at a directory and goes there. Where its shell could not
    /// be started a message says so and nothing else changes.
    pub fn create_workspace_at(&mut self, cwd: String, opening: Opening, now: u64) -> (opened: bool)
        requires
            old(self).wf(),
            !workspace::session_has(old(self).workspaces@, opening.pane),
        ensures
            final(self).wf(),
            opened == (opening.spawned is Some),
            opened ==> old(self).workspace_opened(final(self), cwd@, opening, now),
            !opened ==> old(self).opening_failed(final(self), cwd@),
    {
        match self.spawn_into(opening.pane, opening.spawned, now) {
            Some(_) => {},
            None => {
                let name = ws_name(cwd.as_str());
                let mut message: String = "couldn't open ".to_owned();
                message.append(name.as_str());
                message.append(" — shell failed to start");
                self.show_toast(message);
                return false;
            },
        }
        let ghost before = self.workspaces@;
        let w = new_workspace_at(
            cwd,
            opening.workspace_id,
            opening.tab_id,
            opening.branch,
            opening.worktree,
            opening.pane,
        );
        assert(workspace::tree_wf(before.push(w))) by {
            lemma_new_workspace(w, opening.tab_id, opening.pane);
            workspace::lemma_tree_push(before, w);
        }
        self.workspaces.push(w);
        self.active_ws = self.workspaces.len() - 1;
        let at: usize = self.active_ws;
        self.outbox.push(Effect::Event(SessionEvent::WorkspaceCreated { workspace: at }));
        assert(self.outbox@ =~= old(self).outbox@ + panes::announced(opening.pane) + seq![
            Effect::Event(SessionEvent::WorkspaceCreated { workspace: at }),
        ]);
        true
    }

    /// Opens a workspace where the user works.
    pub fn new_workspace(&mut self, opening: Opening, now: u64) -> (opened: bool)
        requires
            old(self).wf(),
            old(self).workspaces@.len() > 0,
            !workspace::session_has(old(self).workspaces@, opening.pane),
        ensures
            final(self).wf(),
            opened == (opening.spawned is Some),
            opened ==> old(self).workspace_opened(final(self), old(self).focused_dir(), opening, now),
            !opened ==> old(self).opening_failed(final(self), old(self).focused_dir()),
    {
        let cwd = self.focused_cwd();
        self.create_workspace_at(cwd, opening, now)
    }

    /// Makes a git worktree for a branch and opens it as a workspace. `taken` are
    /// the paths that exist below `base`, and `added` is what git said to the
    /// planned worktree. Returns where it is.
    pub fn create_worktree(
        &mut self,
        branch: &str,
        is_repo: bool,
        base: &str,
        taken: &Vec<String>,
        added: Result<(), String>,
        opening: Opening,
        now: u64,
    ) -> (r: Result<String, String>)
        requires
            old(self).wf(),
            taken@.len() < usize::MAX,
            !workspace::session_has(old(self).workspaces@, opening.pane),
        ensures
            final(self).wf(),
            match r {
                Ok(path) => {
                    let name = text::trim_text(branch@);
                    &&& name.len() > 0 && is_repo && added is Ok
                    &&& paths::is_first_free(
                        base@,
                        paths::slug_text(name),
                        text::texts(taken@),
                        path@,
                    )
                    &&& if opening.spawned is Some {
                        old(self).workspace_opened(final(self), path@, opening, now)
                    } else {
                        old(self).opening_failed(final(self), path@)
                    }
                },
                Err(e) => {
                    &&& *final(self) == *old(self)
                    &&& if text::trim_text(branch@).len() == 0 {
                        e@ == "a branch name is required"@
                    } else if !is_repo {
                        e@ == "not a git repository"@
                    } else {
                        added is Err && e == added->Err_0
                    }
                },
            },
    {
        match plan_worktree(branch, is_repo, base, taken) {
            Ok(plan) => match added {
                Ok(_) => {
                    let path = plan.path.clone();
                    let _ = self.create_workspace_at(path, opening, now);
                    Ok(plan.path)
                },
                Err(e) => Err(e),
            },
            Err(e) => Err(e),
        }
    }

    /// Why a workspace cannot be given this name.
    pub open spec fn ws_rename_error(&self, index: usize, name: Seq<char>) -> Option<
        WorkspaceUpdateError,
    > {
        if text::trim_text(name).len() == 0 {
            Some(WorkspaceUpdateError::EmptyName)
        } else if text::trim_text(name).len() > WS_NAME_MAX {
            Some(WorkspaceUpdateError::NameTooLong)
        } else if index >= self.workspaces@.len() {
            Some(WorkspaceUpdateError::NotFound)
        } else {
            None
        }
    }

    /// What naming a workspace leaves behind. A name that it has already leaves
    /// the session as it is saved.
    pub open spec fn ws_renamed(&self, after: &App, index: usize, name: Seq<char>) -> bool {
        let i = index as int;
        let text = text::trim_text(name);
        &&& after.workspaces@ == self.workspaces@.update(
            i,
            Workspace { name: after.workspaces@[i].name, ..self.workspaces@[i] },
        )
        &&& after.workspaces@[i].name@ == text
        &&& *after == (App {
            workspaces: after.workspaces,
            session_dirty: self.session_dirty || self.workspaces@[i].name@ != text,
            ..*self
        })
    }

    /// Names a workspace; its directory is not touched.
    pub fn rename_workspace(&mut self, index: usize, raw_name: &str) -> (r: Result<
        (),
        WorkspaceUpdateError,
    >)
        requires
            old(self).wf(),
        ensures
            final(self).wf(),
            match old(self).ws_rename_error(index, raw_name@) {
                Some(e) => r == Err::<(), WorkspaceUpdateError>(e) && *final(self) == *old(self),
                None => r is Ok && old(self).ws_renamed(final(self), index, raw_name@),
            },
    {
        let name = trim(raw_name);
        let n: usize = char_count(name.as_str());
        if n == 0 {
            return Err(WorkspaceUpdateError::EmptyName);
        }
        if n > WS_NAME_MAX {
            return Err(WorkspaceUpdateError::NameTooLong);
        }
        if index >= self.workspaces.len() {
            return Err(WorkspaceUpdateError::NotFound);
        }
        let ghost before = self.workspaces@;
        assert(before[index as int].wf());
        if !same_text(self.workspaces[index].name.as_str(), name.as_str()) {
            self.workspaces[index].name = name;
            self.session_dirty = true;
        }
        proof {
            let w = self.workspaces@[index as int];
            assert(self.workspaces@ =~= before.update(index as int, w));
            workspace::lemma_tree_update(before, index as int, w);
        }
        Ok(())
    }

    /// Pins a workspace to the top of the list, or releases it.
    pub fn set_workspace_pinned(&mut self, index: usize, pinned: bool) -> (r: Result<
        (),
        WorkspaceUpdateError,
    >)
        requires
            old(self).wf(),
        ensures
            final(self).wf(),
            if index < old(self).workspaces@.len() {
                &&& r is Ok
                &&& final(self).workspaces@ == old(self).workspaces@.update(
                    index as int,
                    Workspace { pinned, ..old(self).workspaces@[index as int] },
                )
                &&& *final(self) == (App {
                    workspaces: final(self).workspaces,
                    session_dirty: old(self).session_dirty || old(
                        self,
                    ).workspaces@[index as int].pinned != pinned,
                    ..*old(self)
                })
            } else {
                r == Err::<(), WorkspaceUpdateError>(WorkspaceUpdateError::NotFound)
                    && *final(self) == *old(self)
            },
    {
        if index >= self.workspaces.len() {
            return Err(WorkspaceUpdateError::NotFound);
        }
        let ghost before = self.workspaces@;
        assert(before[index as int].wf());
        if self.workspaces[index].pinned != pinned {
            self.workspaces[index].pinned = pinned;
            self.session_dirty = true;
        }
        proof {
            let w = self.workspaces@[index as int];
            assert(self.workspaces@ =~= before.update(index as int, w));
            workspace::lemma_tree_update(before, index as int, w);
        }
        Ok(())
    }

    /// Makes the workspace that is `delta` further the active one.
    pub fn cycle_workspace(&mut self, delta: isize)
        requires
            old(self).wf(),
        ensures
            final(self).wf(),
            *final(self) == (App {
                active_ws: if old(self).workspaces@.len() > 0 {
                    ((old(self).active_ws + delta) % (old(self).workspaces@.len() as int)) as usize
                } else {
                    old(self).active_ws
                },
                ..*old(self)
            }),
    {
        let n: usize = self.workspaces.len();
        if n > 0 {
            self.active_ws = wrap(self.active_ws, delta, n);
        }
    }

    /// Makes the tab of the active workspace that is `delta` further the active
    /// one.
    pub fn cycle_tab(&mut self, delta: isize)
        requires
            old(self).wf(),
            old(self).workspaces@.len() > 0,
        ensures
            final(self).wf(),
            final(self).workspaces@ == old(self).workspaces@.update(
                old(self).active_ws as int,
                Workspace {
                    active_tab: ((old(self).active().active_tab + delta) % (old(
                        self,
                    ).active().tabs@.len() as int)) as usize,
                    ..old(self).active()
                },
            ),
            *final(self) == (App { workspaces: final(self).workspaces, ..*old(self) }),
    {
        let w: usize = self.active_ws;
        let ghost before = self.workspaces@;
        assert(before[w as int].wf());
        let n: usize = self.workspaces[w].tabs.len();
        self.workspaces[w].active_tab = wrap(self.workspaces[w].active_tab, delta, n);
        proof {
            let after = self.workspaces@[w as int];
            assert(self.workspaces@ =~= before.update(w as int, after));
            workspace::lemma_tree_update(before, w as int, after);
        }
    }
}

// ---------------------------------------------------------------------------
// The order of workspaces
// ---------------------------------------------------------------------------

/// What is known of the repositories of workspaces.
pub open spec fn repo_nodes(ws: Seq<Workspace>) -> Seq<grouping::Node> {
    Seq::new(
        ws.len(),
        |i: int|
            match ws[i].worktree {
                Some(m) => (Some(paths::components(m.common_dir@)), m.linked),
                None => (None, false),
            },
    )
}

/// Which workspaces are pinned.
pub open spec fn pins_of(ws: Seq<Workspace>) -> Seq<bool> {
    Seq::new(ws.len(), |i: int| ws[i].pinned)
}

/// The order in which workspaces are listed.
pub open spec fn display_rows(ws: Seq<Workspace>) -> Seq<(int, bool)> {
    grouping::pinned_first(grouping::grouped(repo_nodes(ws)), pins_of(ws))
}

/// The listing shows every workspace once.
pub proof fn law_every_workspace_is_listed_once(ws: Seq<Workspace>)
    ensures
        display_rows(ws).len() == ws.len(),
        forall|k: int|
            0 <= k < ws.len() ==> 0 <= (#[trigger] display_rows(ws)[k]).0 < ws.len(),
        forall|i: int|
            0 <= i < ws.len() ==> #[trigger] grouping::listed(display_rows(ws), i),
{
    let nodes = repo_nodes(ws);
    let rows = grouping::grouped(nodes);
    let out = display_rows(ws);
    grouping::law_grouping_lists_each_workspace_once(nodes);
    grouping::law_pinned_groups_come_first(nodes, pins_of(ws));
    assert forall|k: int| 0 <= k < ws.len() implies 0 <= (#[trigger] out[k]).0 < ws.len() by {
        assert(out.contains(out[k]));
        assert(rows.contains(out[k]));
        let m = choose|m: int| 0 <= m < rows.len() && rows[m] == out[k];
        assert(0 <= rows[m].0 < nodes.len());
    }
    assert forall|i: int| 0 <= i < ws.len() implies #[trigger] grouping::listed(out, i) by {
        assert(grouping::listed(rows, i));
        let m = choose|m: int| 0 <= m < rows.len() && (#[trigger] rows[m]).0 == i;
        assert(rows.contains(rows[m]));
        assert(out.contains(rows[m]));
        let k = choose|k: int| 0 <= k < out.len() && out[k] == rows[m];
        assert(out[k].0 == i);
    }
}

impl App {
    /// The order in which workspaces are listed: a linked worktree below the
    /// workspace that it branched from, pinned groups first. Each row is the
    /// position of a workspace and whether it is nested.
    pub fn workspace_display_order(&self) -> (rows: Vec<(usize, bool)>)
        ensures
            grouping::row_views(rows@) == display_rows(self.workspaces@),
            rows@.len() == self.workspaces@.len(),
    {
        let mut nodes: Vec<(Option<&str>, bool)> = Vec::new();
        let mut pins: Vec<bool> = Vec::new();
        let mut i: usize = 0;
        while i < self.workspaces.len()
            invariant
                i <= self.workspaces@.len(),
                nodes@.len() == i,
                pins@.len() == i,
                forall|k: int| 0 <= k < i ==> #[trigger] pins@[k] == self.workspaces@[k].pinned,
                forall|k: int|
                    0 <= k < i ==> #[trigger] grouping::node_views(nodes@)[k] == repo_nodes(
                        self.workspaces@,
                    )[k],
            decreases self.workspaces@.len() - i,
        {
            let ghost before = grouping::node_views(nodes@);
            let w = &self.workspaces[i];
            match &w.worktree {
                Some(m) => {
                    nodes.push((Some(m.common_dir.as_str()), m.linked));
                },
                None => {
                    nodes.push((None, false));
                },
            }
            pins.push(w.pinned);
            assert forall|k: int| 0 <= k < i + 1 implies #[trigger] grouping::node_views(nodes@)[k]
                == repo_nodes(self.workspaces@)[k] by {
                if k < i {
                    assert(grouping::node_views(nodes@)[k] == before[k]);
                }
            }
            i = i + 1;
        }
        let ghost nv = repo_nodes(self.workspaces@);
        assert(grouping::node_views(nodes@) =~= nv);
        assert(pins@ =~= pins_of(self.workspaces@));
        let order = group_worktrees(nodes.as_slice());
        proof {
            grouping::lemma_first_row_leads(nv);
            if order@.len() > 0 {
                assert(grouping::row_views(order@)[0].1 == order@[0].1);
            }
            law_every_workspace_is_listed_once(self.workspaces@);
        }
        let rows = pin_order(&order, &pins);
        assert(grouping::row_views(rows@).len() == rows@.len());
        rows
    }

    /// Where a workspace is in the list.
    pub fn workspace_display_position(&self, index: usize) -> (at: Option<usize>)
        ensures
            match at {
                Some(p) => p < self.workspaces@.len() && display_rows(self.workspaces@)[p as int].0
                    == index && forall|k: int|
                    0 <= k < p ==> (#[trigger] display_rows(self.workspaces@)[k]).0 != index,
                None => index >= self.workspaces@.len(),
            },
    {
        let rows = self.workspace_display_order();
        let ghost out = display_rows(self.workspaces@);
        let mut i: usize = 0;
        while i < rows.len()
            invariant
                rows@.len() == self.workspaces@.len(),
                grouping::row_views(rows@) == out,
                out == display_rows(self.workspaces@),
                i <= rows@.len(),
                forall|k: int| 0 <= k < i ==> (#[trigger] out[k]).0 != index,
            decreases rows@.len() - i,
        {
            assert(out[i as int].0 == rows@[i as int].0);
            if rows[i].0 == index {
                return Some(i);
            }
            i = i + 1;
        }
        proof {
            law_every_workspace_is_listed_once(self.workspaces@);
            if index < self.workspaces@.len() {
                assert(grouping::listed(out, index as int));
            }
        }
        None
    }

    // -----------------------------------------------------------------------
    // Going to panes
    // -----------------------------------------------------------------------

    /// The workspace that a pane is in.
    pub fn workspace_of_pane(&self, id: PaneId) -> (w: Option<&Workspace>)
        requires
            self.wf(),
        ensures
            match w {
                Some(x) => workspace::session_has(self.workspaces@, id) && *x
                    == self.workspaces@[self.place_of(id).0],
                None => !workspace::session_has(self.workspaces@, id),
            },
    {
        match self.find_pane(id) {
            Some((wi, _)) => Some(&self.workspaces[wi]),
            None => None,
        }
    }

    /// Whether the leaf is a preview of the active workspace that is still open.
    pub open spec fn is_active_preview(&self, id: PaneId) -> bool {
        &&& self.preview_views@.contains(id)
        &&& self.views@.dom().contains(id)
        &&& workspace::tabs_have(self.active().tabs@, id)
    }

    /// The preview of the active workspace that is to be used again.
    pub fn active_preview_view(&self) -> (id: Option<PaneId>)
        requires
            self.wf(),
            self.workspaces@.len() > 0,
        ensures
            match id {
                Some(p) => self.is_active_preview(p),
                None => forall|p: PaneId| !(#[trigger] self.is_active_preview(p)),
            },
    {
        let mut i: usize = 0;
        while i < self.preview_views.len()
            invariant
                self.wf(),
                self.workspaces@.len() > 0,
                i <= self.preview_views@.len(),
                forall|k: int|
                    0 <= k < i ==> !self.is_active_preview(#[trigger] self.preview_views@[k]),
            decreases self.preview_views@.len() - i,
        {
            let id: PaneId = self.preview_views[i];
            assert(self.preview_views@.contains(id));
            if self.views.contains_key(id) {
                match tab_of(&self.ws().tabs, id) {
                    Some(j) => {
                        assert(workspace::tab_has(self.active().tabs@[j as int], id));
                        return Some(id);
                    },
                    None => {},
                }
            }
            i = i + 1;
        }
        assert forall|p: PaneId| !(#[trigger] self.is_active_preview(p)) by {
            if self.is_active_preview(p) {
                let k = choose|k: int|
                    0 <= k < self.preview_views@.len() && self.preview_views@[k] == p;
                assert(!self.is_active_preview(self.preview_views@[k]));
            }
        }
        None
    }

    /// What going to a pane leaves behind.
    pub open spec fn pane_focused(&self, after: &App, id: PaneId) -> bool {
        let (wi, ti) = self.place_of(id);
        let tab = self.workspaces@[wi].tabs@[ti];
        &&& tabs::only_tabs_changed(self.workspaces@, after.workspaces@, wi)
        &&& after.workspaces@[wi].tabs@ == self.workspaces@[wi].tabs@.update(
            ti,
            Tab { layout: TileLayout { focus: id, ..tab.layout }, ..tab },
        )
        &&& after.workspaces@[wi].active_tab == ti
        &&& *after == (App {
            workspaces: after.workspaces,
            active_ws: wi as usize,
            scroll_pane: if self.active_tab().layout.focus != id {
                None
            } else {
                self.scroll_pane
            },
            mode: Mode::Normal,
            ..*self
        })
    }

    /// Makes the tab of a pane the active one and gives the pane its focus.
    fn go_to(&mut self, wi: usize, ti: usize, id: PaneId)
        requires
            old(self).wf(),
            workspace::located(old(self).workspaces@, id, (wi as int, ti as int)),
        ensures
            final(self).wf(),
            tabs::only_tabs_changed(old(self).workspaces@, final(self).workspaces@, wi as int),
            final(self).workspaces@[wi as int].tabs@ == ({
                let tab = old(self).workspaces@[wi as int].tabs@[ti as int];
                old(self).workspaces@[wi as int].tabs@.update(
                    ti as int,
                    Tab { layout: TileLayout { focus: id, ..tab.layout }, ..tab },
                )
            }),
            final(self).workspaces@[wi as int].active_tab == ti,
            *final(self) == (App {
                workspaces: final(self).workspaces,
                active_ws: wi,
                ..*old(self)
            }),
    {
        let ghost before = self.workspaces@;
        assert(before[wi as int].wf());
        self.active_ws = wi;
        self.workspaces[wi].focus_pane(ti, id);
        self.workspaces[wi].active_tab = ti;
        proof {
            let after = self.workspaces@[wi as int];
            assert(self.workspaces@ =~= before.update(wi as int, after));
            workspace::lemma_tree_update(before, wi as int, after);
        }
    }

    /// Goes to a pane, wherever it is.
    pub fn focus_pane_global(&mut self, id: PaneId)
        requires
            old(self).wf(),
            old(self).workspaces@.len() > 0,
        ensures
            final(self).wf(),
            final(self).workspaces@.len() == old(self).workspaces@.len(),
            if workspace::session_has(old(self).workspaces@, id) {
                old(self).pane_focused(final(self), id)
            } else {
                *final(self) == *old(self)
            },
    {
        let changed: bool = self.layout().focus != id;
        match self.find_pane(id) {
            Some((wi, ti)) => {
                self.go_to(wi, ti, id);
                if changed {
                    self.scroll_pane = None;
                }
                self.mode = Mode::Normal;
            },
            None => {},
        }
    }

    /// The pane that is `delta` further in the active tab, counted from the first
    /// where the tab does not show the focused one.
    pub open spec fn pane_after(&self, delta: int) -> PaneId {
        let leaves = self.active_tab().layout.leaf_seq();
        let at = layout::place_in(leaves, self.active_tab().layout.focus);
        leaves[(at + delta) % (leaves.len() as int)]
    }

    /// Gives the focus to the pane that is `delta` further in the active tab. A
    /// single pane keeps it.
    pub fn cycle_pane(&mut self, delta: isize)
        requires
            old(self).wf(),
            old(self).workspaces@.len() > 0,
        ensures
            final(self).wf(),
            if old(self).active_tab().layout.leaf_seq().len() < 2 {
                *final(self) == *old(self)
            } else {
                let w = old(self).active_ws as int;
                let tab = old(self).active_tab();
                &&& tabs::only_tabs_changed(old(self).workspaces@, final(self).workspaces@, w)
                &&& final(self).active().active_tab == old(self).active().active_tab
                &&& final(self).active().tabs@ == old(self).active().tabs@.update(
                    old(self).active().active_tab as int,
                    Tab {
                        layout: TileLayout {
                            focus: old(self).pane_after(delta as int),
                            ..tab.layout
                        },
                        ..tab
                    },
                )
                &&& *final(self) == (App {
                    workspaces: final(self).workspaces,
                    scroll_pane: None,
                    mode: Mode::Normal,
                    ..*old(self)
                })
            },
    {
        let leaves = self.layout().leaves();
        if leaves.len() < 2 {
            return ;
        }
        let focus: PaneId = self.layout().focus;
        let at: usize = position_of(&leaves, focus);
        let to: usize = wrap(at, delta, leaves.len());
        let next: PaneId = leaves[to];
        let w: usize = self.active_ws;
        let t: usize = self.workspaces[w].active_tab;
        let ghost before = self.workspaces@;
        proof {
            assert(before[w as int].wf());
            assert(leaves@.contains(next)) by {
                assert(leaves@[to as int] == next);
            }
        }
        self.workspaces[w].focus_pane(t, next);
        proof {
            let after = self.workspaces@[w as int];
            assert(self.workspaces@ =~= before.update(w as int, after));
            workspace::lemma_tree_update(before, w as int, after);
        }
        self.scroll_pane = None;
        self.mode = Mode::Normal;
    }

    /// Gives the focus to the next pane of the active tab.
    pub fn focus_next_pane(&mut self)
        requires
            old(self).wf(),
            old(self).workspaces@.len() > 0,
        ensures
            final(self).wf(),
            if old(self).active_tab().layout.leaf_seq().len() < 2 {
                *final(self) == *old(self)
            } else {
                let w = old(self).active_ws as int;
                let tab = old(self).active_tab();
                &&& tabs::only_tabs_changed(old(self).workspaces@, final(self).workspaces@, w)
                &&& final(self).active().active_tab == old(self).active().active_tab
                &&& final(self).active().tabs@ == old(self).active().tabs@.update(
                    old(self).active().active_tab as int,
                    Tab {
                        layout: TileLayout { focus: old(self).pane_after(1), ..tab.layout },
                        ..tab
                    },
                )
                &&& *final(self) == (App {
                    workspaces: final(self).workspaces,
                    scroll_pane: None,
                    mode: Mode::Normal,
                    ..*old(self)
                })
            },
    {
        self.cycle_pane(1);
    }
}

/// Going on by one pane leads to the next one in order, from the last to the first,
/// and going back by one leads to the one before.
pub proof fn law_panes_come_round_in_order(app: App, k: int)
    requires
        app.active_tab().layout.wf(),
        0 <= k < app.active_tab().layout.leaf_seq().len(),
        app.active_tab().layout.focus == app.active_tab().layout.leaf_seq()[k],
    ensures
        ({
            let leaves = app.active_tab().layout.leaf_seq();
            let n = leaves.len() as int;
            &&& app.pane_after(1) == (if k + 1 < n {
                leaves[k + 1]
            } else {
                leaves[0]
            })
            &&& app.pane_after(-1) == (if k > 0 {
                leaves[k - 1]
            } else {
                leaves[n - 1]
            })
            &&& app.pane_after(0) == leaves[k]
        }),
{
    let leaves = app.active_tab().layout.leaf_seq();
    let n = leaves.len() as int;
    assert(leaves.contains(leaves[k]));
    let at = leaves.index_of(leaves[k]);
    assert(leaves[at] == leaves[k]);
    assert(at == k);
    vstd::arithmetic::div_mod::lemma_small_mod(k as nat, n as nat);
    if k + 1 < n {
        vstd::arithmetic::div_mod::lemma_small_mod((k + 1) as nat, n as nat);
    } else {
        vstd::arithmetic::div_mod::lemma_mod_self_0(n);
    }
    if k > 0 {
        vstd::arithmetic::div_mod::lemma_small_mod((k - 1) as nat, n as nat);
    } else {
        vstd::arithmetic::div_mod::lemma_fundamental_div_mod_converse(-1, n, -1, n - 1);
    }
}

/// A workspace is named what was typed, without the white space around it, and
/// nothing else of it changes. A name that is empty or too long is refused.
pub proof fn law_workspaces_are_named_as_typed(before: App, after: App, index: usize, name: Seq<char>)
    requires
        index < before.workspaces@.len(),
    ensures
        before.ws_rename_error(index, name) is None <==> 0 < text::trim_text(name).len()
            <= WS_NAME_MAX,
        before.ws_renamed(&after, index, name) ==> {
            &&& after.workspaces@.len() == before.workspaces@.len()
            &&& after.workspaces@[index as int].name@ == text::trim_text(name)
            &&& after.workspaces@[index as int].cwd == before.workspaces@[index as int].cwd
            &&& after.workspaces@[index as int].tabs == before.workspaces@[index as int].tabs
            &&& forall|k: int|
                0 <= k < before.workspaces@.len() && k != index ==> #[trigger] after.workspaces@[k]
                    == before.workspaces@[k]
        },
{
}

/// Going to a pane shows it: its workspace and its tab are the active ones, and it
/// has the focus. No pane changes its place.
pub proof fn law_going_to_a_pane_shows_it(before: App, after: App, id: PaneId)
    requires
        workspace::located(before.workspaces@, id, before.place_of(id)),
        before.workspaces@.len() <= usize::MAX,
        before.workspaces@[before.place_of(id).0].tabs@.len() <= usize::MAX,
        before.pane_focused(&after, id),
    ensures
        after.active_ws == before.place_of(id).0,
        after.active_tab().layout.focus == id,
        after.active_tab().layout.leaf_seq().contains(id),
        after.active_tab().layout.root == before.workspaces@[before.place_of(
            id,
        ).0].tabs@[before.place_of(id).1].layout.root,
{
}

/// A workspace that was opened comes last and is the one that is shown, with its new
/// pane alone in its one tab. It goes by the name of its directory.
pub proof fn law_opened_workspaces_are_shown(
    before: App,
    after: App,
    dir: Seq<char>,
    name: Seq<char>,
    opening: Opening,
    now: u64,
)
    requires
        before.workspace_opened(&after, paths::joined(dir, name), opening, now),
        before.workspaces@.len() < usize::MAX,
        dir.len() > 0,
        paths::is_name(name),
        opening.spawned is Some,
    ensures
        after.active_ws == before.workspaces@.len(),
        after.workspaces@.take(before.workspaces@.len() as int) == before.workspaces@,
        ({
            let w = after.workspaces@[after.active_ws as int];
            &&& w.name@ == name
            &&& w.cwd@ == paths::joined(dir, name)
            &&& !w.pinned
            &&& w.tabs@.len() == 1 && w.active_tab == 0
            &&& w.tabs@[0].layout.leaf_seq() == seq![opening.pane]
            &&& w.tabs@[0].layout.focus == opening.pane
            &&& w.tabs@[0].is_panes()
        }),
        after.panes@.dom().contains(opening.pane),
{
    paths::law_names_are_found_in_their_directory(dir, name);
    let w = after.workspaces@.last();
    assert(after.workspaces@.take(before.workspaces@.len() as int) =~= before.workspaces@);
    assert(w.tabs@[0] == single_tab(opening.tab_id, opening.pane));
    assert(w.tabs@[0].layout.leaf_seq() =~= seq![opening.pane]);
}

} // verus!
