//! Opening panes: shells, splits and forks of agents.
use vstd::prelude::*;
use vstd::string::*;

use super::tabs;
use super::{App, Effect, SessionEvent};
use crate::ids::{PaneId, PaneMap};
use crate::layout::Axis;
use crate::menus::{AgentForkError, AgentForkResult};
use crate::paths;
use crate::paths::has_path;
use crate::status::{AgentSession, Pane, PaneStatus};
use crate::text;
use crate::workspace;
use crate::workspace::Tab;

verus! {

// ---------------------------------------------------------------------------
// Where a pane starts
// ---------------------------------------------------------------------------

/// The candidates that exist, each place once, in order.
pub open spec fn existing(candidates: Seq<(String, bool)>) -> Seq<Seq<char>>
    decreases candidates.len(),
{
    if candidates.len() == 0 {
        seq![]
    } else {
        let before = existing(candidates.drop_last());
        let (dir, exists_) = candidates.last();
        if exists_ && !paths::has_place(before, dir@) {
            before.push(dir@)
        } else {
            before
        }
    }
}

/// The candidates that exist, each place once, in order. With each candidate comes
/// whether it is a directory.
pub fn existing_dirs(candidates: &Vec<(String, bool)>) -> (dirs: Vec<String>)
    ensures
        text::texts(dirs@) == existing(candidates@),
{
    let mut dirs: Vec<String> = Vec::new();
    let mut i: usize = 0;
    assert(candidates@.take(0) =~= Seq::<(String, bool)>::empty());
    assert(text::texts(dirs@) =~= seq![]);
    while i < candidates.len()
        invariant
            i <= candidates@.len(),
            text::texts(dirs@) == existing(candidates@.take(i as int)),
        decreases candidates@.len() - i,
    {
        assert(candidates@.take(i + 1).drop_last() =~= candidates@.take(i as int));
        let ghost before = text::texts(dirs@);
        if candidates[i].1 && !has_path(&dirs, candidates[i].0.as_str()) {
            dirs.push(candidates[i].0.clone());
            assert(text::texts(dirs@) =~= before.push(candidates@[i as int].0@));
        }
        i = i + 1;
    }
    assert(candidates@.take(i as int) =~= candidates@);
    dirs
}

/// The places that exist of three, in this order, each once.
pub open spec fn in_turn(
    first: (Seq<char>, bool),
    second: (Seq<char>, bool),
    third: (Seq<char>, bool),
) -> Seq<Seq<char>> {
    let a = if first.1 {
        seq![first.0]
    } else {
        seq![]
    };
    let b = if second.1 && !paths::has_place(a, second.0) {
        a.push(second.0)
    } else {
        a
    };
    if third.1 && !paths::has_place(b, third.0) {
        b.push(third.0)
    } else {
        b
    }
}

/// The directories that a saved pane tries in turn: its own, that of its
/// workspace, and home, as far as they exist. The flags say which are directories.
pub fn saved_cwds(own: (String, bool), workspace: (String, bool), home: (String, bool)) -> (dirs: Vec<
    String,
>)
    ensures
        text::texts(dirs@) == in_turn(
            (own.0@, own.1),
            (workspace.0@, workspace.1),
            (home.0@, home.1),
        ),
{
    let candidates: Vec<(String, bool)> = vec![own, workspace, home];
    let dirs = existing_dirs(&candidates);
    proof {
        let c = candidates@;
        reveal_with_fuel(existing, 4);
        assert(c.drop_last() =~= c.take(2));
        assert(c.drop_last().drop_last() =~= c.take(1));
        assert(c.drop_last().drop_last().drop_last() =~= c.take(0));
        assert(existing(c.take(1)) =~= (if own.1 {
            seq![own.0@]
        } else {
            seq![]
        }));
    }
    dirs
}

/// Which directories a new pane tries.
pub open spec fn start_dirs(
    focused: (Seq<char>, bool),
    root: (Seq<char>, bool),
    home: (Seq<char>, bool),
    to_root: bool,
) -> Seq<Seq<char>> {
    let first = if !to_root && focused.1 {
        seq![focused.0]
    } else {
        seq![]
    };
    let second = if root.1 && !paths::has_place(first, root.0) {
        first.push(root.0)
    } else {
        first
    };
    let third = if home.1 && !paths::has_place(second, home.0) {
        second.push(home.0)
    } else {
        second
    };
    if third.len() == 0 {
        seq![home.0]
    } else {
        third
    }
}

/// A directory that is gone is never tried, unless it is home and nothing else
/// is left; and no directory is tried twice.
pub proof fn law_missing_directories_are_not_tried(
    focused: (Seq<char>, bool),
    root: (Seq<char>, bool),
    home: (Seq<char>, bool),
    to_root: bool,
    k: int,
)
    requires
        0 <= k < start_dirs(focused, root, home, to_root).len(),
    ensures
        ({
            let dirs = start_dirs(focused, root, home, to_root);
            ||| dirs[k] == focused.0 && focused.1 && !to_root
            ||| dirs[k] == root.0 && root.1
            ||| dirs[k] == home.0 && home.1
            ||| dirs == seq![home.0]
        }),
        forall|i: int, j: int|
            0 <= i < j < start_dirs(focused, root, home, to_root).len() ==> paths::components(
                #[trigger] start_dirs(focused, root, home, to_root)[i],
            ) != paths::components(#[trigger] start_dirs(focused, root, home, to_root)[j]),
{
    let first = if !to_root && focused.1 {
        seq![focused.0]
    } else {
        seq![]
    };
    let second = if root.1 && !paths::has_place(first, root.0) {
        first.push(root.0)
    } else {
        first
    };
    assert forall|i: int, j: int| 0 <= i < j < second.len() implies paths::components(
        #[trigger] second[i],
    ) != paths::components(#[trigger] second[j]) by {
        assert(first[0] == second[0]);
    }
    let dirs = start_dirs(focused, root, home, to_root);
    assert forall|i: int, j: int| 0 <= i < j < dirs.len() implies paths::components(
        #[trigger] dirs[i],
    ) != paths::components(#[trigger] dirs[j]) by {
        assert(dirs[i] == second[i]);
        if j < second.len() {
            assert(dirs[j] == second[j]);
        }
    }
}

impl App {
    /// The directories that a new pane tries in turn: where the user works, the
    /// root of the workspace, and home, as far as they exist; by the settings
    /// the first is left out. Home is tried where none of them exists. The flags
    /// say which are directories.
    pub fn spawn_cwds(&self, focused_is_dir: bool, root_is_dir: bool, home: (String, bool)) -> (dirs:
        Vec<String>)
        requires
            self.wf(),
            self.workspaces@.len() > 0,
        ensures
            text::texts(dirs@) == start_dirs(
                (self.focused_dir(), focused_is_dir),
                (self.active().cwd@, root_is_dir),
                (home.0@, home.1),
                self.config.layout.new_pane_to_workspace_root,
            ),
            dirs@.len() > 0,
    {
        let mut candidates: Vec<(String, bool)> = Vec::new();
        if !self.config.layout.new_pane_to_workspace_root {
            candidates.push((self.focused_cwd(), focused_is_dir));
        }
        candidates.push((self.ws().cwd.clone(), root_is_dir));
        candidates.push((home.0.clone(), home.1));
        let mut dirs = existing_dirs(&candidates);
        proof {
            let c = candidates@;
            reveal_with_fuel(existing, 4);
            if self.config.layout.new_pane_to_workspace_root {
                assert(c.drop_last() =~= c.take(1));
                assert(c.drop_last().drop_last() =~= c.take(0));
            } else {
                assert(c.drop_last() =~= c.take(2));
                assert(c.drop_last().drop_last() =~= c.take(1));
                assert(c.drop_last().drop_last().drop_last() =~= c.take(0));
                assert(existing(c.take(1)) =~= (if focused_is_dir {
                    seq![self.focused_dir()]
                } else {
                    seq![]
                }));
            }
        }
        if dirs.len() == 0 {
            dirs.push(home.0);
            assert(text::texts(dirs@) =~= seq![home.0@]);
        }
        dirs
    }
}

// ---------------------------------------------------------------------------
// Panes that were started
// ---------------------------------------------------------------------------

/// What is typed into a pane that did not start on its command itself.
pub open spec fn typed(pane: PaneId, direct: bool, command: String) -> Seq<Effect> {
    if direct {
        seq![]
    } else {
        seq![Effect::Send { pane, text: command }]
    }
}

/// The announcement of a pane.
pub open spec fn announced(pane: PaneId) -> Seq<Effect> {
    seq![Effect::Event(SessionEvent::PaneCreated { pane })]
}

impl App {
    /// What is kept for a pane that was started.
    pub open spec fn pane_kept(&self, after: &App, id: PaneId, pane: Pane, now: u64) -> bool {
        &&& after.panes@ == self.panes@.insert(id, pane)
        &&& after.status@ == self.status@.insert(id, after.status@[id])
        &&& after.status@[id].is_new(pane.command@, now)
    }

    /// Keeps what belongs to a pane that was started, and says so.
    pub fn keep_pane(&mut self, id: PaneId, pane: Pane, now: u64)
        requires
            old(self).maps_wf(),
        ensures
            final(self).maps_wf(),
            old(self).pane_kept(final(self), id, pane, now),
            final(self).outbox@ == old(self).outbox@ + announced(id),
            *final(self) == (App {
                panes: final(self).panes,
                status: final(self).status,
                zoomed: false,
                session_dirty: true,
                outbox: final(self).outbox,
                ..*old(self)
            }),
    {
        let ghost before = self.outbox@;
        let status = PaneStatus::new(pane.command.clone(), now);
        self.panes.insert(id, pane);
        self.status.insert(id, status);
        self.zoomed = false;
        self.session_dirty = true;
        self.outbox.push(Effect::Event(SessionEvent::PaneCreated { pane: id }));
        assert(self.outbox@ =~= before + announced(id));
    }

    /// Takes in a shell that was to be started at once. Where that failed nothing
    /// changes.
    pub fn spawn_into(&mut self, id: PaneId, spawned: Option<Pane>, now: u64) -> (r: Option<PaneId>)
        requires
            old(self).maps_wf(),
        ensures
            final(self).maps_wf(),
            match spawned {
                Some(pane) => {
                    &&& r == Some(id)
                    &&& old(self).pane_kept(final(self), id, pane, now)
                    &&& final(self).outbox@ == old(self).outbox@ + announced(id)
                    &&& *final(self) == (App {
                        panes: final(self).panes,
                        status: final(self).status,
                        zoomed: false,
                        session_dirty: true,
                        outbox: final(self).outbox,
                        ..*old(self)
                    })
                },
                None => r is None && *final(self) == *old(self),
            },
    {
        match spawned {
            Some(pane) => {
                self.keep_pane(id, pane, now);
                Some(id)
            },
            None => None,
        }
    }

    /// Takes in a shell that is started in the background.
    pub fn spawn_into_deferred(&mut self, id: PaneId, pane: Pane, now: u64) -> (r: Option<PaneId>)
        requires
            old(self).maps_wf(),
        ensures
            final(self).maps_wf(),
            r == Some(id),
            old(self).pane_kept(final(self), id, pane, now),
            final(self).outbox@ == old(self).outbox@ + announced(id),
            *final(self) == (App {
                panes: final(self).panes,
                status: final(self).status,
                zoomed: false,
                session_dirty: true,
                outbox: final(self).outbox,
                ..*old(self)
            }),
    {
        self.keep_pane(id, pane, now);
        Some(id)
    }

    /// Takes in a shell that is to run a command of an agent. A shell that could
    /// not start on the command itself gets it typed.
    pub fn spawn_resume_pane(
        &mut self,
        id: PaneId,
        spawned: Option<Pane>,
        direct: bool,
        command: String,
        now: u64,
    ) -> (r: Option<PaneId>)
        requires
            old(self).maps_wf(),
        ensures
            final(self).maps_wf(),
            match spawned {
                Some(pane) => {
                    &&& r == Some(id)
                    &&& old(self).pane_kept(final(self), id, pane, now)
                    &&& final(self).outbox@ == old(self).outbox@ + typed(id, direct, command)
                        + announced(id)
                    &&& *final(self) == (App {
                        panes: final(self).panes,
                        status: final(self).status,
                        zoomed: false,
                        session_dirty: true,
                        outbox: final(self).outbox,
                        ..*old(self)
                    })
                },
                None => r is None && *final(self) == *old(self),
            },
    {
        match spawned {
            Some(pane) => {
                let ghost before = self.outbox@;
                if !direct {
                    self.outbox.push(Effect::Send { pane: id, text: command });
                }
                assert(self.outbox@ =~= before + typed(id, direct, command));
                self.keep_pane(id, pane, now);
                Some(id)
            },
            None => None,
        }
    }

    /// Splits the focused pane: the new one is beside it, or below it, and has the
    /// focus. Where the active tab does not show the focused pane, nothing is split.
    pub fn split(&mut self, axis: Axis, id: PaneId, pane: Pane, now: u64)
        requires
            old(self).wf(),
            old(self).workspaces@.len() > 0,
            !workspace::session_has(old(self).workspaces@, id),
        ensures
            final(self).wf(),
            old(self).pane_kept(final(self), id, pane, now),
            tabs::only_tabs_changed(
                old(self).workspaces@,
                final(self).workspaces@,
                old(self).active_ws as int,
            ),
            final(self).active().active_tab == old(self).active().active_tab,
            final(self).active().tabs@ == old(self).active().tabs@.update(
                old(self).active().active_tab as int,
                Tab {
                    layout: workspace::layout_split(
                        old(self).active_tab().layout,
                        old(self).active_tab().layout.focus,
                        axis,
                        id,
                        true,
                    ),
                    ..old(self).active_tab()
                },
            ),
            final(self).outbox@ == old(self).outbox@ + announced(id),
            *final(self) == (App {
                panes: final(self).panes,
                status: final(self).status,
                workspaces: final(self).workspaces,
                zoomed: false,
                session_dirty: true,
                outbox: final(self).outbox,
                ..*old(self)
            }),
    {
        let _ = self.spawn_into_deferred(id, pane, now);
        let w: usize = self.active_ws;
        let ghost before = self.workspaces@;
        assert(before[w as int].wf());
        let t: usize = self.workspaces[w].active_tab;
        let focus: PaneId = self.workspaces[w].tabs[t].layout.focus;
        proof {
            assert(before[w as int].tabs@[t as int].layout.wf());
            if workspace::tabs_have(before[w as int].tabs@, id) {
                assert(workspace::session_has(before, id));
            }
        }
        self.workspaces[w].split_tab(t, focus, axis, id, true);
        assert(workspace::tree_wf(self.workspaces@)) by {
            workspace::lemma_tree_update(before, w as int, self.workspaces@[w as int]);
            assert(self.workspaces@ =~= before.update(w as int, self.workspaces@[w as int]));
        }
    }
}

// ---------------------------------------------------------------------------
// Forks
// ---------------------------------------------------------------------------

/// What is known outside of the session about forking the agent of a pane.
#[derive(Debug)]
pub struct ForkFacts {
    /// The agent can fork sessions.
    pub can_fork: bool,
    /// The session that would be forked.
    pub session: Option<String>,
    /// The command that forks it.
    pub command: Option<String>,
}

/// A fork that can be made.
#[derive(Debug)]
pub struct ForkPlan {
    pub workspace: usize,
    pub tab: usize,
    pub agent: String,
    pub cwd: String,
    pub session: String,
    pub command: String,
}

/// The message after a fork.
pub open spec fn fork_message(agent: Seq<char>) -> Seq<char> {
    "forked "@ + agent + " session"@
}

impl App {
    /// Why the agent of a pane cannot be forked.
    pub open spec fn fork_error(&self, pane: PaneId, facts: ForkFacts) -> Option<AgentForkError> {
        let (wi, ti) = self.place_of(pane);
        if !self.panes@.dom().contains(pane) {
            Some(AgentForkError::PaneNotFound)
        } else if !workspace::session_has(self.workspaces@, pane)
            || !self.workspaces@[wi].tabs@[ti].is_panes() {
            Some(AgentForkError::SourceNotPaneTab)
        } else if !self.status@.dom().contains(pane) || !facts.can_fork {
            Some(AgentForkError::UnsupportedAgent)
        } else if facts.session is None {
            Some(AgentForkError::SessionUnknown)
        } else if facts.command is None {
            Some(AgentForkError::UnsupportedAgent)
        } else {
            None
        }
    }

    /// Which fork is to be made of the agent of a pane.
    pub fn plan_fork(&self, pane: PaneId, facts: &ForkFacts) -> (r: Result<ForkPlan, AgentForkError>)
        requires
            self.wf(),
        ensures
            match self.fork_error(pane, *facts) {
                Some(e) => r == Err::<ForkPlan, AgentForkError>(e),
                None => r is Ok && r->Ok_0 == (ForkPlan {
                    workspace: self.place_of(pane).0 as usize,
                    tab: self.place_of(pane).1 as usize,
                    agent: self.status@[pane].agent,
                    cwd: self.panes@[pane].cwd,
                    session: facts.session->0,
                    command: facts.command->0,
                }) && workspace::located(
                    self.workspaces@,
                    pane,
                    (r->Ok_0.workspace as int, r->Ok_0.tab as int),
                ) && self.place_of(pane) == (r->Ok_0.workspace as int, r->Ok_0.tab as int),
            },
    {
        let cwd: String = match self.panes.get(pane) {
            Some(p) => p.cwd.clone(),
            None => {
                return Err(AgentForkError::PaneNotFound);
            },
        };
        let (wi, ti) = match self.find_pane(pane) {
            Some(at) => at,
            None => {
                return Err(AgentForkError::SourceNotPaneTab);
            },
        };
        if !self.workspaces[wi].tabs[ti].is_renameable() {
            return Err(AgentForkError::SourceNotPaneTab);
        }
        let agent: String = match self.status.get(pane) {
            Some(st) => st.agent.clone(),
            None => {
                return Err(AgentForkError::UnsupportedAgent);
            },
        };
        if !facts.can_fork {
            return Err(AgentForkError::UnsupportedAgent);
        }
        let session: String = match &facts.session {
            Some(s) => s.clone(),
            None => {
                return Err(AgentForkError::SessionUnknown);
            },
        };
        let command: String = match &facts.command {
            Some(c) => c.clone(),
            None => {
                return Err(AgentForkError::UnsupportedAgent);
            },
        };
        Ok(ForkPlan { workspace: wi, tab: ti, agent, cwd, session, command })
    }

    /// Whether the menu of the pane offers to fork its agent. Agents whose
    /// sessions cannot be told apart by their directory need an exact session.
    pub fn can_fork_pane(&self, pane: PaneId, can_fork: bool, session_known: bool) -> (b: bool)
        requires
            self.wf(),
        ensures
            b == (self.status@.dom().contains(pane) && can_fork && self.panes@.dom().contains(pane)
                && session_known),
    {
        self.status.contains_key(pane) && can_fork && self.panes.contains_key(pane)
            && session_known
    }

    /// What is known of the pane whose session was forked: a session that was not
    /// bound before is now.
    pub open spec fn fork_bound(before: PaneStatus, after: PaneStatus, session: String) -> bool {
        &&& after == (PaneStatus { agent_session: after.agent_session, ..before })
        &&& after.agent_session == (match before.agent_session {
            Some(s) => Some(s),
            None => Some(AgentSession { agent: before.agent, session_id: session }),
        })
    }

    /// What a fork leaves behind.
    pub open spec fn forked(
        &self,
        after: &App,
        pane: PaneId,
        focus: bool,
        facts: ForkFacts,
        id: PaneId,
        spawned: Pane,
        direct: bool,
        now: u64,
    ) -> bool {
        let (wi, ti) = self.place_of(pane);
        let agent = self.status@[pane].agent;
        let tab = self.workspaces@[wi].tabs@[ti];
        &&& after.panes@ == self.panes@.insert(id, spawned)
        &&& after.status@ == self.status@.insert(id, after.status@[id]).insert(
            pane,
            after.status@[pane],
        )
        &&& after.status@[id].is_new(agent@, now)
        &&& Self::fork_bound(self.status@[pane], after.status@[pane], facts.session->0)
        &&& tabs::only_tabs_changed(self.workspaces@, after.workspaces@, wi)
        &&& after.workspaces@[wi].tabs@ == self.workspaces@[wi].tabs@.update(
            ti,
            Tab {
                layout: workspace::layout_split(tab.layout, pane, Axis::Col, id, focus),
                ..tab
            },
        )
        &&& after.workspaces@[wi].active_tab == (if focus {
            ti as usize
        } else {
            self.workspaces@[wi].active_tab
        })
        &&& after.active_ws == (if focus {
            wi as usize
        } else {
            self.active_ws
        })
        &&& after.scroll_pane == (if focus {
            None
        } else {
            self.scroll_pane
        })
        &&& after.zoomed == (if focus {
            false
        } else {
            self.zoomed
        })
        &&& after.toast is Some
        &&& after.toast->0@ == fork_message(agent@)
        &&& after.outbox@ == self.outbox@ + typed(id, direct, facts.command->0) + announced(id)
            + seq![
            Effect::Event(
                SessionEvent::PaneForked {
                    pane,
                    fork: id,
                    agent,
                    workspace: wi as usize,
                    tab: (ti + 1) as usize,
                },
            ),
        ]
        &&& *after == (App {
            panes: after.panes,
            status: after.status,
            workspaces: after.workspaces,
            active_ws: after.active_ws,
            scroll_pane: after.scroll_pane,
            zoomed: after.zoomed,
            session_dirty: true,
            toast: after.toast,
            outbox: after.outbox,
            ..*self
        })
    }

    /// Puts a fork beside the pane that it was forked from.
    fn place_fork(
        &mut self,
        w: usize,
        t: usize,
        pane: PaneId,
        id: PaneId,
        focus: bool,
        zoomed: bool,
    )
        requires
            old(self).wf(),
            workspace::located(old(self).workspaces@, pane, (w as int, t as int)),
            !workspace::session_has(old(self).workspaces@, id),
        ensures
            final(self).wf(),
            t < usize::MAX,
            tabs::only_tabs_changed(old(self).workspaces@, final(self).workspaces@, w as int),
            final(self).workspaces@[w as int].tabs@ == old(self).workspaces@[w as int].tabs@.update(
                t as int,
                Tab {
                    layout: workspace::layout_split(
                        old(self).workspaces@[w as int].tabs@[t as int].layout,
                        pane,
                        Axis::Col,
                        id,
                        focus,
                    ),
                    ..old(self).workspaces@[w as int].tabs@[t as int]
                },
            ),
            final(self).workspaces@[w as int].active_tab == (if focus {
                t
            } else {
                old(self).workspaces@[w as int].active_tab
            }),
            *final(self) == (App {
                workspaces: final(self).workspaces,
                active_ws: if focus {
                    w
                } else {
                    old(self).active_ws
                },
                scroll_pane: if focus {
                    None
                } else {
                    old(self).scroll_pane
                },
                zoomed: if focus {
                    false
                } else {
                    zoomed
                },
                ..*old(self)
            }),
    {
        let ghost before = self.workspaces@;
        proof {
            assert(before[w as int].wf());
            if workspace::tabs_have(before[w as int].tabs@, id) {
                assert(workspace::session_has(before, id));
            }
        }
        self.workspaces[w].split_tab(t, pane, Axis::Col, id, focus);
        let count: usize = self.workspaces[w].tabs.len();
        assert(t < count);
        if focus {
            self.active_ws = w;
            self.workspaces[w].active_tab = t;
            self.scroll_pane = None;
            self.zoomed = false;
        } else {
            self.zoomed = zoomed;
        }
        proof {
            let after = self.workspaces@[w as int];
            assert(self.workspaces@ =~= before.update(w as int, after));
            workspace::lemma_tree_update(before, w as int, after);
        }
    }

    /// Forks the agent of a pane into a new pane on its right, whose shell was
    /// started for it. Without `focus` what the user sees and where they type
    /// stays as it is. Where the fork is refused nothing changes.
    pub fn fork_agent_pane(
        &mut self,
        pane: PaneId,
        focus: bool,
        facts: &ForkFacts,
        id: PaneId,
        spawned: Option<Pane>,
        direct: bool,
        now: u64,
    ) -> (r: Result<AgentForkResult, AgentForkError>)
        requires
            old(self).wf(),
            !workspace::session_has(old(self).workspaces@, id),
        ensures
            final(self).wf(),
            match old(self).fork_error(pane, *facts) {
                Some(e) => r == Err::<AgentForkResult, AgentForkError>(e) && *final(self) == *old(
                    self,
                ),
                None => match spawned {
                    None => r == Err::<AgentForkResult, AgentForkError>(AgentForkError::SpawnFailed)
                        && *final(self) == *old(self),
                    Some(new) => r is Ok && r->Ok_0 == (AgentForkResult {
                        from: pane,
                        pane: id,
                        agent: old(self).status@[pane].agent,
                        workspace: old(self).place_of(pane).0 as usize,
                        tab: old(self).place_of(pane).1 as usize,
                    }) && old(self).forked(final(self), pane, focus, *facts, id, new, direct, now),
                },
            },
    {
        let plan = match self.plan_fork(pane, facts) {
            Ok(plan) => plan,
            Err(e) => {
                return Err(e);
            },
        };
        let ghost start = *self;
        let zoomed: bool = self.zoomed;
        let command = plan.command.clone();
        match self.spawn_resume_pane(id, spawned, direct, command, now) {
            Some(_) => {},
            None => {
                return Err(AgentForkError::SpawnFailed);
            },
        }
        let w: usize = plan.workspace;
        let t: usize = plan.tab;
        assert(id != pane) by {
            assert(workspace::tabs_have(start.workspaces@[w as int].tabs@, pane));
            assert(workspace::session_has(start.workspaces@, pane));
        }
        self.place_fork(w, t, pane, id, focus, zoomed);
        bind_fork(&mut self.status, pane, id, &plan.agent, &plan.session);
        self.session_dirty = true;
        let plan_tab: usize = t + 1;
        let mut message: String = "forked ".to_owned();
        message.append(plan.agent.as_str());
        message.append(" session");
        self.show_toast(message);
        self.outbox.push(
            Effect::Event(
                SessionEvent::PaneForked {
                    pane,
                    fork: id,
                    agent: plan.agent.clone(),
                    workspace: w,
                    tab: plan_tab,
                },
            ),
        );
        proof {
            assert(self.outbox@ =~= start.outbox@ + typed(id, direct, facts.command->0)
                + announced(id) + seq![
                Effect::Event(
                    SessionEvent::PaneForked {
                        pane,
                        fork: id,
                        agent: plan.agent,
                        workspace: w,
                        tab: (t + 1) as usize,
                    },
                ),
            ]);
            assert(self.status@ =~= start.status@.insert(id, self.status@[id]).insert(
                pane,
                self.status@[pane],
            ));
            assert(start.forked(self, pane, focus, *facts, id, spawned->0, direct, now));
        }
        Ok(AgentForkResult { from: pane, pane: id, agent: plan.agent, workspace: w, tab: t })
    }

    /// Forks the agent of a pane and goes to the new pane. Says whether it did.
    pub fn fork_pane(
        &mut self,
        pane: PaneId,
        facts: &ForkFacts,
        id: PaneId,
        spawned: Option<Pane>,
        direct: bool,
        now: u64,
    ) -> (b: bool)
        requires
            old(self).wf(),
            !workspace::session_has(old(self).workspaces@, id),
        ensures
            final(self).wf(),
            b == (old(self).fork_error(pane, *facts) is None && spawned is Some),
            b ==> old(self).forked(final(self), pane, true, *facts, id, spawned->0, direct, now),
            !b ==> *final(self) == *old(self),
    {
        self.fork_agent_pane(pane, true, facts, id, spawned, direct, now).is_ok()
    }
}

/// Calls the fork by its agent, and binds the session to the pane that it was
/// forked from unless that has one.
fn bind_fork(
    status: &mut PaneMap<PaneStatus>,
    pane: PaneId,
    id: PaneId,
    agent: &String,
    session: &String,
)
    requires
        old(status).wf(),
        id != pane,
        old(status)@.dom().contains(pane),
        old(status)@.dom().contains(id),
        old(status)@[pane].agent == *agent,
    ensures
        final(status).wf(),
        final(status)@ == old(status)@.insert(id, final(status)@[id]).insert(
            pane,
            final(status)@[pane],
        ),
        final(status)@[id] == (PaneStatus { agent: *agent, ..old(status)@[id] }),
        App::fork_bound(old(status)@[pane], final(status)@[pane], *session),
{
    match status.get_mut(id) {
        Some(st) => {
            st.agent = agent.clone();
        },
        None => {},
    }
    match status.get_mut(pane) {
        Some(st) => {
            if st.agent_session.is_none() {
                st.agent_session = Some(
                    AgentSession { agent: agent.clone(), session_id: session.clone() },
                );
            }
        },
        None => {},
    }
}

// ---------------------------------------------------------------------------
// Output that was not announced yet
// ---------------------------------------------------------------------------

/// Whether the pane has output that was not announced yet.
pub open spec fn pending(panes: Map<PaneId, Pane>, id: PaneId) -> bool {
    panes.dom().contains(id) && panes[id].data_pending
}

/// Whether the panes are the same, with nothing left to announce.
pub open spec fn quiet(before: Map<PaneId, Pane>, after: Map<PaneId, Pane>) -> bool {
    &&& after.dom() == before.dom()
    &&& forall|id: PaneId| #[trigger]
        after.dom().contains(id) ==> after[id] == (Pane { data_pending: false, ..before[id] })
}

/// Announces the output of all panes: says which had some.
fn take_pending(panes: &mut PaneMap<Pane>) -> (ids: Vec<PaneId>)
    requires
        old(panes).wf(),
    ensures
        final(panes).wf(),
        quiet(old(panes)@, final(panes)@),
        forall|id: PaneId| #[trigger] ids@.contains(id) == pending(old(panes)@, id),
{
    let ghost start = *panes;
    let ghost before = panes.entries@;
    let mut ids: Vec<PaneId> = Vec::new();
    let mut i: usize = 0;
    while i < panes.entries.len()
        invariant
            start.wf(),
            before == start.entries@,
            i <= panes.entries@.len(),
            panes.entries@.len() == before.len(),
            forall|k: int|
                0 <= k < before.len() ==> (#[trigger] panes.entries@[k]).0 == before[k].0,
            forall|k: int|
                0 <= k < i ==> (#[trigger] panes.entries@[k]).1 == (Pane {
                    data_pending: false,
                    ..before[k].1
                }),
            forall|k: int| i <= k < before.len() ==> #[trigger] panes.entries@[k] == before[k],
            forall|id: PaneId| #[trigger]
                ids@.contains(id) == exists|k: int|
                    0 <= k < i && (#[trigger] before[k]).0 == id && before[k].1.data_pending,
        decreases before.len() - i,
    {
        let ghost had = ids@;
        if panes.entries[i].1.data_pending {
            ids.push(panes.entries[i].0);
            panes.entries[i].1.data_pending = false;
        }
        assert forall|id: PaneId| #[trigger] ids@.contains(id) == exists|k: int|
            0 <= k < i + 1 && (#[trigger] before[k]).0 == id && before[k].1.data_pending by {
            text::lemma_push_has(had, before[i as int].0, id);
            assert(had.contains(id) == exists|k: int|
                0 <= k < i && (#[trigger] before[k]).0 == id && before[k].1.data_pending);
            if before[i as int].0 == id && before[i as int].1.data_pending {
                assert(ids@.contains(id));
            }
        }
        i = i + 1;
    }
    proof {
        assert(panes.wf());
        start.lemma_entries();
        panes.lemma_entries();
        assert forall|id: PaneId| panes@.dom().contains(id) == start@.dom().contains(id) by {
            if panes@.dom().contains(id) {
                let k = choose|k: int|
                    0 <= k < panes.entries@.len() && (#[trigger] panes.entries@[k]).0 == id;
                assert(start.entries@[k].0 == id);
            }
            if start@.dom().contains(id) {
                let k = choose|k: int|
                    0 <= k < start.entries@.len() && (#[trigger] start.entries@[k]).0 == id;
                assert(panes.entries@[k].0 == id);
            }
        }
        assert(panes@.dom() =~= start@.dom());
        assert forall|id: PaneId| #[trigger] panes@.dom().contains(id) implies panes@[id] == (Pane {
            data_pending: false,
            ..start@[id]
        }) by {
            let k = choose|k: int|
                0 <= k < panes.entries@.len() && (#[trigger] panes.entries@[k]).0 == id;
            assert(start.entries@[k].0 == id);
        }
        assert forall|id: PaneId| #[trigger] ids@.contains(id) == pending(start@, id) by {
            if pending(start@, id) {
                let k = choose|k: int|
                    0 <= k < start.entries@.len() && (#[trigger] start.entries@[k]).0 == id;
                assert(before[k].0 == id && before[k].1.data_pending);
            }
        }
    }
    ids
}

impl App {
    /// Announces the output of all panes. Says whether there was any.
    pub fn rearm_pty_notify(&mut self) -> (any: bool)
        requires
            old(self).wf(),
        ensures
            final(self).wf(),
            any == exists|id: PaneId| #[trigger] pending(old(self).panes@, id),
            quiet(old(self).panes@, final(self).panes@),
            *final(self) == (App { panes: final(self).panes, ..*old(self) }),
    {
        let ids = take_pending(&mut self.panes);
        let any: bool = ids.len() > 0;
        proof {
            if any {
                assert(ids@.contains(ids@[0]));
                assert(pending(old(self).panes@, ids@[0]));
            } else {
                assert forall|id: PaneId| !(#[trigger] pending(old(self).panes@, id)) by {
                    assert(!ids@.contains(id));
                }
            }
        }
        any
    }

    /// Announces the output of all panes. Says whether there was any in the
    /// active tab, and whether there was any elsewhere.
    pub fn rearm_pty_notify_by_visibility(&mut self) -> (r: (bool, bool))
        requires
            old(self).wf(),
        ensures
            final(self).wf(),
            r.0 == exists|id: PaneId| #[trigger]
                pending(old(self).panes@, id) && old(self).shows_pane(id),
            r.1 == exists|id: PaneId| #[trigger]
                pending(old(self).panes@, id) && !old(self).shows_pane(id),
            quiet(old(self).panes@, final(self).panes@),
            *final(self) == (App { panes: final(self).panes, ..*old(self) }),
    {
        let ghost start = *self;
        let ids = take_pending(&mut self.panes);
        let mut visible: bool = false;
        let mut background: bool = false;
        let mut i: usize = 0;
        while i < ids.len()
            invariant
                self.wf(),
                *self == (App { panes: self.panes, ..start }),
                i <= ids@.len(),
                visible == exists|k: int| 0 <= k < i && start.shows_pane(#[trigger] ids@[k]),
                background == exists|k: int| 0 <= k < i && !start.shows_pane(#[trigger] ids@[k]),
            decreases ids@.len() - i,
        {
            let shown: bool = self.pane_is_visible(ids[i]);
            assert(shown == start.shows_pane(ids@[i as int]));
            if shown {
                visible = true;
            } else {
                background = true;
            }
            i = i + 1;
        }
        proof {
            if visible {
                let k = choose|k: int| 0 <= k < i && start.shows_pane(#[trigger] ids@[k]);
                assert(ids@.contains(ids@[k]));
                assert(pending(start.panes@, ids@[k]));
            }
            if background {
                let k = choose|k: int| 0 <= k < i && !start.shows_pane(#[trigger] ids@[k]);
                assert(ids@.contains(ids@[k]));
                assert(pending(start.panes@, ids@[k]));
            }
            assert forall|id: PaneId| #[trigger] pending(start.panes@, id) implies (
                start.shows_pane(id) ==> visible) && (!start.shows_pane(id) ==> background) by {
                assert(ids@.contains(id));
                let k = choose|k: int| 0 <= k < ids@.len() && ids@[k] == id;
                assert(start.shows_pane(ids@[k]) == start.shows_pane(id));
            }
        }
        (visible, background)
    }

    /// Whether any pane has output that was not announced yet.
    pub fn has_pending_pty_output(&self) -> (any: bool)
        requires
            self.wf(),
        ensures
            any == exists|id: PaneId| #[trigger] pending(self.panes@, id),
    {
        proof {
            self.panes.lemma_entries();
        }
        let mut i: usize = 0;
        while i < self.panes.entries.len()
            invariant
                self.panes.wf(),
                i <= self.panes.entries@.len(),
                forall|k: int| 0 <= k < i ==> !(#[trigger] self.panes.entries@[k]).1.data_pending,
            decreases self.panes.entries@.len() - i,
        {
            if self.panes.entries[i].1.data_pending {
                proof {
                    self.panes.lemma_entries();
                    assert(pending(self.panes@, self.panes.entries@[i as int].0));
                }
                return true;
            }
            i = i + 1;
        }
        proof {
            assert forall|id: PaneId| !(#[trigger] pending(self.panes@, id)) by {
                if pending(self.panes@, id) {
                    let k = choose|k: int|
                        0 <= k < self.panes.entries@.len() && (#[trigger] self.panes.entries@[k]).0
                            == id;
                    assert(self.panes@[id] == self.panes.entries@[k].1);
                }
            }
        }
        false
    }
}

/// A new pane starts in the directory of the focused one where that exists and it is
/// not to start at the root, else at the root of its workspace where that exists,
/// and else at home. Where it cannot start there, the later ones are tried.
pub proof fn law_panes_start_where_the_focus_is(
    focused: (Seq<char>, bool),
    root: (Seq<char>, bool),
    home: (Seq<char>, bool),
    to_root: bool,
)
    ensures
        ({
            let dirs = start_dirs(focused, root, home, to_root);
            &&& dirs.len() > 0
            &&& focused.1 && !to_root ==> dirs[0] == focused.0
            &&& !(focused.1 && !to_root) && root.1 ==> dirs[0] == root.0
            &&& !(focused.1 && !to_root) && !root.1 ==> dirs[0] == home.0
            &&& root.1 ==> paths::has_place(dirs, root.0)
            &&& home.1 ==> paths::has_place(dirs, home.0)
        }),
{
    lemma_turns(
        (focused.0, focused.1 && !to_root),
        root,
        home,
    );
    let dirs = start_dirs(focused, root, home, to_root);
    let turns = in_turn((focused.0, focused.1 && !to_root), root, home);
    if turns.len() > 0 {
        assert(dirs =~= turns);
    }
}

proof fn lemma_places_push(list: Seq<Seq<char>>, dir: Seq<char>, path: Seq<char>)
    ensures
        paths::has_place(list.push(dir), path) == (paths::has_place(list, path) || paths::components(
            dir,
        ) == paths::components(path)),
{
    let out = list.push(dir);
    if paths::has_place(list, path) {
        let k = choose|k: int|
            0 <= k < list.len() && paths::components(#[trigger] list[k]) == paths::components(path);
        assert(out[k] == list[k]);
    }
    if paths::components(dir) == paths::components(path) {
        assert(out[list.len() as int] == dir);
    }
    if paths::has_place(out, path) {
        let k = choose|k: int|
            0 <= k < out.len() && paths::components(#[trigger] out[k]) == paths::components(path);
        if k < list.len() {
            assert(list[k] == out[k]);
        }
    }
}

proof fn lemma_turns(
    first: (Seq<char>, bool),
    second: (Seq<char>, bool),
    third: (Seq<char>, bool),
)
    ensures
        ({
            let dirs = in_turn(first, second, third);
            &&& first.1 ==> dirs.len() > 0 && dirs[0] == first.0
            &&& !first.1 && second.1 ==> dirs.len() > 0 && dirs[0] == second.0
            &&& !first.1 && !second.1 && third.1 ==> dirs =~= seq![third.0]
            &&& !first.1 && !second.1 && !third.1 ==> dirs.len() == 0
            &&& second.1 ==> paths::has_place(dirs, second.0)
            &&& third.1 ==> paths::has_place(dirs, third.0)
        }),
{
    let a = if first.1 {
        seq![first.0]
    } else {
        seq![]
    };
    let b = if second.1 && !paths::has_place(a, second.0) {
        a.push(second.0)
    } else {
        a
    };
    let dirs = in_turn(first, second, third);
    let none = Seq::<Seq<char>>::empty();
    assert(!paths::has_place(none, second.0) && !paths::has_place(none, third.0));
    if !first.1 {
        assert(a =~= none);
    }
    lemma_places_push(a, second.0, second.0);
    lemma_places_push(b, third.0, second.0);
    lemma_places_push(b, third.0, third.0);
}

/// A saved pane starts in its own directory where that exists, else in that of its
/// workspace, and else at home. Where it cannot start there, the later ones that
/// exist are tried, and where none exists it does not start.
pub proof fn law_saved_panes_try_their_own_directory_first(
    own: (Seq<char>, bool),
    space: (Seq<char>, bool),
    home: (Seq<char>, bool),
)
    ensures
        ({
            let dirs = in_turn(own, space, home);
            &&& own.1 ==> dirs.len() > 0 && dirs[0] == own.0
            &&& !own.1 && space.1 ==> dirs.len() > 0 && dirs[0] == space.0
            &&& !own.1 && !space.1 && home.1 ==> dirs == seq![home.0]
            &&& !own.1 && !space.1 && !home.1 ==> dirs.len() == 0
            &&& space.1 ==> paths::has_place(dirs, space.0)
            &&& home.1 ==> paths::has_place(dirs, home.0)
        }),
{
    lemma_turns(own, space, home);
}

/// A fork stands to the right of the pane that it came from, in the same tab, and
/// what both are bound to is known: the pane to its session, and the fork to the
/// same agent.
pub proof fn law_forks_stand_beside_their_source(
    before: App,
    after: App,
    pane: PaneId,
    focus: bool,
    facts: ForkFacts,
    id: PaneId,
    spawned: Pane,
    direct: bool,
    now: u64,
)
    requires
        before.forked(&after, pane, focus, facts, id, spawned, direct, now),
        workspace::located(before.workspaces@, pane, before.place_of(pane)),
        before.workspaces@[before.place_of(pane).0].tabs@[before.place_of(
            pane,
        ).1].layout.leaf_seq().no_duplicates(),
        id != pane,
    ensures
        ({
            let (w, t) = before.place_of(pane);
            let (old_tab, tab) = (before.workspaces@[w].tabs@[t], after.workspaces@[w].tabs@[t]);
            &&& tab.layout.leaf_seq() == crate::layout::inserted_after(
                old_tab.layout.leaf_seq(),
                pane,
                id,
            )
            &&& tab.layout.focus == (if focus {
                id
            } else {
                old_tab.layout.focus
            })
            &&& tab.id == old_tab.id
        }),
        after.panes@[id] == spawned,
        after.status@[id].agent@ == before.status@[pane].agent@,
        after.status@[pane].agent_session is Some,
        before.status@[pane].agent_session is Some ==> after.status@[pane].agent_session
            == before.status@[pane].agent_session,
{
    let (w, t) = before.place_of(pane);
    let old_tab = before.workspaces@[w].tabs@[t];
    crate::layout::lemma_split_leaves(old_tab.layout.root, pane, Axis::Col, id);
}

} // verus!
