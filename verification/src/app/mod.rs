//! The state of a session and what can be done with it.
//!
//! What only the surroundings can do (starting a process, writing a file,
//! answering a request) is asked for in the outbox, in order.
use vstd::prelude::*;
use vstd::string::*;

use crate::config::Config;
use crate::docks::{DockMenu, ModuleDock, Side, Sidebars};
use crate::geometry::Rect;
use crate::ids::{PaneId, PaneMap};
use crate::layout::{Axis, Divider, TileLayout};
use crate::menus::{
    AgentMenu, Catalog, DiffMenu, FileMenu, LinkTarget, Mode, ModuleMenuAction, PaneMenu,
    PaneRename, ResizeDrag, TabMenu, TabRename, ViewKind, WsMenu, WsRename,
};
use crate::selection::{CopyMode, Selection};
use crate::status::{ModulePaneRecord, Pane, PaneStatus, SessionInfo, State};
use crate::workspace;
use crate::workspace::{Tab, Workspace};

pub mod agents;
pub mod close;
pub mod contexts;
pub mod dialogs;
pub mod draw;
pub mod events;
pub mod panes;
pub mod resize;
pub mod restore;
pub mod scan;
pub mod spaces;
pub mod sides;
pub mod tabs;

verus! {

/// Something that happened, for whoever listens. Positions of tabs count from
/// one.
#[derive(Debug, PartialEq, Eq)]
pub enum SessionEvent {
    PaneCreated { pane: PaneId },
    PaneForked { pane: PaneId, fork: PaneId, agent: String, workspace: usize, tab: usize },
    PaneMoved { pane: PaneId, workspace: usize, tab: usize },
    PaneClosed { pane: PaneId },
    TabCreated { tab: usize },
    TabMoved { workspace: usize, from: usize, to: usize, active: usize, swap: bool },
    TabClosed { tab: usize },
    WorkspaceCreated { workspace: usize },
    WorkspaceClosed { workspace: usize },
}

/// Where the menu was that offered a module's action.
#[derive(Clone, Copy, Debug, PartialEq, Eq, Structural)]
pub enum MenuContext {
    Tab,
    Workspace,
    Pane,
    Agent,
}

/// What a module's action is run on.
#[derive(Clone, Copy, Debug, PartialEq, Eq, Structural)]
pub enum ActionTarget {
    Tab { workspace: usize, tab: usize },
    Workspace(usize),
    Pane(PaneId),
    /// A pane, together with the text that is selected.
    PaneWithSelection(PaneId),
}

/// What the surroundings are asked to do.
#[derive(Debug)]
pub enum Effect {
    /// Tell the listeners.
    Event(SessionEvent),
    /// Write the settings to disk.
    SaveConfig,
    /// Type the text into the pane.
    Send { pane: PaneId, text: String },
    /// Tell the users of the terminal that it is gone.
    TerminalClosed(PaneId),
    /// Give up waiting for the pane.
    CancelWaits(PaneId),
    /// Release what the pane claimed on the task board.
    ReleaseClaims(PaneId),
    /// Give up requests that wait for this directory.
    RootClosed(String),
    /// Give up requests that wait for any directory.
    NoRootLeft,
    RunModule { context: MenuContext, action: ModuleMenuAction, target: ActionTarget },
    /// Start a shell and put it beside the focused pane.
    Split(Axis),
    /// Fork the agent of the pane.
    Fork(PaneId),
    ActivateLink(LinkTarget),
    InspectCommand(PaneId),
    /// Choose a folder, starting here.
    PickFolder(String),
    OpenGit(usize),
    /// Open the task board of the active workspace.
    OpenOrch,
    OpenMission(usize),
    /// Resume the stored session at this position.
    Resume(usize),
}

/// A dock that a module declares.
#[derive(Debug)]
pub struct DockDecl {
    pub id: String,
    pub title: String,
}

/// A pane that a module declares.
#[derive(Debug)]
pub struct PaneDecl {
    pub id: String,
    pub command: Vec<String>,
}

/// An installed module.
#[derive(Debug)]
pub struct Module {
    pub id: String,
    pub runnable: bool,
    pub docks: Vec<DockDecl>,
    pub panes: Vec<PaneDecl>,
}

/// The state of a session.
#[derive(Debug)]
pub struct App {
    pub panes: PaneMap<Pane>,
    /// Which pane shows the terminal with this identity.
    pub backend_terminal_index: Vec<(String, PaneId)>,
    pub backend_labels: PaneMap<String>,
    pub status: PaneMap<PaneStatus>,
    /// Names by which panes are addressed.
    pub agent_names: Vec<(String, PaneId)>,
    pub workspaces: Vec<Workspace>,
    pub active_ws: usize,
    pub catalog: Catalog,
    pub config: Config,
    pub pane_title_rects: Vec<(PaneId, Rect)>,
    pub worktree_prompt: Option<String>,
    pub tab_rename: Option<TabRename>,
    pub tab_menu: Option<TabMenu>,
    pub ws_menu: Option<WsMenu>,
    /// The workspace whose worktree is to be deleted once that is confirmed.
    pub worktree_delete: Option<String>,
    pub pane_menu: Option<PaneMenu>,
    pub agent_menu: Option<AgentMenu>,
    pub pinned_agents: Vec<PaneId>,
    pub ws_rename: Option<WsRename>,
    pub pane_rename: Option<PaneRename>,
    pub worktree_repo: Option<String>,
    pub worktree_error: Option<String>,
    pub mode: Mode,
    pub sidebars: Sidebars,
    pub module_docks: Vec<(String, ModuleDock)>,
    pub zoomed: bool,
    pub should_quit: bool,
    pub server_mode: bool,
    pub session_dirty: bool,
    pub end_session: bool,
    pub selection: Option<Selection>,
    pub copy_mode: Option<CopyMode>,
    pub toast: Option<String>,
    pub downsample: bool,
    pub resumable: Vec<SessionInfo>,
    pub sessions_scan_inflight: bool,
    pub proc_commands: PaneMap<Vec<String>>,
    pub proc_scan_inflight: bool,
    pub dismissed_sessions: Vec<String>,
    pub file_menu: Option<FileMenu>,
    pub diff_menu: Option<DiffMenu>,
    pub dock_menu: Option<DockMenu>,
    pub compact: bool,
    pub views: PaneMap<ViewKind>,
    pub editor_files: PaneMap<String>,
    pub preview_views: Vec<PaneId>,
    pub hover: Option<(u16, u16)>,
    pub last_pane_area: Rect,
    pub pane_rects: Vec<(PaneId, Rect)>,
    pub pane_content_rects: Vec<(PaneId, Rect)>,
    /// The pane that is scrolled by keys.
    pub scroll_pane: Option<PaneId>,
    pub resize_drag: Option<ResizeDrag>,
    pub hover_divider: Option<Divider>,
    pub sidebar_resize: Option<Side>,
    pub hover_sidebar: Option<Side>,
    pub left_seam: Option<Rect>,
    pub right_seam: Option<Rect>,
    pub last_main_area: Rect,
    pub pane_close_rect: Option<Rect>,
    pub pane_zoom_rect: Option<Rect>,
    pub modules: Vec<Module>,
    pub module_panes: PaneMap<ModulePaneRecord>,
    pub outbox: Vec<Effect>,
}

/// Whether no name stands for two panes and no pane has two names.
pub open spec fn names_wf(names: Seq<(String, PaneId)>) -> bool {
    forall|i: int, j: int|
        0 <= i < j < names.len() ==> (#[trigger] names[i]).0@ != (#[trigger] names[j]).0@
            && names[i].1 != names[j].1
}

/// Whether no module dock is cached twice.
pub open spec fn module_docks_wf(docks: Seq<(String, ModuleDock)>) -> bool {
    forall|i: int, j: int|
        0 <= i < j < docks.len() ==> (#[trigger] docks[i]).0@ != (#[trigger] docks[j]).0@
}

impl App {
    /// The soundness of a session: workspaces with tabs, each pane in one place,
    /// the active positions in range, sidebars within bounds, names that are
    /// unique.
    pub open spec fn wf(&self) -> bool {
        &&& workspace::tree_wf(self.workspaces@)
        &&& self.workspaces@.len() > 0 ==> self.active_ws < self.workspaces@.len()
        &&& self.maps_wf()
    }

    /// The part of the soundness that does not concern the workspaces.
    pub open spec fn maps_wf(&self) -> bool {
        &&& self.panes.wf()
        &&& self.backend_labels.wf()
        &&& self.status.wf()
        &&& self.proc_commands.wf()
        &&& self.views.wf()
        &&& self.editor_files.wf()
        &&& self.module_panes.wf()
        &&& self.sidebars.wf()
        &&& names_wf(self.agent_names@)
        &&& module_docks_wf(self.module_docks@)
    }

    /// The active workspace.
    pub open spec fn active(&self) -> Workspace {
        self.workspaces@[self.active_ws as int]
    }

    /// The active tab.
    pub open spec fn active_tab(&self) -> Tab {
        self.active().tabs@[self.active().active_tab as int]
    }

    /// The active workspace.
    pub fn ws(&self) -> (w: &Workspace)
        requires
            self.wf(),
            self.workspaces@.len() > 0,
        ensures
            *w == self.active(),
            w.wf(),
    {
        &self.workspaces[self.active_ws]
    }

    /// The layout of the active tab.
    pub fn layout(&self) -> (l: &TileLayout)
        requires
            self.wf(),
            self.workspaces@.len() > 0,
        ensures
            *l == self.active_tab().layout,
            l.wf(),
    {
        let ws = self.ws();
        &ws.tabs[ws.active_tab].layout
    }

    /// The focused pane, where the focused leaf is a terminal.
    pub fn focused(&self) -> (p: Option<&Pane>)
        requires
            self.wf(),
            self.workspaces@.len() > 0,
        ensures
            match p {
                Some(x) => self.panes@.dom().contains(self.active_tab().layout.focus) && *x
                    == self.panes@[self.active_tab().layout.focus],
                None => !self.panes@.dom().contains(self.active_tab().layout.focus),
            },
    {
        self.panes.get(self.layout().focus)
    }

    /// Where the user is working.
    pub open spec fn focused_dir(&self) -> Seq<char> {
        let focus = self.active_tab().layout.focus;
        if self.panes@.dom().contains(focus) {
            self.panes@[focus].cwd@
        } else {
            self.active().cwd@
        }
    }

    /// The directory of the focused pane, else that of the workspace.
    pub fn focused_cwd(&self) -> (cwd: String)
        requires
            self.wf(),
            self.workspaces@.len() > 0,
        ensures
            cwd@ == self.focused_dir(),
    {
        match self.focused() {
            Some(p) => p.cwd.clone(),
            None => self.ws().cwd.clone(),
        }
    }

    /// Whether the active tab shows the pane.
    pub open spec fn shows_pane(&self, id: PaneId) -> bool {
        self.workspaces@.len() > 0 && workspace::tab_has(self.active_tab(), id)
    }

    /// Whether the active tab shows the pane.
    pub fn pane_is_visible(&self, id: PaneId) -> (b: bool)
        requires
            self.wf(),
        ensures
            b == self.shows_pane(id),
    {
        if self.workspaces.len() == 0 {
            return false;
        }
        self.layout().contains(id)
    }

    /// Whether the active tab is a git dashboard.
    pub fn active_is_git(&self) -> (b: bool)
        requires
            self.wf(),
            self.workspaces@.len() > 0,
        ensures
            b == (self.active_tab().git is Some),
    {
        let ws = self.ws();
        ws.tabs[ws.active_tab].is_git()
    }

    /// Whether the active tab is the task board.
    pub fn active_is_orch(&self) -> (b: bool)
        requires
            self.wf(),
            self.workspaces@.len() > 0,
        ensures
            b == self.active_tab().orch,
    {
        let ws = self.ws();
        ws.tabs[ws.active_tab].is_orch()
    }

    /// Whether the active tab is the overview of agents.
    pub fn active_is_mission(&self) -> (b: bool)
        requires
            self.wf(),
            self.workspaces@.len() > 0,
        ensures
            b == self.active_tab().mission,
    {
        let ws = self.ws();
        ws.tabs[ws.active_tab].is_mission()
    }

    /// Whether any pane's agent is working.
    pub fn any_working(&self) -> (b: bool)
        requires
            self.wf(),
        ensures
            b == exists|id: PaneId|
                #![trigger self.status@[id]]
                self.status@.dom().contains(id) && self.status@[id].state is Working,
    {
        proof {
            self.status.lemma_entries();
        }
        let mut i: usize = 0;
        while i < self.status.entries.len()
            invariant
                self.status.wf(),
                i <= self.status.entries@.len(),
                forall|k: int|
                    0 <= k < i ==> !((#[trigger] self.status.entries@[k]).1.state is Working),
            decreases self.status.entries@.len() - i,
        {
            if self.status.entries[i].1.state == State::Working {
                proof {
                    self.status.lemma_entries();
                    let id = self.status.entries@[i as int].0;
                    assert(self.status@[id].state is Working);
                }
                return true;
            }
            i = i + 1;
        }
        proof {
            assert forall|id: PaneId| #![trigger self.status@[id]]
                self.status@.dom().contains(id) implies !(self.status@[id].state is Working) by {
                let k = choose|k: int|
                    0 <= k < self.status.entries@.len() && (#[trigger] self.status.entries@[k]).0
                        == id;
                assert(self.status@[id] == self.status.entries@[k].1);
            }
        }
        false
    }

    /// Shows a message.
    pub fn show_toast(&mut self, text: String)
        ensures
            *final(self) == (App { toast: Some(text), ..*old(self) }),
    {
        self.toast = Some(text);
    }
}

} // verus!
