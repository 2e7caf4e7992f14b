//! The context menus and modals of the session: what they hold and which rows
//! they show.
use vstd::prelude::*;
use vstd::string::*;

use crate::geometry::Rect;
use crate::ids::PaneId;
use crate::layout::Axis;
use crate::status::State;
use crate::workspace::MoveTarget;

verus! {

/// At or below this many columns the narrow presentation is used.
pub const MOBILE_WIDTH: u16 = 64;

/// The longest name of a tab, in characters.
pub const TAB_NAME_MAX: usize = 40;

/// The longest name of a file, in characters.
pub const FILE_NAME_MAX: usize = 120;

/// The longest name of a workspace, in characters.
pub const WS_NAME_MAX: usize = 40;

/// The longest name of a pane, in characters.
pub const PANE_NAME_MAX: usize = 32;

/// A key that a menu or a modal understands.
#[derive(Clone, Copy, Debug, PartialEq, Eq, Structural)]
pub enum Key {
    Esc,
    Enter,
    Backspace,
    Char(char),
    Other,
}

/// What the keyboard does.
#[derive(Clone, Copy, Debug, PartialEq, Eq, Structural)]
pub enum Mode {
    Normal,
    Prefix,
    /// Keys resize the focused pane.
    Resize,
}

/// A file shown read-only.
#[derive(Debug)]
pub struct FileView {
    pub path: String,
}

/// A diff of a file of a repository.
#[derive(Debug)]
pub struct DiffView {
    pub root: String,
    pub path: String,
}

/// What a leaf without a terminal shows.
#[derive(Debug)]
pub enum ViewKind {
    File(FileView),
    Diff(Box<DiffView>),
}

/// A process of a pane.
#[derive(Debug)]
pub struct ProcInfo {
    pub pid: u32,
    pub command: String,
}

/// What runs in a pane, as it was when the overlay opened.
#[derive(Debug)]
pub struct CmdInspect {
    pub pane: PaneId,
    pub cwd: String,
    pub procs: Vec<ProcInfo>,
    pub scroll: usize,
}

/// An action that a module offers in a context menu.
#[derive(Debug)]
pub struct ModuleMenuAction {
    pub module_id: String,
    pub action_id: String,
    pub title: String,
}

impl ModuleMenuAction {
    /// A copy of it.
    pub fn copy(&self) -> (a: ModuleMenuAction)
        ensures
            a == *self,
    {
        ModuleMenuAction {
            module_id: self.module_id.clone(),
            action_id: self.action_id.clone(),
            title: self.title.clone(),
        }
    }
}

// ---------------------------------------------------------------------------
// Tabs
// ---------------------------------------------------------------------------

/// A tab by its leaves, which no other tab shares. It stays the same tab when
/// the order of the tabs changes.
#[derive(Debug, PartialEq, Eq)]
pub struct TabMenuTarget {
    pub workspace: usize,
    pub leaves: Vec<PaneId>,
}

impl TabMenuTarget {
    /// A copy of it.
    pub fn copy(&self) -> (t: TabMenuTarget)
        ensures
            t.workspace == self.workspace,
            t.leaves@ == self.leaves@,
    {
        let mut leaves: Vec<PaneId> = Vec::new();
        let mut i: usize = 0;
        while i < self.leaves.len()
            invariant
                i <= self.leaves@.len(),
                leaves@ == self.leaves@.take(i as int),
            decreases self.leaves@.len() - i,
        {
            leaves.push(self.leaves[i]);
            i = i + 1;
            assert(leaves@ =~= self.leaves@.take(i as int));
        }
        assert(leaves@ =~= self.leaves@);
        TabMenuTarget { workspace: self.workspace, leaves }
    }
}

/// The modal in which a tab is renamed.
#[derive(Debug)]
pub struct TabRename {
    pub target: TabMenuTarget,
    pub buffer: String,
}

/// A row of the context menu of a tab.
#[derive(Clone, Copy, Debug, PartialEq, Eq, Structural)]
pub enum TabMenuItem {
    Rename,
    MoveLeft,
    MoveRight,
    SwapWith,
    Divider,
    Module(usize),
}

/// The context menu of a tab, as things were when it opened.
#[derive(Debug)]
pub struct TabMenu {
    pub target: TabMenuTarget,
    pub anchor: (u16, u16),
    pub items: Vec<(TabMenuItem, Rect)>,
    pub module_actions: Vec<ModuleMenuAction>,
    pub can_rename: bool,
    pub can_move_left: bool,
    pub can_move_right: bool,
    /// The other tabs, with their labels.
    pub swap_targets: Vec<(TabMenuTarget, String)>,
    pub swap_open: bool,
    pub swap_rects: Vec<(TabMenuTarget, Rect)>,
}

/// Why a tab was not moved.
#[derive(Clone, Copy, Debug, PartialEq, Eq, Structural)]
pub enum TabMoveError {
    PositionOutOfRange,
    SamePosition,
    AlreadyFirst,
    AlreadyLast,
}

/// Where a tab is moved by one position.
#[derive(Clone, Copy, Debug, PartialEq, Eq, Structural)]
pub enum TabMoveDirection {
    Left,
    Right,
}

/// Why a tab was not focused.
#[derive(Clone, Copy, Debug, PartialEq, Eq, Structural)]
pub enum TabFocusError {
    PositionOutOfRange,
}

/// Why a tab was not renamed.
#[derive(Clone, Copy, Debug, PartialEq, Eq, Structural)]
pub enum TabRenameError {
    PositionOutOfRange,
    Dashboard,
    NameTooLong,
}

impl TabMenu {
    /// The rows of the menu.
    pub open spec fn rows(self) -> Seq<TabMenuItem> {
        let own = (if self.can_rename {
            seq![TabMenuItem::Rename]
        } else {
            seq![]
        }) + (if self.can_move_left {
            seq![TabMenuItem::MoveLeft]
        } else {
            seq![]
        }) + (if self.can_move_right {
            seq![TabMenuItem::MoveRight]
        } else {
            seq![]
        }) + (if self.swap_targets@.len() > 0 {
            seq![TabMenuItem::SwapWith]
        } else {
            seq![]
        });
        let modules = Seq::new(self.module_actions@.len(), |i: int| TabMenuItem::Module(i as usize));
        if modules.len() == 0 {
            own
        } else if own.len() == 0 {
            modules
        } else {
            own.push(TabMenuItem::Divider) + modules
        }
    }

    /// The rows of the menu: what can be done with the tab, then what modules
    /// offer.
    pub fn build_items(&self) -> (items: Vec<TabMenuItem>)
        ensures
            items@ == self.rows(),
    {
        let mut items: Vec<TabMenuItem> = Vec::new();
        if self.can_rename {
            items.push(TabMenuItem::Rename);
        }
        if self.can_move_left {
            items.push(TabMenuItem::MoveLeft);
        }
        if self.can_move_right {
            items.push(TabMenuItem::MoveRight);
        }
        if self.swap_targets.len() > 0 {
            items.push(TabMenuItem::SwapWith);
        }
        let n: usize = self.module_actions.len();
        if n > 0 {
            if items.len() > 0 {
                items.push(TabMenuItem::Divider);
            }
            let ghost before = items@;
            let mut i: usize = 0;
            while i < n
                invariant
                    i <= n,
                    items@ == before + Seq::new(i as nat, |k: int| TabMenuItem::Module(k as usize)),
                decreases n - i,
            {
                items.push(TabMenuItem::Module(i));
                i = i + 1;
                assert(items@ =~= before + Seq::new(
                    i as nat,
                    |k: int| TabMenuItem::Module(k as usize),
                ));
            }
        }
        assert(items@ =~= self.rows());
        items
    }
}

// ---------------------------------------------------------------------------
// Workspaces
// ---------------------------------------------------------------------------

/// A row of the context menu of a workspace.
#[derive(Clone, Copy, Debug, PartialEq, Eq, Structural)]
pub enum WsMenuItem {
    Pin,
    Unpin,
    Close,
    Rename,
    /// Delete a linked worktree with its files.
    DeleteWorktree,
    NewWorktree,
    OpenWorktree,
    Divider,
    OpenGit,
    OpenOrch,
    OpenMission,
    Module(usize),
}

/// The context menu of a workspace.
#[derive(Debug)]
pub struct WsMenu {
    /// The workspace by its identity, since its position can change.
    pub workspace_id: String,
    /// Whether it was in a repository when the menu opened.
    pub is_repo: bool,
    pub anchor: (u16, u16),
    pub items: Vec<(WsMenuItem, Rect)>,
    pub module_actions: Vec<ModuleMenuAction>,
}

/// The rows for a workspace.
pub open spec fn ws_rows(pinned: bool, linked: bool, is_repo: bool, extras: nat) -> Seq<WsMenuItem> {
    seq![
        WsMenuItem::Close,
        WsMenuItem::Rename,
        if pinned {
            WsMenuItem::Unpin
        } else {
            WsMenuItem::Pin
        },
    ] + (if linked {
        seq![WsMenuItem::DeleteWorktree]
    } else {
        seq![]
    }) + (if is_repo {
        seq![WsMenuItem::NewWorktree, WsMenuItem::OpenWorktree]
    } else {
        seq![]
    }) + seq![WsMenuItem::Divider] + (if is_repo {
        seq![WsMenuItem::OpenGit]
    } else {
        seq![]
    }) + seq![WsMenuItem::OpenOrch, WsMenuItem::OpenMission] + (if extras > 0 {
        seq![WsMenuItem::Divider] + Seq::new(extras, |i: int| WsMenuItem::Module(i as usize))
    } else {
        seq![]
    })
}

/// The rows for a workspace: what can be done with it, a divider, what can be
/// opened there, and what modules offer.
pub fn build_ws_items(pinned: bool, linked: bool, is_repo: bool, extras: usize) -> (items: Vec<
    WsMenuItem,
>)
    ensures
        items@ == ws_rows(pinned, linked, is_repo, extras as nat),
{
    let mut items: Vec<WsMenuItem> = Vec::new();
    items.push(WsMenuItem::Close);
    items.push(WsMenuItem::Rename);
    items.push(
        if pinned {
            WsMenuItem::Unpin
        } else {
            WsMenuItem::Pin
        },
    );
    if linked {
        items.push(WsMenuItem::DeleteWorktree);
    }
    if is_repo {
        items.push(WsMenuItem::NewWorktree);
        items.push(WsMenuItem::OpenWorktree);
    }
    items.push(WsMenuItem::Divider);
    if is_repo {
        items.push(WsMenuItem::OpenGit);
    }
    items.push(WsMenuItem::OpenOrch);
    items.push(WsMenuItem::OpenMission);
    if extras > 0 {
        items.push(WsMenuItem::Divider);
        let ghost before = items@;
        let mut i: usize = 0;
        while i < extras
            invariant
                i <= extras,
                items@ == before + Seq::new(i as nat, |k: int| WsMenuItem::Module(k as usize)),
            decreases extras - i,
        {
            items.push(WsMenuItem::Module(i));
            i = i + 1;
            assert(items@ =~= before + Seq::new(i as nat, |k: int| WsMenuItem::Module(k as usize)));
        }
    }
    assert(items@ =~= ws_rows(pinned, linked, is_repo, extras as nat));
    items
}

/// The modal in which a workspace is renamed.
#[derive(Debug)]
pub struct WsRename {
    pub workspace_id: String,
    pub buffer: String,
}

/// Why a workspace was not changed.
#[derive(Clone, Copy, Debug, PartialEq, Eq, Structural)]
pub enum WorkspaceUpdateError {
    NotFound,
    EmptyName,
    NameTooLong,
}

// ---------------------------------------------------------------------------
// Panes
// ---------------------------------------------------------------------------

/// What a link leads to.
#[derive(Debug, PartialEq, Eq)]
pub enum LinkTarget {
    Url(String),
    File { path: String, line: Option<u32> },
}

impl LinkTarget {
    /// A copy of it.
    pub fn copy(&self) -> (t: LinkTarget)
        ensures
            t == *self,
    {
        match self {
            LinkTarget::Url(url) => LinkTarget::Url(url.clone()),
            LinkTarget::File { path, line } => LinkTarget::File { path: path.clone(), line: *line },
        }
    }
}

/// A link in a terminal: its text, and on each row of the grid its first and
/// last column.
#[derive(Debug, PartialEq, Eq)]
pub struct Link {
    pub text: String,
    pub spans: Vec<(u16, u16, u16)>,
}

/// The link under the pointer.
#[derive(Debug, PartialEq, Eq)]
pub struct HoverLink {
    pub pane: PaneId,
    pub link: Link,
    pub target: LinkTarget,
}

/// A press on a link that was not released yet.
#[derive(Debug)]
pub struct LinkPress {
    pub target: LinkTarget,
    pub at: (u16, u16),
}

/// A mouse button that a program holds.
#[derive(Clone, Copy, Debug)]
pub struct MouseGrab {
    pub pane: PaneId,
    pub btn: u16,
    pub drag: bool,
    pub sgr: bool,
}

/// A divider that is being dragged.
#[derive(Debug)]
pub struct ResizeDrag {
    pub path: Vec<bool>,
    pub axis: Axis,
}

/// A row of the context menu of a pane.
#[derive(Clone, Copy, Debug, PartialEq, Eq, Structural)]
pub enum PaneMenuItem {
    /// The new pane beside this one.
    SplitVertical,
    /// The new pane below this one.
    SplitHorizontal,
    OpenLink,
    OpenFile,
    /// Fork the agent's session into a new pane.
    ForkPane,
    /// Show what runs in the pane.
    RunningCmd,
    /// Opens the list of tabs to which the pane can be moved.
    MoveToTab,
    RenamePane,
    Divider,
    Close,
    Module(usize),
}

/// The context menu of a pane, as things were when it opened.
#[derive(Debug)]
pub struct PaneMenu {
    pub pane: PaneId,
    pub anchor: (u16, u16),
    pub items: Vec<(PaneMenuItem, Rect)>,
    pub module_actions: Vec<ModuleMenuAction>,
    /// Where the pane can be moved, with labels.
    pub move_targets: Vec<(MoveTarget, String)>,
    pub move_open: bool,
    pub tab_rects: Vec<(MoveTarget, Rect)>,
    /// The link under the click.
    pub link: Option<LinkTarget>,
    /// Whether the agent of the pane can be forked.
    pub can_fork: bool,
}

/// Whether a row of the pane menu is shown.
pub open spec fn pane_row_shown(
    item: PaneMenuItem,
    has_move: bool,
    can_fork: bool,
    has_url: bool,
    has_file: bool,
) -> bool {
    match item {
        PaneMenuItem::MoveToTab => has_move,
        PaneMenuItem::ForkPane => can_fork,
        PaneMenuItem::OpenLink => has_url,
        PaneMenuItem::OpenFile => has_file,
        _ => true,
    }
}

/// The rows for a pane.
pub open spec fn pane_rows(
    has_move: bool,
    can_fork: bool,
    has_url: bool,
    has_file: bool,
    extras: nat,
) -> Seq<PaneMenuItem> {
    seq![PaneMenuItem::SplitVertical, PaneMenuItem::SplitHorizontal] + (if can_fork {
        seq![PaneMenuItem::ForkPane]
    } else {
        seq![]
    }) + (if has_url {
        seq![PaneMenuItem::OpenLink]
    } else {
        seq![]
    }) + (if has_file {
        seq![PaneMenuItem::OpenFile]
    } else {
        seq![]
    }) + seq![PaneMenuItem::RunningCmd, PaneMenuItem::RenamePane] + (if has_move {
        seq![PaneMenuItem::MoveToTab]
    } else {
        seq![]
    }) + seq![PaneMenuItem::Divider, PaneMenuItem::Close] + (if extras > 0 {
        seq![PaneMenuItem::Divider] + Seq::new(extras, |i: int| PaneMenuItem::Module(i as usize))
    } else {
        seq![]
    })
}

impl PaneMenuItem {
    /// Every row that needs no module, in order.
    pub fn all() -> (items: Vec<PaneMenuItem>)
        ensures
            items@ == pane_rows(true, true, true, true, 0),
    {
        let items: Vec<PaneMenuItem> = vec![
            PaneMenuItem::SplitVertical,
            PaneMenuItem::SplitHorizontal,
            PaneMenuItem::ForkPane,
            PaneMenuItem::OpenLink,
            PaneMenuItem::OpenFile,
            PaneMenuItem::RunningCmd,
            PaneMenuItem::RenamePane,
            PaneMenuItem::MoveToTab,
            PaneMenuItem::Divider,
            PaneMenuItem::Close,
        ];
        assert(items@ =~= pane_rows(true, true, true, true, 0));
        items
    }
}

/// The rows for a pane: those whose action is possible, then what modules
/// offer.
pub fn build_pane_items(
    has_move: bool,
    can_fork: bool,
    has_url: bool,
    has_file: bool,
    extras: usize,
) -> (items: Vec<PaneMenuItem>)
    ensures
        items@ == pane_rows(has_move, can_fork, has_url, has_file, extras as nat),
{
    let mut items: Vec<PaneMenuItem> = Vec::new();
    items.push(PaneMenuItem::SplitVertical);
    items.push(PaneMenuItem::SplitHorizontal);
    if can_fork {
        items.push(PaneMenuItem::ForkPane);
    }
    if has_url {
        items.push(PaneMenuItem::OpenLink);
    }
    if has_file {
        items.push(PaneMenuItem::OpenFile);
    }
    items.push(PaneMenuItem::RunningCmd);
    items.push(PaneMenuItem::RenamePane);
    if has_move {
        items.push(PaneMenuItem::MoveToTab);
    }
    items.push(PaneMenuItem::Divider);
    items.push(PaneMenuItem::Close);
    if extras > 0 {
        items.push(PaneMenuItem::Divider);
        let ghost before = items@;
        let mut i: usize = 0;
        while i < extras
            invariant
                i <= extras,
                items@ == before + Seq::new(i as nat, |k: int| PaneMenuItem::Module(k as usize)),
            decreases extras - i,
        {
            items.push(PaneMenuItem::Module(i));
            i = i + 1;
            assert(items@ =~= before + Seq::new(i as nat, |k: int| PaneMenuItem::Module(k as usize)));
        }
    }
    assert(items@ =~= pane_rows(has_move, can_fork, has_url, has_file, extras as nat));
    items
}

proof fn lemma_filter_push<A>(s: Seq<A>, x: A, f: spec_fn(A) -> bool)
    ensures
        s.push(x).filter(f) == (if f(x) {
            s.filter(f).push(x)
        } else {
            s.filter(f)
        }),
{
    reveal(Seq::filter);
    assert(s.push(x).drop_last() =~= s);
}

/// Without modules, the rows of the pane menu are those of the full list that
/// are shown, in the same order.
pub proof fn law_pane_rows_are_the_possible_ones(
    has_move: bool,
    can_fork: bool,
    has_url: bool,
    has_file: bool,
)
    ensures
        pane_rows(has_move, can_fork, has_url, has_file, 0) == pane_rows(
            true,
            true,
            true,
            true,
            0,
        ).filter(|it: PaneMenuItem| pane_row_shown(it, has_move, can_fork, has_url, has_file)),
{
    let f = |it: PaneMenuItem| pane_row_shown(it, has_move, can_fork, has_url, has_file);
    let s0 = Seq::<PaneMenuItem>::empty();
    let s1 = s0.push(PaneMenuItem::SplitVertical);
    lemma_filter_push(s0, PaneMenuItem::SplitVertical, f);
    let s2 = s1.push(PaneMenuItem::SplitHorizontal);
    lemma_filter_push(s1, PaneMenuItem::SplitHorizontal, f);
    let s3 = s2.push(PaneMenuItem::ForkPane);
    lemma_filter_push(s2, PaneMenuItem::ForkPane, f);
    let s4 = s3.push(PaneMenuItem::OpenLink);
    lemma_filter_push(s3, PaneMenuItem::OpenLink, f);
    let s5 = s4.push(PaneMenuItem::OpenFile);
    lemma_filter_push(s4, PaneMenuItem::OpenFile, f);
    let s6 = s5.push(PaneMenuItem::RunningCmd);
    lemma_filter_push(s5, PaneMenuItem::RunningCmd, f);
    let s7 = s6.push(PaneMenuItem::RenamePane);
    lemma_filter_push(s6, PaneMenuItem::RenamePane, f);
    let s8 = s7.push(PaneMenuItem::MoveToTab);
    lemma_filter_push(s7, PaneMenuItem::MoveToTab, f);
    let s9 = s8.push(PaneMenuItem::Divider);
    lemma_filter_push(s8, PaneMenuItem::Divider, f);
    let s10 = s9.push(PaneMenuItem::Close);
    lemma_filter_push(s9, PaneMenuItem::Close, f);
    assert(s0.filter(f) =~= s0) by {
        reveal(Seq::filter);
    }
    assert(s10 =~= pane_rows(true, true, true, true, 0));
    assert(pane_rows(has_move, can_fork, has_url, has_file, 0) =~= s10.filter(f));
}

/// Why a pane was not moved.
#[derive(Clone, Copy, Debug, PartialEq, Eq, Structural)]
pub enum PaneMoveError {
    PaneNotFound,
    SourceNotPaneTab,
    TargetOutOfRange,
    SameTab,
    TargetNotPaneTab,
    NoChange,
}

/// Where a pane is after a move.
#[derive(Clone, Copy, Debug, PartialEq, Eq, Structural)]
pub struct PaneMoveResult {
    pub workspace: usize,
    pub tab: usize,
}

/// Why an agent's session was not forked.
#[derive(Clone, Copy, Debug, PartialEq, Eq, Structural)]
pub enum AgentForkError {
    PaneNotFound,
    SourceNotPaneTab,
    UnsupportedAgent,
    SessionUnknown,
    SpawnFailed,
}

/// The pane that a fork made.
#[derive(Debug, PartialEq, Eq)]
pub struct AgentForkResult {
    pub from: PaneId,
    pub pane: PaneId,
    pub agent: String,
    pub workspace: usize,
    pub tab: usize,
}

/// The modal in which a pane is named.
#[derive(Debug)]
pub struct PaneRename {
    pub pane: PaneId,
    pub buffer: String,
}

// ---------------------------------------------------------------------------
// Agents
// ---------------------------------------------------------------------------

/// What a row of the list of agents stands for.
#[derive(Clone, Copy, Debug, PartialEq, Eq, Structural)]
pub enum AgentTarget {
    /// A stored session, by its position in the list.
    Session(usize),
    /// A pane with a running agent.
    Live(PaneId),
}

/// A row of the context menu of an agent.
#[derive(Clone, Copy, Debug, PartialEq, Eq, Structural)]
pub enum AgentMenuItem {
    Resume,
    RenamePane,
    Close,
    Pin,
    Unpin,
    Divider,
    Module(usize),
}

/// The context menu of an agent.
#[derive(Debug)]
pub struct AgentMenu {
    pub target: AgentTarget,
    pub anchor: (u16, u16),
    pub items: Vec<(AgentMenuItem, Rect)>,
    pub module_actions: Vec<ModuleMenuAction>,
}

/// The rows that every agent of this sort has.
pub open spec fn agent_base_rows(target: AgentTarget) -> Seq<AgentMenuItem> {
    match target {
        AgentTarget::Session(_) => seq![AgentMenuItem::Resume, AgentMenuItem::Close],
        AgentTarget::Live(_) => seq![AgentMenuItem::RenamePane, AgentMenuItem::Close],
    }
}

/// The rows for an agent.
pub open spec fn agent_rows(target: AgentTarget, pinned: bool, extras: nat) -> Seq<AgentMenuItem> {
    agent_base_rows(target) + (if target is Live {
        seq![
            if pinned {
                AgentMenuItem::Unpin
            } else {
                AgentMenuItem::Pin
            },
        ]
    } else {
        seq![]
    }) + (if extras > 0 {
        seq![AgentMenuItem::Divider] + Seq::new(extras, |i: int| AgentMenuItem::Module(i as usize))
    } else {
        seq![]
    })
}

impl AgentMenu {
    /// The rows that every agent of this sort has.
    pub fn items_for(target: AgentTarget) -> (items: Vec<AgentMenuItem>)
        ensures
            items@ == agent_base_rows(target),
    {
        let items = match target {
            AgentTarget::Session(_) => vec![AgentMenuItem::Resume, AgentMenuItem::Close],
            AgentTarget::Live(_) => vec![AgentMenuItem::RenamePane, AgentMenuItem::Close],
        };
        assert(items@ =~= agent_base_rows(target));
        items
    }
}

/// The rows for an agent: those of its sort, whether it can be pinned, then
/// what modules offer.
pub fn build_agent_items(target: AgentTarget, pinned: bool, extras: usize) -> (items: Vec<
    AgentMenuItem,
>)
    ensures
        items@ == agent_rows(target, pinned, extras as nat),
{
    let mut items = AgentMenu::items_for(target);
    match target {
        AgentTarget::Live(_) => {
            items.push(
                if pinned {
                    AgentMenuItem::Unpin
                } else {
                    AgentMenuItem::Pin
                },
            );
        },
        AgentTarget::Session(_) => {},
    }
    if extras > 0 {
        items.push(AgentMenuItem::Divider);
        let ghost before = items@;
        let mut i: usize = 0;
        while i < extras
            invariant
                i <= extras,
                items@ == before + Seq::new(i as nat, |k: int| AgentMenuItem::Module(k as usize)),
            decreases extras - i,
        {
            items.push(AgentMenuItem::Module(i));
            i = i + 1;
            assert(items@ =~= before + Seq::new(
                i as nat,
                |k: int| AgentMenuItem::Module(k as usize),
            ));
        }
    }
    assert(items@ =~= agent_rows(target, pinned, extras as nat));
    items
}

// ---------------------------------------------------------------------------
// Files and diffs
// ---------------------------------------------------------------------------

/// A row of the context menu of a file.
#[derive(Clone, Copy, Debug, PartialEq, Eq, Structural)]
pub enum FileMenuItem {
    OpenReadonly,
    /// Open with the editor at this position.
    OpenWith(usize),
    NewFile,
    NewFolder,
    Rename,
    CopyPath,
    Divider,
    Delete,
}

/// The context menu of a file or a folder.
#[derive(Debug)]
pub struct FileMenu {
    pub path: String,
    pub is_dir: bool,
    pub anchor: (u16, u16),
    pub items: Vec<(FileMenuItem, Rect)>,
    /// The editors on offer: command and label.
    pub editors: Vec<(String, String)>,
}

/// The rows for a file or a folder.
pub open spec fn file_rows(is_dir: bool, editors: nat) -> Seq<FileMenuItem> {
    (if is_dir {
        seq![]
    } else {
        seq![FileMenuItem::OpenReadonly] + Seq::new(
            editors,
            |i: int| FileMenuItem::OpenWith(i as usize),
        ) + seq![FileMenuItem::Divider]
    }) + seq![
        FileMenuItem::NewFile,
        FileMenuItem::NewFolder,
        FileMenuItem::Rename,
        FileMenuItem::CopyPath,
        FileMenuItem::Divider,
        FileMenuItem::Delete,
    ]
}

impl FileMenu {
    /// The rows of the menu: for a file first how to open it.
    pub fn build_items(&self) -> (items: Vec<FileMenuItem>)
        ensures
            items@ == file_rows(self.is_dir, self.editors@.len()),
    {
        let mut items: Vec<FileMenuItem> = Vec::new();
        if !self.is_dir {
            items.push(FileMenuItem::OpenReadonly);
            let ghost before = items@;
            let n: usize = self.editors.len();
            let mut i: usize = 0;
            while i < n
                invariant
                    i <= n,
                    items@ == before + Seq::new(
                        i as nat,
                        |k: int| FileMenuItem::OpenWith(k as usize),
                    ),
                decreases n - i,
            {
                items.push(FileMenuItem::OpenWith(i));
                i = i + 1;
                assert(items@ =~= before + Seq::new(
                    i as nat,
                    |k: int| FileMenuItem::OpenWith(k as usize),
                ));
            }
            items.push(FileMenuItem::Divider);
        }
        items.push(FileMenuItem::NewFile);
        items.push(FileMenuItem::NewFolder);
        items.push(FileMenuItem::Rename);
        items.push(FileMenuItem::CopyPath);
        items.push(FileMenuItem::Divider);
        items.push(FileMenuItem::Delete);
        assert(items@ =~= file_rows(self.is_dir, self.editors@.len()));
        items
    }
}

/// What is asked for in the modal for a file's name.
#[derive(Clone, Copy, Debug, PartialEq, Eq, Structural)]
pub enum FilePromptKind {
    NewFile,
    NewFolder,
    Rename,
}

/// The modal in which a file is created or renamed.
#[derive(Debug)]
pub struct FilePrompt {
    pub kind: FilePromptKind,
    pub dir: String,
    pub target: Option<String>,
    pub buffer: String,
    pub error: Option<String>,
}

/// An entry of the list of diffs.
#[derive(Debug)]
pub struct DiffKey {
    pub path: String,
    pub staged: bool,
}

/// A row of the context menu of a diff.
#[derive(Clone, Copy, Debug, PartialEq, Eq, Structural)]
pub enum DiffMenuItem {
    OpenPreview,
    OpenPane,
    OpenTab,
    CopyPath,
}

/// The context menu of a diff.
#[derive(Debug)]
pub struct DiffMenu {
    pub key: DiffKey,
    pub anchor: (u16, u16),
    pub items: Vec<(DiffMenuItem, Rect)>,
}

/// The rows of the menu of a diff.
pub open spec fn diff_rows() -> Seq<DiffMenuItem> {
    seq![
        DiffMenuItem::OpenPreview,
        DiffMenuItem::OpenPane,
        DiffMenuItem::OpenTab,
        DiffMenuItem::CopyPath,
    ]
}

/// The rows of the menu of a diff.
pub fn build_diff_items() -> (items: Vec<DiffMenuItem>)
    ensures
        items@ == diff_rows(),
{
    let items = vec![
        DiffMenuItem::OpenPreview,
        DiffMenuItem::OpenPane,
        DiffMenuItem::OpenTab,
        DiffMenuItem::CopyPath,
    ];
    assert(items@ =~= diff_rows());
    items
}

// ---------------------------------------------------------------------------
// The switcher
// ---------------------------------------------------------------------------

/// Where the switcher leads.
#[derive(Clone, Copy, Debug, PartialEq, Eq, Structural)]
pub enum SwitcherTarget {
    Pane(PaneId),
    Tab { ws: usize, tab: usize },
    Workspace(usize),
    NewWorkspace,
    NewTab,
    Settings,
    MissionControl,
    Version,
    Exit,
}

/// A row of the switcher.
#[derive(Debug)]
pub enum SwitcherRow {
    Header(String),
    Agent { target: SwitcherTarget, state: State, title: String, location: String },
    Tab { target: SwitcherTarget, name: String, location: String, active: bool },
    Node { target: SwitcherTarget, name: String, branch: Option<String>, active: bool },
    Action { target: SwitcherTarget, label: String, detail: String },
}

/// Which sections the switcher shows.
#[derive(Clone, Copy, Debug, PartialEq, Eq, Structural)]
pub enum SwitcherScope {
    All,
    Agents,
    Tabs,
    Workspaces,
}

impl SwitcherScope {
    /// The scopes in order.
    pub open spec fn order() -> Seq<SwitcherScope> {
        seq![
            SwitcherScope::All,
            SwitcherScope::Agents,
            SwitcherScope::Tabs,
            SwitcherScope::Workspaces,
        ]
    }

    /// The scope after this one.
    pub open spec fn following(self) -> SwitcherScope {
        Self::order()[(Self::order().index_of(self) + 1) % 4]
    }

    /// The scopes in the order in which they are offered.
    pub fn all() -> (scopes: [SwitcherScope; 4])
        ensures
            scopes@ == Self::order(),
    {
        let scopes = [
            SwitcherScope::All,
            SwitcherScope::Agents,
            SwitcherScope::Tabs,
            SwitcherScope::Workspaces,
        ];
        assert(scopes@ =~= Self::order());
        scopes
    }

    /// Whether the section is shown.
    pub fn shows(self, section: SwitcherScope) -> (b: bool)
        ensures
            b == (self is All || self == section),
    {
        self == SwitcherScope::All || self == section
    }

    /// The scope after this one; after the last comes the first.
    pub fn next(self) -> (scope: SwitcherScope)
        ensures
            scope == self.following(),
    {
        proof {
            lemma_scope_positions();
        }
        match self {
            SwitcherScope::All => SwitcherScope::Agents,
            SwitcherScope::Agents => SwitcherScope::Tabs,
            SwitcherScope::Tabs => SwitcherScope::Workspaces,
            SwitcherScope::Workspaces => SwitcherScope::All,
        }
    }

    /// The label of the scope.
    pub fn label(self, cat: &Catalog) -> (label: &'static str)
        ensures
            label == (match self {
                SwitcherScope::All => cat.switch_scope_all,
                SwitcherScope::Agents => cat.agents,
                SwitcherScope::Tabs => cat.switch_scope_tabs,
                SwitcherScope::Workspaces => cat.workspaces,
            }),
    {
        match self {
            SwitcherScope::All => cat.switch_scope_all,
            SwitcherScope::Agents => cat.agents,
            SwitcherScope::Tabs => cat.switch_scope_tabs,
            SwitcherScope::Workspaces => cat.workspaces,
        }
    }
}

proof fn lemma_scope_positions()
    ensures
        SwitcherScope::order().index_of(SwitcherScope::All) == 0,
        SwitcherScope::order().index_of(SwitcherScope::Agents) == 1,
        SwitcherScope::order().index_of(SwitcherScope::Tabs) == 2,
        SwitcherScope::order().index_of(SwitcherScope::Workspaces) == 3,
{
    let o = SwitcherScope::order();
    assert(o[0] is All && o[1] is Agents && o[2] is Tabs && o[3] is Workspaces);
    assert(o.contains(SwitcherScope::All));
    assert(o.contains(SwitcherScope::Agents));
    assert(o.contains(SwitcherScope::Tabs));
    assert(o.contains(SwitcherScope::Workspaces));
}

/// Going on four times leads back, and to every scope on the way.
pub proof fn law_scopes_come_round(scope: SwitcherScope, other: SwitcherScope)
    ensures
        scope.following().following().following().following() == scope,
        other == scope || other == scope.following() || other == scope.following().following()
            || other == scope.following().following().following(),
{
    lemma_scope_positions();
}

// ---------------------------------------------------------------------------
// The task board and module settings
// ---------------------------------------------------------------------------

/// The form for a new task.
#[derive(Debug)]
pub struct OrchForm {
    pub title: String,
    pub paths: String,
    pub deps: String,
    pub gate: String,
    /// The field that is edited, in the order above.
    pub field: usize,
    pub error: Option<String>,
}

/// How many fields the form has.
pub const ORCH_FORM_FIELDS: usize = 4;

impl Default for OrchForm {
    fn default() -> (form: OrchForm)
        ensures
            form.title@.len() == 0,
            form.paths@.len() == 0,
            form.deps@.len() == 0,
            form.gate@.len() == 0,
            form.field == 0,
            form.error is None,
    {
        OrchForm {
            title: String::new(),
            paths: String::new(),
            deps: String::new(),
            gate: String::new(),
            field: 0,
            error: None,
        }
    }
}

impl OrchForm {
    /// The text of the field that is edited.
    pub fn active_mut(&mut self) -> (text: &mut String)
        ensures
            *text == (match old(self).field {
                0 => old(self).title,
                1 => old(self).paths,
                2 => old(self).deps,
                _ => old(self).gate,
            }),
            *final(self) == (match old(self).field {
                0 => (OrchForm { title: *final(text), ..*old(self) }),
                1 => (OrchForm { paths: *final(text), ..*old(self) }),
                2 => (OrchForm { deps: *final(text), ..*old(self) }),
                _ => (OrchForm { gate: *final(text), ..*old(self) }),
            }),
    {
        match self.field {
            0 => &mut self.title,
            1 => &mut self.paths,
            2 => &mut self.deps,
            _ => &mut self.gate,
        }
    }

    /// The texts of the fields in order.
    pub fn values(&self) -> (texts: [&String; 4])
        ensures
            texts@ == seq![&self.title, &self.paths, &self.deps, &self.gate],
    {
        let texts = [&self.title, &self.paths, &self.deps, &self.gate];
        assert(texts@ =~= seq![&self.title, &self.paths, &self.deps, &self.gate]);
        texts
    }
}

/// The choice of the agent that starts on a task.
#[derive(Debug)]
pub struct OrchStart {
    pub task: String,
    pub cursor: usize,
}

/// A setting of a module that is edited.
#[derive(Debug)]
pub struct ModuleSettingEdit {
    pub module_id: String,
    pub key: String,
    pub title: String,
    pub buffer: String,
    pub secret: bool,
}

// ---------------------------------------------------------------------------
// Texts
// ---------------------------------------------------------------------------

/// The texts of the user interface in one language.
#[derive(Clone, Copy, Debug)]
pub struct Catalog {
    pub act_close: &'static str,
    pub act_move: &'static str,
    pub agents: &'static str,
    pub files: &'static str,
    pub mc_open: &'static str,
    pub menu_delete_worktree: &'static str,
    pub menu_fork_pane: &'static str,
    pub menu_move_to_tab: &'static str,
    pub menu_new_tab: &'static str,
    pub menu_new_worktree: &'static str,
    pub menu_open_board: &'static str,
    pub menu_open_file: &'static str,
    pub menu_open_git: &'static str,
    pub menu_open_link: &'static str,
    pub menu_open_worktree: &'static str,
    pub menu_pin: &'static str,
    pub menu_rename: &'static str,
    pub menu_resume: &'static str,
    pub menu_running_cmd: &'static str,
    pub menu_split_horizontal: &'static str,
    pub menu_split_vertical: &'static str,
    pub menu_unpin: &'static str,
    pub mode_resize_hint: &'static str,
    pub side_left: &'static str,
    pub side_right: &'static str,
    pub sidebar_full: &'static str,
    pub switch_scope_all: &'static str,
    pub switch_scope_tabs: &'static str,
    pub tab_cannot_move_left: &'static str,
    pub tab_cannot_move_right: &'static str,
    pub tab_changed_rename_cancelled: &'static str,
    pub tab_changed_reopen_menu: &'static str,
    pub tab_swap_with: &'static str,
    pub workspaces: &'static str,
}

proof fn lemma_has_add<T>(a: Seq<T>, b: Seq<T>, x: T)
    ensures
        (a + b).contains(x) == (a.contains(x) || b.contains(x)),
{
    if a.contains(x) {
        let i = choose|i: int| 0 <= i < a.len() && a[i] == x;
        assert((a + b)[i] == x);
    }
    if b.contains(x) {
        let i = choose|i: int| 0 <= i < b.len() && b[i] == x;
        assert((a + b)[a.len() + i] == x);
    }
    if (a + b).contains(x) {
        let i = choose|i: int| 0 <= i < (a + b).len() && (a + b)[i] == x;
        if i < a.len() {
            assert(a[i] == x);
        } else {
            assert(b[i - a.len()] == x);
        }
    }
}

/// The rows of the tab menu are what can be done: a tab can be renamed, moved to a
/// side or exchanged exactly where its row is there.
pub proof fn law_tab_rows_are_what_can_be_done(menu: TabMenu)
    ensures
        menu.rows().contains(TabMenuItem::Rename) == menu.can_rename,
        menu.rows().contains(TabMenuItem::MoveLeft) == menu.can_move_left,
        menu.rows().contains(TabMenuItem::MoveRight) == menu.can_move_right,
        menu.rows().contains(TabMenuItem::SwapWith) == (menu.swap_targets@.len() > 0),
{
    lemma_tab_row(menu, TabMenuItem::Rename);
    lemma_tab_row(menu, TabMenuItem::MoveLeft);
    lemma_tab_row(menu, TabMenuItem::MoveRight);
    lemma_tab_row(menu, TabMenuItem::SwapWith);
}

spec fn one_if<T>(shown: bool, x: T) -> Seq<T> {
    if shown {
        seq![x]
    } else {
        seq![]
    }
}

proof fn lemma_one_if<T>(shown: bool, x: T, y: T)
    ensures
        one_if(shown, x).contains(y) == (shown && x == y),
{
    if shown {
        assert(seq![x][0] == x);
    }
}

proof fn lemma_tab_row(menu: TabMenu, x: TabMenuItem)
    requires
        x is Rename || x is MoveLeft || x is MoveRight || x is SwapWith,
    ensures
        menu.rows().contains(x) == (x is Rename && menu.can_rename || x is MoveLeft
            && menu.can_move_left || x is MoveRight && menu.can_move_right || x is SwapWith
            && menu.swap_targets@.len() > 0),
{
    let a = one_if(menu.can_rename, TabMenuItem::Rename);
    let b = one_if(menu.can_move_left, TabMenuItem::MoveLeft);
    let c = one_if(menu.can_move_right, TabMenuItem::MoveRight);
    let d = one_if(menu.swap_targets@.len() > 0, TabMenuItem::SwapWith);
    lemma_one_if(menu.can_rename, TabMenuItem::Rename, x);
    lemma_one_if(menu.can_move_left, TabMenuItem::MoveLeft, x);
    lemma_one_if(menu.can_move_right, TabMenuItem::MoveRight, x);
    lemma_one_if(menu.swap_targets@.len() > 0, TabMenuItem::SwapWith, x);
    lemma_has_add(a, b, x);
    lemma_has_add(a + b, c, x);
    lemma_has_add(a + b + c, d, x);
    let own = a + b + c + d;
    let modules = Seq::new(menu.module_actions@.len(), |i: int| TabMenuItem::Module(i as usize));
    assert(!modules.contains(x));
    lemma_has_add(own.push(TabMenuItem::Divider), modules, x);
    lemma_has_add(own, seq![TabMenuItem::Divider], x);
    assert(own.push(TabMenuItem::Divider) =~= own + seq![TabMenuItem::Divider]);
    lemma_one_if(true, TabMenuItem::Divider, x);
}

/// The rows of the workspace menu are what can be done: it can be unpinned where it
/// is pinned and pinned where it is not, its worktree can be deleted where it is one,
/// and what needs a repository is there where there is one. It can always be closed,
/// first of all, and renamed.
pub proof fn law_workspace_rows_are_what_can_be_done(
    pinned: bool,
    linked: bool,
    is_repo: bool,
    extras: nat,
)
    ensures
        ({
            let rows = ws_rows(pinned, linked, is_repo, extras);
            &&& rows[0] == WsMenuItem::Close
            &&& rows.contains(WsMenuItem::Rename)
            &&& rows.contains(WsMenuItem::Unpin) == pinned
            &&& rows.contains(WsMenuItem::Pin) == !pinned
            &&& rows.contains(WsMenuItem::DeleteWorktree) == linked
            &&& rows.contains(WsMenuItem::NewWorktree) == is_repo
            &&& rows.contains(WsMenuItem::OpenWorktree) == is_repo
            &&& rows.contains(WsMenuItem::OpenGit) == is_repo
            &&& rows.contains(WsMenuItem::OpenOrch)
            &&& rows.contains(WsMenuItem::OpenMission)
        }),
{
    lemma_ws_row(pinned, linked, is_repo, extras, WsMenuItem::Rename);
    lemma_ws_row(pinned, linked, is_repo, extras, WsMenuItem::Unpin);
    lemma_ws_row(pinned, linked, is_repo, extras, WsMenuItem::Pin);
    lemma_ws_row(pinned, linked, is_repo, extras, WsMenuItem::DeleteWorktree);
    lemma_ws_row(pinned, linked, is_repo, extras, WsMenuItem::NewWorktree);
    lemma_ws_row(pinned, linked, is_repo, extras, WsMenuItem::OpenWorktree);
    lemma_ws_row(pinned, linked, is_repo, extras, WsMenuItem::OpenGit);
    lemma_ws_row(pinned, linked, is_repo, extras, WsMenuItem::OpenOrch);
    lemma_ws_row(pinned, linked, is_repo, extras, WsMenuItem::OpenMission);
}

proof fn lemma_ws_row(pinned: bool, linked: bool, is_repo: bool, extras: nat, x: WsMenuItem)
    requires
        !(x is Divider) && !(x is Module),
    ensures
        ws_rows(pinned, linked, is_repo, extras).contains(x) == (match x {
            WsMenuItem::Unpin => pinned,
            WsMenuItem::Pin => !pinned,
            WsMenuItem::DeleteWorktree => linked,
            WsMenuItem::NewWorktree | WsMenuItem::OpenWorktree | WsMenuItem::OpenGit => is_repo,
            _ => true,
        }),
{
    let pin = if pinned {
        WsMenuItem::Unpin
    } else {
        WsMenuItem::Pin
    };
    let a = seq![WsMenuItem::Close, WsMenuItem::Rename, pin];
    let b = one_if(linked, WsMenuItem::DeleteWorktree);
    let c = if is_repo {
        seq![WsMenuItem::NewWorktree, WsMenuItem::OpenWorktree]
    } else {
        seq![]
    };
    let d = seq![WsMenuItem::Divider];
    let e = one_if(is_repo, WsMenuItem::OpenGit);
    let f = seq![WsMenuItem::OpenOrch, WsMenuItem::OpenMission];
    let g = if extras > 0 {
        seq![WsMenuItem::Divider] + Seq::new(extras, |i: int| WsMenuItem::Module(i as usize))
    } else {
        seq![]
    };
    lemma_has_add(a, b, x);
    lemma_has_add(a + b, c, x);
    lemma_has_add(a + b + c, d, x);
    lemma_has_add(a + b + c + d, e, x);
    lemma_has_add(a + b + c + d + e, f, x);
    lemma_has_add(a + b + c + d + e + f, g, x);
    lemma_one_if(linked, WsMenuItem::DeleteWorktree, x);
    lemma_one_if(is_repo, WsMenuItem::OpenGit, x);
    assert(a[0] == WsMenuItem::Close && a[1] == WsMenuItem::Rename && a[2] == pin);
    assert(f[0] == WsMenuItem::OpenOrch && f[1] == WsMenuItem::OpenMission);
    if is_repo {
        assert(c[0] == WsMenuItem::NewWorktree && c[1] == WsMenuItem::OpenWorktree);
    }
    assert(!g.contains(x));
    assert(!d.contains(x));
}

/// The rows of the pane menu are what can be done: a pane can be moved, forked, or
/// its link or file opened exactly where its row is there. It can always be split
/// both ways, renamed and closed.
pub proof fn law_pane_rows_are_what_can_be_done(
    has_move: bool,
    can_fork: bool,
    has_url: bool,
    has_file: bool,
    extras: nat,
)
    ensures
        ({
            let rows = pane_rows(has_move, can_fork, has_url, has_file, extras);
            &&& rows.contains(PaneMenuItem::SplitVertical)
            &&& rows.contains(PaneMenuItem::SplitHorizontal)
            &&& rows.contains(PaneMenuItem::RenamePane)
            &&& rows.contains(PaneMenuItem::Close)
            &&& rows.contains(PaneMenuItem::MoveToTab) == has_move
            &&& rows.contains(PaneMenuItem::ForkPane) == can_fork
            &&& rows.contains(PaneMenuItem::OpenLink) == has_url
            &&& rows.contains(PaneMenuItem::OpenFile) == has_file
        }),
{
    lemma_pane_row(has_move, can_fork, has_url, has_file, extras, PaneMenuItem::SplitVertical);
    lemma_pane_row(has_move, can_fork, has_url, has_file, extras, PaneMenuItem::SplitHorizontal);
    lemma_pane_row(has_move, can_fork, has_url, has_file, extras, PaneMenuItem::RenamePane);
    lemma_pane_row(has_move, can_fork, has_url, has_file, extras, PaneMenuItem::Close);
    lemma_pane_row(has_move, can_fork, has_url, has_file, extras, PaneMenuItem::MoveToTab);
    lemma_pane_row(has_move, can_fork, has_url, has_file, extras, PaneMenuItem::ForkPane);
    lemma_pane_row(has_move, can_fork, has_url, has_file, extras, PaneMenuItem::OpenLink);
    lemma_pane_row(has_move, can_fork, has_url, has_file, extras, PaneMenuItem::OpenFile);
}

proof fn lemma_pane_row(
    has_move: bool,
    can_fork: bool,
    has_url: bool,
    has_file: bool,
    extras: nat,
    x: PaneMenuItem,
)
    requires
        !(x is Divider) && !(x is Module),
    ensures
        pane_rows(has_move, can_fork, has_url, has_file, extras).contains(x) == (match x {
            PaneMenuItem::MoveToTab => has_move,
            PaneMenuItem::ForkPane => can_fork,
            PaneMenuItem::OpenLink => has_url,
            PaneMenuItem::OpenFile => has_file,
            _ => true,
        }),
{
    let a = seq![PaneMenuItem::SplitVertical, PaneMenuItem::SplitHorizontal];
    let b = one_if(can_fork, PaneMenuItem::ForkPane);
    let c = one_if(has_url, PaneMenuItem::OpenLink);
    let d = one_if(has_file, PaneMenuItem::OpenFile);
    let e = seq![PaneMenuItem::RunningCmd, PaneMenuItem::RenamePane];
    let f = one_if(has_move, PaneMenuItem::MoveToTab);
    let g = seq![PaneMenuItem::Divider, PaneMenuItem::Close];
    let h = if extras > 0 {
        seq![PaneMenuItem::Divider] + Seq::new(extras, |i: int| PaneMenuItem::Module(i as usize))
    } else {
        seq![]
    };
    lemma_has_add(a, b, x);
    lemma_has_add(a + b, c, x);
    lemma_has_add(a + b + c, d, x);
    lemma_has_add(a + b + c + d, e, x);
    lemma_has_add(a + b + c + d + e, f, x);
    lemma_has_add(a + b + c + d + e + f, g, x);
    lemma_has_add(a + b + c + d + e + f + g, h, x);
    lemma_one_if(can_fork, PaneMenuItem::ForkPane, x);
    lemma_one_if(has_url, PaneMenuItem::OpenLink, x);
    lemma_one_if(has_file, PaneMenuItem::OpenFile, x);
    lemma_one_if(has_move, PaneMenuItem::MoveToTab, x);
    assert(a[0] == PaneMenuItem::SplitVertical && a[1] == PaneMenuItem::SplitHorizontal);
    assert(e[0] == PaneMenuItem::RunningCmd && e[1] == PaneMenuItem::RenamePane);
    assert(g[0] == PaneMenuItem::Divider && g[1] == PaneMenuItem::Close);
    assert(!h.contains(x));
}

/// An agent that runs can be renamed, and pinned or unpinned, whichever it is not; a
/// stored session can be resumed. Either can be closed.
pub proof fn law_agent_rows_are_what_can_be_done(target: AgentTarget, pinned: bool)
    ensures
        match target {
            AgentTarget::Live(_) => agent_rows(target, pinned, 0) == seq![
                AgentMenuItem::RenamePane,
                AgentMenuItem::Close,
                if pinned {
                    AgentMenuItem::Unpin
                } else {
                    AgentMenuItem::Pin
                },
            ],
            AgentTarget::Session(_) => agent_rows(target, pinned, 0) == seq![
                AgentMenuItem::Resume,
                AgentMenuItem::Close,
            ],
        },
{
    match target {
        AgentTarget::Live(_) => {
            assert(agent_rows(target, pinned, 0) =~= seq![
                AgentMenuItem::RenamePane,
                AgentMenuItem::Close,
                if pinned {
                    AgentMenuItem::Unpin
                } else {
                    AgentMenuItem::Pin
                },
            ]);
        },
        AgentTarget::Session(_) => {
            assert(agent_rows(target, pinned, 0) =~= seq![
                AgentMenuItem::Resume,
                AgentMenuItem::Close,
            ]);
        },
    }
}

/// A file can be opened to be read, or with each editor; a folder cannot be. Deleting
/// comes last for either.
pub proof fn law_files_can_be_opened(is_dir: bool, editors: nat, i: int)
    requires
        0 <= i < editors <= usize::MAX,
    ensures
        ({
            let rows = file_rows(is_dir, editors);
            &&& rows.last() == FileMenuItem::Delete
            &&& !is_dir ==> rows[0] == FileMenuItem::OpenReadonly && rows[i + 1]
                == FileMenuItem::OpenWith(i as usize)
            &&& is_dir ==> rows[0] == FileMenuItem::NewFile && forall|k: int|
                0 <= k < rows.len() ==> !((#[trigger] rows[k]) is OpenWith) && !(
                rows[k] is OpenReadonly)
        }),
{
}

} // verus!
