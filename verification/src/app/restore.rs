//! The start of a session: anew, or from what was saved of the last one.
use vstd::prelude::*;
use vstd::string::*;

use super::agents;
use super::agents::drop_name;
use super::close;
use super::close::drop_index;
use super::panes;
use super::panes::saved_cwds;
use super::spaces;
use super::spaces::{new_workspace_at, Opening};
use super::{App, Effect, Module};
use crate::config;
use crate::config::Config;
use crate::docks::{SideView, Sidebars};
use crate::geometry::Rect;
use crate::ids;
use crate::ids::{has_id, PaneId, PaneMap};
use crate::layout;
use crate::layout::{Axis, TileLayout, TileNode};
use crate::menus::{Catalog, Mode, ViewKind};
use crate::status::{AgentSession, ModulePaneRecord, Pane, PaneStatus};
use crate::text;
use crate::text::{copy_texts, same_text};
use crate::workspace;
use crate::workspace::{GitView, Tab, Workspace, WorktreeMembership};

verus! {

/// What a session starts with.
#[derive(Debug)]
pub struct Setup {
    pub config: Config,
    pub catalog: Catalog,
    pub modules: Vec<Module>,
}

// ---------------------------------------------------------------------------
// Trees
// ---------------------------------------------------------------------------

/// A layout as it was saved. Panes are numbered as they were then.
#[derive(Debug)]
pub enum SavedTree {
    Leaf(u32),
    Split(Axis, Box<SavedTree>, Box<SavedTree>),
}

/// The pane that a number stands for now: the last that was restored for it.
pub open spec fn pane_for(remap: Seq<(u32, PaneId)>, raw: u32) -> Option<PaneId>
    decreases remap.len(),
{
    if remap.len() == 0 {
        None
    } else if remap.last().0 == raw {
        Some(remap.last().1)
    } else {
        pane_for(remap.drop_last(), raw)
    }
}

impl SavedTree {
    /// The tree of the panes that were restored; there is none where one of them
    /// was not.
    pub open spec fn node(self, remap: Seq<(u32, PaneId)>) -> Option<TileNode>
        decreases self,
    {
        match self {
            SavedTree::Leaf(raw) => match pane_for(remap, raw) {
                Some(id) => Some(TileNode::Leaf(id)),
                None => None,
            },
            SavedTree::Split(axis, a, b) => match (a.node(remap), b.node(remap)) {
                (Some(x), Some(y)) => Some(TileNode::Split(axis, Box::new(x), Box::new(y))),
                _ => None,
            },
        }
    }

    /// The layout of the panes that were restored. There is none where a pane is
    /// missing, or occurs twice.
    pub open spec fn layout(self, remap: Seq<(u32, PaneId)>, focus: u32) -> Option<TileLayout> {
        match self.node(remap) {
            Some(root) => if root.leaf_seq().no_duplicates() {
                Some(
                    TileLayout {
                        root,
                        focus: match pane_for(remap, focus) {
                            Some(id) => if root.leaf_seq().contains(id) {
                                id
                            } else {
                                root.leaf_seq()[0]
                            },
                            None => root.leaf_seq()[0],
                        },
                    },
                )
            } else {
                None
            },
            None => None,
        }
    }
}

/// The pane that a number stands for now.
fn find_pane_for(remap: &Vec<(u32, PaneId)>, raw: u32) -> (id: Option<PaneId>)
    ensures
        id == pane_for(remap@, raw),
{
    let mut i: usize = remap.len();
    assert(remap@.take(i as int) =~= remap@);
    while i > 0
        invariant
            i <= remap@.len(),
            pane_for(remap@, raw) == pane_for(remap@.take(i as int), raw),
        decreases i,
    {
        assert(remap@.take(i as int).drop_last() =~= remap@.take(i - 1));
        if remap[i - 1].0 == raw {
            return Some(remap[i - 1].1);
        }
        i = i - 1;
    }
    None
}

/// The tree of the panes that were restored.
fn build_node(tree: &SavedTree, remap: &Vec<(u32, PaneId)>) -> (node: Option<TileNode>)
    ensures
        node == tree.node(remap@),
    decreases tree,
{
    match tree {
        SavedTree::Leaf(raw) => match find_pane_for(remap, *raw) {
            Some(id) => Some(TileNode::Leaf(id)),
            None => None,
        },
        SavedTree::Split(axis, a, b) => {
            match (build_node(a, remap), build_node(b, remap)) {
                (Some(x), Some(y)) => Some(TileNode::Split(*axis, Box::new(x), Box::new(y))),
                _ => None,
            }
        },
    }
}

/// Whether no pane occurs twice.
fn all_distinct(list: &Vec<PaneId>) -> (b: bool)
    ensures
        b == list@.no_duplicates(),
{
    let mut i: usize = 0;
    while i < list.len()
        invariant
            i <= list@.len(),
            forall|a: int, b: int| 0 <= a < b < i ==> list@[a] != list@[b],
        decreases list@.len() - i,
    {
        let mut j: usize = 0;
        while j < i
            invariant
                j <= i < list@.len(),
                forall|a: int| 0 <= a < j ==> list@[a] != list@[i as int],
            decreases i - j,
        {
            if list[j] == list[i] {
                return false;
            }
            j = j + 1;
        }
        i = i + 1;
    }
    true
}

/// The layout of the panes that were restored.
pub fn from_tree(tree: &SavedTree, remap: &Vec<(u32, PaneId)>, focus: u32) -> (l: Option<TileLayout>)
    ensures
        l == tree.layout(remap@, focus),
        l is Some ==> l->0.wf(),
{
    let root: TileNode = match build_node(tree, remap) {
        Some(n) => n,
        None => {
            return None;
        },
    };
    proof {
        layout::lemma_leaves_nonempty(root);
    }
    let mut l = TileLayout { root, focus: PaneId(0) };
    let leaves = l.leaves();
    if !all_distinct(&leaves) {
        return None;
    }
    l.focus = leaves[0];
    match find_pane_for(remap, focus) {
        Some(id) => {
            if has_id(&leaves, id) {
                l.focus = id;
            }
        },
        None => {},
    }
    assert(l.leaf_seq().contains(l.leaf_seq()[0]));
    Some(l)
}

// ---------------------------------------------------------------------------
// Modules
// ---------------------------------------------------------------------------

/// The command of an entry point of a module.
pub open spec fn entry_in(module: Module, entrypoint: Seq<char>, n: int) -> Option<Seq<String>>
    decreases module.panes@.len() - n,
{
    if n < 0 || n >= module.panes@.len() {
        None
    } else if module.panes@[n].id@ == entrypoint {
        Some(module.panes@[n].command@)
    } else {
        entry_in(module, entrypoint, n + 1)
    }
}

/// The first module from `n` on with this identity.
pub open spec fn module_from(modules: Seq<Module>, id: Seq<char>, n: int) -> Option<int>
    decreases modules.len() - n,
{
    if n < 0 || n >= modules.len() {
        None
    } else if modules[n].id@ == id {
        Some(n)
    } else {
        module_from(modules, id, n + 1)
    }
}

/// What a module's pane runs.
pub open spec fn module_entry(modules: Seq<Module>, id: Seq<char>, entrypoint: Seq<char>) -> Option<
    Seq<String>,
> {
    match module_from(modules, id, 0) {
        Some(i) => if modules[i].runnable {
            entry_in(modules[i], entrypoint, 0)
        } else {
            None
        },
        None => None,
    }
}

/// What a saved pane of a module runs, where the module is still there and can
/// run. Without it the pane becomes a shell.
pub fn restore_module_pane(modules: &Vec<Module>, id: &str, entrypoint: &str) -> (command: Option<
    Vec<String>,
>)
    ensures
        match command {
            Some(c) => module_entry(modules@, id@, entrypoint@) == Some(c@),
            None => module_entry(modules@, id@, entrypoint@) is None,
        },
{
    let mut i: usize = 0;
    while i < modules.len() && !same_text(modules[i].id.as_str(), id)
        invariant
            i <= modules@.len(),
            module_from(modules@, id@, 0) == module_from(modules@, id@, i as int),
        decreases modules@.len() - i,
    {
        i = i + 1;
    }
    if i >= modules.len() || !modules[i].runnable {
        return None;
    }
    let mut n: usize = 0;
    while n < modules[i].panes.len()
        invariant
            i < modules@.len(),
            n <= modules@[i as int].panes@.len(),
            module_entry(modules@, id@, entrypoint@) == entry_in(
                modules@[i as int],
                entrypoint@,
                n as int,
            ),
        decreases modules@[i as int].panes@.len() - n,
    {
        if same_text(modules[i].panes[n].id.as_str(), entrypoint) {
            return Some(copy_texts(&modules[i].panes[n].command));
        }
        n = n + 1;
    }
    None
}

/// What is to be started for a saved pane.
#[derive(Debug)]
pub enum PanePlan {
    /// Nothing: it shows a file or a diff.
    View,
    /// The command of its module.
    Module(Vec<String>),
    /// A shell in the directory, or else in one of the others in turn.
    Shell { cwd: String, fallbacks: Vec<String> },
    /// Nothing can be: there is no directory left to start in.
    Nowhere,
}

/// The command of the module that a saved pane belongs to.
pub open spec fn saved_entry(modules: Seq<Module>, module: Option<ModulePaneRecord>) -> Option<
    Seq<String>,
> {
    match module {
        Some(m) => module_entry(modules, m.module_id@, m.entrypoint@),
        None => None,
    }
}

/// Decides what is to be started for a saved pane: for one of a module that still
/// runs, its command; else a shell in its own directory, that of its workspace, or
/// home, the first that is there. The flags say which are directories.
pub fn plan_pane(
    shows_view: bool,
    module: &Option<ModulePaneRecord>,
    modules: &Vec<Module>,
    own: (String, bool),
    workspace: (String, bool),
    home: (String, bool),
) -> (plan: PanePlan)
    ensures
        match plan {
            PanePlan::View => shows_view,
            PanePlan::Module(command) => !shows_view && saved_entry(modules@, *module) == Some(
                command@,
            ),
            PanePlan::Shell { cwd, fallbacks } => !shows_view && saved_entry(modules@, *module)
                is None && panes::in_turn(
                (own.0@, own.1),
                (workspace.0@, workspace.1),
                (home.0@, home.1),
            ) == seq![cwd@] + text::texts(fallbacks@),
            PanePlan::Nowhere => !shows_view && saved_entry(modules@, *module) is None
                && !own.1 && !workspace.1 && !home.1,
        },
{
    if shows_view {
        return PanePlan::View;
    }
    match module {
        Some(m) => {
            match restore_module_pane(modules, m.module_id.as_str(), m.entrypoint.as_str()) {
                Some(command) => {
                    return PanePlan::Module(command);
                },
                None => {},
            }
        },
        None => {},
    }
    let mut dirs = saved_cwds(own, workspace, home);
    let ghost all = text::texts(dirs@);
    if dirs.len() == 0 {
        assert(all.len() == 0);
        return PanePlan::Nowhere;
    }
    let cwd = dirs.remove(0);
    assert(all =~= seq![cwd@] + text::texts(dirs@));
    PanePlan::Shell { cwd, fallbacks: dirs }
}

// ---------------------------------------------------------------------------
// Starting anew
// ---------------------------------------------------------------------------

/// The sidebars that the settings describe.
pub open spec fn sidebars_of(config: Config) -> (SideView, SideView) {
    let c = match config.sidebars {
        Some(c) => c@,
        None => config::legacy_sidebars(config.sidebar_width),
    };
    (SideView::of_config(c.0), SideView::of_config(c.1))
}

/// Whether the index leads from each terminal to its pane.
pub open spec fn is_index(index: Seq<(String, PaneId)>, panes: Map<PaneId, Pane>) -> bool {
    &&& forall|k: int|
        0 <= k < index.len() ==> panes.dom().contains((#[trigger] index[k]).1)
            && panes[index[k].1].terminal_id == Some(index[k].0)
    &&& forall|p: PaneId| #[trigger]
        panes.dom().contains(p) && panes[p].terminal_id is Some ==> exists|k: int|
            0 <= k < index.len() && (#[trigger] index[k]).1 == p
    &&& forall|i: int, j: int|
        0 <= i < j < index.len() ==> (#[trigger] index[i]).1 != (#[trigger] index[j]).1
}

/// The index from terminals to their panes.
fn index_panes(panes: &PaneMap<Pane>) -> (index: Vec<(String, PaneId)>)
    requires
        panes.wf(),
    ensures
        is_index(index@, panes@),
{
    let mut index: Vec<(String, PaneId)> = Vec::new();
    let mut i: usize = 0;
    proof {
        panes.lemma_entries();
    }
    while i < panes.entries.len()
        invariant
            panes.wf(),
            i <= panes.entries@.len(),
            forall|k: int|
                0 <= k < index@.len() ==> panes@.dom().contains((#[trigger] index@[k]).1)
                    && panes@[index@[k].1].terminal_id == Some(index@[k].0),
            forall|k: int|
                0 <= k < index@.len() ==> exists|e: int|
                    0 <= e < i && (#[trigger] panes.entries@[e]).0 == (#[trigger] index@[k]).1,
            forall|e: int|
                0 <= e < i && (#[trigger] panes.entries@[e]).1.terminal_id is Some ==> exists|
                    k: int,
                |
                    0 <= k < index@.len() && (#[trigger] index@[k]).1 == panes.entries@[e].0,
            forall|a: int, b: int|
                0 <= a < b < index@.len() ==> (#[trigger] index@[a]).1 != (#[trigger] index@[b]).1,
        decreases panes.entries@.len() - i,
    {
        proof {
            panes.lemma_entries();
        }
        let ghost before = index@;
        let entry = &panes.entries[i];
        match &entry.1.terminal_id {
            Some(t) => {
                index.push((t.clone(), entry.0));
                proof {
                    assert(index@[before.len() as int].1 == panes.entries@[i as int].0);
                    assert forall|e: int|
                        0 <= e < i + 1 && (#[trigger] panes.entries@[e]).1.terminal_id is Some
                        implies exists|k: int|
                        0 <= k < index@.len() && (#[trigger] index@[k]).1
                            == panes.entries@[e].0 by {
                        if e < i {
                            let k = choose|k: int|
                                0 <= k < before.len() && (#[trigger] before[k]).1
                                    == panes.entries@[e].0;
                            assert(index@[k].1 == panes.entries@[e].0);
                        }
                    }
                    assert forall|a: int, b: int| 0 <= a < b < index@.len() implies (
                    #[trigger] index@[a]).1 != (#[trigger] index@[b]).1 by {
                        assert(before[a] == index@[a]);
                        if b < before.len() {
                            assert(before[b] == index@[b]);
                        } else {
                            let e = choose|e: int|
                                0 <= e < i && (#[trigger] panes.entries@[e]).0 == before[a].1;
                            assert(panes.entries@[e].0 != panes.entries@[i as int].0);
                        }
                    }
                    assert forall|k: int| 0 <= k < index@.len() implies exists|e: int|
                        0 <= e < i + 1 && (#[trigger] panes.entries@[e]).0
                            == (#[trigger] index@[k]).1 by {
                        if k < before.len() {
                            assert(before[k] == index@[k]);
                            let e = choose|e: int|
                                0 <= e < i && (#[trigger] panes.entries@[e]).0 == before[k].1;
                            assert(panes.entries@[e].0 == index@[k].1);
                        } else {
                            assert(panes.entries@[i as int].0 == index@[k].1);
                        }
                    }
                }
            },
            None => {},
        }
        i = i + 1;
    }
    proof {
        panes.lemma_entries();
        assert forall|p: PaneId| #[trigger]
            panes@.dom().contains(p) && panes@[p].terminal_id is Some implies exists|k: int|
            0 <= k < index@.len() && (#[trigger] index@[k]).1 == p by {
            let e = choose|e: int|
                0 <= e < panes.entries@.len() && (#[trigger] panes.entries@[e]).0 == p;
            assert(panes@[p] == panes.entries@[e].1);
        }
    }
    index
}

impl App {
    /// Whether everything but the panes and workspaces is as it is at the start.
    pub open spec fn starts_with(&self, setup: Setup) -> bool {
        &&& self.backend_labels@ == Map::<PaneId, String>::empty()
        &&& self.catalog == setup.catalog
        &&& self.config == setup.config
        &&& self.modules == setup.modules
        &&& self.sidebars@ == sidebars_of(setup.config)
        &&& self.pane_title_rects@.len() == 0
        &&& self.worktree_prompt is None
        &&& self.tab_rename is None
        &&& self.tab_menu is None
        &&& self.ws_menu is None
        &&& self.worktree_delete is None
        &&& self.pane_menu is None
        &&& self.agent_menu is None
        &&& self.pinned_agents@.len() == 0
        &&& self.ws_rename is None
        &&& self.pane_rename is None
        &&& self.worktree_repo is None
        &&& self.worktree_error is None
        &&& self.mode is Normal
        &&& self.module_docks@.len() == 0
        &&& !self.zoomed
        &&& !self.should_quit
        &&& !self.server_mode
        &&& !self.end_session
        &&& self.selection is None
        &&& self.copy_mode is None
        &&& self.toast is None
        &&& !self.downsample
        &&& self.resumable@.len() == 0
        &&& !self.sessions_scan_inflight
        &&& self.proc_commands@ == Map::<PaneId, Vec<String>>::empty()
        &&& !self.proc_scan_inflight
        &&& self.dismissed_sessions@.len() == 0
        &&& self.file_menu is None
        &&& self.diff_menu is None
        &&& self.dock_menu is None
        &&& !self.compact
        &&& self.editor_files@ == Map::<PaneId, String>::empty()
        &&& self.preview_views@.len() == 0
        &&& self.hover is None
        &&& self.starts_undrawn()
    }

    /// Whether nothing was drawn yet.
    pub open spec fn starts_undrawn(&self) -> bool {
        &&& self.last_pane_area == Rect::zero()
        &&& self.pane_rects@.len() == 0
        &&& self.pane_content_rects@.len() == 0
        &&& self.scroll_pane is None
        &&& self.resize_drag is None
        &&& self.hover_divider is None
        &&& self.sidebar_resize is None
        &&& self.hover_sidebar is None
        &&& self.left_seam is None
        &&& self.right_seam is None
        &&& self.last_main_area == Rect::zero()
        &&& self.pane_close_rect is None
        &&& self.pane_zoom_rect is None
    }

    /// A session without panes and workspaces.
    fn without_workspaces(setup: Setup) -> (app: App)
        ensures
            app.wf(),
            app.starts_with(setup),
            app.panes@ == Map::<PaneId, Pane>::empty(),
            app.backend_terminal_index@.len() == 0,
            app.status@ == Map::<PaneId, PaneStatus>::empty(),
            app.agent_names@.len() == 0,
            app.workspaces@.len() == 0,
            app.active_ws == 0,
            !app.session_dirty,
            app.views@ == Map::<PaneId, ViewKind>::empty(),
            app.module_panes@ == Map::<PaneId, ModulePaneRecord>::empty(),
            app.outbox@.len() == 0,
    {
        let nowhere = Rect { x: 0, y: 0, width: 0, height: 0 };
        let sidebars = Sidebars::from_config(&setup.config.sidebars());
        App {
            panes: PaneMap::new(),
            backend_terminal_index: Vec::new(),
            backend_labels: PaneMap::new(),
            status: PaneMap::new(),
            agent_names: Vec::new(),
            workspaces: Vec::new(),
            active_ws: 0,
            catalog: setup.catalog,
            config: setup.config,
            pane_title_rects: Vec::new(),
            worktree_prompt: None,
            tab_rename: None,
            tab_menu: None,
            ws_menu: None,
            worktree_delete: None,
            pane_menu: None,
            agent_menu: None,
            pinned_agents: Vec::new(),
            ws_rename: None,
            pane_rename: None,
            worktree_repo: None,
            worktree_error: None,
            mode: Mode::Normal,
            sidebars,
            module_docks: Vec::new(),
            zoomed: false,
            should_quit: false,
            server_mode: false,
            session_dirty: false,
            end_session: false,
            selection: None,
            copy_mode: None,
            toast: None,
            downsample: false,
            resumable: Vec::new(),
            sessions_scan_inflight: false,
            proc_commands: PaneMap::new(),
            proc_scan_inflight: false,
            dismissed_sessions: Vec::new(),
            file_menu: None,
            diff_menu: None,
            dock_menu: None,
            compact: false,
            views: PaneMap::new(),
            editor_files: PaneMap::new(),
            preview_views: Vec::new(),
            hover: None,
            last_pane_area: nowhere,
            pane_rects: Vec::new(),
            pane_content_rects: Vec::new(),
            scroll_pane: None,
            resize_drag: None,
            hover_divider: None,
            sidebar_resize: None,
            hover_sidebar: None,
            left_seam: None,
            right_seam: None,
            last_main_area: nowhere,
            pane_close_rect: None,
            pane_zoom_rect: None,
            modules: setup.modules,
            module_panes: PaneMap::new(),
            outbox: Vec::new(),
        }
    }

    /// Whether this is a new session: one workspace with one shell, still to be
    /// saved.
    pub open spec fn is_started(
        &self,
        setup: Setup,
        cwd: Seq<char>,
        opening: Opening,
        pane: Pane,
        now: u64,
    ) -> bool {
        &&& self.starts_with(setup)
        &&& self.panes@ == Map::<PaneId, Pane>::empty().insert(opening.pane, pane)
        &&& is_index(self.backend_terminal_index@, self.panes@)
        &&& self.status@.dom() == set![opening.pane]
        &&& self.status@[opening.pane].is_new(pane.command@, now)
        &&& self.agent_names@.len() == 0
        &&& self.workspaces@.len() == 1
        &&& spaces::is_new_workspace(
            self.workspaces@[0],
            cwd,
            (Opening { branch: None, ..opening }),
        )
        &&& self.active_ws == 0
        &&& self.session_dirty
        &&& self.views@ == Map::<PaneId, ViewKind>::empty()
        &&& self.module_panes@ == Map::<PaneId, ModulePaneRecord>::empty()
        &&& self.outbox@.len() == 0
    }

    /// A new session at the directory, where its first shell could be started.
    pub fn new(setup: Setup, cwd: String, opening: Opening, now: u64) -> (r: Option<App>)
        ensures
            match r {
                Some(app) => app.wf() && opening.spawned is Some && app.is_started(
                    setup,
                    cwd@,
                    opening,
                    opening.spawned->0,
                    now,
                ),
                None => opening.spawned is None,
            },
    {
        let ghost given = opening;
        let pane = match opening.spawned {
            Some(p) => p,
            None => {
                return None;
            },
        };
        let mut app = App::without_workspaces(setup);
        let id = opening.pane;
        app.status.insert(id, PaneStatus::new(pane.command.clone(), now));
        app.panes.insert(id, pane);
        let index = index_panes(&app.panes);
        app.backend_terminal_index = index;
        let w = new_workspace_at(
            cwd,
            opening.workspace_id,
            opening.tab_id,
            None,
            opening.worktree,
            id,
        );
        assert(workspace::tree_wf(app.workspaces@.push(w))) by {
            spaces::lemma_new_workspace(w, given.tab_id, id);
            workspace::lemma_tree_push(app.workspaces@, w);
        }
        app.workspaces.push(w);
        app.session_dirty = true;
        assert(app.status@.dom() =~= set![id]);
        Some(app)
    }
}

// ---------------------------------------------------------------------------
// What was saved
// ---------------------------------------------------------------------------

/// What came of a saved pane.
#[derive(Debug)]
pub enum Restored {
    /// It shows a file or a diff again.
    View(ViewKind),
    /// It runs again; where its module still can, as that module's pane.
    Live(Pane, Option<ModulePaneRecord>),
    /// Nothing could be started in its place.
    Lost,
}

/// A saved pane.
#[derive(Debug)]
pub struct SavedPane {
    /// Its number when it was saved.
    pub raw: u32,
    /// Its identity now.
    pub id: PaneId,
    pub name: Option<String>,
    pub outcome: Restored,
    /// The agent's own session that ran there.
    pub session: Option<AgentSession>,
    /// The line that resumes that session.
    pub resume: Option<String>,
    /// Whether the shell can be started on that line, so that it need not be
    /// typed.
    pub direct: bool,
}

/// A saved tab. One that is a dashboard has no panes of its own.
#[derive(Debug)]
pub struct SavedTab {
    pub id: String,
    pub name: Option<String>,
    pub git: bool,
    pub orch: bool,
    pub mission: bool,
    /// The identity that stands in a dashboard's layout.
    pub placeholder: PaneId,
    pub panes: Vec<SavedPane>,
    pub tree: SavedTree,
    pub focus: u32,
}

/// A saved workspace.
#[derive(Debug)]
pub struct SavedWorkspace {
    pub id: String,
    pub name: String,
    pub cwd: String,
    pub pinned: bool,
    pub active_tab: usize,
    pub tabs: Vec<SavedTab>,
    /// Whether its directory is in a repository now.
    pub is_repo: bool,
    pub worktree: Option<WorktreeMembership>,
}

/// A saved session.
#[derive(Debug)]
pub struct SavedSession {
    pub workspaces: Vec<SavedWorkspace>,
    pub active_ws: usize,
}

// ---------------------------------------------------------------------------
// What is restored
// ---------------------------------------------------------------------------

/// The numbering without an entry for the number.
pub open spec fn without_raw(remap: Seq<(u32, PaneId)>, raw: u32) -> Seq<(u32, PaneId)>
    decreases remap.len(),
{
    if remap.len() == 0 {
        remap
    } else if remap.last().0 == raw {
        without_raw(remap.drop_last(), raw)
    } else {
        without_raw(remap.drop_last(), raw).push(remap.last())
    }
}

/// Which panes the numbers stand for: the last that was restored, for each.
pub open spec fn remap_of(panes: Seq<SavedPane>) -> Seq<(u32, PaneId)>
    decreases panes.len(),
{
    if panes.len() == 0 {
        Seq::empty()
    } else {
        let before = remap_of(panes.drop_last());
        let p = panes.last();
        if p.outcome is Lost {
            before
        } else {
            without_raw(before, p.raw).push((p.raw, p.id))
        }
    }
}

/// The panes of a numbering.
pub open spec fn remapped(remap: Seq<(u32, PaneId)>) -> Seq<PaneId> {
    Seq::new(remap.len(), |i: int| remap[i].1)
}

impl SavedTab {
    /// Whether it has no panes of its own.
    pub open spec fn is_dashboard(self) -> bool {
        self.git || self.orch || self.mission
    }

    /// The layout of what could be restored of it.
    pub open spec fn layout(self) -> Option<TileLayout> {
        self.tree.layout(remap_of(self.panes@), self.focus)
    }

    /// The identities that it may hold.
    pub open spec fn ids(self) -> Seq<PaneId> {
        if self.is_dashboard() {
            seq![self.placeholder]
        } else {
            Seq::new(self.panes@.len(), |i: int| self.panes@[i].id)
        }
    }

    /// The tab that it becomes. A git dashboard is kept where the directory is
    /// still in a repository. Any other tab is kept where its layout can be.
    pub open spec fn restored(self, cwd: String, is_repo: bool) -> Option<Tab> {
        let placed = TileLayout {
            root: TileNode::Leaf(self.placeholder),
            focus: self.placeholder,
        };
        if self.git {
            if is_repo {
                Some(
                    Tab {
                        id: self.id,
                        layout: placed,
                        git: Some(GitView { root: cwd }),
                        orch: false,
                        mission: false,
                        name: None,
                    },
                )
            } else {
                None
            }
        } else if self.orch || self.mission {
            Some(
                Tab {
                    id: self.id,
                    layout: placed,
                    git: None,
                    orch: self.orch,
                    mission: !self.orch,
                    name: None,
                },
            )
        } else {
            match self.layout() {
                Some(layout) => Some(
                    Tab {
                        id: self.id,
                        layout,
                        git: None,
                        orch: false,
                        mission: false,
                        name: self.name,
                    },
                ),
                None => None,
            }
        }
    }
}

/// The tabs that the saved ones become.
pub open spec fn restored_tabs(tabs: Seq<SavedTab>, cwd: String, is_repo: bool) -> Seq<Tab>
    decreases tabs.len(),
{
    if tabs.len() == 0 {
        Seq::empty()
    } else {
        let before = restored_tabs(tabs.drop_last(), cwd, is_repo);
        match tabs.last().restored(cwd, is_repo) {
            Some(t) => before.push(t),
            None => before,
        }
    }
}

impl SavedWorkspace {
    /// The tabs that its own become.
    pub open spec fn kept_tabs(self) -> Seq<Tab> {
        restored_tabs(self.tabs@, self.cwd, self.is_repo)
    }

    /// Whether it becomes this workspace.
    pub open spec fn becomes(self, w: Workspace) -> bool {
        &&& w.id == self.id
        &&& w.name == self.name
        &&& w.cwd == self.cwd
        &&& w.branch is None
        &&& w.git_ahead_behind is None
        &&& w.worktree == self.worktree
        &&& w.pinned == self.pinned
        &&& w.tabs@ == self.kept_tabs()
        &&& w.active_tab == (if self.active_tab < w.tabs@.len() {
            self.active_tab as int
        } else {
            w.tabs@.len() - 1
        })
    }
}

/// The workspaces of which a tab is left.
pub open spec fn kept_workspaces(spaces: Seq<SavedWorkspace>) -> Seq<SavedWorkspace>
    decreases spaces.len(),
{
    if spaces.len() == 0 {
        spaces
    } else {
        let before = kept_workspaces(spaces.drop_last());
        if spaces.last().kept_tabs().len() == 0 {
            before
        } else {
            before.push(spaces.last())
        }
    }
}

/// The agent of a pane and its session: as saved, else by the pane's command.
pub open spec fn known_agent(session: Option<AgentSession>, pane: Pane) -> (
    String,
    Option<AgentSession>,
) {
    match session {
        Some(s) => (s.agent, session),
        None => (pane.command, None),
    }
}

/// What is known of the panes of a session that is being restored.
#[verifier::ext_equal]
pub struct Revival {
    pub panes: Map<PaneId, Pane>,
    /// The agent of each pane and its session.
    pub known: Map<PaneId, (String, Option<AgentSession>)>,
    pub views: Map<PaneId, ViewKind>,
    pub modules: Map<PaneId, ModulePaneRecord>,
    pub names: Seq<(String, PaneId)>,
    pub sends: Seq<Effect>,
}

impl Revival {
    /// Nothing yet.
    pub open spec fn nothing() -> Revival {
        Revival {
            panes: Map::empty(),
            known: Map::empty(),
            views: Map::empty(),
            modules: Map::empty(),
            names: Seq::empty(),
            sends: Seq::empty(),
        }
    }

    /// With the name of a pane, where it has one.
    pub open spec fn with_name(self, name: Option<String>, id: PaneId) -> Revival {
        match name {
            Some(n) => Revival { names: self.names.push((n, id)), ..self },
            None => self,
        }
    }

    /// With one more pane. Its name is kept for now whatever came of it. A
    /// resumed agent's line is typed where the shell was not started on it.
    pub open spec fn with_pane(self, p: SavedPane) -> Revival {
        let named = self.with_name(p.name, p.id);
        match p.outcome {
            Restored::View(v) => Revival { views: self.views.insert(p.id, v), ..named },
            Restored::Live(pane, module) => Revival {
                panes: self.panes.insert(p.id, pane),
                known: self.known.insert(p.id, known_agent(p.session, pane)),
                modules: match module {
                    Some(m) => self.modules.insert(p.id, m),
                    None => self.modules,
                },
                sends: if p.session is Some && !(p.direct && module is None) && p.resume is Some {
                    self.sends.push(Effect::Send { pane: p.id, text: p.resume->0 })
                } else {
                    self.sends
                },
                ..named
            },
            Restored::Lost => named,
        }
    }

    /// With the panes.
    pub open spec fn with_panes(self, panes: Seq<SavedPane>) -> Revival
        decreases panes.len(),
    {
        if panes.len() == 0 {
            self
        } else {
            self.with_panes(panes.drop_last()).with_pane(panes.last())
        }
    }

    /// Without the panes of a tab that could not be laid out.
    pub open spec fn without(self, gone: Seq<PaneId>) -> Revival {
        Revival {
            panes: ids::map_without(self.panes, gone),
            known: ids::map_without(self.known, gone),
            modules: ids::map_without(self.modules, gone),
            ..self
        }
    }

    /// With what could be restored of one more tab.
    pub open spec fn with_tab(self, tab: SavedTab) -> Revival {
        if tab.is_dashboard() {
            self
        } else if tab.layout() is Some {
            self.with_panes(tab.panes@)
        } else {
            self.with_panes(tab.panes@).without(remapped(remap_of(tab.panes@)))
        }
    }

    /// With what could be restored of the tabs.
    pub open spec fn with_tabs(self, tabs: Seq<SavedTab>) -> Revival
        decreases tabs.len(),
    {
        if tabs.len() == 0 {
            self
        } else {
            self.with_tabs(tabs.drop_last()).with_tab(tabs.last())
        }
    }

    /// With what could be restored of the workspaces.
    pub open spec fn with_workspaces(self, spaces: Seq<SavedWorkspace>) -> Revival
        decreases spaces.len(),
    {
        if spaces.len() == 0 {
            self
        } else {
            self.with_workspaces(spaces.drop_last()).with_tabs(spaces.last().tabs@)
        }
    }
}

/// The names that still stand for a pane. Of two equal names the later one
/// stands.
pub open spec fn standing_names(names: Seq<(String, PaneId)>, panes: Map<PaneId, Pane>) -> Seq<
    (String, PaneId),
>
    decreases names.len(),
{
    if names.len() == 0 {
        names
    } else {
        let before = standing_names(names.drop_last(), panes);
        let (name, id) = names.last();
        if panes.dom().contains(id) {
            agents::without_name(close::index_without(before, id), name@).push((name, id))
        } else {
            before
        }
    }
}

/// Whether this is what is known of a restored pane.
pub open spec fn is_revived(
    s: PaneStatus,
    known: (String, Option<AgentSession>),
    now: u64,
) -> bool {
    &&& (PaneStatus { agent_session: None, ..s }).is_new(known.0@, now)
    &&& s.agent_session == known.1
}

/// Whether this is what is known of the restored panes.
pub open spec fn are_revived(
    status: Map<PaneId, PaneStatus>,
    known: Map<PaneId, (String, Option<AgentSession>)>,
    now: u64,
) -> bool {
    &&& status.dom() == known.dom()
    &&& forall|p: PaneId|
        known.dom().contains(p) ==> is_revived(#[trigger] status[p], known[p], now)
}

/// Whether a tab of the saved workspaces may hold the identity.
pub open spec fn saved_at(spaces: Seq<SavedWorkspace>, w: int, t: int, p: PaneId) -> bool {
    &&& 0 <= w < spaces.len()
    &&& 0 <= t < spaces[w].tabs@.len()
    &&& spaces[w].tabs@[t].ids().contains(p)
}

/// Whether no identity was given out to two tabs.
pub open spec fn ids_apart(spaces: Seq<SavedWorkspace>) -> bool {
    forall|w: int, t: int, v: int, u: int, p: PaneId|
        #[trigger] saved_at(spaces, w, t, p) && #[trigger] saved_at(spaces, v, u, p) ==> w == v
            && t == u
}

// ---------------------------------------------------------------------------
// Restoring
// ---------------------------------------------------------------------------

/// The panes of a session that is being restored.
struct Revived {
    panes: PaneMap<Pane>,
    status: PaneMap<PaneStatus>,
    views: PaneMap<ViewKind>,
    modules: PaneMap<ModulePaneRecord>,
    names: Vec<(String, PaneId)>,
    sends: Vec<Effect>,
}

impl Revived {
    /// Whether it holds just this.
    spec fn holds(self, r: Revival, now: u64) -> bool {
        &&& self.panes.wf()
        &&& self.status.wf()
        &&& self.views.wf()
        &&& self.modules.wf()
        &&& self.panes@ == r.panes
        &&& are_revived(self.status@, r.known, now)
        &&& self.views@ == r.views
        &&& self.modules@ == r.modules
        &&& self.names@ == r.names
        &&& self.sends@ == r.sends
    }

    fn new(now: u64) -> (v: Revived)
        ensures
            v.holds(Revival::nothing(), now),
    {
        let v = Revived {
            panes: PaneMap::new(),
            status: PaneMap::new(),
            views: PaneMap::new(),
            modules: PaneMap::new(),
            names: Vec::new(),
            sends: Vec::new(),
        };
        assert(v.status@.dom() =~= Revival::nothing().known.dom());
        v
    }

    /// Takes up a pane that runs again.
    fn add_live(
        &mut self,
        id: PaneId,
        pane: Pane,
        module: Option<ModulePaneRecord>,
        session: Option<AgentSession>,
        resume: Option<String>,
        direct: bool,
        now: u64,
        Ghost(r): Ghost<Revival>,
    )
        requires
            old(self).holds(r, now),
        ensures
            final(self).holds(
                r.with_pane(
                    SavedPane {
                        raw: 0,
                        id,
                        name: None,
                        outcome: Restored::Live(pane, module),
                        session,
                        resume,
                        direct,
                    },
                ),
                now,
            ),
    {
        let ghost known = known_agent(session, pane);
        let typed = match (&session, &module) {
            (Some(_), Some(_)) => true,
            (Some(_), None) => !direct,
            (None, _) => false,
        };
        let mut st = PaneStatus::new(pane.command.clone(), now);
        match session {
            Some(s) => {
                st.agent = s.agent.clone();
                st.agent_session = Some(s);
            },
            None => {},
        }
        assert(is_revived(st, known, now));
        if typed {
            match resume {
                Some(text) => {
                    self.sends.push(Effect::Send { pane: id, text });
                },
                None => {},
            }
        }
        match module {
            Some(m) => {
                self.modules.insert(id, m);
            },
            None => {},
        }
        self.panes.insert(id, pane);
        self.status.insert(id, st);
        assert(self.status@.dom() =~= r.known.insert(id, known).dom());
    }

    /// Takes up what came of a saved pane.
    fn add(&mut self, p: SavedPane, now: u64, Ghost(r): Ghost<Revival>)
        requires
            old(self).holds(r, now),
        ensures
            final(self).holds(r.with_pane(p), now),
    {
        let ghost named = r.with_name(p.name, p.id);
        match p.name {
            Some(name) => {
                self.names.push((name, p.id));
            },
            None => {},
        }
        match p.outcome {
            Restored::View(view) => {
                self.views.insert(p.id, view);
            },
            Restored::Live(pane, module) => {
                self.add_live(
                    p.id,
                    pane,
                    module,
                    p.session,
                    p.resume,
                    p.direct,
                    now,
                    Ghost(named),
                );
            },
            Restored::Lost => {},
        }
    }

    /// Drops the panes of a tab that could not be laid out.
    fn drop_panes(&mut self, remap: &Vec<(u32, PaneId)>, now: u64, Ghost(r): Ghost<Revival>)
        requires
            old(self).holds(r, now),
        ensures
            final(self).holds(r.without(remapped(remap@)), now),
    {
        let ghost all = remapped(remap@);
        let mut i: usize = 0;
        assert(all.take(0) =~= Seq::<PaneId>::empty());
        assert(r.without(all.take(0)) =~= r);
        while i < remap.len()
            invariant
                i <= remap@.len(),
                all == remapped(remap@),
                self.holds(r.without(all.take(i as int)), now),
            decreases remap@.len() - i,
        {
            let ghost before = r.without(all.take(i as int));
            assert(all.take(i + 1).drop_last() =~= all.take(i as int));
            let id = remap[i].1;
            self.panes.remove(id);
            self.status.remove(id);
            self.modules.remove(id);
            assert(self.status@.dom() =~= before.known.remove(id).dom());
            i = i + 1;
        }
        assert(all.take(i as int) =~= all);
    }
}

/// Notes which pane the number stands for.
fn remember(remap: &mut Vec<(u32, PaneId)>, raw: u32, id: PaneId)
    ensures
        final(remap)@ == without_raw(old(remap)@, raw).push((raw, id)),
{
    let mut out: Vec<(u32, PaneId)> = Vec::new();
    let mut i: usize = 0;
    let ghost all = remap@;
    assert(all.take(0) =~= Seq::<(u32, PaneId)>::empty());
    while i < remap.len()
        invariant
            i <= remap@.len(),
            all == remap@,
            out@ == without_raw(all.take(i as int), raw),
        decreases remap@.len() - i,
    {
        assert(all.take(i + 1).drop_last() =~= all.take(i as int));
        if remap[i].0 != raw {
            out.push(remap[i]);
        }
        i = i + 1;
    }
    assert(all.take(i as int) =~= all);
    out.push((raw, id));
    *remap = out;
}

/// Takes up the panes of a tab and returns which pane each number stands for.
fn revive_panes(v: &mut Revived, panes: Vec<SavedPane>, now: u64, Ghost(r): Ghost<Revival>) -> (remap:
    Vec<(u32, PaneId)>)
    requires
        old(v).holds(r, now),
    ensures
        final(v).holds(r.with_panes(panes@), now),
        remap@ == remap_of(panes@),
{
    let ghost all = panes@;
    let mut rest = panes;
    let mut remap: Vec<(u32, PaneId)> = Vec::new();
    let ghost mut k: int = 0;
    assert(all.take(0) =~= Seq::<SavedPane>::empty());
    assert(all.skip(0) =~= all);
    while rest.len() > 0
        invariant
            0 <= k <= all.len(),
            rest@ == all.skip(k),
            v.holds(r.with_panes(all.take(k)), now),
            remap@ == remap_of(all.take(k)),
        decreases rest@.len(),
    {
        let p = rest.remove(0);
        assert(p == all[k]);
        assert(all.take(k + 1).drop_last() =~= all.take(k));
        assert(all.take(k + 1).last() == p);
        let raw: u32 = p.raw;
        let id = p.id;
        let lost = match &p.outcome {
            Restored::Lost => true,
            _ => false,
        };
        v.add(p, now, Ghost(r.with_panes(all.take(k))));
        if !lost {
            remember(&mut remap, raw, id);
        }
        proof {
            k = k + 1;
            assert(rest@ =~= all.skip(k));
        }
    }
    assert(all.take(k) =~= all);
    remap
}

/// A dashboard's tab.
fn dashboard(id: String, placeholder: PaneId, git: Option<GitView>, orch: bool, mission: bool) -> (tab:
    Tab)
    ensures
        tab == (Tab {
            id,
            layout: TileLayout { root: TileNode::Leaf(placeholder), focus: placeholder },
            git,
            orch,
            mission,
            name: None,
        }),
{
    Tab { id, layout: TileLayout::new(placeholder), git, orch, mission, name: None }
}

/// Takes up what can be restored of a tab.
fn revive_tab(
    v: &mut Revived,
    tab: SavedTab,
    cwd: &String,
    is_repo: bool,
    now: u64,
    Ghost(r): Ghost<Revival>,
) -> (t: Option<Tab>)
    requires
        old(v).holds(r, now),
    ensures
        final(v).holds(r.with_tab(tab), now),
        t == tab.restored(*cwd, is_repo),
        t is Some && !tab.is_dashboard() ==> t->0.layout.wf(),
{
    if tab.git {
        if is_repo {
            let view = GitView { root: cwd.clone() };
            return Some(dashboard(tab.id, tab.placeholder, Some(view), false, false));
        }
        return None;
    }
    if tab.orch {
        return Some(dashboard(tab.id, tab.placeholder, None, true, false));
    }
    if tab.mission {
        return Some(dashboard(tab.id, tab.placeholder, None, false, true));
    }
    let remap = revive_panes(v, tab.panes, now, Ghost(r));
    match from_tree(&tab.tree, &remap, tab.focus) {
        Some(layout) => {
            let mut t = Tab::panes(tab.id, layout);
            t.name = tab.name;
            Some(t)
        },
        None => {
            v.drop_panes(&remap, now, Ghost(r.with_panes(tab.panes@)));
            None
        },
    }
}

/// A number stands for a pane of the numbering only.
proof fn lemma_pane_for(remap: Seq<(u32, PaneId)>, raw: u32)
    ensures
        pane_for(remap, raw) is Some ==> remapped(remap).contains(pane_for(remap, raw)->0),
    decreases remap.len(),
{
    if remap.len() > 0 {
        let rest = remap.drop_last();
        lemma_pane_for(rest, raw);
        if remap.last().0 == raw {
            assert(remapped(remap)[remap.len() - 1] == remap.last().1);
        } else if pane_for(rest, raw) is Some {
            let p = pane_for(rest, raw)->0;
            let k = choose|k: int| 0 <= k < remapped(rest).len() && remapped(rest)[k] == p;
            assert(remapped(remap)[k] == p);
        }
    }
}

/// A tree holds panes of the numbering only.
proof fn lemma_node_panes(tree: SavedTree, remap: Seq<(u32, PaneId)>, p: PaneId)
    requires
        tree.node(remap) is Some,
        tree.node(remap)->0.leaf_seq().contains(p),
    ensures
        remapped(remap).contains(p),
    decreases tree,
{
    match tree {
        SavedTree::Leaf(raw) => {
            lemma_pane_for(remap, raw);
        },
        SavedTree::Split(_, a, b) => {
            let x = a.node(remap)->0;
            let y = b.node(remap)->0;
            let all = tree.node(remap)->0.leaf_seq();
            assert(all == x.leaf_seq() + y.leaf_seq());
            let k = choose|k: int| 0 <= k < all.len() && all[k] == p;
            if k < x.leaf_seq().len() {
                assert(x.leaf_seq()[k] == p);
                lemma_node_panes(*a, remap, p);
            } else {
                assert(y.leaf_seq()[k - x.leaf_seq().len()] == p);
                lemma_node_panes(*b, remap, p);
            }
        },
    }
}

proof fn lemma_without_raw(remap: Seq<(u32, PaneId)>, raw: u32, p: PaneId)
    requires
        remapped(without_raw(remap, raw)).contains(p),
    ensures
        remapped(remap).contains(p),
    decreases remap.len(),
{
    if remap.len() > 0 {
        let rest = remap.drop_last();
        let out = without_raw(remap, raw);
        let k = choose|k: int| 0 <= k < remapped(out).len() && remapped(out)[k] == p;
        let before = without_raw(rest, raw);
        if k < before.len() {
            assert(remapped(before)[k] == p);
            lemma_without_raw(rest, raw, p);
            let m = choose|m: int| 0 <= m < remapped(rest).len() && remapped(rest)[m] == p;
            assert(remapped(remap)[m] == p);
        } else {
            assert(remapped(remap)[remap.len() - 1] == p);
        }
    }
}

/// The numbering of a tab leads to identities of its panes only.
proof fn lemma_remap_ids(panes: Seq<SavedPane>, p: PaneId)
    requires
        remapped(remap_of(panes)).contains(p),
    ensures
        exists|k: int| 0 <= k < panes.len() && (#[trigger] panes[k]).id == p,
    decreases panes.len(),
{
    if panes.len() > 0 {
        let rest = panes.drop_last();
        let before = remap_of(rest);
        let q = panes.last();
        if q.outcome is Lost {
            lemma_remap_ids(rest, p);
            let k = choose|k: int| 0 <= k < rest.len() && (#[trigger] rest[k]).id == p;
            assert(panes[k].id == p);
        } else if p == q.id {
            assert(panes[panes.len() - 1].id == p);
        } else {
            let kept = without_raw(before, q.raw);
            let out = kept.push((q.raw, q.id));
            let m = choose|m: int| 0 <= m < remapped(out).len() && remapped(out)[m] == p;
            assert(remapped(kept)[m] == p);
            lemma_without_raw(before, q.raw, p);
            lemma_remap_ids(rest, p);
            let k = choose|k: int| 0 <= k < rest.len() && (#[trigger] rest[k]).id == p;
            assert(panes[k].id == p);
        }
    }
}

/// A restored tab holds identities that were given out for it only.
proof fn lemma_restored_ids(tab: SavedTab, cwd: String, is_repo: bool, p: PaneId)
    requires
        tab.restored(cwd, is_repo) is Some,
        workspace::tab_has(tab.restored(cwd, is_repo)->0, p),
    ensures
        tab.ids().contains(p),
{
    let t = tab.restored(cwd, is_repo)->0;
    if tab.is_dashboard() {
        assert(t.layout.leaf_seq() =~= seq![tab.placeholder]);
        let k = choose|k: int| 0 <= k < t.layout.leaf_seq().len() && t.layout.leaf_seq()[k] == p;
        assert(tab.ids()[0] == p);
    } else {
        lemma_node_panes(tab.tree, remap_of(tab.panes@), p);
        lemma_remap_ids(tab.panes@, p);
        let k = choose|k: int| 0 <= k < tab.panes@.len() && (#[trigger] tab.panes@[k]).id == p;
        assert(tab.ids()[k] == p);
    }
}

/// A restored tab can stand beside those that were restored before it.
proof fn lemma_tabs_grow(
    tabs: Seq<Tab>,
    t: Tab,
    all: Seq<SavedWorkspace>,
    w: int,
    k: int,
)
    requires
        ids_apart(all),
        0 <= w < all.len(),
        0 <= k < all[w].tabs@.len(),
        all[w].tabs@[k].restored(all[w].cwd, all[w].is_repo) == Some(t),
        !all[w].tabs@[k].is_dashboard() ==> t.layout.wf(),
        workspace::tabs_wf(tabs),
        forall|p: PaneId| #[trigger]
            workspace::tabs_have(tabs, p) ==> exists|j: int| j < k && #[trigger] saved_at(all, w, j, p),
    ensures
        workspace::tabs_wf(tabs.push(t)),
        forall|p: PaneId| #[trigger]
            workspace::tabs_have(tabs.push(t), p) ==> exists|j: int|
                j < k + 1 && #[trigger] saved_at(all, w, j, p),
{
    let saved = all[w].tabs@[k];
    if saved.is_dashboard() {
        assert(t.layout.leaf_seq() =~= seq![saved.placeholder]);
        assert(t.layout.leaf_seq()[0] == saved.placeholder);
    }
    assert forall|p: PaneId| #[trigger] workspace::tab_has(t, p) implies saved_at(all, w, k, p)
        && !workspace::tabs_have(tabs, p) by {
        lemma_restored_ids(saved, all[w].cwd, all[w].is_repo, p);
        assert(saved_at(all, w, k, p));
    }
    workspace::lemma_tabs_insert(tabs, tabs.len() as int, t);
    assert(tabs.insert(tabs.len() as int, t) =~= tabs.push(t));
    assert forall|p: PaneId| #[trigger] workspace::tabs_have(tabs.push(t), p) implies exists|
        j: int,
    |
        j < k + 1 && #[trigger] saved_at(all, w, j, p) by {
        if workspace::tabs_have(tabs, p) {
            let j = choose|j: int| j < k && #[trigger] saved_at(all, w, j, p);
            assert(saved_at(all, w, j, p));
        } else {
            assert(saved_at(all, w, k, p));
        }
    }
}

/// Takes up what can be restored of the tabs of workspace `w`.
fn revive_tabs(
    v: &mut Revived,
    tabs: Vec<SavedTab>,
    cwd: &String,
    is_repo: bool,
    now: u64,
    Ghost(r): Ghost<Revival>,
    Ghost(all): Ghost<Seq<SavedWorkspace>>,
    Ghost(w): Ghost<int>,
) -> (out: Vec<Tab>)
    requires
        old(v).holds(r, now),
        ids_apart(all),
        0 <= w < all.len(),
        all[w].tabs == tabs,
        all[w].cwd == *cwd,
        all[w].is_repo == is_repo,
    ensures
        final(v).holds(r.with_tabs(tabs@), now),
        out@ == all[w].kept_tabs(),
        workspace::tabs_wf(out@),
        forall|p: PaneId| #[trigger]
            workspace::tabs_have(out@, p) ==> exists|j: int| #[trigger] saved_at(all, w, j, p),
{
    let ghost saved = tabs@;
    let mut rest = tabs;
    let mut out: Vec<Tab> = Vec::new();
    let ghost mut k: int = 0;
    assert(saved.take(0) =~= Seq::<SavedTab>::empty());
    assert(saved.skip(0) =~= saved);
    while rest.len() > 0
        invariant
            ids_apart(all),
            0 <= w < all.len(),
            all[w].tabs@ == saved,
            all[w].cwd == *cwd,
            all[w].is_repo == is_repo,
            0 <= k <= saved.len(),
            rest@ == saved.skip(k),
            v.holds(r.with_tabs(saved.take(k)), now),
            out@ == restored_tabs(saved.take(k), *cwd, is_repo),
            workspace::tabs_wf(out@),
            forall|p: PaneId| #[trigger]
                workspace::tabs_have(out@, p) ==> exists|j: int|
                    j < k && #[trigger] saved_at(all, w, j, p),
        decreases rest@.len(),
    {
        let tab = rest.remove(0);
        assert(tab == saved[k]);
        assert(saved.take(k + 1).drop_last() =~= saved.take(k));
        assert(saved.take(k + 1).last() == tab);
        let ghost before = out@;
        match revive_tab(v, tab, cwd, is_repo, now, Ghost(r.with_tabs(saved.take(k)))) {
            Some(t) => {
                proof {
                    lemma_tabs_grow(before, t, all, w, k);
                }
                out.push(t);
            },
            None => {
                assert forall|p: PaneId| #[trigger] workspace::tabs_have(out@, p) implies exists|
                    j: int,
                |
                    j < k + 1 && #[trigger] saved_at(all, w, j, p) by {
                    let j = choose|j: int| j < k && #[trigger] saved_at(all, w, j, p);
                    assert(saved_at(all, w, j, p));
                }
            },
        }
        proof {
            k = k + 1;
            assert(rest@ =~= saved.skip(k));
        }
    }
    assert(saved.take(k) =~= saved);
    assert forall|p: PaneId| #[trigger] workspace::tabs_have(out@, p) implies exists|j: int|
        #[trigger]
        saved_at(all, w, j, p) by {
        let j = choose|j: int| j < k && #[trigger] saved_at(all, w, j, p);
        assert(saved_at(all, w, j, p));
    }
    out
}

/// A restored workspace can stand beside those that were restored before it.
proof fn lemma_workspaces_grow(
    spaces: Seq<Workspace>,
    x: Workspace,
    all: Seq<SavedWorkspace>,
    k: int,
)
    requires
        ids_apart(all),
        workspace::tree_wf(spaces),
        x.wf(),
        forall|p: PaneId| #[trigger]
            workspace::session_has(spaces, p) ==> exists|w: int, j: int|
                w < k && #[trigger] saved_at(all, w, j, p),
        forall|p: PaneId| #[trigger]
            workspace::tabs_have(x.tabs@, p) ==> exists|j: int| #[trigger] saved_at(all, k, j, p),
    ensures
        workspace::tree_wf(spaces.push(x)),
        forall|p: PaneId| #[trigger]
            workspace::session_has(spaces.push(x), p) ==> exists|w: int, j: int|
                w < k + 1 && #[trigger] saved_at(all, w, j, p),
{
    workspace::lemma_tree_push(spaces, x);
    assert forall|p: PaneId| #[trigger] workspace::session_has(spaces.push(x), p) implies exists|
        w: int,
        j: int,
    |
        w < k + 1 && #[trigger] saved_at(all, w, j, p) by {
        let after = spaces.push(x);
        let i = choose|i: int|
            0 <= i < after.len() && #[trigger] workspace::tabs_have(after[i].tabs@, p);
        if i < spaces.len() {
            assert(workspace::tabs_have(spaces[i].tabs@, p));
            assert(workspace::session_has(spaces, p));
            let (w, j) = choose|w: int, j: int| w < k && #[trigger] saved_at(all, w, j, p);
            assert(saved_at(all, w, j, p));
        } else {
            assert(workspace::tabs_have(x.tabs@, p));
            let j = choose|j: int| #[trigger] saved_at(all, k, j, p);
            assert(saved_at(all, k, j, p));
        }
    }
}

/// Takes up what can be restored of a workspace, where a tab is left.
fn revive_workspace(
    v: &mut Revived,
    saved: SavedWorkspace,
    now: u64,
    Ghost(r): Ghost<Revival>,
    Ghost(all): Ghost<Seq<SavedWorkspace>>,
    Ghost(w): Ghost<int>,
) -> (out: Option<Workspace>)
    requires
        old(v).holds(r, now),
        ids_apart(all),
        0 <= w < all.len(),
        all[w] == saved,
    ensures
        final(v).holds(r.with_tabs(saved.tabs@), now),
        match out {
            Some(x) => saved.becomes(x) && x.wf() && forall|p: PaneId| #[trigger]
                workspace::tabs_have(x.tabs@, p) ==> exists|j: int| #[trigger]
                    saved_at(all, w, j, p),
            None => saved.kept_tabs().len() == 0,
        },
        saved.kept_tabs().len() == 0 ==> out is None,
{
    let tabs = revive_tabs(
        v,
        saved.tabs,
        &saved.cwd,
        saved.is_repo,
        now,
        Ghost(r),
        Ghost(all),
        Ghost(w),
    );
    if tabs.len() == 0 {
        return None;
    }
    let active_tab: usize = if saved.active_tab < tabs.len() {
        saved.active_tab
    } else {
        tabs.len() - 1
    };
    Some(
        Workspace {
            id: saved.id,
            name: saved.name,
            cwd: saved.cwd,
            branch: None,
            git_ahead_behind: None,
            worktree: saved.worktree,
            tabs,
            active_tab,
            pinned: saved.pinned,
        },
    )
}

/// Takes up what can be restored of the workspaces.
fn revive_workspaces(v: &mut Revived, spaces: Vec<SavedWorkspace>, now: u64) -> (out: Vec<Workspace>)
    requires
        old(v).holds(Revival::nothing(), now),
        ids_apart(spaces@),
    ensures
        final(v).holds(Revival::nothing().with_workspaces(spaces@), now),
        workspace::tree_wf(out@),
        out@.len() == kept_workspaces(spaces@).len(),
        forall|i: int|
            0 <= i < out@.len() ==> kept_workspaces(spaces@)[i].becomes(#[trigger] out@[i]),
{
    let ghost all = spaces@;
    let mut rest = spaces;
    let mut out: Vec<Workspace> = Vec::new();
    let ghost mut k: int = 0;
    assert(all.take(0) =~= Seq::<SavedWorkspace>::empty());
    assert(all.skip(0) =~= all);
    while rest.len() > 0
        invariant
            ids_apart(all),
            0 <= k <= all.len(),
            rest@ == all.skip(k),
            v.holds(Revival::nothing().with_workspaces(all.take(k)), now),
            workspace::tree_wf(out@),
            out@.len() == kept_workspaces(all.take(k)).len(),
            forall|i: int|
                0 <= i < out@.len() ==> kept_workspaces(all.take(k))[i].becomes(
                    #[trigger] out@[i],
                ),
            forall|p: PaneId| #[trigger]
                workspace::session_has(out@, p) ==> exists|w: int, j: int|
                    w < k && #[trigger] saved_at(all, w, j, p),
        decreases rest@.len(),
    {
        let saved = rest.remove(0);
        assert(saved == all[k]);
        assert(all.take(k + 1).drop_last() =~= all.take(k));
        assert(all.take(k + 1).last() == saved);
        let ghost before = out@;
        let ghost r = Revival::nothing().with_workspaces(all.take(k));
        match revive_workspace(v, saved, now, Ghost(r), Ghost(all), Ghost(k)) {
            Some(x) => {
                proof {
                    lemma_workspaces_grow(before, x, all, k);
                }
                out.push(x);
            },
            None => {
                assert forall|p: PaneId| #[trigger]
                    workspace::session_has(out@, p) implies exists|w: int, j: int|
                    w < k + 1 && #[trigger] saved_at(all, w, j, p) by {
                    let (w, j) = choose|w: int, j: int|
                        w < k && #[trigger] saved_at(all, w, j, p);
                    assert(saved_at(all, w, j, p));
                }
            },
        }
        proof {
            k = k + 1;
            assert(rest@ =~= all.skip(k));
        }
    }
    assert(all.take(k) =~= all);
    out
}

proof fn lemma_name_added(before: Seq<(String, PaneId)>, name: String, id: PaneId)
    requires
        super::names_wf(before),
    ensures
        super::names_wf(
            agents::without_name(close::index_without(before, id), name@).push((name, id)),
        ),
{
    let others = close::index_without(before, id);
    let rest = agents::without_name(others, name@);
    close::lemma_index_without(before, id);
    agents::lemma_without_name(others, name@);
    let out = rest.push((name, id));
    assert forall|i: int, j: int| 0 <= i < j < out.len() implies (#[trigger] out[i]).0@ != (
    #[trigger] out[j]).0@ && out[i].1 != out[j].1 by {
        assert(out[i] == rest[i]);
        if j < rest.len() {
            assert(out[j] == rest[j]);
        } else {
            let m = choose|m: int| 0 <= m < others.len() && others[m] == rest[i];
            assert(others[m].1 != id);
        }
    }
}

/// The names that still stand for a pane.
fn keep_names(names: Vec<(String, PaneId)>, panes: &PaneMap<Pane>) -> (out: Vec<(String, PaneId)>)
    requires
        panes.wf(),
    ensures
        out@ == standing_names(names@, panes@),
        super::names_wf(out@),
{
    let mut out: Vec<(String, PaneId)> = Vec::new();
    let mut i: usize = 0;
    assert(names@.take(0) =~= Seq::<(String, PaneId)>::empty());
    while i < names.len()
        invariant
            panes.wf(),
            i <= names@.len(),
            out@ == standing_names(names@.take(i as int), panes@),
            super::names_wf(out@),
        decreases names@.len() - i,
    {
        assert(names@.take(i + 1).drop_last() =~= names@.take(i as int));
        let id = names[i].1;
        if panes.contains_key(id) {
            proof {
                lemma_name_added(out@, names@[i as int].0, id);
            }
            drop_index(&mut out, id);
            drop_name(&mut out, names[i].0.as_str());
            out.push((names[i].0.clone(), id));
        }
        i = i + 1;
    }
    assert(names@.take(i as int) =~= names@);
    out
}

impl App {
    /// Whether this is what could be restored of the saved session.
    pub open spec fn is_restored(&self, setup: Setup, saved: SavedSession, now: u64) -> bool {
        let r = Revival::nothing().with_workspaces(saved.workspaces@);
        let kept = kept_workspaces(saved.workspaces@);
        &&& self.starts_with(setup)
        &&& self.panes@ == r.panes
        &&& is_index(self.backend_terminal_index@, self.panes@)
        &&& are_revived(self.status@, r.known, now)
        &&& self.views@ == r.views
        &&& self.module_panes@ == r.modules
        &&& self.agent_names@ == standing_names(r.names, r.panes)
        &&& self.outbox@ == r.sends
        &&& self.workspaces@.len() == kept.len()
        &&& forall|i: int|
            0 <= i < kept.len() ==> (#[trigger] kept[i]).becomes(self.workspaces@[i])
        &&& self.active_ws == (if saved.active_ws < kept.len() {
            saved.active_ws as int
        } else {
            kept.len() - 1
        })
        &&& !self.session_dirty
    }

    /// Restores a saved session as far as it can be. A tab whose layout cannot be
    /// rebuilt is left out, and only that tab. A workspace without tabs is left
    /// out. Where no workspace is left, nothing is restored.
    pub fn from_snapshot(setup: Setup, saved: SavedSession, now: u64) -> (r: Result<App, Setup>)
        requires
            ids_apart(saved.workspaces@),
        ensures
            match r {
                Ok(app) => app.wf() && kept_workspaces(saved.workspaces@).len() > 0
                    && app.is_restored(setup, saved, now),
                Err(s) => kept_workspaces(saved.workspaces@).len() == 0 && s == setup,
            },
    {
        let mut v = Revived::new(now);
        let workspaces = revive_workspaces(&mut v, saved.workspaces, now);
        if workspaces.len() == 0 {
            return Err(setup);
        }
        let active_ws: usize = if saved.active_ws < workspaces.len() {
            saved.active_ws
        } else {
            workspaces.len() - 1
        };
        let mut app = App::without_workspaces(setup);
        app.agent_names = keep_names(v.names, &v.panes);
        app.backend_terminal_index = index_panes(&v.panes);
        app.panes = v.panes;
        app.status = v.status;
        app.views = v.views;
        app.module_panes = v.modules;
        app.outbox = v.sends;
        app.workspaces = workspaces;
        app.active_ws = active_ws;
        proof {
            let kept = kept_workspaces(saved.workspaces@);
            assert forall|i: int| 0 <= i < kept.len() implies (#[trigger] kept[i]).becomes(
                app.workspaces@[i],
            ) by {
                assert(kept[i].becomes(app.workspaces@[i]));
            }
        }
        Ok(app)
    }

    /// The saved session, as far as it can be restored; else a new one, where its
    /// first shell could be started.
    pub fn restore_or_new(
        setup: Setup,
        saved: Option<SavedSession>,
        cwd: String,
        opening: Opening,
        now: u64,
    ) -> (r: Option<App>)
        requires
            saved is Some ==> ids_apart(saved->0.workspaces@),
        ensures
            match r {
                Some(app) => app.wf() && if saved is Some && kept_workspaces(
                    saved->0.workspaces@,
                ).len() > 0 {
                    app.is_restored(setup, saved->0, now)
                } else {
                    opening.spawned is Some && app.is_started(
                        setup,
                        cwd@,
                        opening,
                        opening.spawned->0,
                        now,
                    )
                },
                None => opening.spawned is None && (saved is Some ==> kept_workspaces(
                    saved->0.workspaces@,
                ).len() == 0),
            },
    {
        match saved {
            Some(s) => match App::from_snapshot(setup, s, now) {
                Ok(app) => Some(app),
                Err(setup) => App::new(setup, cwd, opening, now),
            },
            None => App::new(setup, cwd, opening, now),
        }
    }
}

// ---------------------------------------------------------------------------
// What a restored session keeps to
// ---------------------------------------------------------------------------

/// The tabs of two lists, one after the other.
proof fn lemma_restored_tabs_add(
    a: Seq<SavedTab>,
    b: Seq<SavedTab>,
    cwd: String,
    is_repo: bool,
)
    ensures
        restored_tabs(a + b, cwd, is_repo) == restored_tabs(a, cwd, is_repo) + restored_tabs(
            b,
            cwd,
            is_repo,
        ),
    decreases b.len(),
{
    if b.len() == 0 {
        assert(a + b =~= a);
        assert(restored_tabs(b, cwd, is_repo) =~= Seq::<Tab>::empty());
        assert(restored_tabs(a, cwd, is_repo) =~= restored_tabs(a, cwd, is_repo) + restored_tabs(
            b,
            cwd,
            is_repo,
        ));
    } else {
        lemma_restored_tabs_add(a, b.drop_last(), cwd, is_repo);
        assert((a + b).drop_last() =~= a + b.drop_last());
        assert((a + b).last() == b.last());
        assert(restored_tabs(a + b, cwd, is_repo) =~= restored_tabs(a, cwd, is_repo)
            + restored_tabs(b, cwd, is_repo));
    }
}

/// A tab that cannot be restored costs only itself: the other tabs of its
/// workspace come back as they would without it.
pub proof fn law_a_broken_tab_costs_only_itself(
    before: Seq<SavedTab>,
    broken: SavedTab,
    after: Seq<SavedTab>,
    cwd: String,
    is_repo: bool,
)
    requires
        broken.restored(cwd, is_repo) is None,
    ensures
        restored_tabs(before.push(broken) + after, cwd, is_repo) == restored_tabs(
            before + after,
            cwd,
            is_repo,
        ),
{
    lemma_restored_tabs_add(before.push(broken), after, cwd, is_repo);
    lemma_restored_tabs_add(before, after, cwd, is_repo);
    assert(before.push(broken).drop_last() =~= before);
}

/// The names that stand after a restore stand for panes that came back.
pub proof fn law_restored_names_have_panes(
    names: Seq<(String, PaneId)>,
    panes: Map<PaneId, Pane>,
    k: int,
)
    requires
        0 <= k < standing_names(names, panes).len(),
    ensures
        panes.dom().contains(standing_names(names, panes)[k].1),
        names.contains(standing_names(names, panes)[k]),
    decreases names.len(),
{
    if names.len() > 0 {
        let rest = names.drop_last();
        let before = standing_names(rest, panes);
        let out = standing_names(names, panes);
        let (name, id) = names.last();
        let entry = out[k];
        let in_rest = if panes.dom().contains(id) {
            k < out.len() - 1
        } else {
            true
        };
        if in_rest {
            if panes.dom().contains(id) {
                let others = close::index_without(before, id);
                let kept = agents::without_name(others, name@);
                close::lemma_index_without(before, id);
                agents::lemma_without_name(others, name@);
                assert(kept[k] == entry);
                let m = choose|m: int| 0 <= m < others.len() && others[m] == entry;
                assert(before.contains(others[m]));
            }
            let j = choose|j: int| 0 <= j < before.len() && before[j] == entry;
            law_restored_names_have_panes(rest, panes, j);
            let m = choose|m: int| 0 <= m < rest.len() && rest[m] == entry;
            assert(names[m] == entry);
        } else {
            assert(names[names.len() - 1] == entry);
        }
    }
}

impl Revival {
    /// Whether the pane runs or shows something.
    pub open spec fn alive(self, p: PaneId) -> bool {
        self.panes.dom().contains(p) || self.views.dom().contains(p)
    }
}

proof fn lemma_panes_stay_alive(r: Revival, panes: Seq<SavedPane>, p: PaneId)
    requires
        r.alive(p),
    ensures
        r.with_panes(panes).alive(p),
    decreases panes.len(),
{
    if panes.len() > 0 {
        lemma_panes_stay_alive(r, panes.drop_last(), p);
    }
}

proof fn lemma_panes_come_alive(r: Revival, panes: Seq<SavedPane>, p: PaneId)
    requires
        remapped(remap_of(panes)).contains(p),
    ensures
        r.with_panes(panes).alive(p),
    decreases panes.len(),
{
    if panes.len() > 0 {
        let rest = panes.drop_last();
        let before = remap_of(rest);
        let q = panes.last();
        if q.outcome is Lost {
            lemma_panes_come_alive(r, rest, p);
        } else if p != q.id {
            let kept = without_raw(before, q.raw);
            let out = kept.push((q.raw, q.id));
            let m = choose|m: int| 0 <= m < remapped(out).len() && remapped(out)[m] == p;
            assert(remapped(kept)[m] == p);
            lemma_without_raw(before, q.raw, p);
            lemma_panes_come_alive(r, rest, p);
        }
    }
}

proof fn lemma_tab_keeps_alive(r: Revival, tab: SavedTab, p: PaneId)
    requires
        r.alive(p),
        !tab.ids().contains(p),
    ensures
        r.with_tab(tab).alive(p),
{
    if !tab.is_dashboard() {
        lemma_panes_stay_alive(r, tab.panes@, p);
        let gone = remapped(remap_of(tab.panes@));
        if gone.contains(p) {
            lemma_remap_ids(tab.panes@, p);
            let k = choose|k: int| 0 <= k < tab.panes@.len() && (#[trigger] tab.panes@[k]).id == p;
            assert(tab.ids()[k] == p);
        }
        ids::lemma_map_without(r.with_panes(tab.panes@).panes, gone);
    }
}

proof fn lemma_tabs_keep_alive(r: Revival, tabs: Seq<SavedTab>, p: PaneId)
    requires
        r.alive(p),
        forall|j: int| 0 <= j < tabs.len() ==> !(#[trigger] tabs[j]).ids().contains(p),
    ensures
        r.with_tabs(tabs).alive(p),
    decreases tabs.len(),
{
    if tabs.len() > 0 {
        lemma_tabs_keep_alive(r, tabs.drop_last(), p);
        assert(tabs[tabs.len() - 1] == tabs.last());
        lemma_tab_keeps_alive(r.with_tabs(tabs.drop_last()), tabs.last(), p);
    }
}

proof fn lemma_tabs_come_alive(r: Revival, tabs: Seq<SavedTab>, t: int, p: PaneId)
    requires
        0 <= t < tabs.len(),
        !tabs[t].is_dashboard(),
        tabs[t].layout() is Some,
        tabs[t].layout()->0.leaf_seq().contains(p),
        forall|j: int| 0 <= j < tabs.len() && j != t ==> !(#[trigger] tabs[j]).ids().contains(p),
    ensures
        r.with_tabs(tabs).alive(p),
    decreases tabs.len(),
{
    let rest = tabs.drop_last();
    if t == tabs.len() - 1 {
        lemma_node_panes(tabs[t].tree, remap_of(tabs[t].panes@), p);
        lemma_panes_come_alive(r.with_tabs(rest), tabs[t].panes@, p);
    } else {
        assert(rest[t] == tabs[t]);
        lemma_tabs_come_alive(r, rest, t, p);
        assert(tabs[tabs.len() - 1] == tabs.last());
        lemma_tab_keeps_alive(r.with_tabs(rest), tabs.last(), p);
    }
}

/// Every leaf of a tab of panes that is restored runs or shows something.
pub proof fn law_restored_leaves_are_alive(
    spaces: Seq<SavedWorkspace>,
    w: int,
    t: int,
    p: PaneId,
)
    requires
        ids_apart(spaces),
        0 <= w < spaces.len(),
        0 <= t < spaces[w].tabs@.len(),
        !spaces[w].tabs@[t].is_dashboard(),
        spaces[w].tabs@[t].layout() is Some,
        spaces[w].tabs@[t].layout()->0.leaf_seq().contains(p),
    ensures
        Revival::nothing().with_workspaces(spaces).alive(p),
    decreases spaces.len(),
{
    let tab = spaces[w].tabs@[t];
    lemma_restored_ids(tab, spaces[w].cwd, spaces[w].is_repo, p);
    assert(saved_at(spaces, w, t, p));
    let rest = spaces.drop_last();
    let last = spaces.len() - 1;
    let r = Revival::nothing().with_workspaces(rest);
    if w == last {
        assert forall|j: int| 0 <= j < spaces[w].tabs@.len() && j != t implies !(
        #[trigger] spaces[w].tabs@[j]).ids().contains(p) by {
            if spaces[w].tabs@[j].ids().contains(p) {
                assert(saved_at(spaces, w, j, p));
            }
        }
        lemma_tabs_come_alive(r, spaces[w].tabs@, t, p);
    } else {
        assert(rest[w] == spaces[w]);
        assert forall|a: int, b: int, c: int, d: int, q: PaneId|
            #[trigger] saved_at(rest, a, b, q) && #[trigger] saved_at(rest, c, d, q) implies a == c
            && b == d by {
            assert(rest[a] == spaces[a] && rest[c] == spaces[c]);
            assert(saved_at(spaces, a, b, q) && saved_at(spaces, c, d, q));
        }
        law_restored_leaves_are_alive(rest, w, t, p);
        assert forall|j: int| 0 <= j < spaces[last].tabs@.len() implies !(
        #[trigger] spaces[last].tabs@[j]).ids().contains(p) by {
            if spaces[last].tabs@[j].ids().contains(p) {
                assert(saved_at(spaces, last, j, p));
            }
        }
        lemma_tabs_keep_alive(r, spaces[last].tabs@, p);
    }
}

// ---------------------------------------------------------------------------
// What comes back is what was saved
// ---------------------------------------------------------------------------

/// A layout as it is saved, with the numbers of its panes.
pub open spec fn saved_as(node: TileNode, numbers: Map<PaneId, u32>) -> SavedTree
    decreases node,
{
    match node {
        TileNode::Leaf(p) => SavedTree::Leaf(numbers[p]),
        TileNode::Split(axis, a, b) => SavedTree::Split(
            axis,
            Box::new(saved_as(*a, numbers)),
            Box::new(saved_as(*b, numbers)),
        ),
    }
}

/// The numbers in a saved layout, in order.
pub open spec fn numbers_of(tree: SavedTree) -> Seq<u32>
    decreases tree,
{
    match tree {
        SavedTree::Leaf(raw) => seq![raw],
        SavedTree::Split(_, a, b) => numbers_of(*a) + numbers_of(*b),
    }
}

/// Whether the numbering gives each pane its number, and no number to two panes.
pub open spec fn numbers_panes(remap: Seq<(u32, PaneId)>, numbers: Map<PaneId, u32>) -> bool {
    &&& forall|i: int| 0 <= i < remap.len() ==> numbers[(#[trigger] remap[i]).1] == remap[i].0
    &&& forall|i: int, j: int|
        0 <= i < remap.len() && 0 <= j < remap.len() && (#[trigger] remap[i]).0 == (
        #[trigger] remap[j]).0 ==> remap[i].1 == remap[j].1
}

proof fn lemma_pane_for_entry(remap: Seq<(u32, PaneId)>, raw: u32)
    ensures
        match pane_for(remap, raw) {
            Some(id) => remap.contains((raw, id)),
            None => forall|i: int| 0 <= i < remap.len() ==> (#[trigger] remap[i]).0 != raw,
        },
    decreases remap.len(),
{
    if remap.len() > 0 {
        let rest = remap.drop_last();
        lemma_pane_for_entry(rest, raw);
        if remap.last().0 == raw {
            assert(remap[remap.len() - 1] == (raw, remap.last().1));
        } else {
            match pane_for(rest, raw) {
                Some(id) => {
                    let k = choose|k: int| 0 <= k < rest.len() && rest[k] == (raw, id);
                    assert(remap[k] == (raw, id));
                },
                None => {
                    assert forall|i: int| 0 <= i < remap.len() implies (#[trigger] remap[i]).0
                        != raw by {
                        if i < rest.len() {
                            assert(rest[i] == remap[i]);
                        }
                    }
                },
            }
        }
    }
}

/// A split comes back as a split of the same axis whose halves are what the saved
/// halves come back as, in the same order. It is missing only where a half is.
pub proof fn law_splits_come_back_as_saved(
    axis: Axis,
    a: SavedTree,
    b: SavedTree,
    remap: Seq<(u32, PaneId)>,
)
    ensures
        match SavedTree::Split(axis, Box::new(a), Box::new(b)).node(remap) {
            Some(TileNode::Split(x, p, q)) => x == axis && a.node(remap) == Some(*p) && b.node(
                remap,
            ) == Some(*q),
            Some(TileNode::Leaf(_)) => false,
            None => a.node(remap) is None || b.node(remap) is None,
        },
{
}

/// What comes back of a saved layout, saved again under the same numbers, is that
/// layout: the same splits along the same axes, with the same panes in them.
pub proof fn law_layouts_come_back_as_saved(
    tree: SavedTree,
    remap: Seq<(u32, PaneId)>,
    numbers: Map<PaneId, u32>,
)
    requires
        numbers_panes(remap, numbers),
        tree.node(remap) is Some,
    ensures
        saved_as(tree.node(remap)->0, numbers) == tree,
    decreases tree,
{
    match tree {
        SavedTree::Leaf(raw) => {
            lemma_pane_for_entry(remap, raw);
            let id = pane_for(remap, raw)->0;
            let k = choose|k: int| 0 <= k < remap.len() && remap[k] == (raw, id);
            assert(numbers[remap[k].1] == remap[k].0);
        },
        SavedTree::Split(_, a, b) => {
            law_layouts_come_back_as_saved(*a, remap, numbers);
            law_layouts_come_back_as_saved(*b, remap, numbers);
        },
    }
}

/// A layout that is saved comes back as it was, where each of its panes does.
pub proof fn law_saving_keeps_layouts(
    node: TileNode,
    remap: Seq<(u32, PaneId)>,
    numbers: Map<PaneId, u32>,
)
    requires
        numbers_panes(remap, numbers),
        forall|p: PaneId|
            #![trigger node.leaf_seq().contains(p)]
            node.leaf_seq().contains(p) ==> remap.contains((numbers[p], p)),
    ensures
        saved_as(node, numbers).node(remap) == Some(node),
    decreases node,
{
    match node {
        TileNode::Leaf(p) => {
            assert(node.leaf_seq()[0] == p);
            assert(node.leaf_seq().contains(p));
            let raw = numbers[p];
            let k = choose|k: int| 0 <= k < remap.len() && remap[k] == (raw, p);
            lemma_pane_for_entry(remap, raw);
            assert(remap[k].0 == raw);
            let id = pane_for(remap, raw)->0;
            let m = choose|m: int| 0 <= m < remap.len() && remap[m] == (raw, id);
            assert(remap[k].0 == remap[m].0);
        },
        TileNode::Split(_, a, b) => {
            assert forall|p: PaneId|
                #![trigger a.leaf_seq().contains(p)]
                a.leaf_seq().contains(p) implies remap.contains((numbers[p], p)) by {
                layout::lemma_contains_add(a.leaf_seq(), b.leaf_seq(), p);
                assert(node.leaf_seq().contains(p));
            }
            assert forall|p: PaneId|
                #![trigger b.leaf_seq().contains(p)]
                b.leaf_seq().contains(p) implies remap.contains((numbers[p], p)) by {
                layout::lemma_contains_add(a.leaf_seq(), b.leaf_seq(), p);
                assert(node.leaf_seq().contains(p));
            }
            law_saving_keeps_layouts(*a, remap, numbers);
            law_saving_keeps_layouts(*b, remap, numbers);
        },
    }
}

proof fn lemma_node_found(tree: SavedTree, remap: Seq<(u32, PaneId)>)
    requires
        forall|i: int|
            0 <= i < numbers_of(tree).len() ==> exists|k: int|
                0 <= k < remap.len() && (#[trigger] remap[k]).0 == #[trigger] numbers_of(tree)[i],
    ensures
        tree.node(remap) is Some,
    decreases tree,
{
    match tree {
        SavedTree::Leaf(raw) => {
            assert(numbers_of(tree)[0] == raw);
            let k = choose|k: int|
                0 <= k < remap.len() && (#[trigger] remap[k]).0 == numbers_of(tree)[0];
            lemma_pane_for_entry(remap, raw);
        },
        SavedTree::Split(_, a, b) => {
            let (x, y) = (numbers_of(*a), numbers_of(*b));
            assert forall|i: int| 0 <= i < x.len() implies exists|k: int|
                0 <= k < remap.len() && (#[trigger] remap[k]).0 == #[trigger] x[i] by {
                assert(numbers_of(tree)[i] == x[i]);
            }
            assert forall|i: int| 0 <= i < y.len() implies exists|k: int|
                0 <= k < remap.len() && (#[trigger] remap[k]).0 == #[trigger] y[i] by {
                assert(numbers_of(tree)[x.len() + i] == y[i]);
            }
            lemma_node_found(*a, remap);
            lemma_node_found(*b, remap);
        },
    }
}

proof fn lemma_leaves_of_node(
    tree: SavedTree,
    remap: Seq<(u32, PaneId)>,
    numbers: Map<PaneId, u32>,
)
    requires
        numbers_panes(remap, numbers),
        tree.node(remap) is Some,
    ensures
        tree.node(remap)->0.leaf_seq().len() == numbers_of(tree).len(),
        forall|i: int|
            0 <= i < numbers_of(tree).len() ==> numbers[#[trigger] tree.node(
                remap,
            )->0.leaf_seq()[i]] == numbers_of(tree)[i],
    decreases tree,
{
    match tree {
        SavedTree::Leaf(raw) => {
            law_layouts_come_back_as_saved(tree, remap, numbers);
        },
        SavedTree::Split(_, a, b) => {
            lemma_leaves_of_node(*a, remap, numbers);
            lemma_leaves_of_node(*b, remap, numbers);
            let (x, y) = (a.node(remap)->0.leaf_seq(), b.node(remap)->0.leaf_seq());
            let all = tree.node(remap)->0.leaf_seq();
            assert(all == x + y);
            assert forall|i: int| 0 <= i < numbers_of(tree).len() implies numbers[#[trigger] all[i]]
                == numbers_of(tree)[i] by {
                if i < x.len() {
                    assert(all[i] == x[i]);
                } else {
                    assert(all[i] == y[i - x.len()]);
                }
            }
        },
    }
}

/// A layout is restored where each of its panes is, and no pane is in it twice. The
/// pane that had the focus has it again.
pub proof fn law_layouts_are_restored_with_their_focus(
    tree: SavedTree,
    remap: Seq<(u32, PaneId)>,
    numbers: Map<PaneId, u32>,
    focus: u32,
)
    requires
        numbers_panes(remap, numbers),
        numbers_of(tree).no_duplicates(),
        forall|i: int|
            0 <= i < numbers_of(tree).len() ==> exists|k: int|
                0 <= k < remap.len() && (#[trigger] remap[k]).0 == #[trigger] numbers_of(tree)[i],
    ensures
        ({
            let l = tree.layout(remap, focus);
            &&& l is Some
            &&& saved_as(l->0.root, numbers) == tree
            &&& l->0.root.leaf_seq().contains(l->0.focus)
            &&& numbers_of(tree).contains(focus) ==> numbers[l->0.focus] == focus
        }),
{
    lemma_node_found(tree, remap);
    law_layouts_come_back_as_saved(tree, remap, numbers);
    lemma_leaves_of_node(tree, remap, numbers);
    let root = tree.node(remap)->0;
    let leaves = root.leaf_seq();
    layout::lemma_leaves_nonempty(root);
    assert(leaves.no_duplicates()) by {
        assert forall|i: int, j: int|
            0 <= i < leaves.len() && 0 <= j < leaves.len() && i != j implies leaves[i]
            != leaves[j] by {
            assert(numbers[leaves[i]] == numbers_of(tree)[i]);
            assert(numbers[leaves[j]] == numbers_of(tree)[j]);
        }
    }
    assert(leaves.contains(leaves[0]));
    if numbers_of(tree).contains(focus) {
        let i = choose|i: int| 0 <= i < numbers_of(tree).len() && numbers_of(tree)[i] == focus;
        let k = choose|k: int|
            0 <= k < remap.len() && (#[trigger] remap[k]).0 == numbers_of(tree)[i];
        lemma_pane_for_entry(remap, focus);
        let id = pane_for(remap, focus)->0;
        let m = choose|m: int| 0 <= m < remap.len() && remap[m] == (focus, id);
        assert(numbers[remap[m].1] == focus);
        lemma_node_panes_at(tree, remap, i);
        assert(leaves[i] == id);
        assert(leaves.contains(id));
    }
}

proof fn lemma_node_panes_at(tree: SavedTree, remap: Seq<(u32, PaneId)>, i: int)
    requires
        tree.node(remap) is Some,
        0 <= i < numbers_of(tree).len(),
    ensures
        tree.node(remap)->0.leaf_seq().len() == numbers_of(tree).len(),
        pane_for(remap, numbers_of(tree)[i]) == Some(tree.node(remap)->0.leaf_seq()[i]),
    decreases tree,
{
    match tree {
        SavedTree::Leaf(raw) => {},
        SavedTree::Split(_, a, b) => {
            let (x, y) = (numbers_of(*a), numbers_of(*b));
            lemma_node_len(*a, remap);
            lemma_node_len(*b, remap);
            if i < x.len() {
                lemma_node_panes_at(*a, remap, i);
            } else {
                lemma_node_panes_at(*b, remap, i - x.len());
            }
        },
    }
}

proof fn lemma_node_len(tree: SavedTree, remap: Seq<(u32, PaneId)>)
    requires
        tree.node(remap) is Some,
    ensures
        tree.node(remap)->0.leaf_seq().len() == numbers_of(tree).len(),
    decreases tree,
{
    match tree {
        SavedTree::Leaf(raw) => {},
        SavedTree::Split(_, a, b) => {
            lemma_node_len(*a, remap);
            lemma_node_len(*b, remap);
        },
    }
}

/// Whether the numbers are those of the panes that came back, and no two panes of
/// the tab had the same one.
pub open spec fn numbers_saved(panes: Seq<SavedPane>, numbers: Map<PaneId, u32>) -> bool {
    &&& forall|k: int|
        0 <= k < panes.len() && !((#[trigger] panes[k]).outcome is Lost) ==> numbers[panes[k].id]
            == panes[k].raw
    &&& forall|j: int, k: int|
        0 <= j < k < panes.len() ==> (#[trigger] panes[j]).raw != (#[trigger] panes[k]).raw
}

/// Whether the number is that of a pane that came back.
pub open spec fn came_back(panes: Seq<SavedPane>, raw: u32) -> bool {
    exists|k: int|
        0 <= k < panes.len() && (#[trigger] panes[k]).raw == raw && !(panes[k].outcome is Lost)
}

proof fn lemma_without_raw_entries(remap: Seq<(u32, PaneId)>, raw: u32)
    ensures
        forall|i: int|
            0 <= i < without_raw(remap, raw).len() ==> remap.contains(
                #[trigger] without_raw(remap, raw)[i],
            ) && without_raw(remap, raw)[i].0 != raw,
        forall|i: int|
            0 <= i < remap.len() && (#[trigger] remap[i]).0 != raw ==> without_raw(
                remap,
                raw,
            ).contains(remap[i]),
    decreases remap.len(),
{
    if remap.len() > 0 {
        let rest = remap.drop_last();
        lemma_without_raw_entries(rest, raw);
        let before = without_raw(rest, raw);
        let out = without_raw(remap, raw);
        assert forall|i: int| 0 <= i < out.len() implies remap.contains(#[trigger] out[i])
            && out[i].0 != raw by {
            if i < before.len() {
                assert(out[i] == before[i]);
                let k = choose|k: int| 0 <= k < rest.len() && rest[k] == before[i];
                assert(remap[k] == out[i]);
            } else {
                assert(remap[remap.len() - 1] == out[i]);
            }
        }
        assert forall|i: int| 0 <= i < remap.len() && (#[trigger] remap[i]).0 != raw implies
            out.contains(remap[i]) by {
            if i < rest.len() {
                assert(rest[i] == remap[i]);
                let k = choose|k: int| 0 <= k < before.len() && before[k] == rest[i];
                assert(out[k] == remap[i]);
            } else {
                assert(out[out.len() - 1] == remap[i]);
            }
        }
    }
}

proof fn lemma_remap_entries(panes: Seq<SavedPane>)
    ensures
        forall|i: int|
            0 <= i < remap_of(panes).len() ==> exists|k: int|
                0 <= k < panes.len() && !((#[trigger] panes[k]).outcome is Lost) && (
                #[trigger] remap_of(panes)[i]) == (panes[k].raw, panes[k].id),
        forall|k: int|
            0 <= k < panes.len() && !((#[trigger] panes[k]).outcome is Lost) && (forall|j: int|
                k < j < panes.len() ==> (#[trigger] panes[j]).raw != panes[k].raw) ==> remap_of(
                panes,
            ).contains((panes[k].raw, panes[k].id)),
    decreases panes.len(),
{
    if panes.len() > 0 {
        let rest = panes.drop_last();
        let last = panes.len() - 1;
        lemma_remap_entries(rest);
        let before = remap_of(rest);
        let q = panes.last();
        assert(panes[last] == q);
        lemma_without_raw_entries(before, q.raw);
        let out = remap_of(panes);
        let kept = without_raw(before, q.raw);
        assert forall|i: int| 0 <= i < out.len() implies exists|k: int|
            0 <= k < panes.len() && !((#[trigger] panes[k]).outcome is Lost) && (#[trigger] out[i])
                == (panes[k].raw, panes[k].id) by {
            if !(q.outcome is Lost) && i == out.len() - 1 {
                assert(out[i] == (panes[last].raw, panes[last].id));
            } else {
                let e = out[i];
                if !(q.outcome is Lost) {
                    assert(kept[i] == e);
                    assert(before.contains(e));
                } else {
                    assert(before[i] == e);
                }
                let m = choose|m: int| 0 <= m < before.len() && before[m] == e;
                assert(before[m] == e);
                let k = choose|k: int|
                    0 <= k < rest.len() && !((#[trigger] rest[k]).outcome is Lost) && before[m] == (
                        rest[k].raw,
                        rest[k].id,
                    );
                assert(panes[k] == rest[k]);
            }
        }
        assert forall|k: int|
            0 <= k < panes.len() && !((#[trigger] panes[k]).outcome is Lost) && (forall|j: int|
                k < j < panes.len() ==> (#[trigger] panes[j]).raw != panes[k].raw) implies
            out.contains((panes[k].raw, panes[k].id)) by {
            let e = (panes[k].raw, panes[k].id);
            if k == last {
                assert(out[out.len() - 1] == e);
            } else {
                assert(rest[k] == panes[k]);
                assert forall|j: int| k < j < rest.len() implies (#[trigger] rest[j]).raw
                    != rest[k].raw by {
                    assert(panes[j] == rest[j]);
                }
                assert(before.contains(e));
                let m = choose|m: int| 0 <= m < before.len() && before[m] == e;
                if !(q.outcome is Lost) {
                    assert(panes[last].raw != panes[k].raw);
                    assert(before[m].0 != q.raw);
                    assert(kept.contains(before[m]));
                    let n = choose|n: int| 0 <= n < kept.len() && kept[n] == e;
                    assert(out[n] == e);
                }
            }
        }
    }
}

/// A tab of panes that all come back comes back as it was saved: under its own
/// identity and name, with the same splits along the same axes, each pane in its
/// place, and the focus where it was.
pub proof fn law_tabs_come_back_as_saved(
    tab: SavedTab,
    cwd: String,
    is_repo: bool,
    numbers: Map<PaneId, u32>,
)
    requires
        !tab.is_dashboard(),
        numbers_saved(tab.panes@, numbers),
        numbers_of(tab.tree).no_duplicates(),
        forall|i: int|
            0 <= i < numbers_of(tab.tree).len() ==> came_back(
                tab.panes@,
                #[trigger] numbers_of(tab.tree)[i],
            ),
    ensures
        match tab.restored(cwd, is_repo) {
            Some(t) => {
                &&& t.id == tab.id
                &&& t.name == tab.name
                &&& t.git is None
                &&& !t.orch
                &&& !t.mission
                &&& saved_as(t.layout.root, numbers) == tab.tree
                &&& t.layout.root.leaf_seq().contains(t.layout.focus)
                &&& numbers_of(tab.tree).contains(tab.focus) ==> numbers[t.layout.focus]
                    == tab.focus
            },
            None => false,
        },
{
    let panes = tab.panes@;
    let remap = remap_of(panes);
    lemma_remap_entries(panes);
    assert forall|i: int| 0 <= i < remap.len() implies numbers[(#[trigger] remap[i]).1]
        == remap[i].0 by {
        let k = choose|k: int|
            0 <= k < panes.len() && !((#[trigger] panes[k]).outcome is Lost) && remap[i] == (
                panes[k].raw,
                panes[k].id,
            );
        assert(numbers[panes[k].id] == panes[k].raw);
    }
    assert forall|i: int, j: int|
        0 <= i < remap.len() && 0 <= j < remap.len() && (#[trigger] remap[i]).0 == (
        #[trigger] remap[j]).0 implies remap[i].1 == remap[j].1 by {
        let a = choose|k: int|
            0 <= k < panes.len() && !((#[trigger] panes[k]).outcome is Lost) && remap[i] == (
                panes[k].raw,
                panes[k].id,
            );
        let b = choose|k: int|
            0 <= k < panes.len() && !((#[trigger] panes[k]).outcome is Lost) && remap[j] == (
                panes[k].raw,
                panes[k].id,
            );
        if a < b {
            assert(panes[a].raw != panes[b].raw);
        } else if b < a {
            assert(panes[b].raw != panes[a].raw);
        }
    }
    let all = numbers_of(tab.tree);
    assert forall|i: int| 0 <= i < all.len() implies exists|k: int|
        0 <= k < remap.len() && (#[trigger] remap[k]).0 == #[trigger] all[i] by {
        assert(came_back(panes, all[i]));
        let m = choose|m: int|
            0 <= m < panes.len() && (#[trigger] panes[m]).raw == all[i] && !(
            panes[m].outcome is Lost);
        assert forall|j: int| m < j < panes.len() implies (#[trigger] panes[j]).raw
            != panes[m].raw by {
            assert(panes[m].raw != panes[j].raw);
        }
        assert(remap.contains((panes[m].raw, panes[m].id)));
        let k = choose|k: int| 0 <= k < remap.len() && remap[k] == (panes[m].raw, panes[m].id);
        assert(remap[k].0 == all[i]);
    }
    law_layouts_are_restored_with_their_focus(tab.tree, remap, numbers, tab.focus);
}

/// A dashboard comes back as the dashboard that it was: one of a repository where
/// its directory still is one, and any other always.
pub proof fn law_dashboards_come_back(tab: SavedTab, cwd: String, is_repo: bool)
    requires
        tab.is_dashboard(),
    ensures
        match tab.restored(cwd, is_repo) {
            Some(t) => {
                &&& t.id == tab.id
                &&& t.layout.leaf_seq() == seq![tab.placeholder]
                &&& t.layout.focus == tab.placeholder
                &&& (t.git is Some) == tab.git
                &&& t.git is Some ==> t.git->0.root == cwd
                &&& !tab.git ==> t.orch == tab.orch
                &&& !tab.git && !tab.orch ==> t.mission
                &&& !(t.orch && t.mission)
            },
            None => tab.git && !is_repo,
        },
{
    match tab.restored(cwd, is_repo) {
        Some(t) => {
            assert(t.layout.leaf_seq() =~= seq![tab.placeholder]);
        },
        None => {},
    }
}

proof fn lemma_restored_all(tabs: Seq<SavedTab>, cwd: String, is_repo: bool)
    requires
        forall|t: int| 0 <= t < tabs.len() ==> (#[trigger] tabs[t]).restored(cwd, is_repo) is Some,
    ensures
        restored_tabs(tabs, cwd, is_repo).len() == tabs.len(),
        forall|t: int|
            0 <= t < tabs.len() ==> Some(#[trigger] restored_tabs(tabs, cwd, is_repo)[t])
                == tabs[t].restored(cwd, is_repo),
    decreases tabs.len(),
{
    if tabs.len() > 0 {
        let rest = tabs.drop_last();
        assert forall|t: int| 0 <= t < rest.len() implies (#[trigger] rest[t]).restored(
            cwd,
            is_repo,
        ) is Some by {
            assert(rest[t] == tabs[t]);
        }
        lemma_restored_all(rest, cwd, is_repo);
        assert(tabs[tabs.len() - 1] == tabs.last());
        assert forall|t: int| 0 <= t < tabs.len() implies Some(
            #[trigger] restored_tabs(tabs, cwd, is_repo)[t],
        ) == tabs[t].restored(cwd, is_repo) by {
            if t < rest.len() {
                assert(rest[t] == tabs[t]);
                assert(Some(restored_tabs(rest, cwd, is_repo)[t]) == rest[t].restored(
                    cwd,
                    is_repo,
                ));
            }
        }
    }
}

proof fn lemma_kept_all(spaces: Seq<SavedWorkspace>)
    requires
        forall|w: int| 0 <= w < spaces.len() ==> (#[trigger] spaces[w]).kept_tabs().len() > 0,
    ensures
        kept_workspaces(spaces) == spaces,
    decreases spaces.len(),
{
    if spaces.len() > 0 {
        let rest = spaces.drop_last();
        assert forall|w: int| 0 <= w < rest.len() implies (#[trigger] rest[w]).kept_tabs().len()
            > 0 by {
            assert(rest[w] == spaces[w]);
        }
        lemma_kept_all(rest);
        assert(spaces[spaces.len() - 1] == spaces.last());
        assert(rest.push(spaces.last()) =~= spaces);
    }
}

/// A session of which every tab can be restored comes back whole: its workspaces in
/// order, each under its own identity and name at its directory with all of its
/// tabs in order, and the same ones active.
pub proof fn law_sessions_come_back_whole(
    app: App,
    setup: Setup,
    saved: SavedSession,
    now: u64,
    w: int,
    t: int,
)
    requires
        app.is_restored(setup, saved, now),
        forall|v: int|
            0 <= v < saved.workspaces@.len() ==> (#[trigger] saved.workspaces@[v]).tabs@.len() > 0,
        forall|v: int, u: int|
            0 <= v < saved.workspaces@.len() && 0 <= u < saved.workspaces@[v].tabs@.len() ==> (
            #[trigger] saved.workspaces@[v].tabs@[u]).restored(
                saved.workspaces@[v].cwd,
                saved.workspaces@[v].is_repo,
            ) is Some,
        0 <= w < saved.workspaces@.len(),
        0 <= t < saved.workspaces@[w].tabs@.len(),
    ensures
        app.workspaces@.len() == saved.workspaces@.len(),
        saved.active_ws < saved.workspaces@.len() ==> app.active_ws == saved.active_ws,
        ({
            let old_space = saved.workspaces@[w];
            let space = app.workspaces@[w];
            &&& space.id == old_space.id
            &&& space.name == old_space.name
            &&& space.cwd == old_space.cwd
            &&& space.pinned == old_space.pinned
            &&& space.worktree == old_space.worktree
            &&& space.tabs@.len() == old_space.tabs@.len()
            &&& old_space.active_tab < old_space.tabs@.len() ==> space.active_tab
                == old_space.active_tab
            &&& old_space.tabs@[t].restored(old_space.cwd, old_space.is_repo) == Some(
                space.tabs@[t],
            )
        }),
{
    let spaces = saved.workspaces@;
    assert forall|v: int| 0 <= v < spaces.len() implies (#[trigger] spaces[v]).kept_tabs().len()
        > 0 && spaces[v].kept_tabs().len() == spaces[v].tabs@.len() by {
        lemma_restored_all(spaces[v].tabs@, spaces[v].cwd, spaces[v].is_repo);
    }
    lemma_kept_all(spaces);
    let kept = kept_workspaces(spaces);
    assert(kept[w].becomes(app.workspaces@[w]));
    lemma_restored_all(spaces[w].tabs@, spaces[w].cwd, spaces[w].is_repo);
}

/// The texts that are to be typed into the pane, in order.
pub open spec fn typed_into(sends: Seq<Effect>, p: PaneId) -> Seq<String>
    decreases sends.len(),
{
    if sends.len() == 0 {
        Seq::empty()
    } else {
        let before = typed_into(sends.drop_last(), p);
        match sends.last() {
            Effect::Send { pane, text } => if pane == p {
                before.push(text)
            } else {
                before
            },
            _ => before,
        }
    }
}

proof fn lemma_typed_push(sends: Seq<Effect>, e: Effect, p: PaneId)
    ensures
        typed_into(sends.push(e), p) == (match e {
            Effect::Send { pane, text } => if pane == p {
                typed_into(sends, p).push(text)
            } else {
                typed_into(sends, p)
            },
            _ => typed_into(sends, p),
        }),
{
    assert(sends.push(e).drop_last() =~= sends);
}

/// Whether nothing is known of the pane.
spec fn is_absent(r: Revival, p: PaneId) -> bool {
    &&& !r.panes.dom().contains(p)
    &&& !r.known.dom().contains(p)
    &&& !r.views.dom().contains(p)
    &&& !r.modules.dom().contains(p)
    &&& typed_into(r.sends, p).len() == 0
}

/// Whether the same is known of the pane.
spec fn is_same(r: Revival, q: Revival, p: PaneId) -> bool {
    &&& r.panes.dom().contains(p) == q.panes.dom().contains(p)
    &&& r.known.dom().contains(p) == q.known.dom().contains(p)
    &&& r.views.dom().contains(p) == q.views.dom().contains(p)
    &&& r.modules.dom().contains(p) == q.modules.dom().contains(p)
    &&& r.panes.dom().contains(p) ==> r.panes[p] == q.panes[p]
    &&& r.known.dom().contains(p) ==> r.known[p] == q.known[p]
    &&& r.views.dom().contains(p) ==> r.views[p] == q.views[p]
    &&& r.modules.dom().contains(p) ==> r.modules[p] == q.modules[p]
    &&& typed_into(r.sends, p) == typed_into(q.sends, p)
}

/// Whether a saved pane came back: one that ran runs again, with the agent and the
/// agent's session that were saved, or else with the agent that its command names,
/// and as the pane of its module where it was one. The line that resumes the session
/// is typed into it once, where it was not started on that line. One that showed
/// something shows it again. Of one that was lost there is nothing.
pub open spec fn is_back(r: Revival, q: SavedPane) -> bool {
    &&& r.panes.dom().contains(q.id) == (q.outcome is Live)
    &&& r.known.dom().contains(q.id) == (q.outcome is Live)
    &&& r.views.dom().contains(q.id) == (q.outcome is View)
    &&& match q.outcome {
        Restored::Live(pane, module) => {
            &&& r.panes[q.id] == pane
            &&& r.known[q.id].1 == q.session
            &&& r.known[q.id].0 == (match q.session {
                Some(s) => s.agent,
                None => pane.command,
            })
            &&& r.modules.dom().contains(q.id) == (module is Some)
            &&& module is Some ==> r.modules[q.id] == module->0
            &&& match (q.session, q.resume) {
                (Some(_), Some(line)) => typed_into(r.sends, q.id) == (if q.direct && module is None {
                    Seq::<String>::empty()
                } else {
                    seq![line]
                }),
                _ => typed_into(r.sends, q.id) == Seq::<String>::empty(),
            }
        },
        Restored::View(v) => r.views[q.id] == v && typed_into(r.sends, q.id).len() == 0,
        Restored::Lost => typed_into(r.sends, q.id).len() == 0,
    }
}

proof fn lemma_pane_spares(r: Revival, q: SavedPane, p: PaneId)
    requires
        q.id != p,
    ensures
        is_same(r, r.with_pane(q), p),
{
    match q.outcome {
        Restored::Live(pane, module) => {
            if q.resume is Some {
                lemma_typed_push(r.sends, Effect::Send { pane: q.id, text: q.resume->0 }, p);
            }
        },
        _ => {},
    }
}

proof fn lemma_panes_spare(r: Revival, panes: Seq<SavedPane>, p: PaneId)
    requires
        forall|k: int| 0 <= k < panes.len() ==> (#[trigger] panes[k]).id != p,
    ensures
        is_same(r, r.with_panes(panes), p),
    decreases panes.len(),
{
    if panes.len() > 0 {
        let rest = panes.drop_last();
        assert forall|k: int| 0 <= k < rest.len() implies (#[trigger] rest[k]).id != p by {
            assert(rest[k] == panes[k]);
        }
        lemma_panes_spare(r, rest, p);
        assert(panes[panes.len() - 1] == panes.last());
        lemma_pane_spares(r.with_panes(rest), panes.last(), p);
    }
}

proof fn lemma_tab_spares(r: Revival, tab: SavedTab, p: PaneId)
    requires
        !tab.ids().contains(p),
    ensures
        is_same(r, r.with_tab(tab), p),
{
    if !tab.is_dashboard() {
        let panes = tab.panes@;
        assert forall|k: int| 0 <= k < panes.len() implies (#[trigger] panes[k]).id != p by {
            assert(tab.ids()[k] == panes[k].id);
        }
        lemma_panes_spare(r, panes, p);
        let gone = remapped(remap_of(panes));
        if gone.contains(p) {
            lemma_remap_ids(panes, p);
        }
        let after = r.with_panes(panes);
        ids::lemma_map_without(after.panes, gone);
        ids::lemma_map_without(after.known, gone);
        ids::lemma_map_without(after.modules, gone);
    }
}

proof fn lemma_tabs_spare(r: Revival, tabs: Seq<SavedTab>, p: PaneId)
    requires
        forall|j: int| 0 <= j < tabs.len() ==> !(#[trigger] tabs[j]).ids().contains(p),
    ensures
        is_same(r, r.with_tabs(tabs), p),
    decreases tabs.len(),
{
    if tabs.len() > 0 {
        let rest = tabs.drop_last();
        assert forall|j: int| 0 <= j < rest.len() implies !(#[trigger] rest[j]).ids().contains(
            p,
        ) by {
            assert(rest[j] == tabs[j]);
        }
        lemma_tabs_spare(r, rest, p);
        assert(tabs[tabs.len() - 1] == tabs.last());
        lemma_tab_spares(r.with_tabs(rest), tabs.last(), p);
    }
}

proof fn lemma_panes_bring(r: Revival, panes: Seq<SavedPane>, k: int)
    requires
        0 <= k < panes.len(),
        is_absent(r, panes[k].id),
        forall|j: int| 0 <= j < panes.len() && j != k ==> (#[trigger] panes[j]).id != panes[k].id,
    ensures
        is_back(r.with_panes(panes), panes[k]),
    decreases panes.len(),
{
    let rest = panes.drop_last();
    let before = r.with_panes(rest);
    let q = panes[k];
    assert(panes[panes.len() - 1] == panes.last());
    if k == panes.len() - 1 {
        assert forall|j: int| 0 <= j < rest.len() implies (#[trigger] rest[j]).id != q.id by {
            assert(rest[j] == panes[j]);
        }
        lemma_panes_spare(r, rest, q.id);
        assert(typed_into(before.sends, q.id) =~= Seq::<String>::empty());
        match q.outcome {
            Restored::Live(pane, module) => {
                if q.resume is Some {
                    let e = Effect::Send { pane: q.id, text: q.resume->0 };
                    lemma_typed_push(before.sends, e, q.id);
                    assert(Seq::<String>::empty().push(q.resume->0) =~= seq![q.resume->0]);
                }
            },
            _ => {},
        }
    } else {
        assert(rest[k] == q);
        assert forall|j: int| 0 <= j < rest.len() && j != k implies (#[trigger] rest[j]).id
            != rest[k].id by {
            assert(rest[j] == panes[j]);
        }
        lemma_panes_bring(r, rest, k);
        lemma_pane_spares(before, panes.last(), q.id);
    }
}

proof fn lemma_tabs_bring(r: Revival, tabs: Seq<SavedTab>, t: int, k: int)
    requires
        0 <= t < tabs.len(),
        !tabs[t].is_dashboard(),
        tabs[t].layout() is Some,
        0 <= k < tabs[t].panes@.len(),
        is_absent(r, tabs[t].panes@[k].id),
        forall|j: int|
            0 <= j < tabs[t].panes@.len() && j != k ==> (#[trigger] tabs[t].panes@[j]).id
                != tabs[t].panes@[k].id,
        forall|j: int|
            0 <= j < tabs.len() && j != t ==> !(#[trigger] tabs[j]).ids().contains(
                tabs[t].panes@[k].id,
            ),
    ensures
        is_back(r.with_tabs(tabs), tabs[t].panes@[k]),
    decreases tabs.len(),
{
    let rest = tabs.drop_last();
    let p = tabs[t].panes@[k].id;
    assert(tabs[tabs.len() - 1] == tabs.last());
    if t == tabs.len() - 1 {
        assert forall|j: int| 0 <= j < rest.len() implies !(#[trigger] rest[j]).ids().contains(
            p,
        ) by {
            assert(rest[j] == tabs[j]);
        }
        lemma_tabs_spare(r, rest, p);
        lemma_panes_bring(r.with_tabs(rest), tabs[t].panes@, k);
    } else {
        assert(rest[t] == tabs[t]);
        assert forall|j: int| 0 <= j < rest.len() && j != t implies !(
        #[trigger] rest[j]).ids().contains(rest[t].panes@[k].id) by {
            assert(rest[j] == tabs[j]);
        }
        lemma_tabs_bring(r, rest, t, k);
        lemma_tab_spares(r.with_tabs(rest), tabs.last(), p);
    }
}

proof fn lemma_spaces_spare(spaces: Seq<SavedWorkspace>, p: PaneId)
    requires
        forall|w: int, t: int| !#[trigger] saved_at(spaces, w, t, p),
    ensures
        is_absent(Revival::nothing().with_workspaces(spaces), p),
    decreases spaces.len(),
{
    if spaces.len() > 0 {
        let rest = spaces.drop_last();
        let last = spaces.len() - 1;
        assert forall|w: int, t: int| !#[trigger] saved_at(rest, w, t, p) by {
            if saved_at(rest, w, t, p) {
                assert(rest[w] == spaces[w]);
                assert(saved_at(spaces, w, t, p));
            }
        }
        lemma_spaces_spare(rest, p);
        assert(spaces[last] == spaces.last());
        assert forall|j: int| 0 <= j < spaces[last].tabs@.len() implies !(
        #[trigger] spaces[last].tabs@[j]).ids().contains(p) by {
            assert(!saved_at(spaces, last, j, p));
        }
        lemma_tabs_spare(Revival::nothing().with_workspaces(rest), spaces[last].tabs@, p);
    }
}

/// Every pane of a tab that is restored comes back as it was saved: what ran runs,
/// agents keep their sessions and are resumed, and views show what they showed.
pub proof fn law_panes_come_back_as_saved(spaces: Seq<SavedWorkspace>, w: int, t: int, k: int)
    requires
        ids_apart(spaces),
        0 <= w < spaces.len(),
        0 <= t < spaces[w].tabs@.len(),
        !spaces[w].tabs@[t].is_dashboard(),
        spaces[w].tabs@[t].layout() is Some,
        0 <= k < spaces[w].tabs@[t].panes@.len(),
        forall|j: int|
            0 <= j < spaces[w].tabs@[t].panes@.len() && j != k ==> (
            #[trigger] spaces[w].tabs@[t].panes@[j]).id != spaces[w].tabs@[t].panes@[k].id,
    ensures
        is_back(Revival::nothing().with_workspaces(spaces), spaces[w].tabs@[t].panes@[k]),
    decreases spaces.len(),
{
    let tab = spaces[w].tabs@[t];
    let p = tab.panes@[k].id;
    assert(tab.ids()[k] == p);
    assert(saved_at(spaces, w, t, p));
    let rest = spaces.drop_last();
    let last = spaces.len() - 1;
    let r = Revival::nothing().with_workspaces(rest);
    assert(spaces[last] == spaces.last());
    if w == last {
        assert forall|a: int, b: int| !#[trigger] saved_at(rest, a, b, p) by {
            if saved_at(rest, a, b, p) {
                assert(rest[a] == spaces[a]);
                assert(saved_at(spaces, a, b, p));
            }
        }
        lemma_spaces_spare(rest, p);
        assert forall|j: int| 0 <= j < spaces[w].tabs@.len() && j != t implies !(
        #[trigger] spaces[w].tabs@[j]).ids().contains(p) by {
            if spaces[w].tabs@[j].ids().contains(p) {
                assert(saved_at(spaces, w, j, p));
            }
        }
        lemma_tabs_bring(r, spaces[w].tabs@, t, k);
    } else {
        assert(rest[w] == spaces[w]);
        assert forall|a: int, b: int, c: int, d: int, q: PaneId|
            #[trigger] saved_at(rest, a, b, q) && #[trigger] saved_at(rest, c, d, q) implies a == c
            && b == d by {
            assert(rest[a] == spaces[a] && rest[c] == spaces[c]);
            assert(saved_at(spaces, a, b, q) && saved_at(spaces, c, d, q));
        }
        law_panes_come_back_as_saved(rest, w, t, k);
        assert forall|j: int| 0 <= j < spaces[last].tabs@.len() implies !(
        #[trigger] spaces[last].tabs@[j]).ids().contains(p) by {
            if spaces[last].tabs@[j].ids().contains(p) {
                assert(saved_at(spaces, last, j, p));
            }
        }
        lemma_tabs_spare(r, spaces[last].tabs@, p);
    }
}

proof fn lemma_others_stay(names: Seq<(String, PaneId)>, id: PaneId, name: Seq<char>, k: int)
    requires
        0 <= k < names.len(),
    ensures
        names[k].1 != id ==> close::index_without(names, id).contains(names[k]),
        names[k].0@ != name ==> agents::without_name(names, name).contains(names[k]),
    decreases names.len(),
{
    let rest = names.drop_last();
    let (a, b) = (close::index_without(names, id), agents::without_name(names, name));
    let (x, y) = (close::index_without(rest, id), agents::without_name(rest, name));
    assert(names[names.len() - 1] == names.last());
    if k < rest.len() {
        lemma_others_stay(rest, id, name, k);
        assert(rest[k] == names[k]);
        if names[k].1 != id {
            let m = choose|m: int| 0 <= m < x.len() && x[m] == names[k];
            assert(a[m] == names[k]);
        }
        if names[k].0@ != name {
            let m = choose|m: int| 0 <= m < y.len() && y[m] == names[k];
            assert(b[m] == names[k]);
        }
    } else {
        if names[k].1 != id {
            assert(a[a.len() - 1] == names[k]);
        }
        if names[k].0@ != name {
            assert(b[b.len() - 1] == names[k]);
        }
    }
}

/// A pane that comes back has its name again, unless a pane that was saved after it
/// has the same one.
pub proof fn law_names_come_back(names: Seq<(String, PaneId)>, panes: Map<PaneId, Pane>, k: int)
    requires
        0 <= k < names.len(),
        panes.dom().contains(names[k].1),
        forall|j: int|
            k < j < names.len() ==> (#[trigger] names[j]).0@ != names[k].0@ && names[j].1
                != names[k].1,
    ensures
        standing_names(names, panes).contains(names[k]),
    decreases names.len(),
{
    let rest = names.drop_last();
    let before = standing_names(rest, panes);
    let out = standing_names(names, panes);
    let (name, id) = names.last();
    assert(names[names.len() - 1] == names.last());
    if k == names.len() - 1 {
        assert(out[out.len() - 1] == names[k]);
    } else {
        assert(rest[k] == names[k]);
        assert forall|j: int| k < j < rest.len() implies (#[trigger] rest[j]).0@ != rest[k].0@
            && rest[j].1 != rest[k].1 by {
            assert(rest[j] == names[j]);
        }
        law_names_come_back(rest, panes, k);
        if panes.dom().contains(id) {
            let others = close::index_without(before, id);
            let kept = agents::without_name(others, name@);
            let m = choose|m: int| 0 <= m < before.len() && before[m] == names[k];
            lemma_others_stay(before, id, name@, m);
            let n = choose|n: int| 0 <= n < others.len() && others[n] == names[k];
            lemma_others_stay(others, id, name@, n);
            assert(kept.contains(names[k]));
            let n = choose|n: int| 0 <= n < kept.len() && kept[n] == names[k];
            assert(out[n] == names[k]);
        }
    }
}

/// The agents of a restored session are as they were saved: each pane that runs
/// again has the agent and the agent's session that it had, and the lines that
/// resume sessions are all that is to be typed.
pub proof fn law_agents_are_resumed(
    app: App,
    setup: Setup,
    saved: SavedSession,
    now: u64,
    w: int,
    t: int,
    k: int,
)
    requires
        app.is_restored(setup, saved, now),
        ids_apart(saved.workspaces@),
        0 <= w < saved.workspaces@.len(),
        0 <= t < saved.workspaces@[w].tabs@.len(),
        !saved.workspaces@[w].tabs@[t].is_dashboard(),
        saved.workspaces@[w].tabs@[t].layout() is Some,
        0 <= k < saved.workspaces@[w].tabs@[t].panes@.len(),
        forall|j: int|
            0 <= j < saved.workspaces@[w].tabs@[t].panes@.len() && j != k ==> (
            #[trigger] saved.workspaces@[w].tabs@[t].panes@[j]).id
                != saved.workspaces@[w].tabs@[t].panes@[k].id,
    ensures
        ({
            let q = saved.workspaces@[w].tabs@[t].panes@[k];
            match q.outcome {
                Restored::Live(pane, module) => {
                    &&& app.panes@.dom().contains(q.id)
                    &&& app.panes@[q.id] == pane
                    &&& app.status@.dom().contains(q.id)
                    &&& app.status@[q.id].agent_session == q.session
                    &&& app.status@[q.id].agent@ == (match q.session {
                        Some(s) => s.agent@,
                        None => pane.command@,
                    })
                    &&& app.module_panes@.dom().contains(q.id) == (module is Some)
                    &&& typed_into(app.outbox@, q.id) == (if q.session is Some && q.resume is Some
                        && !(q.direct && module is None) {
                        seq![q.resume->0]
                    } else {
                        Seq::<String>::empty()
                    })
                },
                Restored::View(v) => app.views@.dom().contains(q.id) && app.views@[q.id] == v
                    && !app.panes@.dom().contains(q.id),
                Restored::Lost => !app.panes@.dom().contains(q.id) && !app.views@.dom().contains(
                    q.id,
                ),
            }
        }),
{
    law_panes_come_back_as_saved(saved.workspaces@, w, t, k);
    let q = saved.workspaces@[w].tabs@[t].panes@[k];
    let r = Revival::nothing().with_workspaces(saved.workspaces@);
    if q.outcome is Live {
        assert(is_revived(app.status@[q.id], r.known[q.id], now));
    }
}

proof fn lemma_entry_in(module: Module, entrypoint: Seq<char>, n: int)
    requires
        0 <= n <= module.panes@.len(),
    ensures
        match entry_in(module, entrypoint, n) {
            Some(c) => exists|k: int|
                n <= k < module.panes@.len() && (#[trigger] module.panes@[k]).id@ == entrypoint
                    && module.panes@[k].command@ == c,
            None => forall|k: int|
                n <= k < module.panes@.len() ==> (#[trigger] module.panes@[k]).id@ != entrypoint,
        },
    decreases module.panes@.len() - n,
{
    if n < module.panes@.len() && module.panes@[n].id@ != entrypoint {
        lemma_entry_in(module, entrypoint, n + 1);
    }
}

proof fn lemma_module_from(modules: Seq<Module>, id: Seq<char>, n: int)
    requires
        0 <= n <= modules.len(),
    ensures
        match module_from(modules, id, n) {
            Some(i) => n <= i < modules.len() && modules[i].id@ == id && forall|k: int|
                n <= k < i ==> (#[trigger] modules[k]).id@ != id,
            None => forall|k: int| n <= k < modules.len() ==> (#[trigger] modules[k]).id@ != id,
        },
    decreases modules.len() - n,
{
    if n < modules.len() && modules[n].id@ != id {
        lemma_module_from(modules, id, n + 1);
    }
}

/// The pane of a module runs what that module declares under its entry point. It
/// runs nothing of a module that is gone or cannot run, or that does not declare it.
pub proof fn law_module_panes_run_what_is_declared(
    modules: Seq<Module>,
    m: int,
    entrypoint: Seq<char>,
)
    requires
        0 <= m < modules.len(),
        forall|k: int| 0 <= k < modules.len() && k != m ==> (#[trigger] modules[k]).id@
            != modules[m].id@,
    ensures
        match module_entry(modules, modules[m].id@, entrypoint) {
            Some(c) => modules[m].runnable && exists|k: int|
                0 <= k < modules[m].panes@.len() && (#[trigger] modules[m].panes@[k]).id@
                    == entrypoint && modules[m].panes@[k].command@ == c,
            None => !modules[m].runnable || forall|k: int|
                0 <= k < modules[m].panes@.len() ==> (#[trigger] modules[m].panes@[k]).id@
                    != entrypoint,
        },
{
    lemma_module_from(modules, modules[m].id@, 0);
    lemma_entry_in(modules[m], entrypoint, 0);
}

} // verus!
