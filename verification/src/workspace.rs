//! Workspaces and their tabs.
use vstd::prelude::*;
use vstd::string::*;

use crate::ids;
use crate::ids::PaneId;
use crate::layout;
use crate::layout::{Axis, TileLayout, TileNode};

verus! {

/// A git dashboard, by the directory that it shows.
#[derive(Debug)]
pub struct GitView {
    pub root: String,
}

/// A tab: a layout of panes, or a dashboard, whose layout is one leaf that
/// stands for no pane.
#[derive(Debug)]
pub struct Tab {
    /// The identity of the tab across moves and restarts.
    pub id: String,
    pub layout: TileLayout,
    /// The tab is a git dashboard.
    pub git: Option<GitView>,
    /// The tab is the task board.
    pub orch: bool,
    /// The tab is the overview of agents.
    pub mission: bool,
    /// The name that the user gave it; else its number is shown.
    pub name: Option<String>,
}

impl Tab {
    /// Whether the tab shows panes and not a dashboard.
    pub open spec fn is_panes(self) -> bool {
        self.git is None && !self.orch && !self.mission
    }

    /// A tab of panes.
    pub fn panes(id: String, layout: TileLayout) -> (tab: Tab)
        ensures
            tab == (Tab { id, layout, git: None, orch: false, mission: false, name: None }),
            tab.is_panes(),
    {
        Tab { id, layout, git: None, orch: false, mission: false, name: None }
    }

    /// Whether the tab is a git dashboard.
    pub fn is_git(&self) -> (b: bool)
        ensures
            b == (self.git is Some),
    {
        self.git.is_some()
    }

    /// Whether the tab is the task board.
    pub fn is_orch(&self) -> (b: bool)
        ensures
            b == self.orch,
    {
        self.orch
    }

    /// Whether the tab is the overview of agents.
    pub fn is_mission(&self) -> (b: bool)
        ensures
            b == self.mission,
    {
        self.mission
    }

    /// Whether the tab can have a name: a dashboard keeps its label.
    pub fn is_renameable(&self) -> (b: bool)
        ensures
            b == self.is_panes(),
    {
        !self.is_git() && !self.is_orch() && !self.is_mission()
    }
}

/// Which repository a workspace belongs to.
#[derive(Debug)]
pub struct WorktreeMembership {
    /// The common git directory of the repository.
    pub common_dir: String,
    /// The workspace is a linked worktree, not the main checkout.
    pub linked: bool,
}

/// A workspace: a fixed directory with its tabs.
#[derive(Debug)]
pub struct Workspace {
    /// The identity of the workspace across reordering and restarts.
    pub id: String,
    pub name: String,
    pub cwd: String,
    pub branch: Option<String>,
    pub git_ahead_behind: Option<(u32, u32)>,
    pub worktree: Option<WorktreeMembership>,
    pub tabs: Vec<Tab>,
    pub active_tab: usize,
    /// Pinned to the top of the list.
    pub pinned: bool,
}

// ---------------------------------------------------------------------------
// Which panes are where
// ---------------------------------------------------------------------------

/// Whether the pane is in the tab.
pub open spec fn tab_has(tab: Tab, p: PaneId) -> bool {
    tab.layout.leaf_seq().contains(p)
}

/// Whether the pane is in one of the tabs.
pub open spec fn tabs_have(tabs: Seq<Tab>, p: PaneId) -> bool {
    exists|j: int| 0 <= j < tabs.len() && #[trigger] tab_has(tabs[j], p)
}

/// Whether no pane is in two tabs.
pub open spec fn tabs_distinct(tabs: Seq<Tab>) -> bool {
    forall|j: int, l: int, p: PaneId|
        0 <= j < tabs.len() && 0 <= l < tabs.len() && #[trigger] tab_has(tabs[j], p)
            && #[trigger] tab_has(tabs[l], p) ==> j == l
}

/// Whether every layout is sound and no pane is in two tabs.
pub open spec fn tabs_wf(tabs: Seq<Tab>) -> bool {
    &&& forall|j: int| 0 <= j < tabs.len() ==> (#[trigger] tabs[j]).layout.wf()
    &&& tabs_distinct(tabs)
}

impl Workspace {
    /// A workspace has tabs, one of which is active.
    pub open spec fn wf(self) -> bool {
        &&& tabs_wf(self.tabs@)
        &&& self.active_tab < self.tabs@.len()
    }
}

/// Whether every workspace is sound and no pane is in two of them.
pub open spec fn tree_wf(ws: Seq<Workspace>) -> bool {
    &&& forall|i: int| 0 <= i < ws.len() ==> (#[trigger] ws[i]).wf()
    &&& forall|i: int, k: int, p: PaneId|
        0 <= i < ws.len() && 0 <= k < ws.len() && #[trigger] tabs_have(ws[i].tabs@, p)
            && #[trigger] tabs_have(ws[k].tabs@, p) ==> i == k
}

/// Whether the pane is anywhere in the session.
pub open spec fn session_has(ws: Seq<Workspace>, p: PaneId) -> bool {
    exists|i: int| 0 <= i < ws.len() && #[trigger] tabs_have(ws[i].tabs@, p)
}

/// Whether the pane is in this tab of this workspace.
pub open spec fn located(ws: Seq<Workspace>, p: PaneId, at: (int, int)) -> bool {
    &&& 0 <= at.0 < ws.len()
    &&& 0 <= at.1 < ws[at.0].tabs@.len()
    &&& tab_has(ws[at.0].tabs@[at.1], p)
}

/// A pane is in one place at most.
pub proof fn lemma_located_once(ws: Seq<Workspace>, p: PaneId, a: (int, int), b: (int, int))
    requires
        tree_wf(ws),
        located(ws, p, a),
        located(ws, p, b),
    ensures
        a == b,
{
    assert(tab_has(ws[a.0].tabs@[a.1], p));
    assert(tab_has(ws[b.0].tabs@[b.1], p));
    assert(tabs_have(ws[a.0].tabs@, p));
    assert(tabs_have(ws[b.0].tabs@, p));
    assert(ws[a.0].wf());
}

/// A session stays sound when the tabs of one workspace change, as long as they
/// gain no pane that is elsewhere.
pub proof fn lemma_tree_update(ws: Seq<Workspace>, i: int, w: Workspace)
    requires
        tree_wf(ws),
        0 <= i < ws.len(),
        w.wf(),
        forall|p: PaneId| #[trigger]
            tabs_have(w.tabs@, p) ==> tabs_have(ws[i].tabs@, p) || !session_has(ws, p),
    ensures
        tree_wf(ws.update(i, w)),
{
    let t = ws.update(i, w);
    assert forall|a: int, b: int, p: PaneId|
        0 <= a < t.len() && 0 <= b < t.len() && #[trigger] tabs_have(t[a].tabs@, p)
            && #[trigger] tabs_have(t[b].tabs@, p) implies a == b by {
        if a != b {
            if a == i {
                assert(tabs_have(ws[b].tabs@, p));
                assert(session_has(ws, p));
                assert(tabs_have(ws[i].tabs@, p));
            } else if b == i {
                assert(tabs_have(ws[a].tabs@, p));
                assert(session_has(ws, p));
                assert(tabs_have(ws[i].tabs@, p));
            } else {
                assert(tabs_have(ws[a].tabs@, p));
                assert(tabs_have(ws[b].tabs@, p));
            }
        }
    }
}

/// A session stays sound when a workspace leaves it.
pub proof fn lemma_tree_remove(ws: Seq<Workspace>, i: int)
    requires
        tree_wf(ws),
        0 <= i < ws.len(),
    ensures
        tree_wf(ws.remove(i)),
        forall|p: PaneId| #[trigger]
            session_has(ws.remove(i), p) ==> session_has(ws, p) && !tabs_have(ws[i].tabs@, p),
{
    let t = ws.remove(i);
    let old_index = |a: int| if a < i { a } else { a + 1 };
    assert forall|a: int| 0 <= a < t.len() implies (#[trigger] t[a]).wf() by {
        assert(t[a] == ws[old_index(a)]);
    }
    assert forall|a: int, b: int, p: PaneId|
        0 <= a < t.len() && 0 <= b < t.len() && #[trigger] tabs_have(t[a].tabs@, p)
            && #[trigger] tabs_have(t[b].tabs@, p) implies a == b by {
        assert(t[a] == ws[old_index(a)]);
        assert(t[b] == ws[old_index(b)]);
        assert(tabs_have(ws[old_index(a)].tabs@, p));
        assert(tabs_have(ws[old_index(b)].tabs@, p));
    }
    assert forall|p: PaneId| #[trigger] session_has(t, p) implies session_has(ws, p) && !tabs_have(
        ws[i].tabs@,
        p,
    ) by {
        let a = choose|a: int| 0 <= a < t.len() && #[trigger] tabs_have(t[a].tabs@, p);
        assert(t[a] == ws[old_index(a)]);
        assert(tabs_have(ws[old_index(a)].tabs@, p));
    }
}

/// A session stays sound when a workspace with new panes joins it.
pub proof fn lemma_tree_push(ws: Seq<Workspace>, w: Workspace)
    requires
        tree_wf(ws),
        w.wf(),
        forall|p: PaneId| #[trigger] tabs_have(w.tabs@, p) ==> !session_has(ws, p),
    ensures
        tree_wf(ws.push(w)),
{
    let t = ws.push(w);
    assert forall|a: int, b: int, p: PaneId|
        0 <= a < t.len() && 0 <= b < t.len() && #[trigger] tabs_have(t[a].tabs@, p)
            && #[trigger] tabs_have(t[b].tabs@, p) implies a == b by {
        if a != b {
            if a < ws.len() {
                assert(tabs_have(ws[a].tabs@, p));
                assert(session_has(ws, p));
            }
            if b < ws.len() {
                assert(tabs_have(ws[b].tabs@, p));
                assert(session_has(ws, p));
            }
        }
    }
}

/// Tabs stay sound when one leaves.
pub proof fn lemma_tabs_remove(tabs: Seq<Tab>, i: int)
    requires
        tabs_wf(tabs),
        0 <= i < tabs.len(),
    ensures
        tabs_wf(tabs.remove(i)),
        forall|p: PaneId| #[trigger]
            tabs_have(tabs.remove(i), p) == (tabs_have(tabs, p) && !tab_has(tabs[i], p)),
{
    let t = tabs.remove(i);
    let old_index = |a: int| if a < i { a } else { a + 1 };
    assert forall|a: int| 0 <= a < t.len() implies (#[trigger] t[a]).layout.wf() by {
        assert(t[a] == tabs[old_index(a)]);
    }
    assert forall|a: int, b: int, p: PaneId|
        0 <= a < t.len() && 0 <= b < t.len() && #[trigger] tab_has(t[a], p) && #[trigger] tab_has(
            t[b],
            p,
        ) implies a == b by {
        assert(t[a] == tabs[old_index(a)] && t[b] == tabs[old_index(b)]);
        assert(tab_has(tabs[old_index(a)], p) && tab_has(tabs[old_index(b)], p));
    }
    assert forall|p: PaneId| #[trigger] tabs_have(t, p) == (tabs_have(tabs, p) && !tab_has(
        tabs[i],
        p,
    )) by {
        if tabs_have(t, p) {
            let a = choose|a: int| 0 <= a < t.len() && #[trigger] tab_has(t[a], p);
            assert(t[a] == tabs[old_index(a)]);
            assert(tab_has(tabs[old_index(a)], p));
        }
        if tabs_have(tabs, p) && !tab_has(tabs[i], p) {
            let a = choose|a: int| 0 <= a < tabs.len() && #[trigger] tab_has(tabs[a], p);
            let b = if a < i {
                a
            } else {
                a - 1
            };
            assert(t[b] == tabs[a]);
            assert(tab_has(t[b], p));
        }
    }
}

/// Tabs stay sound when one comes in between whose panes are in none of them.
pub proof fn lemma_tabs_insert(tabs: Seq<Tab>, i: int, tab: Tab)
    requires
        tabs_wf(tabs),
        0 <= i <= tabs.len(),
        tab.layout.wf(),
        forall|p: PaneId| #[trigger] tab_has(tab, p) ==> !tabs_have(tabs, p),
    ensures
        tabs_wf(tabs.insert(i, tab)),
        forall|p: PaneId| #[trigger]
            tabs_have(tabs.insert(i, tab), p) == (tabs_have(tabs, p) || tab_has(tab, p)),
{
    let t = tabs.insert(i, tab);
    let old_index = |a: int| if a < i { a } else { a - 1 };
    assert forall|a: int| 0 <= a < t.len() implies (#[trigger] t[a]).layout.wf() by {
        if a != i {
            assert(t[a] == tabs[old_index(a)]);
        }
    }
    assert forall|a: int, b: int, p: PaneId|
        0 <= a < t.len() && 0 <= b < t.len() && #[trigger] tab_has(t[a], p) && #[trigger] tab_has(
            t[b],
            p,
        ) implies a == b by {
        if a != i {
            assert(t[a] == tabs[old_index(a)]);
            assert(tab_has(tabs[old_index(a)], p));
            assert(tabs_have(tabs, p));
        }
        if b != i {
            assert(t[b] == tabs[old_index(b)]);
            assert(tab_has(tabs[old_index(b)], p));
            assert(tabs_have(tabs, p));
        }
    }
    assert forall|p: PaneId| #[trigger] tabs_have(t, p) == (tabs_have(tabs, p) || tab_has(tab, p)) by {
        if tabs_have(t, p) {
            let a = choose|a: int| 0 <= a < t.len() && #[trigger] tab_has(t[a], p);
            if a != i {
                assert(t[a] == tabs[old_index(a)]);
                assert(tab_has(tabs[old_index(a)], p));
            }
        }
        if tabs_have(tabs, p) {
            let a = choose|a: int| 0 <= a < tabs.len() && #[trigger] tab_has(tabs[a], p);
            let b = if a < i {
                a
            } else {
                a + 1
            };
            assert(t[b] == tabs[a]);
            assert(tab_has(t[b], p));
        }
        if tab_has(tab, p) {
            assert(tab_has(t[i], p));
        }
    }
}

/// Tabs stay sound when one changes without gaining a pane of another.
pub proof fn lemma_tabs_update(tabs: Seq<Tab>, i: int, tab: Tab)
    requires
        tabs_wf(tabs),
        0 <= i < tabs.len(),
        tab.layout.wf(),
        forall|p: PaneId| #[trigger]
            tab_has(tab, p) ==> tab_has(tabs[i], p) || !tabs_have(tabs, p),
    ensures
        tabs_wf(tabs.update(i, tab)),
        forall|p: PaneId| #[trigger]
            tabs_have(tabs.update(i, tab), p) == (tab_has(tab, p) || (tabs_have(tabs, p)
                && !tab_has(tabs[i], p))),
{
    let t = tabs.update(i, tab);
    assert forall|a: int, b: int, p: PaneId|
        0 <= a < t.len() && 0 <= b < t.len() && #[trigger] tab_has(t[a], p) && #[trigger] tab_has(
            t[b],
            p,
        ) implies a == b by {
        if a != b {
            if a != i {
                assert(tab_has(tabs[a], p));
                assert(tabs_have(tabs, p));
            }
            if b != i {
                assert(tab_has(tabs[b], p));
                assert(tabs_have(tabs, p));
            }
            if a == i {
                assert(tab_has(tabs[i], p));
            }
            if b == i {
                assert(tab_has(tabs[i], p));
            }
        }
    }
    assert forall|p: PaneId| #[trigger] tabs_have(t, p) == (tab_has(tab, p) || (tabs_have(tabs, p)
        && !tab_has(tabs[i], p))) by {
        if tabs_have(t, p) {
            let a = choose|a: int| 0 <= a < t.len() && #[trigger] tab_has(t[a], p);
            if a != i {
                assert(tab_has(tabs[a], p));
                if tab_has(tabs[i], p) {
                    assert(a == i);
                }
            }
        }
        if tab_has(tab, p) {
            assert(tab_has(t[i], p));
        }
        if tabs_have(tabs, p) && !tab_has(tabs[i], p) {
            let a = choose|a: int| 0 <= a < tabs.len() && #[trigger] tab_has(tabs[a], p);
            assert(tab_has(t[a], p));
        }
    }
}

// ---------------------------------------------------------------------------
// Finding panes
// ---------------------------------------------------------------------------

/// Which tab holds the pane.
pub fn tab_of(tabs: &Vec<Tab>, p: PaneId) -> (at: Option<usize>)
    ensures
        match at {
            Some(j) => j < tabs@.len() && tab_has(tabs@[j as int], p),
            None => !tabs_have(tabs@, p),
        },
{
    let mut j: usize = 0;
    while j < tabs.len()
        invariant
            j <= tabs@.len(),
            forall|k: int| 0 <= k < j ==> !tab_has(#[trigger] tabs@[k], p),
        decreases tabs@.len() - j,
    {
        if tabs[j].layout.contains(p) {
            return Some(j);
        }
        j = j + 1;
    }
    None
}

/// Which tab of which workspace holds the pane.
pub fn locate(ws: &Vec<Workspace>, p: PaneId) -> (at: Option<(usize, usize)>)
    ensures
        match at {
            Some(a) => located(ws@, p, (a.0 as int, a.1 as int)),
            None => !session_has(ws@, p),
        },
{
    let mut i: usize = 0;
    while i < ws.len()
        invariant
            i <= ws@.len(),
            forall|k: int| 0 <= k < i ==> !tabs_have((#[trigger] ws@[k]).tabs@, p),
        decreases ws@.len() - i,
    {
        match tab_of(&ws[i].tabs, p) {
            Some(j) => {
                return Some((i, j));
            },
            None => {},
        }
        i = i + 1;
    }
    None
}

// ---------------------------------------------------------------------------
// Moving tabs
// ---------------------------------------------------------------------------

/// The tabs with one moved to another position.
pub open spec fn tabs_moved(tabs: Seq<Tab>, from: int, to: int) -> Seq<Tab> {
    tabs.remove(from).insert(to, tabs[from])
}

/// Where a position is after a move.
pub open spec fn moved_position(at: int, from: int, to: int) -> int {
    if at == from {
        to
    } else if from < at <= to {
        at - 1
    } else if to <= at < from {
        at + 1
    } else {
        at
    }
}

/// The tabs with two exchanged.
pub open spec fn tabs_swapped(tabs: Seq<Tab>, a: int, b: int) -> Seq<Tab> {
    tabs.update(a, tabs[b]).update(b, tabs[a])
}

/// Where a position is after an exchange.
pub open spec fn swapped_position(at: int, a: int, b: int) -> int {
    if at == a {
        b
    } else if at == b {
        a
    } else {
        at
    }
}

/// Moving a tab only reorders: every tab is found at its new position, so the
/// active tab stays the tab that it was.
pub proof fn law_moving_a_tab_keeps_every_tab(tabs: Seq<Tab>, from: int, to: int)
    requires
        0 <= from < tabs.len(),
        0 <= to < tabs.len(),
    ensures
        tabs_moved(tabs, from, to).len() == tabs.len(),
        forall|at: int|
            0 <= at < tabs.len() ==> 0 <= #[trigger] moved_position(at, from, to) < tabs.len()
                && tabs_moved(tabs, from, to)[moved_position(at, from, to)] == tabs[at],
        tabs_wf(tabs) ==> tabs_wf(tabs_moved(tabs, from, to)),
        forall|p: PaneId| #[trigger]
            tabs_have(tabs_moved(tabs, from, to), p) == tabs_have(tabs, p),
{
    let t = tabs_moved(tabs, from, to);
    assert forall|at: int| 0 <= at < tabs.len() implies 0 <= #[trigger] moved_position(at, from, to)
        < tabs.len() && t[moved_position(at, from, to)] == tabs[at] by {
    }
    assert forall|p: PaneId| #[trigger] tabs_have(t, p) == tabs_have(tabs, p) by {
        if tabs_have(tabs, p) {
            let a = choose|a: int| 0 <= a < tabs.len() && #[trigger] tab_has(tabs[a], p);
            assert(tab_has(t[moved_position(a, from, to)], p));
        }
        if tabs_have(t, p) {
            let b = choose|b: int| 0 <= b < t.len() && #[trigger] tab_has(t[b], p);
            let a = moved_position(b, to, from);
            assert(tabs[a] == t[b]);
            assert(tab_has(tabs[a], p));
        }
    }
    if tabs_wf(tabs) {
        assert forall|b: int| 0 <= b < t.len() implies (#[trigger] t[b]).layout.wf() by {
            assert(t[b] == tabs[moved_position(b, to, from)]);
        }
        assert forall|a: int, b: int, p: PaneId|
            0 <= a < t.len() && 0 <= b < t.len() && #[trigger] tab_has(t[a], p)
                && #[trigger] tab_has(t[b], p) implies a == b by {
            let x = moved_position(a, to, from);
            let y = moved_position(b, to, from);
            assert(t[a] == tabs[x] && t[b] == tabs[y]);
            assert(tab_has(tabs[x], p) && tab_has(tabs[y], p));
        }
    }
}

/// Moving a tab back undoes the move.
pub proof fn law_moving_back_undoes_a_move(tabs: Seq<Tab>, from: int, to: int, at: int)
    requires
        0 <= from < tabs.len(),
        0 <= to < tabs.len(),
        0 <= at < tabs.len(),
    ensures
        tabs_moved(tabs_moved(tabs, from, to), to, from) == tabs,
        moved_position(moved_position(at, from, to), to, from) == at,
{
    assert(tabs_moved(tabs_moved(tabs, from, to), to, from) =~= tabs);
}

/// Exchanging two tabs only reorders, and exchanging them again undoes it.
pub proof fn law_swapping_tabs_keeps_every_tab(tabs: Seq<Tab>, a: int, b: int)
    requires
        0 <= a < tabs.len(),
        0 <= b < tabs.len(),
    ensures
        tabs_swapped(tabs, a, b).len() == tabs.len(),
        forall|at: int|
            0 <= at < tabs.len() ==> 0 <= #[trigger] swapped_position(at, a, b) < tabs.len()
                && tabs_swapped(tabs, a, b)[swapped_position(at, a, b)] == tabs[at],
        tabs_swapped(tabs_swapped(tabs, a, b), a, b) == tabs,
        tabs_wf(tabs) ==> tabs_wf(tabs_swapped(tabs, a, b)),
        forall|p: PaneId| #[trigger] tabs_have(tabs_swapped(tabs, a, b), p) == tabs_have(tabs, p),
{
    let t = tabs_swapped(tabs, a, b);
    assert(tabs_swapped(t, a, b) =~= tabs);
    assert forall|p: PaneId| #[trigger] tabs_have(t, p) == tabs_have(tabs, p) by {
        if tabs_have(tabs, p) {
            let x = choose|x: int| 0 <= x < tabs.len() && #[trigger] tab_has(tabs[x], p);
            assert(tab_has(t[swapped_position(x, a, b)], p));
        }
        if tabs_have(t, p) {
            let x = choose|x: int| 0 <= x < t.len() && #[trigger] tab_has(t[x], p);
            assert(tab_has(tabs[swapped_position(x, a, b)], p));
        }
    }
    if tabs_wf(tabs) {
        assert forall|x: int| 0 <= x < t.len() implies (#[trigger] t[x]).layout.wf() by {
            assert(t[x] == tabs[swapped_position(x, a, b)]);
        }
        assert forall|x: int, y: int, p: PaneId|
            0 <= x < t.len() && 0 <= y < t.len() && #[trigger] tab_has(t[x], p)
                && #[trigger] tab_has(t[y], p) implies x == y by {
            assert(tab_has(tabs[swapped_position(x, a, b)], p));
            assert(tab_has(tabs[swapped_position(y, a, b)], p));
        }
    }
}

impl Workspace {
    /// Moves a tab to another position. The active tab stays the tab that it
    /// was.
    pub fn move_tab(&mut self, from: usize, to: usize)
        requires
            old(self).wf(),
            from < old(self).tabs@.len(),
            to < old(self).tabs@.len(),
        ensures
            final(self).wf(),
            final(self).tabs@ == tabs_moved(old(self).tabs@, from as int, to as int),
            final(self).active_tab == moved_position(
                old(self).active_tab as int,
                from as int,
                to as int,
            ),
            final(self).tabs@[final(self).active_tab as int]
                == old(self).tabs@[old(self).active_tab as int],
            *final(self) == (Workspace {
                tabs: final(self).tabs,
                active_tab: final(self).active_tab,
                ..*old(self)
            }),
    {
        let ghost tabs = self.tabs@;
        proof {
            law_moving_a_tab_keeps_every_tab(tabs, from as int, to as int);
        }
        let active: usize = self.active_tab;
        assert(0 <= moved_position(active as int, from as int, to as int) < tabs.len());
        let tab = self.tabs.remove(from);
        self.tabs.insert(to, tab);
        self.active_tab = if active == from {
            to
        } else if from < active && active <= to {
            active - 1
        } else if to <= active && active < from {
            active + 1
        } else {
            active
        };
    }

    /// Exchanges two tabs. The active tab stays the tab that it was.
    pub fn swap_tabs(&mut self, first: usize, second: usize)
        requires
            old(self).wf(),
            first < old(self).tabs@.len(),
            second < old(self).tabs@.len(),
            first != second,
        ensures
            final(self).wf(),
            final(self).tabs@ == tabs_swapped(old(self).tabs@, first as int, second as int),
            final(self).active_tab == swapped_position(
                old(self).active_tab as int,
                first as int,
                second as int,
            ),
            final(self).tabs@[final(self).active_tab as int]
                == old(self).tabs@[old(self).active_tab as int],
            *final(self) == (Workspace {
                tabs: final(self).tabs,
                active_tab: final(self).active_tab,
                ..*old(self)
            }),
    {
        let ghost tabs = self.tabs@;
        proof {
            law_swapping_tabs_keeps_every_tab(tabs, first as int, second as int);
        }
        let active: usize = self.active_tab;
        assert(0 <= swapped_position(active as int, first as int, second as int) < tabs.len());
        let (low, high) = if first < second {
            (first, second)
        } else {
            (second, first)
        };
        let b = self.tabs.remove(high);
        let a = self.tabs.remove(low);
        self.tabs.insert(low, b);
        self.tabs.insert(high, a);
        assert(self.tabs@ =~= tabs_swapped(tabs, first as int, second as int));
        self.active_tab = if active == first {
            second
        } else if active == second {
            first
        } else {
            active
        };
    }
}

// ---------------------------------------------------------------------------
// Moving panes between tabs
// ---------------------------------------------------------------------------

/// Where a pane is moved to: an existing tab, or a new one.
#[derive(Clone, Copy, Debug, PartialEq, Eq, Structural)]
pub enum MoveTarget {
    Tab(usize),
    NewTab,
}

/// The layout without a pane that is not its only one.
pub open spec fn layout_without(l: TileLayout, p: PaneId) -> TileLayout {
    TileLayout { root: l.root.removed_spec(p)->0, focus: l.focus_without(p) }
}

/// The layout with its focused pane split by a new one beside it.
pub open spec fn layout_with(l: TileLayout, p: PaneId) -> TileLayout {
    TileLayout { root: l.root.split_spec(l.focus, Axis::Col, p), focus: p }
}

/// The layout with a pane split by a new one, which has the focus or leaves it
/// where it is.
pub open spec fn layout_split(
    l: TileLayout,
    at: PaneId,
    axis: Axis,
    p: PaneId,
    follow: bool,
) -> TileLayout {
    TileLayout {
        root: l.root.split_spec(at, axis, p),
        focus: if follow {
            p
        } else {
            l.focus
        },
    }
}

/// Whether the pane is the only one of the tab.
pub open spec fn only_pane(tab: Tab, p: PaneId) -> bool {
    tab.layout.leaf_seq() == seq![p]
}

/// The tabs once the pane is taken out of tab `src`: a tab that it leaves empty
/// is gone.
pub open spec fn tabs_detached(tabs: Seq<Tab>, src: int, p: PaneId) -> Seq<Tab> {
    if only_pane(tabs[src], p) {
        tabs.remove(src)
    } else {
        tabs.update(src, Tab { layout: layout_without(tabs[src].layout, p), ..tabs[src] })
    }
}

/// Where the pane is once it was moved.
pub open spec fn landing(tabs: Seq<Tab>, src: int, p: PaneId, target: MoveTarget) -> int {
    match target {
        MoveTarget::Tab(ti) => if only_pane(tabs[src], p) && src < ti {
            ti - 1
        } else {
            ti as int
        },
        MoveTarget::NewTab => tabs_detached(tabs, src, p).len() as int,
    }
}

/// The tabs once the pane was moved. `id` is the identity of a new tab.
pub open spec fn tabs_with_pane_moved(
    tabs: Seq<Tab>,
    src: int,
    p: PaneId,
    target: MoveTarget,
    id: String,
) -> Seq<Tab> {
    let rest = tabs_detached(tabs, src, p);
    let to = landing(tabs, src, p, target);
    match target {
        MoveTarget::Tab(_) => rest.update(
            to,
            Tab { layout: layout_with(rest[to].layout, p), ..rest[to] },
        ),
        MoveTarget::NewTab => rest.push(
            Tab {
                id,
                layout: TileLayout { root: TileNode::Leaf(p), focus: p },
                git: None,
                orch: false,
                mission: false,
                name: None,
            },
        ),
    }
}

proof fn lemma_detached(tabs: Seq<Tab>, src: int, p: PaneId)
    requires
        tabs_wf(tabs),
        0 <= src < tabs.len(),
        tab_has(tabs[src], p),
    ensures
        tabs_wf(tabs_detached(tabs, src, p)),
        forall|q: PaneId| #[trigger]
            tabs_have(tabs_detached(tabs, src, p), q) == (tabs_have(tabs, q) && q != p),
{
    let l = tabs[src].layout;
    layout::lemma_removed_leaves(l.root, p);
    ids::lemma_without_id(l.leaf_seq(), p);
    layout::lemma_without_no_duplicates(l.leaf_seq(), p);
    layout::lemma_leaves_nonempty(l.root);
    if only_pane(tabs[src], p) {
        lemma_tabs_remove(tabs, src);
        let t = tabs.remove(src);
        assert forall|q: PaneId| #[trigger] tabs_have(t, q) == (tabs_have(tabs, q) && q != p) by {
            if tab_has(tabs[src], q) {
                let s = tabs[src].layout.leaf_seq();
                let k = choose|k: int| 0 <= k < s.len() && s[k] == q;
                assert(q == p);
            }
        }
    } else {
        let s = l.leaf_seq();
        assert(ids::without_id(s, p).len() > 0) by {
            if s.len() == 1 {
                assert(s[0] == p);
                assert(s =~= seq![p]);
            }
        }
        let r = layout_without(l, p);
        let tab = Tab { layout: r, ..tabs[src] };
        assert(r.leaf_seq() == ids::without_id(s, p));
        assert forall|q: PaneId| #[trigger] tab_has(tab, q) implies tab_has(tabs[src], q)
            || !tabs_have(tabs, q) by {
            assert(q != p);
        }
        lemma_tabs_update(tabs, src, tab);
        assert forall|q: PaneId| #[trigger] tabs_have(tabs_detached(tabs, src, p), q) == (tabs_have(
            tabs,
            q,
        ) && q != p) by {
            if q != p {
                assert(tab_has(tab, q) == tab_has(tabs[src], q));
                if tab_has(tabs[src], q) {
                    assert(tabs_have(tabs, q));
                }
            }
        }
    }
}

/// Whether a pane that is moved there is shown: its new tab shows the pane that is
/// to be split for it.
pub open spec fn takes_panes(tabs: Seq<Tab>, target: MoveTarget) -> bool {
    match target {
        MoveTarget::Tab(ti) => tabs[ti as int].layout.shows_focus(),
        MoveTarget::NewTab => true,
    }
}

/// Moving a pane doubles no pane, and every layout stays sound.
pub proof fn lemma_pane_moved(
    tabs: Seq<Tab>,
    src: int,
    p: PaneId,
    target: MoveTarget,
    id: String,
)
    requires
        tabs_wf(tabs),
        0 <= src < tabs.len(),
        tab_has(tabs[src], p),
        target matches MoveTarget::Tab(ti) ==> ti < tabs.len() && ti != src,
    ensures
        ({
            let t = tabs_with_pane_moved(tabs, src, p, target, id);
            let to = landing(tabs, src, p, target);
            &&& tabs_wf(t)
            &&& forall|q: PaneId| #[trigger] tabs_have(t, q) ==> tabs_have(tabs, q)
            &&& takes_panes(tabs, target) ==> tab_has(t[to], p) && forall|q: PaneId| #[trigger]
                tabs_have(t, q) == tabs_have(tabs, q)
            &&& 0 <= to < t.len()
            &&& t[to].layout.focus == p
        }),
{
    lemma_detached(tabs, src, p);
    let rest = tabs_detached(tabs, src, p);
    let t = tabs_with_pane_moved(tabs, src, p, target, id);
    let to = landing(tabs, src, p, target);
    assert(tab_has(tabs[src], p));
    assert(tabs_have(tabs, p));
    match target {
        MoveTarget::Tab(ti) => {
            assert(0 <= to < rest.len());
            let l = rest[to].layout;
            assert(l.wf());
            assert(!tab_has(rest[to], p)) by {
                if tab_has(rest[to], p) {
                    assert(tabs_have(rest, p));
                }
            }
            assert(l.focus == tabs[ti as int].layout.focus && l.root == tabs[ti as int].layout.root);
            let tab = Tab { layout: layout_with(l, p), ..rest[to] };
            if l.shows_focus() {
                layout::lemma_split_leaves(l.root, l.focus, Axis::Col, p);
                layout::lemma_inserted_after(l.leaf_seq(), l.focus, p);
                assert(tab.layout.leaf_seq() == layout::inserted_after(l.leaf_seq(), l.focus, p));
            } else {
                layout::lemma_split_absent(l.root, l.focus, Axis::Col, p);
                assert(tab.layout.leaf_seq() == l.leaf_seq());
            }
            assert forall|q: PaneId| #[trigger] tab_has(tab, q) implies tab_has(rest[to], q)
                || !tabs_have(rest, q) by {
                if q != p {
                    assert(l.leaf_seq().contains(q));
                }
            }
            lemma_tabs_update(rest, to, tab);
            assert forall|q: PaneId| #[trigger] tabs_have(t, q) implies tabs_have(tabs, q) by {
                if q != p {
                    assert(tab_has(tab, q) == tab_has(rest[to], q));
                    if tab_has(rest[to], q) {
                        assert(tabs_have(rest, q));
                    }
                    assert(tabs_have(rest, q) == tabs_have(tabs, q));
                }
            }
            if l.shows_focus() {
                assert forall|q: PaneId| #[trigger] tabs_have(t, q) == tabs_have(tabs, q) by {
                    if q != p {
                        assert(tab_has(tab, q) == tab_has(rest[to], q));
                        if tab_has(rest[to], q) {
                            assert(tabs_have(rest, q));
                        }
                        assert(tabs_have(rest, q) == tabs_have(tabs, q));
                    } else {
                        assert(tab_has(tab, p));
                    }
                }
                assert(tab_has(t[to], p));
            }
        },
        MoveTarget::NewTab => {
            let tab = t[to];
            assert(tab.layout.leaf_seq() == seq![p]);
            assert(tab.layout.leaf_seq()[0] == p);
            assert forall|q: PaneId| #[trigger] tab_has(tab, q) implies !tabs_have(rest, q) by {
                let k = choose|k: int| 0 <= k < seq![p].len() && seq![p][k] == q;
                assert(q == p);
            }
            assert(rest.push(tab) =~= rest.insert(rest.len() as int, tab));
            lemma_tabs_insert(rest, rest.len() as int, tab);
            assert forall|q: PaneId| #[trigger] tabs_have(t, q) == tabs_have(tabs, q) by {
                if q != p {
                    assert(!tab_has(tab, q)) by {
                        if tab_has(tab, q) {
                            let k = choose|k: int| 0 <= k < seq![p].len() && seq![p][k] == q;
                        }
                    }
                    assert(tabs_have(rest, q) == tabs_have(tabs, q));
                } else {
                    assert(tab_has(tab, p));
                }
            }
            assert(tab_has(t[to], p));
        },
    }
}

/// Moving a pane neither loses nor doubles any pane, and every layout stays
/// sound. The pane is in the tab that it was moved to and has its focus.
pub proof fn law_moving_a_pane_keeps_every_pane(
    tabs: Seq<Tab>,
    src: int,
    p: PaneId,
    target: MoveTarget,
    id: String,
)
    requires
        tabs_wf(tabs),
        0 <= src < tabs.len(),
        tab_has(tabs[src], p),
        target matches MoveTarget::Tab(ti) ==> ti < tabs.len() && ti != src,
        takes_panes(tabs, target),
    ensures
        ({
            let t = tabs_with_pane_moved(tabs, src, p, target, id);
            let to = landing(tabs, src, p, target);
            &&& tabs_wf(t)
            &&& forall|q: PaneId| #[trigger] tabs_have(t, q) == tabs_have(tabs, q)
            &&& 0 <= to < t.len()
            &&& tab_has(t[to], p)
            &&& t[to].layout.focus == p
        }),
{
    lemma_pane_moved(tabs, src, p, target, id);
}

impl Workspace {
    /// Moves a pane of tab `src` to another tab and makes that tab active. A tab
    /// that the pane leaves empty is closed. `tab_id` is the identity of a new
    /// tab.
    pub fn move_pane(&mut self, src: usize, pane: PaneId, target: MoveTarget, tab_id: String) -> (at:
        usize)
        requires
            old(self).wf(),
            src < old(self).tabs@.len(),
            tab_has(old(self).tabs@[src as int], pane),
            target matches MoveTarget::Tab(ti) ==> ti < old(self).tabs@.len() && ti != src,
        ensures
            final(self).wf(),
            at == landing(old(self).tabs@, src as int, pane, target),
            final(self).tabs@ == tabs_with_pane_moved(
                old(self).tabs@,
                src as int,
                pane,
                target,
                tab_id,
            ),
            *final(self) == (Workspace {
                tabs: final(self).tabs,
                active_tab: at,
                ..*old(self)
            }),
    {
        let ghost tabs = self.tabs@;
        proof {
            lemma_pane_moved(tabs, src as int, pane, target, tab_id);
            lemma_detached(tabs, src as int, pane);
        }
        assert(tabs[src as int].layout.wf());
        let emptied: bool = self.tabs[src].layout.remove(pane);
        proof {
            let l = tabs[src as int].layout;
            if !emptied {
                assert(self.tabs@ =~= tabs_detached(tabs, src as int, pane));
            } else {
                assert(self.tabs@ =~= tabs);
            }
        }
        if emptied {
            let _ = self.tabs.remove(src);
        }
        assert(self.tabs@ =~= tabs_detached(tabs, src as int, pane));
        let at: usize = match target {
            MoveTarget::Tab(ti) => {
                let to: usize = if emptied && src < ti {
                    ti - 1
                } else {
                    ti
                };
                proof {
                    assert(self.tabs@[to as int].layout.wf());
                    if self.tabs@[to as int].layout.leaf_seq().contains(pane) {
                        assert(tab_has(self.tabs@[to as int], pane));
                        assert(tabs_have(self.tabs@, pane));
                    }
                }
                self.tabs[to].layout.split_focused(Axis::Col, pane);
                to
            },
            MoveTarget::NewTab => {
                self.tabs.push(Tab::panes(tab_id, TileLayout::new(pane)));
                self.tabs.len() - 1
            },
        };
        self.active_tab = at;
        assert(self.tabs@ =~= tabs_with_pane_moved(tabs, src as int, pane, target, tab_id));
        at
    }
}

impl Workspace {
    /// Takes a pane out of a tab. Where it is the only one of the tab nothing
    /// changes and the answer is `true`: the tab is to be closed.
    pub fn drop_pane(&mut self, tab: usize, id: PaneId) -> (emptied: bool)
        requires
            old(self).wf(),
            tab < old(self).tabs@.len(),
        ensures
            final(self).wf(),
            emptied == only_pane(old(self).tabs@[tab as int], id),
            emptied ==> final(self).tabs@ == old(self).tabs@,
            !emptied ==> final(self).tabs@ == old(self).tabs@.update(
                tab as int,
                Tab {
                    layout: layout_without(old(self).tabs@[tab as int].layout, id),
                    ..old(self).tabs@[tab as int]
                },
            ),
            *final(self) == (Workspace { tabs: final(self).tabs, ..*old(self) }),
            forall|p: PaneId| #[trigger]
                tabs_have(final(self).tabs@, p) ==> tabs_have(old(self).tabs@, p),
    {
        let ghost before = self.tabs@;
        let ghost l = before[tab as int].layout;
        assert(l.wf());
        let emptied: bool = self.tabs[tab].layout.remove(id);
        proof {
            let after = self.tabs@[tab as int];
            ids::lemma_without_id(l.leaf_seq(), id);
            if emptied {
                assert(self.tabs@ =~= before);
            } else {
                assert(after.layout == layout_without(l, id));
                assert(self.tabs@ =~= before.update(tab as int, after));
                assert forall|p: PaneId| #[trigger] tab_has(after, p) implies tab_has(
                    before[tab as int],
                    p,
                ) by {
                    if p == id {
                        assert(!ids::without_id(l.leaf_seq(), id).contains(id));
                    }
                }
                lemma_tabs_update(before, tab as int, after);
                assert forall|p: PaneId| #[trigger] tabs_have(self.tabs@, p) implies tabs_have(
                    before,
                    p,
                ) by {
                    if tab_has(after, p) {
                        assert(tab_has(before[tab as int], p));
                    }
                }
            }
        }
        emptied
    }

    /// Closes a tab that is not the only one. The active tab stays the tab that
    /// it was; where it is the one that is closed, the next becomes active, or
    /// else the last.
    pub fn close_tab(&mut self, index: usize)
        requires
            old(self).wf(),
            index < old(self).tabs@.len(),
            old(self).tabs@.len() > 1,
        ensures
            final(self).wf(),
            final(self).tabs@ == old(self).tabs@.remove(index as int),
            final(self).active_tab == active_without(
                old(self).active_tab as int,
                index as int,
                old(self).tabs@.len() as int,
            ),
            *final(self) == (Workspace {
                tabs: final(self).tabs,
                active_tab: final(self).active_tab,
                ..*old(self)
            }),
    {
        proof {
            lemma_tabs_remove(self.tabs@, index as int);
        }
        let _ = self.tabs.remove(index);
        if self.active_tab >= self.tabs.len() {
            self.active_tab = self.tabs.len() - 1;
        } else if self.active_tab > index {
            self.active_tab = self.active_tab - 1;
        }
    }
}

/// Which position is active among `len` once the tab at `index` was closed.
pub open spec fn active_without(active: int, index: int, len: int) -> int {
    if active >= len - 1 {
        len - 2
    } else if active > index {
        active - 1
    } else {
        active
    }
}

/// Closing another tab keeps the active tab active.
pub proof fn law_closing_another_tab_keeps_the_active_one(tabs: Seq<Tab>, active: int, index: int)
    requires
        0 <= active < tabs.len(),
        0 <= index < tabs.len(),
        active != index,
    ensures
        0 <= active_without(active, index, tabs.len() as int) < tabs.len() - 1,
        tabs.remove(index)[active_without(active, index, tabs.len() as int)] == tabs[active],
{
}

/// The panes of the tabs in order.
pub open spec fn all_leaves(tabs: Seq<Tab>) -> Seq<PaneId>
    decreases tabs.len(),
{
    if tabs.len() == 0 {
        seq![]
    } else {
        all_leaves(tabs.drop_last()) + tabs.last().layout.leaf_seq()
    }
}

/// The panes of the tabs in order.
pub fn leaves_of(tabs: &Vec<Tab>) -> (v: Vec<PaneId>)
    ensures
        v@ == all_leaves(tabs@),
{
    let mut v: Vec<PaneId> = Vec::new();
    let mut i: usize = 0;
    assert(tabs@.take(0) =~= Seq::<Tab>::empty());
    while i < tabs.len()
        invariant
            i <= tabs@.len(),
            v@ == all_leaves(tabs@.take(i as int)),
        decreases tabs@.len() - i,
    {
        let mut leaves = tabs[i].layout.leaves();
        v.append(&mut leaves);
        assert(tabs@.take(i + 1).drop_last() =~= tabs@.take(i as int));
        i = i + 1;
    }
    assert(tabs@.take(i as int) =~= tabs@);
    v
}

impl Workspace {
    /// Splits a pane of a tab by a new one, where the tab shows it.
    pub fn split_tab(&mut self, tab: usize, at: PaneId, axis: Axis, id: PaneId, follow: bool)
        requires
            old(self).wf(),
            tab < old(self).tabs@.len(),
            !tabs_have(old(self).tabs@, id),
        ensures
            final(self).wf(),
            final(self).tabs@ == old(self).tabs@.update(
                tab as int,
                Tab {
                    layout: layout_split(
                        old(self).tabs@[tab as int].layout,
                        at,
                        axis,
                        id,
                        follow,
                    ),
                    ..old(self).tabs@[tab as int]
                },
            ),
            *final(self) == (Workspace { tabs: final(self).tabs, ..*old(self) }),
            forall|p: PaneId| #[trigger]
                tabs_have(final(self).tabs@, p) == (tabs_have(old(self).tabs@, p) || (p == id
                    && tab_has(old(self).tabs@[tab as int], at))),
    {
        let ghost before = self.tabs@;
        let ghost l = before[tab as int].layout;
        proof {
            assert(l.wf());
            if l.leaf_seq().contains(id) {
                assert(tab_has(before[tab as int], id));
            }
        }
        let focus: PaneId = self.tabs[tab].layout.focus;
        self.tabs[tab].layout.focus = at;
        self.tabs[tab].layout.split_focused(axis, id);
        if !follow {
            self.tabs[tab].layout.focus = focus;
        }
        proof {
            let after = self.tabs@[tab as int];
            if tab_has(before[tab as int], at) {
                layout::lemma_inserted_after(l.leaf_seq(), at, id);
                assert(after.layout.leaf_seq() == layout::inserted_after(l.leaf_seq(), at, id));
            } else {
                assert(after.layout.leaf_seq() == l.leaf_seq());
            }
            assert(after.layout.wf());
            assert(self.tabs@ =~= before.update(tab as int, after));
            assert forall|p: PaneId| #[trigger] tab_has(after, p) implies tab_has(
                before[tab as int],
                p,
            ) || !tabs_have(before, p) by {
                if p != id {
                    assert(l.leaf_seq().contains(p));
                }
            }
            lemma_tabs_update(before, tab as int, after);
            assert forall|p: PaneId| #[trigger] tabs_have(self.tabs@, p) == (tabs_have(before, p)
                || (p == id && tab_has(before[tab as int], at))) by {
                if p != id {
                    assert(tab_has(after, p) == tab_has(before[tab as int], p));
                    if tab_has(before[tab as int], p) {
                        assert(tabs_have(before, p));
                    }
                } else if tab_has(before[tab as int], at) {
                    assert(tab_has(after, id));
                }
            }
        }
    }

    /// Gives the focus of a tab to a pane.
    pub fn focus_pane(&mut self, tab: usize, id: PaneId)
        requires
            old(self).wf(),
            tab < old(self).tabs@.len(),
        ensures
            final(self).wf(),
            final(self).tabs@ == old(self).tabs@.update(
                tab as int,
                Tab {
                    layout: TileLayout { focus: id, ..old(self).tabs@[tab as int].layout },
                    ..old(self).tabs@[tab as int]
                },
            ),
            *final(self) == (Workspace { tabs: final(self).tabs, ..*old(self) }),
            forall|p: PaneId| #[trigger]
                tabs_have(final(self).tabs@, p) == tabs_have(old(self).tabs@, p),
    {
        let ghost before = self.tabs@;
        assert(before[tab as int].layout.wf());
        self.tabs[tab].layout.focus = id;
        proof {
            let after = self.tabs@[tab as int];
            assert(self.tabs@ =~= before.update(tab as int, after));
            assert forall|p: PaneId| #[trigger] tab_has(after, p) implies tab_has(
                before[tab as int],
                p,
            ) || !tabs_have(before, p) by {}
            lemma_tabs_update(before, tab as int, after);
            assert forall|p: PaneId| #[trigger] tabs_have(self.tabs@, p) == tabs_have(before, p) by {
                assert(tab_has(after, p) == tab_has(before[tab as int], p));
                if tab_has(before[tab as int], p) {
                    assert(tabs_have(before, p));
                }
            }
        }
    }

    /// Adds a tab at the end and makes it active.
    pub fn push_tab(&mut self, tab: Tab)
        requires
            old(self).wf(),
            tab.layout.wf(),
            forall|p: PaneId| #[trigger] tab_has(tab, p) ==> !tabs_have(old(self).tabs@, p),
        ensures
            final(self).wf(),
            final(self).tabs@ == old(self).tabs@.push(tab),
            *final(self) == (Workspace {
                tabs: final(self).tabs,
                active_tab: old(self).tabs@.len() as usize,
                ..*old(self)
            }),
            forall|p: PaneId| #[trigger]
                tabs_have(final(self).tabs@, p) == (tabs_have(old(self).tabs@, p) || tab_has(tab, p)),
    {
        let ghost before = self.tabs@;
        proof {
            lemma_tabs_insert(before, before.len() as int, tab);
            assert(before.push(tab) =~= before.insert(before.len() as int, tab));
        }
        self.tabs.push(tab);
        self.active_tab = self.tabs.len() - 1;
    }
}

/// The panes of a tab with a layout of one pane.
pub proof fn lemma_single_pane(tab: Tab, id: PaneId)
    requires
        tab.layout.leaf_seq() == seq![id],
    ensures
        forall|p: PaneId| #[trigger] tab_has(tab, p) == (p == id),
{
    assert forall|p: PaneId| #[trigger] tab_has(tab, p) == (p == id) by {
        assert(seq![id][0] == id);
        if tab_has(tab, p) {
            let k = choose|k: int| 0 <= k < seq![id].len() && seq![id][k] == p;
            assert(k == 0);
        }
    }
}

/// A tab that is moved is at the position that was asked for, and the others stand
/// in the order in which they stood.
pub proof fn law_a_moved_tab_is_where_it_was_sent(tabs: Seq<Tab>, from: int, to: int)
    requires
        0 <= from < tabs.len(),
        0 <= to < tabs.len(),
    ensures
        tabs_moved(tabs, from, to)[to] == tabs[from],
        moved_position(from, from, to) == to,
        tabs_moved(tabs, from, to).remove(to) == tabs.remove(from),
{
    assert(tabs_moved(tabs, from, to).remove(to) =~= tabs.remove(from));
}

/// Tabs that are exchanged are in each other's place, and the others stay.
pub proof fn law_swapped_tabs_change_places(tabs: Seq<Tab>, a: int, b: int, k: int)
    requires
        0 <= a < tabs.len(),
        0 <= b < tabs.len(),
        0 <= k < tabs.len(),
    ensures
        tabs_swapped(tabs, a, b)[a] == tabs[b],
        tabs_swapped(tabs, a, b)[b] == tabs[a],
        swapped_position(a, a, b) == b,
        swapped_position(b, a, b) == a,
        k != a && k != b ==> tabs_swapped(tabs, a, b)[k] == tabs[k] && swapped_position(k, a, b) == k,
{
}

/// A pane that is moved is in the tab that was asked for, or alone in a new one. It
/// has the focus there, to the right of the pane that had it. No other tab gets
/// another name or identity.
pub proof fn law_a_moved_pane_is_where_it_was_sent(
    tabs: Seq<Tab>,
    src: int,
    p: PaneId,
    target: MoveTarget,
    id: String,
)
    requires
        tabs_wf(tabs),
        0 <= src < tabs.len(),
        tab_has(tabs[src], p),
        target matches MoveTarget::Tab(ti) ==> ti < tabs.len() && ti != src,
    ensures
        ({
            let t = tabs_with_pane_moved(tabs, src, p, target, id);
            let at = landing(tabs, src, p, target);
            &&& 0 <= at < t.len()
            &&& t[at].layout.focus == p
            &&& match target {
                MoveTarget::Tab(ti) => {
                    let old_tab = tabs[ti as int];
                    &&& t[at].id == old_tab.id
                    &&& t[at].name == old_tab.name
                    &&& t[at].layout.root == old_tab.layout.root.split_spec(
                        old_tab.layout.focus,
                        Axis::Col,
                        p,
                    )
                },
                MoveTarget::NewTab => t[at].id == id && t[at].layout.root == TileNode::Leaf(p)
                    && t[at].is_panes() && at == t.len() - 1,
            }
            &&& tabs[src].layout.leaf_seq() == seq![p] ==> forall|k: int|
                0 <= k < tabs.len() && k != src ==> {
                    let now = if k < src {
                        k
                    } else {
                        k - 1
                    };
                    #[trigger] tabs[k].id == t[now].id && (now != at ==> tabs[k] == t[now])
                }
            &&& tabs[src].layout.leaf_seq() != seq![p] ==> {
                &&& t[src].id == tabs[src].id
                &&& t[src].name == tabs[src].name
                &&& forall|k: int|
                    0 <= k < tabs.len() && k != src && k != at ==> #[trigger] tabs[k] == t[k]
            }
        }),
{
}

/// Where the active tab is closed the tab behind it takes its place, or the one before
/// it where it was the last.
pub proof fn law_closing_the_active_tab_shows_its_neighbour(tabs: Seq<Tab>, at: int)
    requires
        0 <= at < tabs.len(),
        tabs.len() >= 2,
    ensures
        ({
            let now = active_without(at, at, tabs.len() as int);
            &&& at + 1 < tabs.len() ==> tabs.remove(at)[now] == tabs[at + 1]
            &&& at + 1 == tabs.len() ==> tabs.remove(at)[now] == tabs[at - 1]
        }),
{
}

} // verus!
