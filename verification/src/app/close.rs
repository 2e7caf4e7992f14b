//! Closing panes, tabs and workspaces.
use vstd::prelude::*;
use vstd::string::*;

use super::tabs;
use super::{App, Effect, SessionEvent};
use crate::ids;
use crate::ids::{drop_id, PaneId};
use crate::menus::WsRename;
use crate::text;
use crate::workspace;
use crate::workspace::{leaves_of, Tab};

verus! {

/// The entries that do not lead to the pane.
pub open spec fn index_without(index: Seq<(String, PaneId)>, id: PaneId) -> Seq<(String, PaneId)>
    decreases index.len(),
{
    if index.len() == 0 {
        index
    } else if index.last().1 == id {
        index_without(index.drop_last(), id)
    } else {
        index_without(index.drop_last(), id).push(index.last())
    }
}

/// The entries that lead to none of the panes.
pub open spec fn index_without_all(index: Seq<(String, PaneId)>, gone: Seq<PaneId>) -> Seq<
    (String, PaneId),
>
    decreases gone.len(),
{
    if gone.len() == 0 {
        index
    } else {
        index_without(index_without_all(index, gone.drop_last()), gone.last())
    }
}

/// Which entries are left.
pub proof fn lemma_index_without(index: Seq<(String, PaneId)>, id: PaneId)
    ensures
        forall|k: int|
            0 <= k < index_without(index, id).len() ==> (#[trigger] index_without(index, id)[k]).1
                != id && index.contains(index_without(index, id)[k]),
        super::names_wf(index) ==> super::names_wf(index_without(index, id)),
    decreases index.len(),
{
    if index.len() > 0 {
        let rest = index.drop_last();
        lemma_index_without(rest, id);
        let out = index_without(index, id);
        let before = index_without(rest, id);
        assert forall|k: int| 0 <= k < out.len() implies (#[trigger] out[k]).1 != id
            && index.contains(out[k]) by {
            if k < before.len() {
                assert(out[k] == before[k]);
                let m = choose|m: int| 0 <= m < rest.len() && rest[m] == before[k];
                assert(index[m] == out[k]);
            } else {
                assert(index[index.len() - 1] == out[k]);
            }
        }
        if super::names_wf(index) {
            assert forall|i: int, j: int| 0 <= i < j < rest.len() implies (#[trigger] rest[i]).0@
                != (#[trigger] rest[j]).0@ && rest[i].1 != rest[j].1 by {
                assert(rest[i] == index[i] && rest[j] == index[j]);
            }
            assert forall|i: int, j: int| 0 <= i < j < out.len() implies (#[trigger] out[i]).0@
                != (#[trigger] out[j]).0@ && out[i].1 != out[j].1 by {
                if j < before.len() {
                    assert(out[i] == before[i] && out[j] == before[j]);
                } else {
                    assert(out[i] == before[i]);
                    let m = choose|m: int| 0 <= m < rest.len() && rest[m] == before[i];
                    assert(index[m] == out[i]);
                    assert(index[index.len() - 1] == out[j]);
                }
            }
        }
    }
}

/// An entry that leads elsewhere stays.
proof fn lemma_index_keeps(index: Seq<(String, PaneId)>, id: PaneId, k: int)
    requires
        0 <= k < index.len(),
        index[k].1 != id,
    ensures
        index_without(index, id).contains(index[k]),
    decreases index.len(),
{
    let rest = index.drop_last();
    let before = index_without(rest, id);
    let out = index_without(index, id);
    if k < rest.len() {
        lemma_index_keeps(rest, id, k);
        assert(rest[k] == index[k]);
        let m = choose|m: int| 0 <= m < before.len() && before[m] == rest[k];
        assert(out[m] == before[m]);
    } else {
        assert(out[out.len() - 1] == index[k]);
    }
}

/// Which entries are left once several panes are gone: exactly those that lead to
/// none of them.
pub proof fn lemma_index_without_all(index: Seq<(String, PaneId)>, gone: Seq<PaneId>)
    ensures
        forall|e: (String, PaneId)| #[trigger]
            index_without_all(index, gone).contains(e) <==> index.contains(e) && !gone.contains(
                e.1,
            ),
        super::names_wf(index) ==> super::names_wf(index_without_all(index, gone)),
    decreases gone.len(),
{
    if gone.len() > 0 {
        let first = gone.drop_last();
        let before = index_without_all(index, first);
        let out = index_without_all(index, gone);
        lemma_index_without_all(index, first);
        lemma_index_without(before, gone.last());
        assert forall|e: (String, PaneId)| #[trigger] out.contains(e) <==> index.contains(e)
            && !gone.contains(e.1) by {
            assert(gone.contains(e.1) <==> first.contains(e.1) || e.1 == gone.last()) by {
                if first.contains(e.1) {
                    let k = choose|k: int| 0 <= k < first.len() && first[k] == e.1;
                    assert(gone[k] == e.1);
                }
                if gone.contains(e.1) {
                    let k = choose|k: int| 0 <= k < gone.len() && gone[k] == e.1;
                    if k < first.len() {
                        assert(first[k] == e.1);
                    }
                }
            }
            if out.contains(e) {
                let k = choose|k: int| 0 <= k < out.len() && out[k] == e;
                assert(index_without(before, gone.last())[k] == e);
                assert(before.contains(e));
            }
            if before.contains(e) && e.1 != gone.last() {
                let k = choose|k: int| 0 <= k < before.len() && before[k] == e;
                lemma_index_keeps(before, gone.last(), k);
            }
        }
    }
}

/// Drops the entries that lead to the pane.
pub fn drop_index(index: &mut Vec<(String, PaneId)>, id: PaneId)
    ensures
        final(index)@ == index_without(old(index)@, id),
{
    let mut out: Vec<(String, PaneId)> = Vec::new();
    let mut i: usize = 0;
    let ghost all = index@;
    assert(all.take(0) =~= Seq::<(String, PaneId)>::empty());
    while i < index.len()
        invariant
            i <= index@.len(),
            all == index@,
            out@ == index_without(all.take(i as int), id),
        decreases index@.len() - i,
    {
        assert(all.take(i + 1).drop_last() =~= all.take(i as int));
        if index[i].1 != id {
            out.push((index[i].0.clone(), index[i].1));
        }
        i = i + 1;
    }
    assert(all.take(i as int) =~= all);
    *index = out;
}

/// What dropping leaves asks of the surroundings.
pub open spec fn drop_effects(gone: Seq<PaneId>) -> Seq<Effect>
    decreases gone.len(),
{
    if gone.len() == 0 {
        seq![]
    } else {
        drop_effects(gone.drop_last()) + seq![
            Effect::TerminalClosed(gone.last()),
            Effect::CancelWaits(gone.last()),
        ]
    }
}

/// The modal for the name of a workspace, once that workspace is gone.
pub open spec fn rename_without(rename: Option<WsRename>, id: Seq<char>) -> Option<WsRename> {
    match rename {
        Some(r) => if r.workspace_id@ == id {
            None
        } else {
            Some(r)
        },
        None => None,
    }
}

/// The worktree that is to be deleted, once that workspace is gone.
pub open spec fn delete_without(armed: Option<String>, id: Seq<char>) -> Option<String> {
    match armed {
        Some(a) => if a@ == id {
            None
        } else {
            Some(a)
        },
        None => None,
    }
}

/// The active position among so many.
pub open spec fn clamped(active: usize, len: nat) -> usize {
    if len > 0 && active >= len {
        (len - 1) as usize
    } else {
        active
    }
}

/// What is asked for when the last workspace is gone.
pub open spec fn last_effects(last: bool) -> Seq<Effect> {
    if last {
        seq![Effect::NoRootLeft]
    } else {
        seq![]
    }
}

impl App {
    /// What dropping leaves changes: nothing is kept for them, and no mode points
    /// to one of them.
    pub open spec fn leaves_dropped(&self, after: &App, gone: Seq<PaneId>) -> bool {
        &&& after.panes@ == ids::map_without(self.panes@, gone)
        &&& after.status@ == ids::map_without(self.status@, gone)
        &&& after.views@ == ids::map_without(self.views@, gone)
        &&& after.editor_files@ == ids::map_without(self.editor_files@, gone)
        &&& after.module_panes@ == ids::map_without(self.module_panes@, gone)
        &&& after.backend_labels@ == ids::map_without(self.backend_labels@, gone)
        &&& after.preview_views@ == ids::without_ids(self.preview_views@, gone)
        &&& after.backend_terminal_index@ == index_without_all(self.backend_terminal_index@, gone)
        &&& after.agent_names@ == index_without_all(self.agent_names@, gone)
        &&& after.pinned_agents@ == ids::without_ids(self.pinned_agents@, gone)
        &&& after.scroll_pane == (if self.scroll_pane is Some && gone.contains(
            self.scroll_pane->0,
        ) {
            None
        } else {
            self.scroll_pane
        })
        &&& after.copy_mode == (if self.copy_mode is Some && gone.contains(self.copy_mode->0.pane) {
            None
        } else {
            self.copy_mode
        })
    }

    /// Whether `after` differs from this at most in what dropping leaves changes.
    pub open spec fn leaves_frame(&self, after: &App) -> bool {
        *after == (App {
            panes: after.panes,
            status: after.status,
            views: after.views,
            editor_files: after.editor_files,
            module_panes: after.module_panes,
            backend_labels: after.backend_labels,
            preview_views: after.preview_views,
            backend_terminal_index: after.backend_terminal_index,
            agent_names: after.agent_names,
            pinned_agents: after.pinned_agents,
            scroll_pane: after.scroll_pane,
            copy_mode: after.copy_mode,
            outbox: after.outbox,
            ..*self
        })
    }

    /// Forgets everything that is kept for a leaf, whatever it shows, its name and
    /// its pin with it. Its place in the layout is not touched.
    pub fn drop_leaf_runtime(&mut self, id: PaneId)
        requires
            old(self).maps_wf(),
        ensures
            final(self).maps_wf(),
            super::names_wf(old(self).agent_names@) ==> super::names_wf(final(self).agent_names@),
            old(self).leaves_dropped(final(self), seq![id]),
            final(self).outbox@ == old(self).outbox@ + drop_effects(seq![id]),
            old(self).leaves_frame(final(self)),
    {
        proof {
            let one = seq![id];
            assert(one.drop_last() =~= Seq::<PaneId>::empty());
            assert(one.contains(id)) by {
                assert(one[0] == id);
            }
            reveal_with_fuel(ids::map_without, 2);
            reveal_with_fuel(ids::without_ids, 2);
            reveal_with_fuel(index_without_all, 2);
            reveal_with_fuel(drop_effects, 2);
            lemma_index_without(self.agent_names@, id);
        }
        let ghost effects = self.outbox@;
        self.outbox.push(Effect::TerminalClosed(id));
        drop_index(&mut self.backend_terminal_index, id);
        drop_index(&mut self.agent_names, id);
        drop_id(&mut self.pinned_agents, id);
        let _ = self.backend_labels.remove(id);
        let _ = self.panes.remove(id);
        let _ = self.status.remove(id);
        let _ = self.views.remove(id);
        self.outbox.push(Effect::CancelWaits(id));
        assert(self.outbox@ =~= effects + drop_effects(seq![id]));
        let _ = self.editor_files.remove(id);
        let _ = self.module_panes.remove(id);
        drop_id(&mut self.preview_views, id);
        match self.scroll_pane {
            Some(p) => {
                if p == id {
                    self.scroll_pane = None;
                }
            },
            None => {},
        }
        match self.copy_mode {
            Some(c) => {
                if c.pane == id {
                    self.copy_mode = None;
                }
            },
            None => {},
        }
    }

    /// Forgets everything that is kept for the leaves.
    pub fn drop_leaves(&mut self, gone: &Vec<PaneId>)
        requires
            old(self).maps_wf(),
        ensures
            final(self).maps_wf(),
            super::names_wf(old(self).agent_names@) ==> super::names_wf(final(self).agent_names@),
            old(self).leaves_dropped(final(self), gone@),
            final(self).outbox@ == old(self).outbox@ + drop_effects(gone@),
            old(self).leaves_frame(final(self)),
    {
        let ghost start = *self;
        let mut i: usize = 0;
        assert(gone@.take(0) =~= Seq::<PaneId>::empty());
        assert(self.outbox@ + drop_effects(gone@.take(0)) =~= self.outbox@);
        while i < gone.len()
            invariant
                i <= gone@.len(),
                self.maps_wf(),
                super::names_wf(start.agent_names@) ==> super::names_wf(self.agent_names@),
                start.leaves_dropped(self, gone@.take(i as int)),
                self.outbox@ == start.outbox@ + drop_effects(gone@.take(i as int)),
                start.leaves_frame(self),
            decreases gone@.len() - i,
        {
            let ghost middle = *self;
            self.drop_leaf_runtime(gone[i]);
            proof {
                let before = gone@.take(i as int);
                let after = gone@.take(i + 1);
                let id = gone@[i as int];
                assert(after.drop_last() =~= before);
                assert(after.last() == id);
                lemma_dropped_twice(start, middle, *self, before, id);
                assert(after =~= before.push(id));
                assert(self.outbox@ =~= start.outbox@ + drop_effects(after)) by {
                    reveal_with_fuel(drop_effects, 2);
                    assert(seq![id].drop_last() =~= Seq::<PaneId>::empty());
                }
            }
            i = i + 1;
        }
        assert(gone@.take(i as int) =~= gone@);
    }
}

proof fn lemma_dropped_twice(a: App, b: App, c: App, gone: Seq<PaneId>, id: PaneId)
    requires
        a.leaves_dropped(&b, gone),
        b.leaves_dropped(&c, seq![id]),
    ensures
        a.leaves_dropped(&c, gone.push(id)),
{
    let all = gone.push(id);
    let one = seq![id];
    assert(all.drop_last() =~= gone);
    assert(one.drop_last() =~= Seq::<PaneId>::empty());
    reveal_with_fuel(ids::map_without, 2);
    reveal_with_fuel(ids::without_ids, 2);
    reveal_with_fuel(index_without_all, 2);
    assert forall|p: PaneId| all.contains(p) == (gone.contains(p) || p == id) by {
        if gone.contains(p) {
            let k = choose|k: int| 0 <= k < gone.len() && gone[k] == p;
            assert(all[k] == p);
        }
        if all.contains(p) {
            let k = choose|k: int| 0 <= k < all.len() && all[k] == p;
            if k < gone.len() {
                assert(gone[k] == p);
            }
        }
        assert(all[gone.len() as int] == id);
    }
    assert forall|p: PaneId| one.contains(p) == (p == id) by {
        assert(one[0] == id);
    }
}

/// Of a leaf that was dropped nothing is left, whichever way it was closed; of
/// every other leaf everything is kept.
pub proof fn law_dropped_leaves_are_forgotten(
    before: App,
    after: App,
    gone: Seq<PaneId>,
    p: PaneId,
)
    requires
        before.leaves_dropped(&after, gone),
    ensures
        gone.contains(p) ==> {
            &&& !after.panes@.dom().contains(p)
            &&& !after.status@.dom().contains(p)
            &&& !after.views@.dom().contains(p)
            &&& !after.editor_files@.dom().contains(p)
            &&& !after.module_panes@.dom().contains(p)
            &&& !after.backend_labels@.dom().contains(p)
            &&& !after.preview_views@.contains(p)
            &&& !after.pinned_agents@.contains(p)
            &&& forall|e: (String, PaneId)| #[trigger] after.agent_names@.contains(e) ==> e.1 != p
            &&& after.scroll_pane != Some(p)
            &&& after.copy_mode is Some ==> after.copy_mode->0.pane != p
        },
        !gone.contains(p) ==> {
            &&& after.panes@.dom().contains(p) == before.panes@.dom().contains(p)
            &&& after.panes@.dom().contains(p) ==> after.panes@[p] == before.panes@[p]
            &&& after.status@.dom().contains(p) == before.status@.dom().contains(p)
            &&& after.status@.dom().contains(p) ==> after.status@[p] == before.status@[p]
            &&& after.views@.dom().contains(p) == before.views@.dom().contains(p)
            &&& after.preview_views@.contains(p) == before.preview_views@.contains(p)
            &&& after.pinned_agents@.contains(p) == before.pinned_agents@.contains(p)
            &&& forall|e: (String, PaneId)|
                e.1 == p ==> (#[trigger] after.agent_names@.contains(e)
                    <==> before.agent_names@.contains(e))
        },
{
    ids::lemma_map_without(before.panes@, gone);
    ids::lemma_map_without(before.status@, gone);
    ids::lemma_map_without(before.views@, gone);
    ids::lemma_map_without(before.editor_files@, gone);
    ids::lemma_map_without(before.module_panes@, gone);
    ids::lemma_map_without(before.backend_labels@, gone);
    ids::lemma_without_ids(before.preview_views@, gone, p);
    ids::lemma_without_ids(before.pinned_agents@, gone, p);
    lemma_index_without_all(before.agent_names@, gone);
}

impl App {
    /// Drops what was to be done with a workspace that is gone.
    pub fn clear_workspace_transients(&mut self, workspace_id: &str)
        ensures
            final(self).ws_rename == rename_without(old(self).ws_rename, workspace_id@),
            final(self).worktree_delete == delete_without(old(self).worktree_delete, workspace_id@),
            *final(self) == (App {
                ws_rename: final(self).ws_rename,
                worktree_delete: final(self).worktree_delete,
                ..*old(self)
            }),
    {
        let renaming: bool = match &self.ws_rename {
            Some(r) => text::same_text(r.workspace_id.as_str(), workspace_id),
            None => false,
        };
        if renaming {
            self.ws_rename = None;
        }
        let deleting: bool = match &self.worktree_delete {
            Some(a) => text::same_text(a.as_str(), workspace_id),
            None => false,
        };
        if deleting {
            self.worktree_delete = None;
        }
    }

    /// The session is over: its clients detach from a server, and a program of
    /// its own quits.
    pub fn all_workspaces_closed(&mut self)
        ensures
            final(self).outbox@ == old(self).outbox@ + last_effects(true),
            *final(self) == (App {
                session_dirty: true,
                end_session: old(self).end_session || old(self).server_mode,
                should_quit: old(self).should_quit || !old(self).server_mode,
                outbox: final(self).outbox,
                ..*old(self)
            }),
    {
        let ghost before = self.outbox@;
        self.session_dirty = true;
        self.outbox.push(Effect::NoRootLeft);
        assert(self.outbox@ =~= before + last_effects(true));
        if self.server_mode {
            self.end_session = true;
        } else {
            self.should_quit = true;
        }
    }

    /// What is asked for before a workspace closes.
    pub open spec fn root_effects(&self, index: int) -> Seq<Effect> {
        if self.workspaces@.len() > 1 {
            seq![Effect::RootClosed(self.workspaces@[index].cwd)]
        } else {
            seq![]
        }
    }

    /// What closing a workspace changes, apart from what is kept for its leaves:
    /// the session ends with its last workspace.
    pub open spec fn workspace_gone(&self, after: &App, index: int) -> bool {
        let rest = self.workspaces@.remove(index);
        let id = self.workspaces@[index].id@;
        &&& after.workspaces@ == rest
        &&& after.active_ws == clamped(self.active_ws, rest.len())
        &&& after.ws_rename == rename_without(self.ws_rename, id)
        &&& after.worktree_delete == delete_without(self.worktree_delete, id)
        &&& after.end_session == (self.end_session || (rest.len() == 0 && self.server_mode))
        &&& after.should_quit == (self.should_quit || (rest.len() == 0 && !self.server_mode))
    }

    /// Takes a workspace out of the session.
    #[verifier::rlimit(60)]
    fn remove_workspace(&mut self, index: usize)
        requires
            old(self).wf(),
            index < old(self).workspaces@.len(),
        ensures
            final(self).wf(),
            old(self).workspace_gone(final(self), index as int),
            final(self).outbox@ == old(self).outbox@ + last_effects(
                old(self).workspaces@.len() == 1,
            ),
            *final(self) == (App {
                workspaces: final(self).workspaces,
                active_ws: final(self).active_ws,
                ws_rename: final(self).ws_rename,
                worktree_delete: final(self).worktree_delete,
                end_session: final(self).end_session,
                should_quit: final(self).should_quit,
                session_dirty: old(self).session_dirty || old(self).workspaces@.len() == 1,
                outbox: final(self).outbox,
                ..*old(self)
            }),
    {
        assert(workspace::tree_wf(self.workspaces@.remove(index as int))) by {
            workspace::lemma_tree_remove(self.workspaces@, index as int);
        }
        let closed_workspace_id = self.workspaces[index].id.clone();
        self.clear_workspace_transients(closed_workspace_id.as_str());
        let _ = self.workspaces.remove(index);
        if self.workspaces.len() == 0 {
            self.all_workspaces_closed();
        } else if self.active_ws >= self.workspaces.len() {
            self.active_ws = self.workspaces.len() - 1;
        }
        assert(self.outbox@ =~= old(self).outbox@ + last_effects(
            old(self).workspaces@.len() == 1,
        ));
    }

    /// Asks to give up requests for the directory of a workspace that closes,
    /// where another workspace remains.
    fn close_root(&mut self, index: usize)
        requires
            index < old(self).workspaces@.len(),
        ensures
            final(self).outbox@ == old(self).outbox@ + old(self).root_effects(index as int),
            *final(self) == (App { outbox: final(self).outbox, ..*old(self) }),
    {
        let ghost before = self.outbox@;
        if self.workspaces.len() > 1 {
            let closed_root = self.workspaces[index].cwd.clone();
            self.outbox.push(Effect::RootClosed(closed_root));
        }
        assert(self.outbox@ =~= before + self.root_effects(index as int));
    }

    /// Closes the active workspace, whose leaves are gone already. Without any
    /// workspace the session ends.
    pub fn close_active_ws(&mut self)
        requires
            old(self).wf(),
        ensures
            final(self).wf(),
            if old(self).workspaces@.len() > 0 {
                &&& old(self).workspace_gone(final(self), old(self).active_ws as int)
                &&& final(self).outbox@ == old(self).outbox@ + old(self).root_effects(
                    old(self).active_ws as int,
                ) + last_effects(old(self).workspaces@.len() == 1)
                &&& *final(self) == (App {
                    workspaces: final(self).workspaces,
                    active_ws: final(self).active_ws,
                    ws_rename: final(self).ws_rename,
                    worktree_delete: final(self).worktree_delete,
                    end_session: final(self).end_session,
                    should_quit: final(self).should_quit,
                    session_dirty: old(self).session_dirty || old(self).workspaces@.len() == 1,
                    outbox: final(self).outbox,
                    ..*old(self)
                })
            } else {
                &&& final(self).outbox@ == old(self).outbox@ + last_effects(true)
                &&& *final(self) == (App {
                    session_dirty: true,
                    end_session: old(self).end_session || old(self).server_mode,
                    should_quit: old(self).should_quit || !old(self).server_mode,
                    outbox: final(self).outbox,
                    ..*old(self)
                })
            },
    {
        if self.workspaces.len() > 0 {
            let index: usize = self.active_ws;
            self.close_root(index);
            self.remove_workspace(index);
        } else {
            self.all_workspaces_closed();
        }
    }

    /// What closing a workspace leaves behind.
    pub open spec fn workspace_closed(&self, after: &App, index: usize) -> bool {
        let gone = workspace::all_leaves(self.workspaces@[index as int].tabs@);
        &&& self.workspace_gone(after, index as int)
        &&& self.leaves_dropped(after, gone)
        &&& after.outbox@ == self.outbox@ + self.root_effects(index as int) + drop_effects(gone)
            + last_effects(self.workspaces@.len() == 1) + seq![
            Effect::Event(SessionEvent::WorkspaceClosed { workspace: index }),
        ]
        &&& *after == (App {
            workspaces: after.workspaces,
            active_ws: after.active_ws,
            ws_rename: after.ws_rename,
            worktree_delete: after.worktree_delete,
            end_session: after.end_session,
            should_quit: after.should_quit,
            session_dirty: true,
            panes: after.panes,
            status: after.status,
            views: after.views,
            editor_files: after.editor_files,
            module_panes: after.module_panes,
            backend_labels: after.backend_labels,
            preview_views: after.preview_views,
            backend_terminal_index: after.backend_terminal_index,
            agent_names: after.agent_names,
            pinned_agents: after.pinned_agents,
            scroll_pane: after.scroll_pane,
            copy_mode: after.copy_mode,
            outbox: after.outbox,
            ..*self
        })
    }

    /// Closes a workspace with all of its panes.
    pub fn close_workspace(&mut self, index: usize)
        requires
            old(self).wf(),
        ensures
            final(self).wf(),
            if index < old(self).workspaces@.len() {
                old(self).workspace_closed(final(self), index)
            } else {
                *final(self) == *old(self)
            },
    {
        if index >= self.workspaces.len() {
            return ;
        }
        self.close_root(index);
        let gone = leaves_of(&self.workspaces[index].tabs);
        self.drop_leaves(&gone);
        self.remove_workspace(index);
        self.session_dirty = true;
        self.outbox.push(Effect::Event(SessionEvent::WorkspaceClosed { workspace: index }));
        assert(self.outbox@ =~= old(self).outbox@ + old(self).root_effects(index as int)
            + drop_effects(gone@) + last_effects(old(self).workspaces@.len() == 1) + seq![
            Effect::Event(SessionEvent::WorkspaceClosed { workspace: index }),
        ]);
    }
}

impl App {
    /// What closing a tab of the active workspace does to the workspaces: with
    /// its last tab a workspace closes.
    pub open spec fn tab_gone(&self, after: &App, index: int) -> bool {
        let w = self.active_ws as int;
        if self.active().tabs@.len() > 1 {
            &&& tabs::only_tabs_changed(self.workspaces@, after.workspaces@, w)
            &&& after.workspaces@[w].tabs@ == self.active().tabs@.remove(index)
            &&& after.workspaces@[w].active_tab == workspace::active_without(
                self.active().active_tab as int,
                index,
                self.active().tabs@.len() as int,
            )
            &&& after.active_ws == self.active_ws
            &&& after.ws_rename == self.ws_rename
            &&& after.worktree_delete == self.worktree_delete
            &&& after.end_session == self.end_session
            &&& after.should_quit == self.should_quit
        } else {
            self.workspace_gone(after, w)
        }
    }

    /// What closing a tab of the active workspace asks for, apart from its
    /// leaves.
    pub open spec fn tab_effects(&self) -> Seq<Effect> {
        if self.active().tabs@.len() > 1 {
            seq![]
        } else {
            self.root_effects(self.active_ws as int) + last_effects(self.workspaces@.len() == 1)
        }
    }

    /// Takes a tab out of the active workspace, whose leaves are gone already.
    fn remove_tab(&mut self, index: usize)
        requires
            old(self).wf(),
            old(self).workspaces@.len() > 0,
            index < old(self).active().tabs@.len(),
        ensures
            final(self).wf(),
            old(self).tab_gone(final(self), index as int),
            final(self).outbox@ == old(self).outbox@ + old(self).tab_effects(),
            *final(self) == (App {
                workspaces: final(self).workspaces,
                active_ws: final(self).active_ws,
                ws_rename: final(self).ws_rename,
                worktree_delete: final(self).worktree_delete,
                end_session: final(self).end_session,
                should_quit: final(self).should_quit,
                session_dirty: old(self).session_dirty || (old(self).active().tabs@.len() == 1
                    && old(self).workspaces@.len() == 1),
                outbox: final(self).outbox,
                ..*old(self)
            }),
    {
        let w: usize = self.active_ws;
        if self.workspaces[w].tabs.len() > 1 {
            let ghost before = self.workspaces@;
            assert(before[w as int].wf());
            self.workspaces[w].close_tab(index);
            assert(workspace::tree_wf(self.workspaces@)) by {
                workspace::lemma_tabs_remove(before[w as int].tabs@, index as int);
                workspace::lemma_tree_update(before, w as int, self.workspaces@[w as int]);
                assert(self.workspaces@ =~= before.update(w as int, self.workspaces@[w as int]));
            }
            assert(self.outbox@ =~= old(self).outbox@ + old(self).tab_effects());
        } else {
            self.close_active_ws();
            assert(self.outbox@ =~= old(self).outbox@ + old(self).tab_effects());
        }
    }

    /// Closes the active tab, whose leaves are gone already.
    pub fn close_active_tab(&mut self)
        requires
            old(self).wf(),
            old(self).workspaces@.len() > 0,
        ensures
            final(self).wf(),
            old(self).tab_gone(final(self), old(self).active().active_tab as int),
            final(self).outbox@ == old(self).outbox@ + old(self).tab_effects(),
            *final(self) == (App {
                workspaces: final(self).workspaces,
                active_ws: final(self).active_ws,
                ws_rename: final(self).ws_rename,
                worktree_delete: final(self).worktree_delete,
                end_session: final(self).end_session,
                should_quit: final(self).should_quit,
                session_dirty: old(self).session_dirty || (old(self).active().tabs@.len() == 1
                    && old(self).workspaces@.len() == 1),
                outbox: final(self).outbox,
                ..*old(self)
            }),
    {
        assert(self.workspaces@[self.active_ws as int].wf());
        let index: usize = self.workspaces[self.active_ws].active_tab;
        self.remove_tab(index);
    }

    /// Closes a tab of the active workspace with all of its panes.
    pub fn close_tab(&mut self, index: usize)
        requires
            old(self).wf(),
            old(self).workspaces@.len() > 0,
        ensures
            final(self).wf(),
            if index < old(self).active().tabs@.len() {
                let gone = old(self).active().tabs@[index as int].layout.leaf_seq();
                &&& old(self).tab_gone(final(self), index as int)
                &&& old(self).leaves_dropped(final(self), gone)
                &&& final(self).outbox@ == old(self).outbox@ + drop_effects(gone) + old(
                    self,
                ).tab_effects() + seq![
                    Effect::Event(SessionEvent::TabClosed { tab: (index + 1) as usize }),
                ]
                &&& *final(self) == (App {
                    workspaces: final(self).workspaces,
                    active_ws: final(self).active_ws,
                    ws_rename: final(self).ws_rename,
                    worktree_delete: final(self).worktree_delete,
                    end_session: final(self).end_session,
                    should_quit: final(self).should_quit,
                    session_dirty: true,
                    panes: final(self).panes,
                    status: final(self).status,
                    views: final(self).views,
                    editor_files: final(self).editor_files,
                    module_panes: final(self).module_panes,
                    backend_labels: final(self).backend_labels,
                    preview_views: final(self).preview_views,
                    backend_terminal_index: final(self).backend_terminal_index,
                    agent_names: final(self).agent_names,
                    pinned_agents: final(self).pinned_agents,
                    scroll_pane: final(self).scroll_pane,
                    copy_mode: final(self).copy_mode,
                    outbox: final(self).outbox,
                    ..*old(self)
                })
            } else {
                *final(self) == *old(self)
            },
    {
        let w: usize = self.active_ws;
        if index >= self.workspaces[w].tabs.len() {
            return ;
        }
        let gone = self.workspaces[w].tabs[index].layout.leaves();
        self.drop_leaves(&gone);
        self.remove_tab(index);
        self.session_dirty = true;
        self.outbox.push(Effect::Event(SessionEvent::TabClosed { tab: index + 1 }));
        assert(self.outbox@ =~= old(self).outbox@ + drop_effects(gone@) + old(self).tab_effects()
            + seq![Effect::Event(SessionEvent::TabClosed { tab: (index + 1) as usize })]);
    }

    /// What closing a pane does to the workspaces: the active tab loses it, and
    /// closes with its last pane.
    pub open spec fn pane_gone(&self, after: &App, id: PaneId) -> bool {
        let w = self.active_ws as int;
        let t = self.active().active_tab as int;
        if workspace::only_pane(self.active_tab(), id) {
            self.tab_gone(after, t)
        } else {
            &&& tabs::only_tabs_changed(self.workspaces@, after.workspaces@, w)
            &&& after.workspaces@[w].tabs@ == self.active().tabs@.update(
                t,
                Tab {
                    layout: workspace::layout_without(self.active_tab().layout, id),
                    ..self.active_tab()
                },
            )
            &&& after.workspaces@[w].active_tab == t
            &&& after.active_ws == self.active_ws
            &&& after.ws_rename == self.ws_rename
            &&& after.worktree_delete == self.worktree_delete
            &&& after.end_session == self.end_session
            &&& after.should_quit == self.should_quit
        }
    }

    /// What closing a pane asks for on account of its place.
    pub open spec fn pane_effects(&self, id: PaneId) -> Seq<Effect> {
        if workspace::only_pane(self.active_tab(), id) {
            self.tab_effects()
        } else {
            seq![]
        }
    }

    /// What closing a pane leaves behind.
    pub open spec fn pane_closed(&self, after: &App, id: PaneId) -> bool {
        &&& self.pane_gone(after, id)
        &&& self.leaves_dropped(after, seq![id])
        &&& after.outbox@ == self.outbox@ + drop_effects(seq![id]) + seq![
            Effect::ReleaseClaims(id),
        ] + self.pane_effects(id) + seq![Effect::Event(SessionEvent::PaneClosed { pane: id })]
        &&& *after == (App {
            workspaces: after.workspaces,
            active_ws: after.active_ws,
            ws_rename: after.ws_rename,
            worktree_delete: after.worktree_delete,
            end_session: after.end_session,
            should_quit: after.should_quit,
            session_dirty: true,
            panes: after.panes,
            status: after.status,
            views: after.views,
            editor_files: after.editor_files,
            module_panes: after.module_panes,
            backend_labels: after.backend_labels,
            preview_views: after.preview_views,
            backend_terminal_index: after.backend_terminal_index,
            agent_names: after.agent_names,
            pinned_agents: after.pinned_agents,
            scroll_pane: after.scroll_pane,
            copy_mode: after.copy_mode,
            outbox: after.outbox,
            ..*self
        })
    }

    /// Closes a pane of the active tab: what is kept for it is forgotten, its
    /// name and its pin with it, and what it claimed is released.
    pub fn close_pane(&mut self, id: PaneId)
        requires
            old(self).wf(),
            old(self).workspaces@.len() > 0,
        ensures
            final(self).wf(),
            old(self).pane_closed(final(self), id),
    {
        let ghost start = *self;
        self.drop_leaf_runtime(id);
        self.outbox.push(Effect::ReleaseClaims(id));
        self.session_dirty = true;
        let w: usize = self.active_ws;
        let ghost before = self.workspaces@;
        assert(before[w as int].wf());
        let t: usize = self.workspaces[w].active_tab;
        let emptied: bool = self.workspaces[w].drop_pane(t, id);
        assert(workspace::tree_wf(self.workspaces@)) by {
            workspace::lemma_tree_update(before, w as int, self.workspaces@[w as int]);
            assert(self.workspaces@ =~= before.update(w as int, self.workspaces@[w as int]));
        }
        if emptied {
            let ghost middle = *self;
            self.close_active_tab();
            proof {
                let v = middle.workspaces@;
                assert(v[w as int].tabs@ == before[w as int].tabs@);
                assert(start.workspaces@.remove(w as int) =~= v.remove(w as int));
                if before[w as int].tabs@.len() > 1 {
                    assert(self.workspaces@ =~= before.update(
                        w as int,
                        self.workspaces@[w as int],
                    ));
                }
                assert(start.pane_gone(self, id));
            }
        } else {
            assert(self.workspaces@ =~= before.update(w as int, self.workspaces@[w as int]));
            assert(start.pane_gone(self, id));
        }
        self.outbox.push(Effect::Event(SessionEvent::PaneClosed { pane: id }));
        assert(self.outbox@ =~= old(self).outbox@ + drop_effects(seq![id]) + seq![
            Effect::ReleaseClaims(id),
        ] + old(self).pane_effects(id) + seq![
            Effect::Event(SessionEvent::PaneClosed { pane: id }),
        ]);
    }
}

/// What is kept for other panes stays when some are dropped: they run on, under the
/// same name and status, and stay pinned.
pub proof fn law_other_panes_are_kept(before: App, after: App, gone: Seq<PaneId>, p: PaneId)
    requires
        before.leaves_dropped(&after, gone),
        !gone.contains(p),
    ensures
        before.panes@.dom().contains(p) ==> after.panes@.dom().contains(p) && after.panes@[p]
            == before.panes@[p],
        before.status@.dom().contains(p) ==> after.status@.dom().contains(p) && after.status@[p]
            == before.status@[p],
        before.views@.dom().contains(p) ==> after.views@.dom().contains(p) && after.views@[p]
            == before.views@[p],
        before.module_panes@.dom().contains(p) ==> after.module_panes@.dom().contains(p)
            && after.module_panes@[p] == before.module_panes@[p],
        forall|name: String|
            before.agent_names@.contains((name, p)) ==> #[trigger] after.agent_names@.contains(
                (name, p),
            ),
        before.scroll_pane == Some(p) ==> after.scroll_pane == Some(p),
{
    ids::lemma_map_without(before.panes@, gone);
    ids::lemma_map_without(before.status@, gone);
    ids::lemma_map_without(before.views@, gone);
    ids::lemma_map_without(before.module_panes@, gone);
    lemma_index_without_all(before.agent_names@, gone);
}

/// Every pane that is dropped is announced as gone, and no other.
pub proof fn law_dropped_panes_are_announced(gone: Seq<PaneId>, p: PaneId)
    ensures
        drop_effects(gone).contains(Effect::TerminalClosed(p)) <==> gone.contains(p),
        drop_effects(gone).contains(Effect::CancelWaits(p)) <==> gone.contains(p),
    decreases gone.len(),
{
    if gone.len() > 0 {
        let rest = gone.drop_last();
        let last = gone.last();
        law_dropped_panes_are_announced(rest, p);
        let before = drop_effects(rest);
        let out = drop_effects(gone);
        let n = before.len() as int;
        assert(gone[gone.len() - 1] == last);
        assert(out[n] == Effect::TerminalClosed(last) && out[n + 1] == Effect::CancelWaits(last));
        assert forall|e: Effect| before.contains(e) implies #[trigger] out.contains(e) by {
            let k = choose|k: int| 0 <= k < before.len() && before[k] == e;
            assert(out[k] == e);
        }
        assert forall|e: Effect|
            #[trigger] out.contains(e) && e != Effect::TerminalClosed(last) && e
                != Effect::CancelWaits(last) implies before.contains(e) by {
            let k = choose|k: int| 0 <= k < out.len() && out[k] == e;
            assert(k < n);
            assert(before[k] == e);
        }
        if rest.contains(p) {
            let k = choose|k: int| 0 <= k < rest.len() && rest[k] == p;
            assert(gone[k] == p);
        }
        if gone.contains(p) && p != last {
            let k = choose|k: int| 0 <= k < gone.len() && gone[k] == p;
            assert(rest[k] == p);
        }
    }
}

/// With its last workspace a session ends: a server's by ending the session, another by
/// quitting. While one is left neither happens.
pub proof fn law_sessions_end_with_their_last_workspace(before: App, after: App, index: int)
    requires
        0 <= index < before.workspaces@.len(),
        before.workspace_gone(&after, index),
        !before.end_session && !before.should_quit,
    ensures
        before.workspaces@.len() > 1 ==> !after.end_session && !after.should_quit,
        before.workspaces@.len() == 1 ==> after.end_session == before.server_mode
            && after.should_quit == !before.server_mode,
{
}

/// Closing a workspace leaves the others as they are and in their order. A dialog for
/// it is closed with it, and one for another stays open.
pub proof fn law_other_workspaces_stay(before: App, after: App, index: int, k: int)
    requires
        0 <= index < before.workspaces@.len(),
        0 <= k < before.workspaces@.len(),
        k != index,
        before.active_ws < before.workspaces@.len(),
        before.workspaces@[k].id@ != before.workspaces@[index].id@,
        before.workspace_gone(&after, index),
    ensures
        after.workspaces@.len() + 1 == before.workspaces@.len(),
        k < index ==> after.workspaces@[k] == before.workspaces@[k],
        k > index ==> after.workspaces@[k - 1] == before.workspaces@[k],
        after.active_ws < after.workspaces@.len(),
        before.ws_rename is Some && (before.ws_rename->0).workspace_id@
            == before.workspaces@[k].id@ ==> after.ws_rename == before.ws_rename,
        before.ws_rename is Some && (before.ws_rename->0).workspace_id@
            == before.workspaces@[index].id@ ==> after.ws_rename is None,
        before.worktree_delete is Some && (before.worktree_delete->0)@
            == before.workspaces@[k].id@ ==> after.worktree_delete == before.worktree_delete,
        before.worktree_delete is Some && (before.worktree_delete->0)@
            == before.workspaces@[index].id@ ==> after.worktree_delete is None,
{
}

} // verus!
