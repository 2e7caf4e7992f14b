//! Modals in which tabs, workspaces and panes are named, and worktrees made and
//! deleted.
use vstd::prelude::*;
use vstd::string::*;

use super::close;
use super::App;
use crate::ids::{same_ids, PaneId};
use crate::menus::{
    Key, PaneRename, TabMenuTarget, TabRename, WsRename, PANE_NAME_MAX, TAB_NAME_MAX, WS_NAME_MAX,
};
use crate::paths;
use crate::text;
use crate::text::{char_count, pop_char, same_text, trim};
use crate::workspace;
use crate::workspace::{Tab, Workspace};

verus! {

/// What a key makes of a text of at most `max` characters.
pub open spec fn edited(buffer: Seq<char>, key: Key, max: nat) -> Seq<char> {
    match key {
        Key::Backspace => if buffer.len() == 0 {
            buffer
        } else {
            buffer.drop_last()
        },
        Key::Char(c) => if buffer.len() < max {
            buffer.push(c)
        } else {
            buffer
        },
        _ => buffer,
    }
}

/// Lets a key edit a text of at most `max` characters.
fn edit(buffer: &mut String, key: Key, max: usize)
    ensures
        final(buffer)@ == edited(old(buffer)@, key, max as nat),
{
    match key {
        Key::Backspace => {
            pop_char(buffer);
        },
        Key::Char(c) => {
            if char_count(buffer.as_str()) < max {
                buffer.push(c);
            }
        },
        _ => {},
    }
}

// ---------------------------------------------------------------------------
// Tabs
// ---------------------------------------------------------------------------

/// Whether the tab with these leaves is at this position.
pub open spec fn tab_matches(tabs: Seq<Tab>, leaves: Seq<PaneId>, i: int) -> bool {
    0 <= i < tabs.len() && tabs[i].layout.leaf_seq() == leaves
}

/// Where the tab with these leaves is.
pub open spec fn tab_with(tabs: Seq<Tab>, leaves: Seq<PaneId>) -> Option<int> {
    if exists|i: int| tab_matches(tabs, leaves, i) {
        Some(choose|i: int| tab_matches(tabs, leaves, i))
    } else {
        None
    }
}

/// The leaves of a tab are found at one position only. So a tab is found again by
/// its leaves wherever it was moved.
pub proof fn law_leaves_identify_a_tab(tabs: Seq<Tab>, i: int)
    requires
        workspace::tabs_wf(tabs),
        0 <= i < tabs.len(),
    ensures
        tab_with(tabs, tabs[i].layout.leaf_seq()) == Some(i),
{
    let leaves = tabs[i].layout.leaf_seq();
    assert(tab_matches(tabs, leaves, i));
    let j = choose|j: int| tab_matches(tabs, leaves, j);
    crate::layout::lemma_leaves_nonempty(tabs[i].layout.root);
    let p = leaves[0];
    assert(leaves.contains(p));
    assert(workspace::tab_has(tabs[i], p));
    assert(workspace::tab_has(tabs[j], p));
}

impl App {
    /// The tab that is meant, wherever it is now.
    pub open spec fn target_place(&self, target: TabMenuTarget) -> Option<int> {
        if target.workspace < self.workspaces@.len() {
            tab_with(self.workspaces@[target.workspace as int].tabs@, target.leaves@)
        } else {
            None
        }
    }

    /// A tab by its leaves.
    pub fn tab_menu_target(&self, workspace: usize, index: usize) -> (target: Option<TabMenuTarget>)
        ensures
            match target {
                Some(t) => workspace < self.workspaces@.len() && index
                    < self.workspaces@[workspace as int].tabs@.len() && t.workspace == workspace
                    && t.leaves@
                    == self.workspaces@[workspace as int].tabs@[index as int].layout.leaf_seq(),
                None => workspace >= self.workspaces@.len() || index
                    >= self.workspaces@[workspace as int].tabs@.len(),
            },
    {
        if workspace >= self.workspaces.len() || index >= self.workspaces[workspace].tabs.len() {
            return None;
        }
        Some(
            TabMenuTarget {
                workspace,
                leaves: self.workspaces[workspace].tabs[index].layout.leaves(),
            },
        )
    }

    /// Where the tab is that is meant.
    pub fn resolve_tab_menu_target(&self, target: &TabMenuTarget) -> (at: Option<(usize, usize)>)
        requires
            self.wf(),
        ensures
            match at {
                Some(a) => a.0 == target.workspace && a.0 < self.workspaces@.len() && a.1
                    < self.workspaces@[a.0 as int].tabs@.len() && self.target_place(*target) == Some(
                    a.1 as int,
                ),
                None => self.target_place(*target) is None,
            },
    {
        let w: usize = target.workspace;
        if w >= self.workspaces.len() {
            return None;
        }
        let ghost tabs = self.workspaces@[w as int].tabs@;
        assert(self.workspaces@[w as int].wf());
        let mut i: usize = 0;
        while i < self.workspaces[w].tabs.len()
            invariant
                w == target.workspace,
                w < self.workspaces@.len(),
                tabs == self.workspaces@[w as int].tabs@,
                workspace::tabs_wf(tabs),
                i <= tabs.len(),
                forall|k: int| 0 <= k < i ==> !tab_matches(tabs, target.leaves@, k),
            decreases tabs.len() - i,
        {
            if same_ids(&self.workspaces[w].tabs[i].layout.leaves(), &target.leaves) {
                proof {
                    law_leaves_identify_a_tab(tabs, i as int);
                }
                return Some((w, i));
            }
            i = i + 1;
        }
        None
    }

    /// What is left once the modal for the name of a tab was asked for: it opens
    /// for tabs of panes only.
    pub open spec fn tab_rename_opened(&self, after: &App, index: usize) -> bool {
        if index < self.active().tabs@.len() && self.active().tabs@[index as int].is_panes() {
            let tab = self.active().tabs@[index as int];
            &&& after.tab_rename is Some
            &&& after.tab_rename->0.target.workspace == self.active_ws
            &&& after.tab_rename->0.target.leaves@ == tab.layout.leaf_seq()
            &&& after.tab_rename->0.buffer@ == (match tab.name {
                Some(n) => n@,
                None => Seq::<char>::empty(),
            })
            &&& *after == (App { tab_rename: after.tab_rename, ..*self })
        } else {
            *after == *self
        }
    }

    /// Opens the modal for the name of a tab of panes.
    pub fn open_tab_rename(&mut self, index: usize)
        requires
            old(self).wf(),
            old(self).workspaces@.len() > 0,
        ensures
            final(self).wf(),
            old(self).tab_rename_opened(final(self), index),
    {
        let w: usize = self.active_ws;
        if index >= self.workspaces[w].tabs.len() {
            return ;
        }
        if !self.workspaces[w].tabs[index].is_renameable() {
            return ;
        }
        let buffer: String = match &self.workspaces[w].tabs[index].name {
            Some(n) => n.clone(),
            None => String::new(),
        };
        match self.tab_menu_target(w, index) {
            Some(target) => {
                self.tab_rename = Some(TabRename { target, buffer });
            },
            None => {},
        }
    }

    /// What confirming the name of a tab leaves behind: the tab is named, wherever
    /// it is now, unless the name is refused; a tab that is gone is reported.
    pub open spec fn tab_name_confirmed(&self, after: &App, r: TabRename) -> bool {
        let open = App { tab_rename: None, ..*self };
        match self.target_place(r.target) {
            Some(i) => match self.tab_rename_error(r.target.workspace, i as usize, r.buffer@) {
                Some(_) => *after == open,
                None => open.tab_renamed(after, r.target.workspace, i as usize, r.buffer@),
            },
            None => {
                &&& after.toast is Some
                &&& after.toast->0@ == self.catalog.tab_changed_rename_cancelled@
                &&& *after == (App { tab_rename: None, toast: after.toast, ..*self })
            },
        }
    }

    /// Confirms the name of a tab.
    fn confirm_tab_rename(&mut self)
        requires
            old(self).wf(),
        ensures
            final(self).wf(),
            match old(self).tab_rename {
                Some(r) => old(self).tab_name_confirmed(final(self), r),
                None => *final(self) == *old(self),
            },
    {
        let mut rename: Option<TabRename> = None;
        core::mem::swap(&mut rename, &mut self.tab_rename);
        match rename {
            Some(r) => {
                match self.resolve_tab_menu_target(&r.target) {
                    Some((workspace, index)) => {
                        let _ = self.rename_tab_in_workspace(
                            workspace,
                            index,
                            r.buffer.as_str(),
                        );
                    },
                    None => {
                        let msg = self.catalog.tab_changed_rename_cancelled.to_owned();
                        self.show_toast(msg);
                    },
                }
            },
            None => {},
        }
    }

    /// A key in the modal for the name of a tab.
    pub fn handle_tab_rename_key(&mut self, key: Key)
        requires
            old(self).wf(),
        ensures
            final(self).wf(),
            match (key, old(self).tab_rename) {
                (_, None) => *final(self) == *old(self),
                (Key::Esc, Some(_)) => *final(self) == (App { tab_rename: None, ..*old(self) }),
                (Key::Enter, Some(r)) => old(self).tab_name_confirmed(final(self), r),
                (_, Some(r)) => {
                    &&& final(self).tab_rename is Some
                    &&& final(self).tab_rename->0 == (TabRename {
                        buffer: final(self).tab_rename->0.buffer,
                        ..r
                    })
                    &&& final(self).tab_rename->0.buffer@ == edited(
                        r.buffer@,
                        key,
                        TAB_NAME_MAX as nat,
                    )
                    &&& *final(self) == (App { tab_rename: final(self).tab_rename, ..*old(self) })
                },
            },
    {
        match key {
            Key::Esc => {
                self.tab_rename = None;
            },
            Key::Enter => {
                self.confirm_tab_rename();
            },
            _ => {
                match &mut self.tab_rename {
                    Some(r) => {
                        edit(&mut r.buffer, key, TAB_NAME_MAX);
                    },
                    None => {},
                }
            },
        }
    }

    // -----------------------------------------------------------------------
    // Workspaces
    // -----------------------------------------------------------------------

    /// Where the workspace with this identity is.
    pub fn find_workspace(&self, id: &str) -> (at: Option<usize>)
        ensures
            match at {
                Some(i) => i < self.workspaces@.len() && self.place_of_workspace(id@) == Some(
                    i as int,
                ),
                None => self.place_of_workspace(id@) is None,
            },
    {
        let mut i: usize = 0;
        while i < self.workspaces.len()
            invariant
                i <= self.workspaces@.len(),
                self.place_of_workspace(id@) == workspace_from(self.workspaces@, id@, i as int),
            decreases self.workspaces@.len() - i,
        {
            if same_text(self.workspaces[i].id.as_str(), id) {
                return Some(i);
            }
            i = i + 1;
        }
        None
    }

    /// Where the workspace with this identity is.
    pub open spec fn place_of_workspace(&self, id: Seq<char>) -> Option<int> {
        workspace_from(self.workspaces@, id, 0)
    }

    /// Opens the modal for the name of a workspace.
    pub fn open_ws_rename(&mut self, index: usize)
        requires
            old(self).wf(),
        ensures
            final(self).wf(),
            *final(self) == (App {
                ws_rename: if index < old(self).workspaces@.len() {
                    Some(
                        WsRename {
                            workspace_id: old(self).workspaces@[index as int].id,
                            buffer: old(self).workspaces@[index as int].name,
                        },
                    )
                } else {
                    old(self).ws_rename
                },
                ..*old(self)
            }),
    {
        if index < self.workspaces.len() {
            self.ws_rename = Some(
                WsRename {
                    workspace_id: self.workspaces[index].id.clone(),
                    buffer: self.workspaces[index].name.clone(),
                },
            );
        }
    }

    /// What confirming the name of a workspace leaves behind: the workspace is
    /// named, wherever it is now, unless the name is refused or it is gone.
    pub open spec fn ws_name_confirmed(&self, after: &App, r: WsRename) -> bool {
        let open = App { ws_rename: None, ..*self };
        match self.place_of_workspace(r.workspace_id@) {
            Some(i) => match self.ws_rename_error(i as usize, r.buffer@) {
                Some(_) => *after == open,
                None => open.ws_renamed(after, i as usize, r.buffer@),
            },
            None => *after == open,
        }
    }

    /// A key in the modal for the name of a workspace.
    pub fn handle_ws_rename_key(&mut self, key: Key)
        requires
            old(self).wf(),
        ensures
            final(self).wf(),
            match (key, old(self).ws_rename) {
                (_, None) => *final(self) == *old(self),
                (Key::Esc, Some(_)) => *final(self) == (App { ws_rename: None, ..*old(self) }),
                (Key::Enter, Some(r)) => old(self).ws_name_confirmed(final(self), r),
                (_, Some(r)) => {
                    &&& final(self).ws_rename is Some
                    &&& final(self).ws_rename->0.workspace_id == r.workspace_id
                    &&& final(self).ws_rename->0.buffer@ == edited(
                        r.buffer@,
                        key,
                        WS_NAME_MAX as nat,
                    )
                    &&& *final(self) == (App { ws_rename: final(self).ws_rename, ..*old(self) })
                },
            },
    {
        match key {
            Key::Esc => {
                self.ws_rename = None;
            },
            Key::Enter => {
                let mut rename: Option<WsRename> = None;
                core::mem::swap(&mut rename, &mut self.ws_rename);
                match rename {
                    Some(r) => {
                        match self.find_workspace(r.workspace_id.as_str()) {
                            Some(index) => {
                                let _ = self.rename_workspace(index, r.buffer.as_str());
                            },
                            None => {},
                        }
                    },
                    None => {},
                }
            },
            _ => {
                match &mut self.ws_rename {
                    Some(r) => {
                        edit(&mut r.buffer, key, WS_NAME_MAX);
                    },
                    None => {},
                }
            },
        }
    }
}

/// The first workspace from `n` on with this identity.
pub open spec fn workspace_from(ws: Seq<Workspace>, id: Seq<char>, n: int) -> Option<int>
    decreases ws.len() - n,
{
    if n < 0 || n >= ws.len() {
        None
    } else if ws[n].id@ == id {
        Some(n)
    } else {
        workspace_from(ws, id, n + 1)
    }
}

// ---------------------------------------------------------------------------
// Panes
// ---------------------------------------------------------------------------

/// The character in lower case, where it is an ASCII letter.
pub open spec fn lowered(c: char) -> char {
    if 'A' <= c <= 'Z' {
        (c as u32 + 32) as char
    } else {
        c
    }
}

/// Whether the character can start the name of a pane.
pub open spec fn starts_name(c: char) -> bool {
    'a' <= c <= 'z'
}

/// Whether the character can be in the name of a pane.
pub open spec fn in_name(c: char) -> bool {
    ||| 'a' <= c <= 'z'
    ||| '0' <= c <= '9'
    ||| c == '_'
    ||| c == '-'
}

/// Whether a pane can be addressed by the text, or it is empty.
pub open spec fn is_name(s: Seq<char>) -> bool {
    &&& s.len() <= PANE_NAME_MAX
    &&& s.len() > 0 ==> starts_name(s[0])
    &&& forall|i: int| 0 <= i < s.len() ==> in_name(#[trigger] s[i])
}

/// What a key makes of the name of a pane.
pub open spec fn name_edited(buffer: Seq<char>, key: Key) -> Seq<char> {
    match key {
        Key::Char(c) => {
            let l = lowered(c);
            if in_name(l) && (buffer.len() > 0 || starts_name(l)) && buffer.len() < PANE_NAME_MAX {
                buffer.push(l)
            } else {
                buffer
            }
        },
        _ => edited(buffer, key, 0),
    }
}

/// Whatever is typed, the text in the modal is a name by which a pane can be
/// addressed, or empty.
pub proof fn law_typing_keeps_to_names(buffer: Seq<char>, key: Key)
    requires
        is_name(buffer),
    ensures
        is_name(name_edited(buffer, key)),
{
    let out = name_edited(buffer, key);
    assert forall|i: int| 0 <= i < out.len() implies in_name(#[trigger] out[i]) by {
        if i < buffer.len() {
            assert(out[i] == buffer[i]);
        }
    }
    if out.len() > 0 && buffer.len() > 0 {
        assert(out[0] == buffer[0]);
    }
}

/// The character in lower case, where it is an ASCII letter.
fn lower(c: char) -> (l: char)
    ensures
        l == lowered(c),
{
    let n: u32 = c as u32;
    if 65 <= n && n <= 90 {
        let l: u8 = (n + 32) as u8;
        l as char
    } else {
        c
    }
}

/// Lets a key edit the name of a pane.
fn edit_name(buffer: &mut String, key: Key)
    ensures
        final(buffer)@ == name_edited(old(buffer)@, key),
{
    match key {
        Key::Char(c) => {
            let l: char = lower(c);
            let n: u32 = l as u32;
            let letter: bool = 97 <= n && n <= 122;
            let ok: bool = letter || (48 <= n && n <= 57) || l == '_' || l == '-';
            let count: usize = char_count(buffer.as_str());
            if ok && (count > 0 || letter) && count < PANE_NAME_MAX {
                buffer.push(l);
            }
        },
        Key::Backspace => {
            pop_char(buffer);
        },
        _ => {},
    }
}

impl App {
    /// What is left once the modal for the name of a pane opened: it holds the
    /// name that the pane has.
    pub open spec fn pane_rename_opened(&self, after: &App, pane: PaneId) -> bool {
        &&& after.pane_rename is Some
        &&& after.pane_rename->0.pane == pane
        &&& super::agents::stands_for(self.agent_names@, after.pane_rename->0.buffer@, pane) || (
        after.pane_rename->0.buffer@.len() == 0 && forall|i: int|
            0 <= i < self.agent_names@.len() ==> (#[trigger] self.agent_names@[i]).1 != pane)
        &&& *after == (App { pane_rename: after.pane_rename, ..*self })
    }

    /// Opens the modal for the name of a pane.
    pub fn open_pane_rename(&mut self, pane: PaneId)
        requires
            old(self).wf(),
        ensures
            final(self).wf(),
            old(self).pane_rename_opened(final(self), pane),
    {
        let buffer: String = match self.name_of(pane) {
            Some(n) => n,
            None => String::new(),
        };
        self.pane_rename = Some(PaneRename { pane, buffer });
    }

    /// What confirming the name of a pane leaves behind: an empty name takes the
    /// name away.
    pub open spec fn pane_name_confirmed(&self, after: &App, r: PaneRename) -> bool {
        let name = text::trim_text(r.buffer@);
        let rest = close::index_without(self.agent_names@, r.pane);
        &&& if name.len() == 0 {
            after.agent_names@ == rest
        } else {
            &&& after.agent_names@ == super::agents::without_name(rest, name).push(
                after.agent_names@.last(),
            )
            &&& after.agent_names@.last().0@ == name
            &&& after.agent_names@.last().1 == r.pane
        }
        &&& *after == (App {
            pane_rename: None,
            agent_names: after.agent_names,
            session_dirty: true,
            ..*self
        })
    }

    /// A key in the modal for the name of a pane.
    pub fn handle_pane_rename_key(&mut self, key: Key)
        requires
            old(self).wf(),
        ensures
            final(self).wf(),
            match (key, old(self).pane_rename) {
                (_, None) => *final(self) == *old(self),
                (Key::Esc, Some(_)) => *final(self) == (App { pane_rename: None, ..*old(self) }),
                (Key::Enter, Some(r)) => old(self).pane_name_confirmed(final(self), r),
                (_, Some(r)) => {
                    &&& final(self).pane_rename is Some
                    &&& final(self).pane_rename->0.pane == r.pane
                    &&& final(self).pane_rename->0.buffer@ == name_edited(r.buffer@, key)
                    &&& *final(self) == (App { pane_rename: final(self).pane_rename, ..*old(self) })
                },
            },
    {
        match key {
            Key::Esc => {
                self.pane_rename = None;
            },
            Key::Enter => {
                let mut rename: Option<PaneRename> = None;
                core::mem::swap(&mut rename, &mut self.pane_rename);
                match rename {
                    Some(r) => {
                        let name = trim(r.buffer.as_str());
                        if char_count(name.as_str()) == 0 {
                            self.set_agent_name(r.pane, None);
                        } else {
                            self.set_agent_name(r.pane, Some(name.as_str()));
                        }
                    },
                    None => {},
                }
            },
            _ => {
                match &mut self.pane_rename {
                    Some(r) => {
                        edit_name(&mut r.buffer, key);
                    },
                    None => {},
                }
            },
        }
    }
}

// ---------------------------------------------------------------------------
// Worktrees
// ---------------------------------------------------------------------------

/// What is typed into the prompt for a branch; it is as long as one likes.
pub open spec fn prompt_edited(prompt: Option<String>, key: Key) -> Option<Seq<char>> {
    match prompt {
        Some(b) => Some(
            match key {
                Key::Char(c) => b@.push(c),
                _ => edited(b@, key, 0),
            },
        ),
        None => None,
    }
}

impl App {
    /// Opens the prompt for a branch, for a new worktree of the repository of the
    /// active workspace. Outside of a repository there is none.
    pub fn open_worktree_prompt(&mut self, is_repo: bool)
        requires
            old(self).wf(),
            old(self).workspaces@.len() > 0,
        ensures
            final(self).wf(),
            if is_repo {
                &&& final(self).worktree_repo == Some(old(self).active().cwd)
                &&& text::opt_text(final(self).worktree_prompt) == Some(Seq::<char>::empty())
                &&& *final(self) == (App {
                    worktree_repo: final(self).worktree_repo,
                    worktree_prompt: final(self).worktree_prompt,
                    ..*old(self)
                })
            } else {
                *final(self) == *old(self)
            },
    {
        if is_repo {
            let cwd = self.ws().cwd.clone();
            self.worktree_repo = Some(cwd);
            self.worktree_prompt = Some(String::new());
        }
    }

    /// A key in the prompt for a branch. Returns the repository and the branch
    /// for which a worktree is to be made; the prompt stays open until it is
    /// known how that went.
    pub fn handle_worktree_prompt_key(&mut self, key: Key) -> (request: Option<(String, String)>)
        requires
            old(self).wf(),
        ensures
            final(self).wf(),
            match key {
                Key::Esc => request is None && *final(self) == (App {
                    worktree_prompt: None,
                    worktree_repo: None,
                    worktree_error: None,
                    ..*old(self)
                }),
                Key::Enter => match old(self).worktree_repo {
                    Some(repo) => {
                        &&& request is Some
                        &&& (request->0).0 == repo
                        &&& (request->0).1@ == (match old(self).worktree_prompt {
                            Some(b) => b@,
                            None => Seq::<char>::empty(),
                        })
                        &&& *final(self) == *old(self)
                    },
                    None => request is None && *final(self) == (App {
                        worktree_prompt: None,
                        ..*old(self)
                    }),
                },
                Key::Other => request is None && *final(self) == *old(self),
                _ => {
                    &&& request is None
                    &&& text::opt_text(final(self).worktree_prompt) == prompt_edited(
                        old(self).worktree_prompt,
                        key,
                    )
                    &&& *final(self) == (App {
                        worktree_prompt: final(self).worktree_prompt,
                        worktree_error: None,
                        ..*old(self)
                    })
                },
            },
    {
        match key {
            Key::Esc => {
                self.worktree_prompt = None;
                self.worktree_repo = None;
                self.worktree_error = None;
                None
            },
            Key::Enter => {
                match &self.worktree_repo {
                    Some(repo) => {
                        let branch: String = match &self.worktree_prompt {
                            Some(b) => b.clone(),
                            None => String::new(),
                        };
                        Some((repo.clone(), branch))
                    },
                    None => {
                        self.worktree_prompt = None;
                        None
                    },
                }
            },
            Key::Backspace => {
                match &mut self.worktree_prompt {
                    Some(b) => {
                        pop_char(b);
                    },
                    None => {},
                }
                self.worktree_error = None;
                None
            },
            Key::Char(c) => {
                match &mut self.worktree_prompt {
                    Some(b) => {
                        b.push(c);
                    },
                    None => {},
                }
                self.worktree_error = None;
                None
            },
            Key::Other => None,
        }
    }

    /// Takes in how making the worktree went: the prompt closes, or stays open
    /// and says why it failed.
    pub fn finish_worktree_prompt(&mut self, result: Result<String, String>)
        requires
            old(self).wf(),
        ensures
            final(self).wf(),
            match result {
                Ok(_) => *final(self) == (App {
                    worktree_prompt: None,
                    worktree_repo: None,
                    worktree_error: None,
                    ..*old(self)
                }),
                Err(e) => *final(self) == (App { worktree_error: Some(e), ..*old(self) }),
            },
    {
        match result {
            Ok(_) => {
                self.worktree_prompt = None;
                self.worktree_repo = None;
                self.worktree_error = None;
            },
            Err(e) => {
                self.worktree_error = Some(e);
            },
        }
    }

    /// The workspace whose worktree is to be deleted, where it is there and a
    /// linked worktree: its directory, and the main checkout from which git is
    /// to be run.
    pub open spec fn deletion(&self) -> Option<(int, Seq<char>, Seq<char>)> {
        match self.worktree_delete {
            Some(id) => match self.place_of_workspace(id@) {
                Some(i) => {
                    let w = self.workspaces@[i];
                    match w.worktree {
                        Some(m) => if m.linked {
                            Some(
                                (
                                    i,
                                    w.cwd@,
                                    match paths::parent_text(m.common_dir@) {
                                        Some(p) => p,
                                        None => w.cwd@,
                                    },
                                ),
                            )
                        } else {
                            None
                        },
                        None => None,
                    }
                },
                None => None,
            },
            None => None,
        }
    }

    /// The worktree that is to be deleted, and where git is to be run for that.
    pub fn worktree_deletion(&self) -> (plan: Option<(String, String)>)
        ensures
            match plan {
                Some((path, repo)) => self.deletion() is Some && path@ == (self.deletion()->0).1
                    && repo@ == (self.deletion()->0).2,
                None => self.deletion() is None,
            },
    {
        let index: usize = match &self.worktree_delete {
            Some(id) => match self.find_workspace(id.as_str()) {
                Some(i) => i,
                None => {
                    return None;
                },
            },
            None => {
                return None;
            },
        };
        match &self.workspaces[index].worktree {
            Some(m) => {
                if !m.linked {
                    return None;
                }
                let repo: String = match paths::parent(m.common_dir.as_str()) {
                    Some(p) => p,
                    None => self.workspaces[index].cwd.clone(),
                };
                Some((self.workspaces[index].cwd.clone(), repo))
            },
            None => None,
        }
    }

    /// What is left once the deletion of a worktree was confirmed.
    pub open spec fn deletion_confirmed(&self, after: &App, removed: Result<(), String>) -> bool {
        let done = App { worktree_delete: None, ..*self };
        match self.worktree_delete {
            None => *after == *self,
            Some(id) => match self.place_of_workspace(id@) {
                None => *after == done,
                Some(i) => {
                    &&& after.toast is Some
                    &&& match (self.deletion(), removed) {
                        (None, _) => {
                            &&& after.toast->0@ == "not a worktree"@
                            &&& *after == (App { toast: after.toast, ..done })
                        },
                        (Some(_), Ok(_)) => {
                            &&& after.toast->0@ == "worktree deleted"@
                            &&& done.workspace_closed(
                                &(App { toast: self.toast, ..*after }),
                                i as usize,
                            )
                        },
                        (Some(_), Err(e)) => {
                            &&& after.toast->0@ == "delete failed: "@ + e@
                            &&& *after == (App { toast: after.toast, ..done })
                        },
                    }
                },
            },
        }
    }

    /// Takes in how deleting the worktree went, as far as there was one to delete.
    /// The workspace is closed once its worktree is gone. Nothing but a linked
    /// worktree is ever deleted.
    pub fn confirm_worktree_delete(&mut self, removed: Result<(), String>)
        requires
            old(self).wf(),
        ensures
            final(self).wf(),
            old(self).deletion_confirmed(final(self), removed),
    {
        let linked: bool = self.worktree_deletion().is_some();
        let mut armed: Option<String> = None;
        core::mem::swap(&mut armed, &mut self.worktree_delete);
        let index: usize = match &armed {
            Some(id) => match self.find_workspace(id.as_str()) {
                Some(i) => i,
                None => {
                    return ;
                },
            },
            None => {
                return ;
            },
        };
        if !linked {
            self.show_toast("not a worktree".to_owned());
            return ;
        }
        match removed {
            Ok(_) => {
                self.close_workspace(index);
                self.show_toast("worktree deleted".to_owned());
            },
            Err(e) => {
                let mut message: String = "delete failed: ".to_owned();
                message.append(e.as_str());
                self.show_toast(message);
            },
        }
    }

    /// Whether the key confirms that the worktree is to be deleted.
    pub fn confirms_deletion(key: Key) -> (b: bool)
        ensures
            b == (key == Key::Enter || key == Key::Char('y') || key == Key::Char('Y')),
    {
        match key {
            Key::Enter => true,
            Key::Char(c) => c == 'y' || c == 'Y',
            _ => false,
        }
    }

    /// A key in the modal for the deletion of a worktree. `removed` is how that
    /// went, where the key confirmed it; any other key cancels it.
    pub fn worktree_delete_key(&mut self, key: Key, removed: Result<(), String>)
        requires
            old(self).wf(),
        ensures
            final(self).wf(),
            if key == Key::Enter || key == Key::Char('y') || key == Key::Char('Y') {
                old(self).deletion_confirmed(final(self), removed)
            } else {
                *final(self) == (App { worktree_delete: None, ..*old(self) })
            },
    {
        if Self::confirms_deletion(key) {
            self.confirm_worktree_delete(removed);
        } else {
            self.worktree_delete = None;
        }
    }
}

/// A character that is typed comes last, as long as there is room, and taking it
/// back leaves the text as it was.
pub proof fn law_taking_back_undoes_typing(buffer: Seq<char>, c: char, max: nat)
    ensures
        buffer.len() < max ==> edited(buffer, Key::Char(c), max).last() == c && edited(
            edited(buffer, Key::Char(c), max),
            Key::Backspace,
            max,
        ) == buffer,
        buffer.len() >= max ==> edited(buffer, Key::Char(c), max) == buffer,
        edited(buffer, Key::Char(c), max).len() <= buffer.len() + 1,
{
    if buffer.len() < max {
        assert(buffer.push(c).drop_last() =~= buffer);
    }
}

proof fn lemma_workspace_from(ws: Seq<Workspace>, id: Seq<char>, n: int)
    requires
        0 <= n <= ws.len(),
    ensures
        match workspace_from(ws, id, n) {
            Some(i) => n <= i < ws.len() && ws[i].id@ == id,
            None => forall|k: int| n <= k < ws.len() ==> (#[trigger] ws[k]).id@ != id,
        },
    decreases ws.len() - n,
{
    if n < ws.len() && ws[n].id@ != id {
        lemma_workspace_from(ws, id, n + 1);
    }
}

/// A workspace is found again by its identity wherever it is, and none where it is
/// gone.
pub proof fn law_workspaces_are_found_by_identity(app: App, id: Seq<char>)
    ensures
        match app.place_of_workspace(id) {
            Some(i) => 0 <= i < app.workspaces@.len() && app.workspaces@[i].id@ == id,
            None => forall|k: int|
                0 <= k < app.workspaces@.len() ==> (#[trigger] app.workspaces@[k]).id@ != id,
        },
{
    lemma_workspace_from(app.workspaces@, id, 0);
}

/// A name that is confirmed stands for its pane; an empty one takes the name away.
pub proof fn law_confirmed_names_stand_for_their_pane(before: App, after: App, r: PaneRename)
    requires
        before.pane_name_confirmed(&after, r),
    ensures
        text::trim_text(r.buffer@).len() > 0 ==> super::agents::stands_for(
            after.agent_names@,
            text::trim_text(r.buffer@),
            r.pane,
        ),
        text::trim_text(r.buffer@).len() == 0 ==> forall|i: int|
            0 <= i < after.agent_names@.len() ==> (#[trigger] after.agent_names@[i]).1 != r.pane,
{
    close::lemma_index_without(before.agent_names@, r.pane);
    if text::trim_text(r.buffer@).len() > 0 {
        let names = after.agent_names@;
        let i = names.len() - 1;
        assert(names[i].1 == r.pane);
    }
}

/// Only a linked worktree is deleted, by its own directory, and from the checkout that
/// holds the repository: above the repository's own directory.
pub proof fn law_only_linked_worktrees_are_deleted(app: App, main: Seq<char>, name: Seq<char>)
    requires
        app.deletion() is Some,
        main.len() > 0,
        paths::is_name(name),
        app.workspaces@[(app.deletion()->0).0].worktree is Some ==> app.workspaces@[(
        app.deletion()->0).0].worktree->0.common_dir@ == paths::joined(main, name),
    ensures
        ({
            let (i, dir, from) = app.deletion()->0;
            let w = app.workspaces@[i];
            &&& w.worktree is Some && w.worktree->0.linked
            &&& dir == w.cwd@
            &&& paths::components(from) == paths::components(main)
            &&& app.worktree_delete is Some
            &&& app.place_of_workspace((app.worktree_delete->0)@) == Some(i)
        }),
{
    paths::law_above_a_name_is_its_directory(main, name);
}

/// A workspace is closed only once its worktree is gone: where that failed, or it is not
/// a linked worktree, every workspace stays.
pub proof fn law_failed_deletions_keep_every_workspace(
    before: App,
    after: App,
    removed: Result<(), String>,
    i: int,
)
    requires
        before.worktree_delete is Some,
        before.place_of_workspace((before.worktree_delete->0)@) == Some(i),
        0 <= i < before.workspaces@.len() <= usize::MAX,
        before.deletion_confirmed(&after, removed),
    ensures
        removed is Err || before.deletion() is None ==> after.workspaces == before.workspaces
            && after.panes == before.panes && after.outbox == before.outbox,
        removed is Ok && before.deletion() is Some ==> after.workspaces@
            == before.workspaces@.remove(i),
        after.worktree_delete is None,
{
}

/// A letter that is typed into the name of a pane comes in as its lower case, at the
/// end, while there is room.
pub proof fn law_names_are_typed_in_lower_case(buffer: Seq<char>, c: char)
    requires
        buffer.len() < PANE_NAME_MAX,
    ensures
        'a' <= c <= 'z' ==> name_edited(buffer, Key::Char(c)) == buffer.push(c),
        'A' <= c <= 'Z' ==> {
            let now = name_edited(buffer, Key::Char(c));
            &&& now.len() == buffer.len() + 1
            &&& now.drop_last() == buffer
            &&& now.last() as int - 'a' as int == c as int - 'A' as int
        },
        '0' <= c <= '9' && buffer.len() > 0 ==> name_edited(buffer, Key::Char(c)) == buffer.push(c),
        '0' <= c <= '9' && buffer.len() == 0 ==> name_edited(buffer, Key::Char(c)) == buffer,
        c == ' ' || c == '/' ==> name_edited(buffer, Key::Char(c)) == buffer,
{
    let l = lowered(c);
    assert(buffer.push(l).drop_last() =~= buffer);
}

} // verus!
