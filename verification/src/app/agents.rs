//! Agents of a session: their names, their stored sessions, and what scans of
//! the processes say of them.
use vstd::prelude::*;
use vstd::string::*;

use super::close;
use super::close::drop_index;
use super::panes;
use super::spaces;
use super::spaces::{new_workspace_at, Opening};
use super::tabs;
use super::App;
use crate::ids::{PaneId, PaneMap};
use crate::layout::TileLayout;
use crate::menus::Mode;
use crate::paths;
use crate::paths::same_path;
use crate::status::{AgentSession, Pane, PaneStatus, SessionInfo};
use crate::text;
use crate::text::{copy_opt, has_text, same_text};
use crate::workspace;
use crate::workspace::{Tab, Workspace, WorktreeMembership};

verus! {

// ---------------------------------------------------------------------------
// Names
// ---------------------------------------------------------------------------

/// The entries with another name.
pub open spec fn without_name(names: Seq<(String, PaneId)>, name: Seq<char>) -> Seq<
    (String, PaneId),
>
    decreases names.len(),
{
    if names.len() == 0 {
        names
    } else if names.last().0@ == name {
        without_name(names.drop_last(), name)
    } else {
        without_name(names.drop_last(), name).push(names.last())
    }
}

pub proof fn lemma_without_name(names: Seq<(String, PaneId)>, name: Seq<char>)
    ensures
        forall|k: int|
            0 <= k < without_name(names, name).len() ==> (#[trigger] without_name(
                names,
                name,
            )[k]).0@ != name && names.contains(without_name(names, name)[k]),
        super::names_wf(names) ==> super::names_wf(without_name(names, name)),
    decreases names.len(),
{
    if names.len() > 0 {
        let rest = names.drop_last();
        lemma_without_name(rest, name);
        let out = without_name(names, name);
        let before = without_name(rest, name);
        assert forall|k: int| 0 <= k < out.len() implies (#[trigger] out[k]).0@ != name
            && names.contains(out[k]) by {
            if k < before.len() {
                assert(out[k] == before[k]);
                let m = choose|m: int| 0 <= m < rest.len() && rest[m] == before[k];
                assert(names[m] == out[k]);
            } else {
                assert(names[names.len() - 1] == out[k]);
            }
        }
        if super::names_wf(names) {
            assert forall|i: int, j: int| 0 <= i < j < rest.len() implies (#[trigger] rest[i]).0@
                != (#[trigger] rest[j]).0@ && rest[i].1 != rest[j].1 by {
                assert(rest[i] == names[i] && rest[j] == names[j]);
            }
            assert forall|i: int, j: int| 0 <= i < j < out.len() implies (#[trigger] out[i]).0@
                != (#[trigger] out[j]).0@ && out[i].1 != out[j].1 by {
                if j < before.len() {
                    assert(out[i] == before[i] && out[j] == before[j]);
                } else {
                    assert(out[i] == before[i]);
                    let m = choose|m: int| 0 <= m < rest.len() && rest[m] == before[i];
                    assert(names[m] == out[i]);
                    assert(names[names.len() - 1] == out[j]);
                }
            }
        }
    }
}

/// Drops the entries with the name.
pub fn drop_name(names: &mut Vec<(String, PaneId)>, name: &str)
    ensures
        final(names)@ == without_name(old(names)@, name@),
{
    let mut out: Vec<(String, PaneId)> = Vec::new();
    let mut i: usize = 0;
    let ghost all = names@;
    assert(all.take(0) =~= Seq::<(String, PaneId)>::empty());
    while i < names.len()
        invariant
            i <= names@.len(),
            all == names@,
            out@ == without_name(all.take(i as int), name@),
        decreases names@.len() - i,
    {
        assert(all.take(i + 1).drop_last() =~= all.take(i as int));
        if !same_text(names[i].0.as_str(), name) {
            out.push((names[i].0.clone(), names[i].1));
        }
        i = i + 1;
    }
    assert(all.take(i as int) =~= all);
    *names = out;
}

/// Whether the name stands for the pane.
pub open spec fn stands_for(names: Seq<(String, PaneId)>, name: Seq<char>, pane: PaneId) -> bool {
    exists|i: int| 0 <= i < names.len() && (#[trigger] names[i]).0@ == name && names[i].1 == pane
}

/// A name stands for one pane at most, and a pane has one name at most.
pub proof fn law_names_are_unique(
    names: Seq<(String, PaneId)>,
    a: Seq<char>,
    b: Seq<char>,
    p: PaneId,
    q: PaneId,
)
    requires
        super::names_wf(names),
        stands_for(names, a, p),
        stands_for(names, b, q),
    ensures
        a == b <==> p == q,
{
    let i = choose|i: int| 0 <= i < names.len() && (#[trigger] names[i]).0@ == a && names[i].1 == p;
    let j = choose|j: int| 0 <= j < names.len() && (#[trigger] names[j]).0@ == b && names[j].1 == q;
    if i < j {
        assert(names[i].0@ != names[j].0@);
    }
    if j < i {
        assert(names[j].0@ != names[i].0@);
    }
}

impl App {
    /// The name of a pane.
    pub fn name_of(&self, pane: PaneId) -> (name: Option<String>)
        ensures
            match name {
                Some(n) => stands_for(self.agent_names@, n@, pane),
                None => forall|i: int|
                    0 <= i < self.agent_names@.len() ==> (#[trigger] self.agent_names@[i]).1 != pane,
            },
    {
        let mut i: usize = 0;
        while i < self.agent_names.len()
            invariant
                i <= self.agent_names@.len(),
                forall|k: int| 0 <= k < i ==> (#[trigger] self.agent_names@[k]).1 != pane,
            decreases self.agent_names@.len() - i,
        {
            if self.agent_names[i].1 == pane {
                let name = self.agent_names[i].0.clone();
                assert(self.agent_names@[i as int].0@ == name@);
                return Some(name);
            }
            i = i + 1;
        }
        None
    }

    /// Gives a pane a name, or takes it away. The name no longer stands for
    /// another pane, and the pane has no other name.
    pub fn set_agent_name(&mut self, pane: PaneId, name: Option<&str>)
        requires
            old(self).wf(),
        ensures
            final(self).wf(),
            match name {
                None => final(self).agent_names@ == close::index_without(
                    old(self).agent_names@,
                    pane,
                ),
                Some(n) => {
                    let rest = without_name(close::index_without(old(self).agent_names@, pane), n@);
                    &&& final(self).agent_names@ == rest.push(final(self).agent_names@.last())
                    &&& final(self).agent_names@.last().0@ == n@
                    &&& final(self).agent_names@.last().1 == pane
                    &&& stands_for(final(self).agent_names@, n@, pane)
                },
            },
            *final(self) == (App {
                agent_names: final(self).agent_names,
                session_dirty: true,
                ..*old(self)
            }),
    {
        proof {
            close::lemma_index_without(self.agent_names@, pane);
        }
        drop_index(&mut self.agent_names, pane);
        match name {
            None => {},
            Some(n) => {
                let ghost others = self.agent_names@;
                proof {
                    lemma_without_name(others, n@);
                }
                drop_name(&mut self.agent_names, n);
                let ghost rest = self.agent_names@;
                self.agent_names.push((n.to_owned(), pane));
                proof {
                    let now = self.agent_names@;
                    assert(now[rest.len() as int].0@ == n@);
                    assert forall|i: int, j: int| 0 <= i < j < now.len() implies (
                    #[trigger] now[i]).0@ != (#[trigger] now[j]).0@ && now[i].1 != now[j].1 by {
                        if j == rest.len() {
                            assert(now[i] == rest[i]);
                            assert(others.contains(rest[i]));
                            let m = choose|m: int| 0 <= m < others.len() && others[m] == rest[i];
                            assert(others[m].1 != pane);
                        } else {
                            assert(now[i] == rest[i] && now[j] == rest[j]);
                        }
                    }
                }
            },
        }
        self.session_dirty = true;
    }
}

// ---------------------------------------------------------------------------
// Stored sessions
// ---------------------------------------------------------------------------

/// The identities of sessions.
pub open spec fn session_ids(list: Seq<SessionInfo>) -> Seq<Seq<char>> {
    Seq::new(list.len(), |i: int| list[i].session_id@)
}

/// The sessions with another identity.
pub open spec fn without_session(list: Seq<SessionInfo>, id: Seq<char>) -> Seq<SessionInfo>
    decreases list.len(),
{
    if list.len() == 0 {
        list
    } else if list.last().session_id@ == id {
        without_session(list.drop_last(), id)
    } else {
        without_session(list.drop_last(), id).push(list.last())
    }
}

/// The texts that are among others.
pub open spec fn texts_among(list: Seq<Seq<char>>, others: Seq<Seq<char>>) -> Seq<Seq<char>>
    decreases list.len(),
{
    if list.len() == 0 {
        list
    } else if others.contains(list.last()) {
        texts_among(list.drop_last(), others).push(list.last())
    } else {
        texts_among(list.drop_last(), others)
    }
}

/// Drops the sessions with the identity.
fn drop_session(list: &mut Vec<SessionInfo>, id: &str)
    ensures
        final(list)@ == without_session(old(list)@, id@),
{
    let mut out: Vec<SessionInfo> = Vec::new();
    let mut i: usize = 0;
    let ghost all = list@;
    assert(all.take(0) =~= Seq::<SessionInfo>::empty());
    while i < list.len()
        invariant
            i <= list@.len(),
            all == list@,
            out@ == without_session(all.take(i as int), id@),
        decreases list@.len() - i,
    {
        assert(all.take(i + 1).drop_last() =~= all.take(i as int));
        if !same_text(list[i].session_id.as_str(), id) {
            out.push(list[i].copy());
        }
        i = i + 1;
    }
    assert(all.take(i as int) =~= all);
    *list = out;
}

/// The identities of sessions.
fn ids_of(list: &Vec<SessionInfo>) -> (ids: Vec<String>)
    ensures
        text::texts(ids@) == session_ids(list@),
{
    let mut ids: Vec<String> = Vec::new();
    let mut i: usize = 0;
    while i < list.len()
        invariant
            i <= list@.len(),
            ids@.len() == i,
            forall|k: int| 0 <= k < i ==> (#[trigger] ids@[k])@ == list@[k].session_id@,
        decreases list@.len() - i,
    {
        ids.push(list[i].session_id.clone());
        i = i + 1;
    }
    assert(text::texts(ids@) =~= session_ids(list@));
    ids
}

/// The texts that are among others.
fn keep_among(list: &mut Vec<String>, others: &Vec<String>)
    ensures
        text::texts(final(list)@) == texts_among(text::texts(old(list)@), text::texts(others@)),
{
    let ghost all = text::texts(list@);
    let mut out: Vec<String> = Vec::new();
    let mut i: usize = 0;
    assert(all.take(0) =~= Seq::<Seq<char>>::empty());
    assert(text::texts(out@) =~= Seq::<Seq<char>>::empty());
    while i < list.len()
        invariant
            i <= list@.len(),
            all == text::texts(list@),
            text::texts(out@) == texts_among(all.take(i as int), text::texts(others@)),
        decreases list@.len() - i,
    {
        assert(all.take(i + 1).drop_last() =~= all.take(i as int));
        let ghost before = text::texts(out@);
        if has_text(others, list[i].as_str()) {
            out.push(list[i].clone());
            assert(text::texts(out@) =~= before.push(all[i as int]));
        }
        i = i + 1;
    }
    assert(all.take(i as int) =~= all);
    *list = out;
}

/// Whether two lists hold the same texts in the same order.
pub fn same_texts(a: &Vec<String>, b: &Vec<String>) -> (same: bool)
    ensures
        same == (text::texts(a@) == text::texts(b@)),
{
    if a.len() != b.len() {
        assert(text::texts(a@).len() != text::texts(b@).len());
        return false;
    }
    let mut i: usize = 0;
    while i < a.len()
        invariant
            a@.len() == b@.len(),
            i <= a@.len(),
            forall|k: int| 0 <= k < i ==> #[trigger] text::texts(a@)[k] == text::texts(b@)[k],
        decreases a@.len() - i,
    {
        if !same_text(a[i].as_str(), b[i].as_str()) {
            assert(text::texts(a@)[i as int] != text::texts(b@)[i as int]);
            return false;
        }
        i = i + 1;
    }
    assert(text::texts(a@) =~= text::texts(b@));
    true
}

impl App {
    /// Whether an agent that can resume runs in that directory already. `kinds`
    /// are the agents that can resume.
    pub open spec fn runs_already(&self, kinds: Seq<Seq<char>>, agent: Seq<char>, cwd: Seq<char>) -> bool {
        kinds.contains(agent) && exists|id: PaneId|
            #![trigger self.status@[id]]
            self.status@.dom().contains(id) && self.panes@.dom().contains(id)
                && self.status@[id].agent@ == agent && paths::components(self.panes@[id].cwd@)
                == paths::components(cwd)
    }

    /// The sessions that are listed: not dismissed, and not running already.
    pub open spec fn listed_sessions(
        &self,
        kinds: Seq<Seq<char>>,
        found: Seq<SessionInfo>,
        dismissed: Seq<Seq<char>>,
    ) -> Seq<SessionInfo>
        decreases found.len(),
    {
        if found.len() == 0 {
            found
        } else {
            let before = self.listed_sessions(kinds, found.drop_last(), dismissed);
            let s = found.last();
            if !dismissed.contains(s.session_id@) && !self.runs_already(kinds, s.agent@, s.cwd@) {
                before.push(s)
            } else {
                before
            }
        }
    }

    /// Whether an agent that can resume runs in that directory already.
    fn is_running(&self, kinds: &Vec<String>, agent: &str, cwd: &str) -> (b: bool)
        requires
            self.maps_wf(),
        ensures
            b == self.runs_already(text::texts(kinds@), agent@, cwd@),
    {
        if !has_text(kinds, agent) {
            return false;
        }
        proof {
            self.status.lemma_entries();
        }
        let mut i: usize = 0;
        while i < self.status.entries.len()
            invariant
                self.maps_wf(),
                text::texts(kinds@).contains(agent@),
                i <= self.status.entries@.len(),
                forall|k: int|
                    0 <= k < i ==> !(self.panes@.dom().contains(
                        (#[trigger] self.status.entries@[k]).0,
                    ) && self.status.entries@[k].1.agent@ == agent@
                        && paths::components(self.panes@[self.status.entries@[k].0].cwd@)
                        == paths::components(cwd@)),
            decreases self.status.entries@.len() - i,
        {
            let id: PaneId = self.status.entries[i].0;
            if same_text(self.status.entries[i].1.agent.as_str(), agent) {
                match self.panes.get(id) {
                    Some(p) => {
                        if same_path(p.cwd.as_str(), cwd) {
                            proof {
                                self.status.lemma_entries();
                                assert(self.status@[id] == self.status.entries@[i as int].1);
                            }
                            return true;
                        }
                    },
                    None => {},
                }
            }
            i = i + 1;
        }
        proof {
            assert forall|id: PaneId| #![trigger self.status@[id]]
                self.status@.dom().contains(id) implies !(self.panes@.dom().contains(id)
                && self.status@[id].agent@ == agent@ && paths::components(self.panes@[id].cwd@)
                == paths::components(cwd@)) by {
                let k = choose|k: int|
                    0 <= k < self.status.entries@.len() && (#[trigger] self.status.entries@[k]).0
                        == id;
                assert(self.status@[id] == self.status.entries@[k].1);
            }
        }
        false
    }

    /// Takes in the sessions that a scan found. Dismissals of sessions that are
    /// gone are forgotten. Says whether the list changed.
    pub fn apply_scanned_sessions(&mut self, found: Vec<SessionInfo>, kinds: &Vec<String>) -> (changed:
        bool)
        requires
            old(self).wf(),
        ensures
            final(self).wf(),
            text::texts(final(self).dismissed_sessions@) == texts_among(
                text::texts(old(self).dismissed_sessions@),
                session_ids(found@),
            ),
            final(self).resumable@ == old(self).listed_sessions(
                text::texts(kinds@),
                found@,
                text::texts(final(self).dismissed_sessions@),
            ),
            changed == (session_ids(final(self).resumable@) != session_ids(old(self).resumable@)),
            *final(self) == (App {
                sessions_scan_inflight: false,
                dismissed_sessions: final(self).dismissed_sessions,
                resumable: final(self).resumable,
                ..*old(self)
            }),
    {
        let ghost start = *self;
        self.sessions_scan_inflight = false;
        let on_disk = ids_of(&found);
        keep_among(&mut self.dismissed_sessions, &on_disk);
        let ghost dismissed = text::texts(self.dismissed_sessions@);
        let ghost agents = text::texts(kinds@);
        let mut fresh: Vec<SessionInfo> = Vec::new();
        let mut i: usize = 0;
        assert(found@.take(0) =~= Seq::<SessionInfo>::empty());
        while i < found.len()
            invariant
                self.wf(),
                self.status == start.status,
                self.panes == start.panes,
                dismissed == text::texts(self.dismissed_sessions@),
                agents == text::texts(kinds@),
                i <= found@.len(),
                fresh@ == start.listed_sessions(agents, found@.take(i as int), dismissed),
            decreases found@.len() - i,
        {
            assert(found@.take(i + 1).drop_last() =~= found@.take(i as int));
            let s = &found[i];
            let running: bool = self.is_running(kinds, s.agent.as_str(), s.cwd.as_str());
            assert(running == start.runs_already(agents, s.agent@, s.cwd@));
            if !has_text(&self.dismissed_sessions, s.session_id.as_str()) && !running {
                fresh.push(s.copy());
            }
            i = i + 1;
        }
        assert(found@.take(i as int) =~= found@);
        let changed: bool = !same_texts(&ids_of(&fresh), &ids_of(&self.resumable));
        self.resumable = fresh;
        changed
    }

    /// What is left once a stored session was dismissed.
    pub open spec fn session_dismissed(&self, after: &App, idx: usize) -> bool {
        if idx < self.resumable@.len() {
            let id = self.resumable@[idx as int].session_id@;
            let before = text::texts(self.dismissed_sessions@);
            &&& after.resumable@ == self.resumable@.remove(idx as int)
            &&& text::texts(after.dismissed_sessions@) == (if before.contains(id) {
                before
            } else {
                before.push(id)
            })
            &&& *after == (App {
                resumable: after.resumable,
                dismissed_sessions: after.dismissed_sessions,
                ..*self
            })
        } else {
            *after == *self
        }
    }

    /// Takes a stored session off the list for the rest of the run; the session
    /// itself is not touched.
    pub fn dismiss_session(&mut self, idx: usize)
        requires
            old(self).wf(),
        ensures
            final(self).wf(),
            old(self).session_dismissed(final(self), idx),
    {
        if idx >= self.resumable.len() {
            return ;
        }
        let s = self.resumable.remove(idx);
        if !has_text(&self.dismissed_sessions, s.session_id.as_str()) {
            let ghost before = text::texts(self.dismissed_sessions@);
            self.dismissed_sessions.push(s.session_id);
            assert(text::texts(self.dismissed_sessions@) =~= before.push(s.session_id@));
        }
    }
}

/// A dismissed session stays off the list for as long as it is on disk.
pub proof fn law_dismissed_sessions_stay_off(
    app: App,
    kinds: Seq<Seq<char>>,
    found: Seq<SessionInfo>,
    dismissed: Seq<Seq<char>>,
    k: int,
)
    requires
        0 <= k < app.listed_sessions(kinds, found, dismissed).len(),
    ensures
        !dismissed.contains(app.listed_sessions(kinds, found, dismissed)[k].session_id@),
        found.contains(app.listed_sessions(kinds, found, dismissed)[k]),
    decreases found.len(),
{
    if found.len() > 0 {
        let rest = found.drop_last();
        let before = app.listed_sessions(kinds, rest, dismissed);
        let out = app.listed_sessions(kinds, found, dismissed);
        if k < before.len() {
            law_dismissed_sessions_stay_off(app, kinds, rest, dismissed, k);
            assert(out[k] == before[k]);
            let m = choose|m: int| 0 <= m < rest.len() && rest[m] == before[k];
            assert(found[m] == out[k]);
        } else {
            assert(found[found.len() - 1] == out[k]);
        }
    }
}

/// Dismissals are kept for sessions that are still stored only, so that they do
/// not pile up; and for each of those.
pub proof fn law_dismissals_are_of_stored_sessions(
    list: Seq<Seq<char>>,
    others: Seq<Seq<char>>,
    id: Seq<char>,
)
    ensures
        texts_among(list, others).contains(id) == (list.contains(id) && others.contains(id)),
    decreases list.len(),
{
    if list.len() > 0 {
        let rest = list.drop_last();
        law_dismissals_are_of_stored_sessions(rest, others, id);
        let out = texts_among(list, others);
        let before = texts_among(rest, others);
        if list.contains(id) && id != list.last() {
            let k = choose|k: int| 0 <= k < list.len() && list[k] == id;
            assert(rest[k] == id);
        }
        if rest.contains(id) {
            let k = choose|k: int| 0 <= k < rest.len() && rest[k] == id;
            assert(list[k] == id);
        }
        assert(list[list.len() - 1] == list.last());
        if before.contains(id) {
            let k = choose|k: int| 0 <= k < before.len() && before[k] == id;
            assert(out[k] == id);
        }
        if others.contains(list.last()) {
            assert(out[out.len() - 1] == list.last());
            if out.contains(id) && id != list.last() {
                let k = choose|k: int| 0 <= k < out.len() && out[k] == id;
                assert(before[k] == id);
            }
        }
    }
}

/// Once a session was dismissed, no later scan brings it back.
pub proof fn law_dismissals_survive_scans(
    app: App,
    after: App,
    idx: usize,
    kinds: Seq<Seq<char>>,
    found: Seq<SessionInfo>,
    k: int,
)
    requires
        idx < app.resumable@.len(),
        app.session_dismissed(&after, idx),
        0 <= k < after.listed_sessions(
            kinds,
            found,
            texts_among(text::texts(after.dismissed_sessions@), session_ids(found)),
        ).len(),
    ensures
        after.listed_sessions(
            kinds,
            found,
            texts_among(text::texts(after.dismissed_sessions@), session_ids(found)),
        )[k].session_id@ != app.resumable@[idx as int].session_id@,
{
    let id = app.resumable@[idx as int].session_id@;
    let before = text::texts(app.dismissed_sessions@);
    let list = text::texts(after.dismissed_sessions@);
    let kept = texts_among(list, session_ids(found));
    let s = after.listed_sessions(kinds, found, kept)[k];
    assert(list.contains(id)) by {
        if !before.contains(id) {
            assert(list[list.len() - 1] == id);
        }
    }
    law_dismissed_sessions_stay_off(after, kinds, found, kept, k);
    law_dismissals_are_of_stored_sessions(list, session_ids(found), id);
    let m = choose|m: int| 0 <= m < found.len() && found[m] == s;
    assert(session_ids(found)[m] == s.session_id@);
}

/// The first position from `n` on that holds.
pub open spec fn first_true(flags: Seq<bool>, n: int) -> Option<int>
    decreases flags.len() - n,
{
    if n < 0 || n >= flags.len() {
        None
    } else if flags[n] {
        Some(n)
    } else {
        first_true(flags, n + 1)
    }
}

/// The first position that holds.
fn find_true(flags: &Vec<bool>) -> (at: Option<usize>)
    ensures
        match at {
            Some(i) => first_true(flags@, 0) == Some(i as int) && i < flags@.len(),
            None => first_true(flags@, 0) is None,
        },
{
    let mut i: usize = 0;
    while i < flags.len()
        invariant
            i <= flags@.len(),
            first_true(flags@, 0) == first_true(flags@, i as int),
        decreases flags@.len() - i,
    {
        if flags[i] {
            return Some(i);
        }
        i = i + 1;
    }
    None
}

impl App {
    /// Adds a tab with the pane to a workspace and goes there.
    fn add_tab(&mut self, wi: usize, tab_id: String, id: PaneId)
        requires
            old(self).wf(),
            wi < old(self).workspaces@.len(),
            !workspace::session_has(old(self).workspaces@, id),
        ensures
            final(self).wf(),
            tabs::only_tabs_changed(old(self).workspaces@, final(self).workspaces@, wi as int),
            final(self).workspaces@[wi as int].tabs@ == old(self).workspaces@[wi as int].tabs@.push(
                spaces::single_tab(tab_id, id),
            ),
            final(self).workspaces@[wi as int].active_tab == old(
                self,
            ).workspaces@[wi as int].tabs@.len(),
            *final(self) == (App {
                workspaces: final(self).workspaces,
                active_ws: wi,
                ..*old(self)
            }),
    {
        let ghost before = self.workspaces@;
        let tab = Tab::panes(tab_id, TileLayout::new(id));
        proof {
            assert(before[wi as int].wf());
            workspace::lemma_single_pane(tab, id);
            if workspace::tabs_have(before[wi as int].tabs@, id) {
                assert(workspace::session_has(before, id));
            }
        }
        let count: usize = self.workspaces[wi].tabs.len();
        assert(count == before[wi as int].tabs@.len());
        self.active_ws = wi;
        self.workspaces[wi].push_tab(tab);
        proof {
            let after = self.workspaces@[wi as int];
            assert(self.workspaces@ =~= before.update(wi as int, after));
            workspace::lemma_tree_update(before, wi as int, after);
        }
    }

    /// Adds a workspace with the pane and goes there.
    fn add_workspace(&mut self, w: Workspace, Ghost(tab_id): Ghost<String>, Ghost(id): Ghost<PaneId>)
        requires
            old(self).wf(),
            w.tabs@ == seq![spaces::single_tab(tab_id, id)],
            w.active_tab == 0,
            !workspace::session_has(old(self).workspaces@, id),
        ensures
            final(self).wf(),
            final(self).workspaces@ == old(self).workspaces@.push(w),
            *final(self) == (App {
                workspaces: final(self).workspaces,
                active_ws: final(self).active_ws,
                ..*old(self)
            }),
            final(self).active_ws == old(self).workspaces@.len(),
    {
        let ghost before = self.workspaces@;
        proof {
            spaces::lemma_new_workspace(w, tab_id, id);
            workspace::lemma_tree_push(before, w);
        }
        self.workspaces.push(w);
        self.active_ws = self.workspaces.len() - 1;
    }

    /// Which workspace takes a resumed session: by the settings the active one,
    /// or the first at its directory.
    pub open spec fn resume_target(&self, same_dir: Seq<bool>) -> Option<int> {
        if self.config.layout.resume_in_new_workspace {
            first_true(same_dir, 0)
        } else {
            Some(self.active_ws as int)
        }
    }

    /// Where the pane of a resumed session goes.
    pub open spec fn resumed_place(
        &self,
        after: &App,
        cwd: Seq<char>,
        same_dir: Seq<bool>,
        workspace_id: String,
        tab_id: String,
        branch: Option<String>,
        worktree: Option<WorktreeMembership>,
        id: PaneId,
    ) -> bool {
        match self.resume_target(same_dir) {
            Some(wi) => {
                &&& tabs::only_tabs_changed(self.workspaces@, after.workspaces@, wi)
                &&& after.workspaces@[wi].tabs@ == self.workspaces@[wi].tabs@.push(
                    spaces::single_tab(tab_id, id),
                )
                &&& after.workspaces@[wi].active_tab == self.workspaces@[wi].tabs@.len()
                &&& after.active_ws == wi
            },
            None => {
                let w = after.workspaces@.last();
                &&& after.workspaces@ == self.workspaces@.push(w)
                &&& w.id == workspace_id
                &&& w.name@ == paths::ws_name_text(cwd)
                &&& w.cwd@ == cwd
                &&& w.branch == branch
                &&& w.git_ahead_behind is None
                &&& w.worktree == worktree
                &&& w.tabs@ == seq![spaces::single_tab(tab_id, id)]
                &&& w.active_tab == 0
                &&& !w.pinned
                &&& after.active_ws == self.workspaces@.len()
            },
        }
    }

    /// Puts the pane of a resumed session where it goes.
    fn place_resumed(
        &mut self,
        cwd: &str,
        same_dir: &Vec<bool>,
        workspace_id: String,
        tab_id: String,
        branch: Option<String>,
        worktree: Option<WorktreeMembership>,
        id: PaneId,
    )
        requires
            old(self).wf(),
            !workspace::session_has(old(self).workspaces@, id),
            same_dir@.len() == old(self).workspaces@.len(),
            old(self).workspaces@.len() > 0 || old(self).config.layout.resume_in_new_workspace,
        ensures
            final(self).wf(),
            old(self).resumed_place(
                final(self),
                cwd@,
                same_dir@,
                workspace_id,
                tab_id,
                branch,
                worktree,
                id,
            ),
            *final(self) == (App {
                workspaces: final(self).workspaces,
                active_ws: final(self).active_ws,
                ..*old(self)
            }),
    {
        let target: Option<usize> = if self.config.layout.resume_in_new_workspace {
            find_true(same_dir)
        } else {
            Some(self.active_ws)
        };
        match target {
            Some(wi) => {
                self.add_tab(wi, tab_id, id);
            },
            None => {
                let ghost tab = tab_id;
                let w = new_workspace_at(
                    cwd.to_owned(),
                    workspace_id,
                    tab_id,
                    branch,
                    worktree,
                    id,
                );
                self.add_workspace(w, Ghost(tab), Ghost(id));
            },
        }
    }

    /// What resuming a session leaves behind.
    pub open spec fn resumed(
        &self,
        after: &App,
        s: SessionInfo,
        command: String,
        same_dir: Seq<bool>,
        opening: Opening,
        direct: bool,
        now: u64,
    ) -> bool {
        let id = opening.pane;
        let st = after.status@[id];
        &&& after.panes@ == self.panes@.insert(id, opening.spawned->0)
        &&& after.status@ == self.status@.insert(id, st)
        &&& (PaneStatus { agent_session: None, ..st }).is_new(s.agent@, now)
        &&& st.agent_session == Some(AgentSession { agent: s.agent, session_id: s.session_id })
        &&& self.resumed_place(
            after,
            s.cwd@,
            same_dir,
            opening.workspace_id,
            opening.tab_id,
            opening.branch,
            opening.worktree,
            id,
        )
        &&& after.resumable@ == without_session(self.resumable@, s.session_id@)
        &&& after.outbox@ == self.outbox@ + panes::typed(id, direct, command) + panes::announced(id)
        &&& *after == (App {
            panes: after.panes,
            status: after.status,
            workspaces: after.workspaces,
            active_ws: after.active_ws,
            resumable: after.resumable,
            mode: Mode::Normal,
            zoomed: false,
            session_dirty: true,
            outbox: after.outbox,
            ..*self
        })
    }

    /// Reopens a stored session in a pane of its own, whose shell was started in
    /// the directory of the session. `command` is what resumes the session, and
    /// `same_dir` says of each workspace whether it is at that directory. Without
    /// such a session, command or shell nothing happens.
    pub fn resume_session(
        &mut self,
        idx: usize,
        command: Option<String>,
        same_dir: &Vec<bool>,
        opening: Opening,
        direct: bool,
        now: u64,
    )
        requires
            old(self).wf(),
            !workspace::session_has(old(self).workspaces@, opening.pane),
            same_dir@.len() == old(self).workspaces@.len(),
            old(self).workspaces@.len() > 0 || old(self).config.layout.resume_in_new_workspace,
        ensures
            final(self).wf(),
            if idx < old(self).resumable@.len() && command is Some && opening.spawned is Some {
                old(self).resumed(
                    final(self),
                    old(self).resumable@[idx as int],
                    command->0,
                    same_dir@,
                    opening,
                    direct,
                    now,
                )
            } else {
                *final(self) == *old(self)
            },
    {
        if idx >= self.resumable.len() {
            return ;
        }
        let command: String = match command {
            Some(c) => c,
            None => {
                return ;
            },
        };
        let ghost start = *self;
        let s = self.resumable[idx].copy();
        let id: PaneId = opening.pane;
        match self.spawn_resume_pane(id, opening.spawned, direct, command, now) {
            Some(_) => {},
            None => {
                return ;
            },
        }
        self.place_resumed(
            s.cwd.as_str(),
            same_dir,
            opening.workspace_id,
            opening.tab_id,
            opening.branch,
            opening.worktree,
            id,
        );
        bind_session(&mut self.status, id, &s);
        self.mode = Mode::Normal;
        drop_session(&mut self.resumable, s.session_id.as_str());
        proof {
            assert(self.status@ =~= start.status@.insert(id, self.status@[id]));
            assert(start.resumed(self, s, command, same_dir@, opening, direct, now));
        }
    }
}

/// Binds a session to the pane in which it was resumed.
fn bind_session(status: &mut PaneMap<PaneStatus>, id: PaneId, s: &SessionInfo)
    requires
        old(status).wf(),
        old(status)@.dom().contains(id),
    ensures
        final(status).wf(),
        final(status)@ == old(status)@.insert(
            id,
            PaneStatus {
                agent: s.agent,
                agent_session: Some(AgentSession { agent: s.agent, session_id: s.session_id }),
                ..old(status)@[id]
            },
        ),
{
    match status.get_mut(id) {
        Some(st) => {
            st.agent = s.agent.clone();
            st.agent_session = Some(
                AgentSession { agent: s.agent.clone(), session_id: s.session_id.clone() },
            );
        },
        None => {},
    }
}

// ---------------------------------------------------------------------------
// Directories and branches
// ---------------------------------------------------------------------------

/// The panes with the directories that their processes are in now.
pub open spec fn panes_at(panes: Map<PaneId, Pane>, updates: Seq<(PaneId, String)>) -> Map<
    PaneId,
    Pane,
>
    decreases updates.len(),
{
    if updates.len() == 0 {
        panes
    } else {
        let before = panes_at(panes, updates.drop_last());
        let (id, cwd) = updates.last();
        if before.dom().contains(id) {
            before.insert(id, Pane { cwd, ..before[id] })
        } else {
            before
        }
    }
}

impl App {
    /// Takes in where the processes of panes are now, and the branches of the
    /// workspaces. The directory of a workspace never changes.
    pub fn refresh_cwds(&mut self, updates: &Vec<(PaneId, String)>, branches: &Vec<Option<String>>)
        requires
            old(self).wf(),
            branches@.len() == old(self).workspaces@.len(),
        ensures
            final(self).wf(),
            final(self).panes@ == panes_at(old(self).panes@, updates@),
            final(self).workspaces@.len() == old(self).workspaces@.len(),
            forall|i: int|
                0 <= i < branches@.len() ==> #[trigger] final(self).workspaces@[i] == (Workspace {
                    branch: branches@[i],
                    ..old(self).workspaces@[i]
                }),
            *final(self) == (App {
                panes: final(self).panes,
                workspaces: final(self).workspaces,
                ..*old(self)
            }),
    {
        let ghost start = *self;
        let mut i: usize = 0;
        assert(updates@.take(0) =~= Seq::<(PaneId, String)>::empty());
        while i < updates.len()
            invariant
                self.wf(),
                i <= updates@.len(),
                self.panes@ == panes_at(start.panes@, updates@.take(i as int)),
                *self == (App { panes: self.panes, ..start }),
            decreases updates@.len() - i,
        {
            assert(updates@.take(i + 1).drop_last() =~= updates@.take(i as int));
            match self.panes.get_mut(updates[i].0) {
                Some(p) => {
                    p.cwd = updates[i].1.clone();
                },
                None => {},
            }
            i = i + 1;
        }
        assert(updates@.take(i as int) =~= updates@);
        let ghost before = self.workspaces@;
        let mut i: usize = 0;
        while i < branches.len()
            invariant
                self.wf(),
                before == start.workspaces@,
                self.workspaces@.len() == before.len(),
                branches@.len() == before.len(),
                i <= branches@.len(),
                self.panes@ == panes_at(start.panes@, updates@),
                forall|k: int|
                    0 <= k < i ==> #[trigger] self.workspaces@[k] == (Workspace {
                        branch: branches@[k],
                        ..before[k]
                    }),
                forall|k: int| i <= k < before.len() ==> #[trigger] self.workspaces@[k] == before[k],
                *self == (App { panes: self.panes, workspaces: self.workspaces, ..start }),
            decreases branches@.len() - i,
        {
            let ghost ws = self.workspaces@;
            assert(ws[i as int].wf());
            self.workspaces[i].branch = copy_opt(&branches[i]);
            proof {
                let w = self.workspaces@[i as int];
                assert(self.workspaces@ =~= ws.update(i as int, w));
                workspace::lemma_tree_update(ws, i as int, w);
            }
            i = i + 1;
        }
    }
}

/// A stored session is listed where it was found, was not dismissed, and its agent
/// does not run in its directory already. The others are not, and the order stays.
pub proof fn law_sessions_are_listed_unless_dismissed_or_running(
    app: App,
    kinds: Seq<Seq<char>>,
    found: Seq<SessionInfo>,
    dismissed: Seq<Seq<char>>,
    s: SessionInfo,
)
    ensures
        app.listed_sessions(kinds, found, dismissed).contains(s) <==> found.contains(s)
            && !dismissed.contains(s.session_id@) && !app.runs_already(kinds, s.agent@, s.cwd@),
    decreases found.len(),
{
    if found.len() > 0 {
        let rest = found.drop_last();
        let before = app.listed_sessions(kinds, rest, dismissed);
        let out = app.listed_sessions(kinds, found, dismissed);
        law_sessions_are_listed_unless_dismissed_or_running(app, kinds, rest, dismissed, s);
        let last = found.len() - 1;
        assert(found[last] == found.last());
        if rest.contains(s) {
            let k = choose|k: int| 0 <= k < rest.len() && rest[k] == s;
            assert(found[k] == s);
        }
        if found.contains(s) && s != found.last() {
            let k = choose|k: int| 0 <= k < found.len() && found[k] == s;
            assert(rest[k] == s);
        }
        if before.contains(s) {
            let k = choose|k: int| 0 <= k < before.len() && before[k] == s;
            assert(out[k] == s);
        }
        if out.contains(s) {
            let k = choose|k: int| 0 <= k < out.len() && out[k] == s;
            if k < before.len() {
                assert(before[k] == s);
            }
        }
        if s == found.last() && !dismissed.contains(s.session_id@) && !app.runs_already(
            kinds,
            s.agent@,
            s.cwd@,
        ) {
            assert(out[out.len() - 1] == s);
        }
    }
}

proof fn lemma_first_true(flags: Seq<bool>, n: int)
    requires
        0 <= n <= flags.len(),
    ensures
        match first_true(flags, n) {
            Some(i) => n <= i < flags.len() && flags[i] && forall|k: int|
                n <= k < i ==> !#[trigger] flags[k],
            None => forall|k: int| n <= k < flags.len() ==> !#[trigger] flags[k],
        },
    decreases flags.len() - n,
{
    if n < flags.len() && !flags[n] {
        lemma_first_true(flags, n + 1);
    }
}

/// A resumed session goes to the active workspace, unless the settings ask for one
/// of its own: then to the first workspace at its directory, or to a new one.
pub proof fn law_resumed_sessions_go_to_their_directory(app: App, same_dir: Seq<bool>)
    ensures
        !app.config.layout.resume_in_new_workspace ==> app.resume_target(same_dir) == Some(
            app.active_ws as int,
        ),
        app.config.layout.resume_in_new_workspace ==> match app.resume_target(same_dir) {
            Some(w) => 0 <= w < same_dir.len() && same_dir[w] && forall|k: int|
                0 <= k < w ==> !#[trigger] same_dir[k],
            None => forall|k: int| 0 <= k < same_dir.len() ==> !#[trigger] same_dir[k],
        },
{
    lemma_first_true(same_dir, 0);
}

/// A pane is where it was last reported to be: by the last report of it, or where it was
/// when there is none. Nothing else of it changes, and no pane comes or goes.
pub proof fn law_panes_are_where_they_were_last_reported(
    panes: Map<PaneId, Pane>,
    updates: Seq<(PaneId, String)>,
    id: PaneId,
    last: int,
)
    requires
        panes.dom().contains(id),
        -1 <= last < updates.len(),
        last >= 0 ==> updates[last].0 == id,
        forall|k: int| last < k < updates.len() ==> (#[trigger] updates[k]).0 != id,
    ensures
        panes_at(panes, updates).dom() == panes.dom(),
        panes_at(panes, updates)[id] == (Pane {
            cwd: if last >= 0 {
                updates[last].1
            } else {
                panes[id].cwd
            },
            ..panes[id]
        }),
    decreases updates.len(),
{
    if updates.len() > 0 {
        let rest = updates.drop_last();
        let n = updates.len() - 1;
        assert(updates[n] == updates.last());
        if last == n {
            lemma_reported(panes, rest, id);
        } else {
            assert(updates[n].0 != id);
            assert forall|k: int| last < k < rest.len() implies (#[trigger] rest[k]).0 != id by {
                assert(rest[k] == updates[k]);
            }
            law_panes_are_where_they_were_last_reported(panes, rest, id, last);
        }
        assert(panes_at(panes, updates).dom() =~= panes.dom());
    }
}

proof fn lemma_reported(panes: Map<PaneId, Pane>, updates: Seq<(PaneId, String)>, id: PaneId)
    requires
        panes.dom().contains(id),
    ensures
        panes_at(panes, updates).dom() == panes.dom(),
        panes_at(panes, updates)[id] == (Pane {
            cwd: panes_at(panes, updates)[id].cwd,
            ..panes[id]
        }),
    decreases updates.len(),
{
    if updates.len() > 0 {
        lemma_reported(panes, updates.drop_last(), id);
        assert(panes_at(panes, updates).dom() =~= panes.dom());
    }
}

} // verus!
