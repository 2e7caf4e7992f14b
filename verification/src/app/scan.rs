//! What scans of the processes say of the agents in panes.
use vstd::prelude::*;
use vstd::string::*;

use super::App;
use crate::ids::{PaneId, PaneMap};
use crate::status::{Pane, PaneStatus};
use crate::text;
use crate::text::copy_texts;

verus! {

/// What a scan found below the child of a pane.
#[derive(Debug)]
pub struct ProcScan {
    pub pid: u32,
    /// The commands that run, the shell among them. None at all means that the
    /// process could not be seen.
    pub commands: Vec<String>,
    /// The agent whose session is bound to the pane is among them.
    pub has_bound: bool,
    /// An agent that is recognised among them.
    pub agent: Option<String>,
}

/// How many scans in a row must miss an agent before it counts as gone.
pub const ABSENT_SCANS: u8 = 2;

/// What the scan found for the process.
pub open spec fn scan_of(found: Seq<ProcScan>, pid: u32, n: int) -> Option<ProcScan>
    decreases found.len() - n,
{
    if n < 0 || n >= found.len() {
        None
    } else if found[n].pid == pid {
        Some(found[n])
    } else {
        scan_of(found, pid, n + 1)
    }
}

/// What the scan found in the pane.
pub open spec fn scan_for(panes: Map<PaneId, Pane>, found: Seq<ProcScan>, id: PaneId) -> Option<
    ProcScan,
> {
    if panes.dom().contains(id) && panes[id].child_pid != 0 {
        scan_of(found, panes[id].child_pid, 0)
    } else {
        None
    }
}

/// Whether the scan confirms that the bound agent returned to the shell.
pub open spec fn confirms_exit(st: PaneStatus, scan: Option<ProcScan>) -> bool {
    &&& scan is Some
    &&& scan->0.commands@.len() > 0
    &&& st.agent_session is Some
    &&& !scan->0.has_bound
    &&& st.agent_absent_scans + 1 >= ABSENT_SCANS
}

/// What is known of a pane after a scan. `base` is the command that the pane was
/// started with.
pub open spec fn after_scan(st: PaneStatus, scan: Option<ProcScan>, base: String) -> PaneStatus {
    match scan {
        None => st,
        Some(sc) => if sc.commands@.len() == 0 {
            st
        } else if st.agent_session is None || sc.has_bound {
            PaneStatus { agent_absent_scans: 0, ..st }
        } else if st.agent_absent_scans + 1 < ABSENT_SCANS {
            PaneStatus { agent_absent_scans: (st.agent_absent_scans + 1) as u8, ..st }
        } else {
            PaneStatus {
                agent_session: None,
                agent_absent_scans: 0,
                agent: match sc.agent {
                    Some(a) => a,
                    None => base,
                },
                ..st
            }
        },
    }
}

/// An agent counts as gone only after two scans in a row that missed it. Then the
/// session is no longer bound, and the pane goes by its shell unless another
/// agent is recognised. A scan that sees the agent starts the count anew, and one
/// that cannot see the process says nothing.
pub proof fn law_exit_needs_two_scans(
    st: PaneStatus,
    first: ProcScan,
    second: ProcScan,
    seen: ProcScan,
    blind: ProcScan,
    base: String,
)
    requires
        st.agent_session is Some,
        st.agent_absent_scans == 0,
        first.commands@.len() > 0 && !first.has_bound,
        second.commands@.len() > 0 && !second.has_bound,
        seen.commands@.len() > 0 && seen.has_bound,
        blind.commands@.len() == 0,
    ensures
        ({
            let once = after_scan(st, Some(first), base);
            let twice = after_scan(once, Some(second), base);
            &&& once.agent_session == st.agent_session
            &&& once.agent == st.agent
            &&& twice.agent_session is None
            &&& twice.agent == (match second.agent {
                Some(a) => a,
                None => base,
            })
            &&& after_scan(after_scan(once, Some(seen), base), Some(second), base).agent_session
                == st.agent_session
            &&& after_scan(once, Some(blind), base) == once
        }),
{
}

/// What the scan found for the process.
fn find_scan(found: &Vec<ProcScan>, pid: u32) -> (at: Option<usize>)
    ensures
        match at {
            Some(i) => i < found@.len() && scan_of(found@, pid, 0) == Some(found@[i as int]),
            None => scan_of(found@, pid, 0) is None,
        },
{
    let mut n: usize = 0;
    while n < found.len()
        invariant
            n <= found@.len(),
            scan_of(found@, pid, 0) == scan_of(found@, pid, n as int),
        decreases found@.len() - n,
    {
        if found[n].pid == pid {
            return Some(n);
        }
        n = n + 1;
    }
    None
}

/// What the scan found in the pane, and the command of the pane.
fn find_for<'a>(panes: &'a PaneMap<Pane>, found: &Vec<ProcScan>, id: PaneId) -> (r: Option<
    (usize, &'a Pane),
>)
    requires
        panes.wf(),
    ensures
        match r {
            Some((i, p)) => i < found@.len() && scan_for(panes@, found@, id) == Some(
                found@[i as int],
            ) && panes@.dom().contains(id) && *p == panes@[id],
            None => scan_for(panes@, found@, id) is None,
        },
{
    match panes.get(id) {
        Some(p) => {
            if p.child_pid == 0 {
                return None;
            }
            match find_scan(found, p.child_pid) {
                Some(i) => Some((i, p)),
                None => None,
            }
        },
        None => None,
    }
}

/// Takes a scan into what is known of a pane. Says whether its agent is gone.
fn take_scan(st: &mut PaneStatus, scan: &ProcScan, base: &String) -> (gone: bool)
    ensures
        *final(st) == after_scan(*old(st), Some(*scan), *base),
        gone == confirms_exit(*old(st), Some(*scan)),
{
    if scan.commands.len() == 0 {
        return false;
    }
    if st.agent_session.is_none() || scan.has_bound {
        st.agent_absent_scans = 0;
        return false;
    }
    if st.agent_absent_scans < ABSENT_SCANS - 1 {
        st.agent_absent_scans = st.agent_absent_scans + 1;
        return false;
    }
    st.agent_session = None;
    st.agent_absent_scans = 0;
    st.agent = match &scan.agent {
        Some(a) => a.clone(),
        None => base.clone(),
    };
    true
}

/// The command that a pane was started with.
pub open spec fn base_of(panes: Map<PaneId, Pane>, id: PaneId) -> String {
    panes[id].command
}

/// Whether the status of every pane is as the scan leaves it.
pub open spec fn statuses_after(
    before: Map<PaneId, PaneStatus>,
    after: Map<PaneId, PaneStatus>,
    panes: Map<PaneId, Pane>,
    found: Seq<ProcScan>,
) -> bool {
    &&& after.dom() == before.dom()
    &&& forall|id: PaneId| #[trigger]
        after.dom().contains(id) ==> after[id] == after_scan(
            before[id],
            scan_for(panes, found, id),
            base_of(panes, id),
        )
}

/// Whether some agent is gone by the scan.
pub open spec fn some_exit(
    status: Map<PaneId, PaneStatus>,
    panes: Map<PaneId, Pane>,
    found: Seq<ProcScan>,
) -> bool {
    exists|id: PaneId| #[trigger]
        status.dom().contains(id) && confirms_exit(status[id], scan_for(panes, found, id))
}

/// Two maps with the same panes in the same places say of each pane what their
/// entries say.
proof fn lemma_maps_match<V, W>(a: PaneMap<V>, b: PaneMap<W>)
    requires
        a.wf(),
        b.wf(),
        a.entries@.len() == b.entries@.len(),
        forall|k: int|
            0 <= k < a.entries@.len() ==> (#[trigger] a.entries@[k]).0 == b.entries@[k].0,
    ensures
        a@.dom() == b@.dom(),
        forall|id: PaneId| #[trigger]
            a@.dom().contains(id) ==> exists|k: int|
                0 <= k < a.entries@.len() && (#[trigger] a.entries@[k]).0 == id && a@[id]
                    == a.entries@[k].1 && b@[id] == b.entries@[k].1,
{
    a.lemma_entries();
    b.lemma_entries();
    assert forall|id: PaneId| a@.dom().contains(id) == b@.dom().contains(id) by {
        if a@.dom().contains(id) {
            let k = choose|k: int| 0 <= k < a.entries@.len() && (#[trigger] a.entries@[k]).0 == id;
            assert(b.entries@[k].0 == id);
        }
        if b@.dom().contains(id) {
            let k = choose|k: int| 0 <= k < b.entries@.len() && (#[trigger] b.entries@[k]).0 == id;
            assert(a.entries@[k].0 == id);
        }
    }
    assert(a@.dom() =~= b@.dom());
    assert forall|id: PaneId| #[trigger] a@.dom().contains(id) implies exists|k: int|
        0 <= k < a.entries@.len() && (#[trigger] a.entries@[k]).0 == id && a@[id]
            == a.entries@[k].1 && b@[id] == b.entries@[k].1 by {
        let k = choose|k: int| 0 <= k < a.entries@.len() && (#[trigger] a.entries@[k]).0 == id;
        assert(b.entries@[k].0 == id);
    }
}

/// Takes a scan into what is known of all panes. Says whether some agent is
/// gone.
fn take_scans(status: &mut PaneMap<PaneStatus>, panes: &PaneMap<Pane>, found: &Vec<ProcScan>) -> (gone:
    bool)
    requires
        old(status).wf(),
        panes.wf(),
    ensures
        final(status).wf(),
        statuses_after(old(status)@, final(status)@, panes@, found@),
        gone == some_exit(old(status)@, panes@, found@),
{
    let ghost start = *status;
    let ghost before = status.entries@;
    let mut gone: bool = false;
    let mut i: usize = 0;
    while i < status.entries.len()
        invariant
            panes.wf(),
            start.wf(),
            before == start.entries@,
            status.entries@.len() == before.len(),
            i <= before.len(),
            forall|k: int|
                0 <= k < before.len() ==> (#[trigger] status.entries@[k]).0 == before[k].0,
            forall|k: int|
                0 <= k < i ==> (#[trigger] status.entries@[k]).1 == after_scan(
                    before[k].1,
                    scan_for(panes@, found@, before[k].0),
                    base_of(panes@, before[k].0),
                ),
            forall|k: int| i <= k < before.len() ==> #[trigger] status.entries@[k] == before[k],
            gone == exists|k: int|
                0 <= k < i && confirms_exit(
                    (#[trigger] before[k]).1,
                    scan_for(panes@, found@, before[k].0),
                ),
        decreases before.len() - i,
    {
        let id: PaneId = status.entries[i].0;
        match find_for(panes, found, id) {
            Some((n, p)) => {
                let exits: bool = take_scan(&mut status.entries[i].1, &found[n], &p.command);
                if exits {
                    gone = true;
                }
            },
            None => {},
        }
        assert(gone == exists|k: int|
            0 <= k < i + 1 && confirms_exit(
                (#[trigger] before[k]).1,
                scan_for(panes@, found@, before[k].0),
            )) by {
            assert(before[i as int].0 == id);
        }
        i = i + 1;
    }
    proof {
        assert(status.wf());
        lemma_maps_match(*status, start);
        assert forall|id: PaneId| #[trigger] status@.dom().contains(id) implies status@[id]
            == after_scan(start@[id], scan_for(panes@, found@, id), base_of(panes@, id)) by {
            let k = choose|k: int|
                0 <= k < status.entries@.len() && (#[trigger] status.entries@[k]).0 == id
                    && status@[id] == status.entries@[k].1 && start@[id] == start.entries@[k].1;
            assert(before[k].0 == id);
        }
        start.lemma_entries();
        if gone {
            let k = choose|k: int|
                0 <= k < i && confirms_exit(
                    (#[trigger] before[k]).1,
                    scan_for(panes@, found@, before[k].0),
                );
            assert(start@.dom().contains(before[k].0));
        }
        if some_exit(start@, panes@, found@) {
            let id = choose|id: PaneId| #[trigger]
                start@.dom().contains(id) && confirms_exit(
                    start@[id],
                    scan_for(panes@, found@, id),
                );
            let k = choose|k: int| 0 <= k < before.len() && (#[trigger] start.entries@[k]).0 == id;
            assert(confirms_exit(before[k].1, scan_for(panes@, found@, before[k].0)));
        }
    }
    gone
}

/// Has the terminals of all panes read anew.
fn force_all(status: &mut PaneMap<PaneStatus>)
    requires
        old(status).wf(),
    ensures
        final(status).wf(),
        final(status)@.dom() == old(status)@.dom(),
        forall|id: PaneId| #[trigger]
            final(status)@.dom().contains(id) ==> final(status)@[id] == (PaneStatus {
                force_detect: true,
                ..old(status)@[id]
            }),
{
    let ghost start = *status;
    let ghost before = status.entries@;
    let mut i: usize = 0;
    while i < status.entries.len()
        invariant
            before == start.entries@,
            status.entries@.len() == before.len(),
            i <= before.len(),
            forall|k: int|
                0 <= k < before.len() ==> (#[trigger] status.entries@[k]).0 == before[k].0,
            forall|k: int|
                0 <= k < i ==> (#[trigger] status.entries@[k]).1 == (PaneStatus {
                    force_detect: true,
                    ..before[k].1
                }),
            forall|k: int| i <= k < before.len() ==> #[trigger] status.entries@[k] == before[k],
        decreases before.len() - i,
    {
        status.entries[i].1.force_detect = true;
        i = i + 1;
    }
    proof {
        assert(status.wf());
        lemma_maps_match(*status, start);
    }
}

/// Whether the map says of each scanned pane what runs there, and nothing else.
pub open spec fn commands_after(
    commands: Map<PaneId, Vec<String>>,
    panes: Map<PaneId, Pane>,
    found: Seq<ProcScan>,
) -> bool {
    &&& forall|id: PaneId| #[trigger]
        commands.dom().contains(id) == (scan_for(panes, found, id) is Some)
    &&& forall|id: PaneId|
        commands.dom().contains(id) ==> (#[trigger] commands[id])@ == scan_for(
            panes,
            found,
            id,
        )->0.commands@
}

/// Whether two maps name the same commands for the same panes.
pub open spec fn same_commands(a: Map<PaneId, Vec<String>>, b: Map<PaneId, Vec<String>>) -> bool {
    &&& forall|id: PaneId| #[trigger] a.dom().contains(id) == b.dom().contains(id)
    &&& forall|id: PaneId|
        a.dom().contains(id) ==> text::texts((#[trigger] a[id])@) == text::texts(b[id]@)
}

/// What runs in each pane by the scan.
fn commands_of(panes: &PaneMap<Pane>, found: &Vec<ProcScan>) -> (commands: PaneMap<Vec<String>>)
    requires
        panes.wf(),
    ensures
        commands.wf(),
        commands_after(commands@, panes@, found@),
{
    let mut commands: PaneMap<Vec<String>> = PaneMap::new();
    let mut i: usize = 0;
    proof {
        panes.lemma_entries();
    }
    while i < panes.entries.len()
        invariant
            panes.wf(),
            commands.wf(),
            i <= panes.entries@.len(),
            forall|k: int|
                0 <= k < panes.entries@.len() ==> panes@.dom().contains(
                    (#[trigger] panes.entries@[k]).0,
                ),
            forall|id: PaneId| #[trigger]
                commands@.dom().contains(id) == (scan_for(panes@, found@, id) is Some && exists|
                    k: int,
                |
                    0 <= k < i && (#[trigger] panes.entries@[k]).0 == id),
            forall|id: PaneId|
                commands@.dom().contains(id) ==> (#[trigger] commands@[id])@ == scan_for(
                    panes@,
                    found@,
                    id,
                )->0.commands@,
        decreases panes.entries@.len() - i,
    {
        let id: PaneId = panes.entries[i].0;
        let ghost before = commands@;
        match find_for(panes, found, id) {
            Some((n, _)) => {
                commands.insert(id, copy_texts(&found[n].commands));
            },
            None => {},
        }
        assert forall|p: PaneId| #[trigger]
            commands@.dom().contains(p) == (scan_for(panes@, found@, p) is Some && exists|k: int|
                0 <= k < i + 1 && (#[trigger] panes.entries@[k]).0 == p) by {
            assert(before.dom().contains(p) == (scan_for(panes@, found@, p) is Some && exists|
                k: int,
            |
                0 <= k < i && (#[trigger] panes.entries@[k]).0 == p));
            if p == id {
                assert(panes.entries@[i as int].0 == p);
            }
        }
        i = i + 1;
    }
    proof {
        panes.lemma_entries();
        assert forall|id: PaneId| #[trigger] commands@.dom().contains(id) == (scan_for(
            panes@,
            found@,
            id,
        ) is Some) by {
            if scan_for(panes@, found@, id) is Some {
                assert(panes@.dom().contains(id));
                let k = choose|k: int|
                    0 <= k < panes.entries@.len() && (#[trigger] panes.entries@[k]).0 == id;
                assert(panes.entries@[k].0 == id);
            }
        }
    }
    commands
}

/// Whether everything that one map says another says too.
fn says_all(a: &PaneMap<Vec<String>>, b: &PaneMap<Vec<String>>) -> (all: bool)
    requires
        a.wf(),
        b.wf(),
    ensures
        all == forall|id: PaneId| #[trigger]
            a@.dom().contains(id) ==> b@.dom().contains(id) && text::texts(a@[id]@) == text::texts(
                b@[id]@,
            ),
{
    proof {
        a.lemma_entries();
    }
    let mut i: usize = 0;
    while i < a.entries.len()
        invariant
            a.wf(),
            b.wf(),
            i <= a.entries@.len(),
            forall|k: int|
                0 <= k < i ==> b@.dom().contains((#[trigger] a.entries@[k]).0) && text::texts(
                    a.entries@[k].1@,
                ) == text::texts(b@[a.entries@[k].0]@),
        decreases a.entries@.len() - i,
    {
        let id: PaneId = a.entries[i].0;
        let same: bool = match b.get(id) {
            Some(v) => super::agents::same_texts(&a.entries[i].1, v),
            None => false,
        };
        if !same {
            proof {
                a.lemma_entries();
                assert(a@.dom().contains(a.entries@[i as int].0));
            }
            return false;
        }
        i = i + 1;
    }
    proof {
        assert forall|id: PaneId| #[trigger] a@.dom().contains(id) implies b@.dom().contains(id)
            && text::texts(a@[id]@) == text::texts(b@[id]@) by {
            let k = choose|k: int| 0 <= k < a.entries@.len() && (#[trigger] a.entries@[k]).0 == id;
            assert(a@[id] == a.entries@[k].1);
        }
    }
    true
}

impl App {
    /// What a scan of the processes leaves behind.
    pub open spec fn scanned(&self, after: &App, found: Seq<ProcScan>) -> bool {
        let exit = some_exit(self.status@, self.panes@, found);
        let changed = !same_commands(self.proc_commands@, after.proc_commands@);
        &&& commands_after(after.proc_commands@, self.panes@, found)
        &&& after.status@.dom() == self.status@.dom()
        &&& forall|id: PaneId| #[trigger]
            after.status@.dom().contains(id) ==> after.status@[id] == ({
                let st = after_scan(
                    self.status@[id],
                    scan_for(self.panes@, found, id),
                    base_of(self.panes@, id),
                );
                PaneStatus { force_detect: st.force_detect || changed, ..st }
            })
        &&& *after == (App {
            proc_scan_inflight: false,
            proc_commands: after.proc_commands,
            status: after.status,
            session_dirty: self.session_dirty || exit,
            ..*self
        })
    }

    /// Takes in a scan of the processes. Says whether some agent returned to its
    /// shell. A scan that could not run says nothing, and what the last one said
    /// is kept.
    pub fn apply_proc_scan(&mut self, found: Option<Vec<ProcScan>>) -> (lifecycle_changed: bool)
        requires
            old(self).wf(),
        ensures
            final(self).wf(),
            match found {
                Some(f) => {
                    &&& old(self).scanned(final(self), f@)
                    &&& lifecycle_changed == some_exit(old(self).status@, old(self).panes@, f@)
                },
                None => !lifecycle_changed && *final(self) == (App {
                    proc_scan_inflight: false,
                    ..*old(self)
                }),
            },
    {
        self.proc_scan_inflight = false;
        let found: Vec<ProcScan> = match found {
            Some(f) => f,
            None => {
                return false;
            },
        };
        let next = commands_of(&self.panes, &found);
        let gone: bool = take_scans(&mut self.status, &self.panes, &found);
        let same: bool = says_all(&self.proc_commands, &next) && says_all(
            &next,
            &self.proc_commands,
        );
        proof {
            let (a, b) = (self.proc_commands@, next@);
            if same {
                assert forall|id: PaneId| #[trigger] a.dom().contains(id) == b.dom().contains(
                    id,
                ) by {}
                assert forall|id: PaneId| a.dom().contains(id) implies text::texts(
                    (#[trigger] a[id])@,
                ) == text::texts(b[id]@) by {
                    assert(a.dom().contains(id));
                }
            }
            if same_commands(a, b) {
                assert forall|id: PaneId| #[trigger] b.dom().contains(id) implies a.dom().contains(
                    id,
                ) && text::texts(b[id]@) == text::texts(a[id]@) by {
                    assert(a.dom().contains(id) == b.dom().contains(id));
                    let x = a[id];
                }
                assert forall|id: PaneId| #[trigger] a.dom().contains(id) implies b.dom().contains(
                    id,
                ) && text::texts(a[id]@) == text::texts(b[id]@) by {
                    let x = a[id];
                }
            }
            assert(same == same_commands(a, b));
        }
        self.proc_commands = next;
        if !same {
            force_all(&mut self.status);
        }
        if gone {
            self.session_dirty = true;
        }
        gone
    }
}

proof fn lemma_scan_of(found: Seq<ProcScan>, pid: u32, n: int)
    requires
        0 <= n <= found.len(),
    ensures
        match scan_of(found, pid, n) {
            Some(sc) => sc.pid == pid && exists|k: int| n <= k < found.len() && found[k] == sc,
            None => forall|k: int| n <= k < found.len() ==> (#[trigger] found[k]).pid != pid,
        },
    decreases found.len() - n,
{
    if n < found.len() {
        if found[n].pid == pid {
            assert(found[n] == found[n]);
        } else {
            lemma_scan_of(found, pid, n + 1);
        }
    }
}

/// What a scan says of a pane is what it found for the process that the pane
/// started. It says nothing of a pane without one.
pub proof fn law_scans_are_matched_by_process(
    panes: Map<PaneId, Pane>,
    found: Seq<ProcScan>,
    id: PaneId,
)
    ensures
        match scan_for(panes, found, id) {
            Some(sc) => panes.dom().contains(id) && panes[id].child_pid != 0 && sc.pid
                == panes[id].child_pid && found.contains(sc),
            None => !panes.dom().contains(id) || panes[id].child_pid == 0 || forall|k: int|
                0 <= k < found.len() ==> (#[trigger] found[k]).pid != panes[id].child_pid,
        },
{
    if panes.dom().contains(id) {
        lemma_scan_of(found, panes[id].child_pid, 0);
    }
}

} // verus!
