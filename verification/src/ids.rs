//! Pane identities, and what is kept for each pane.
use vstd::prelude::*;

verus! {

/// A pane of the running session.
#[derive(Clone, Copy, Debug, PartialEq, Eq, Structural)]
pub struct PaneId(pub u32);

/// Values kept for panes, at most one for each.
#[derive(Debug)]
pub struct PaneMap<V> {
    pub entries: Vec<(PaneId, V)>,
}

/// Whether no pane occurs twice among the entries.
pub open spec fn distinct_keys<V>(entries: Seq<(PaneId, V)>) -> bool {
    forall|i: int, j: int|
        0 <= i < j < entries.len() ==> (#[trigger] entries[i]).0 != (#[trigger] entries[j]).0
}

/// What the entries say of each pane.
pub open spec fn entries_map<V>(entries: Seq<(PaneId, V)>) -> Map<PaneId, V>
    decreases entries.len(),
{
    if entries.len() == 0 {
        Map::<PaneId, V>::empty()
    } else {
        entries_map(entries.drop_last()).insert(entries.last().0, entries.last().1)
    }
}

/// Where the entries mention the pane.
proof fn lemma_entries_map<V>(entries: Seq<(PaneId, V)>)
    requires
        distinct_keys(entries),
    ensures
        forall|i: int|
            0 <= i < entries.len() ==> entries_map(entries).dom().contains(
                (#[trigger] entries[i]).0,
            ) && entries_map(entries)[entries[i].0] == entries[i].1,
        forall|p: PaneId| #[trigger]
            entries_map(entries).dom().contains(p) ==> exists|i: int|
                0 <= i < entries.len() && (#[trigger] entries[i]).0 == p,
    decreases entries.len(),
{
    if entries.len() > 0 {
        let rest = entries.drop_last();
        lemma_entries_map(rest);
        assert forall|i: int| 0 <= i < entries.len() implies entries_map(entries).dom().contains(
            (#[trigger] entries[i]).0,
        ) && entries_map(entries)[entries[i].0] == entries[i].1 by {
            if i < rest.len() {
                assert(rest[i] == entries[i]);
            }
        }
        assert forall|p: PaneId| #[trigger] entries_map(entries).dom().contains(p) implies exists|
            i: int,
        |
            0 <= i < entries.len() && (#[trigger] entries[i]).0 == p by {
            if p == entries.last().0 {
                assert(entries[entries.len() - 1].0 == p);
            } else {
                assert(entries_map(rest).dom().contains(p));
                let i = choose|i: int| 0 <= i < rest.len() && (#[trigger] rest[i]).0 == p;
                assert(entries[i].0 == p);
            }
        }
    }
}

/// Two lists that mention the same panes with the same values say the same.
proof fn lemma_same_map<V>(a: Seq<(PaneId, V)>, m: Map<PaneId, V>)
    requires
        distinct_keys(a),
        forall|i: int|
            0 <= i < a.len() ==> m.dom().contains((#[trigger] a[i]).0) && m[a[i].0] == a[i].1,
        forall|p: PaneId| #[trigger]
            m.dom().contains(p) ==> exists|i: int| 0 <= i < a.len() && (#[trigger] a[i]).0 == p,
    ensures
        entries_map(a) == m,
{
    lemma_entries_map(a);
    assert forall|p: PaneId| entries_map(a).dom().contains(p) == m.dom().contains(p) by {
        if entries_map(a).dom().contains(p) {
            let i = choose|i: int| 0 <= i < a.len() && (#[trigger] a[i]).0 == p;
            assert(m.dom().contains(a[i].0));
        }
        if m.dom().contains(p) {
            let i = choose|i: int| 0 <= i < a.len() && (#[trigger] a[i]).0 == p;
            assert(entries_map(a).dom().contains(a[i].0));
        }
    }
    assert forall|p: PaneId| m.dom().contains(p) implies entries_map(a)[p] == m[p] by {
        let i = choose|i: int| 0 <= i < a.len() && (#[trigger] a[i]).0 == p;
        assert(entries_map(a)[a[i].0] == a[i].1);
    }
    assert(entries_map(a) =~= m);
}

proof fn lemma_update_entry<V>(entries: Seq<(PaneId, V)>, i: int, y: V)
    requires
        distinct_keys(entries),
        0 <= i < entries.len(),
    ensures
        entries_map(entries.update(i, (entries[i].0, y))) == entries_map(entries).insert(
            entries[i].0,
            y,
        ),
        distinct_keys(entries.update(i, (entries[i].0, y))),
{
    let after = entries.update(i, (entries[i].0, y));
    let target = entries_map(entries).insert(entries[i].0, y);
    lemma_entries_map(entries);
    assert forall|p: PaneId| #[trigger] target.dom().contains(p) implies exists|k: int|
        0 <= k < after.len() && (#[trigger] after[k]).0 == p by {
        if p == entries[i].0 {
            assert(after[i].0 == p);
        } else {
            let k = choose|k: int| 0 <= k < entries.len() && (#[trigger] entries[k]).0 == p;
            assert(after[k].0 == p);
        }
    }
    lemma_same_map(after, target);
}

impl<V> View for PaneMap<V> {
    type V = Map<PaneId, V>;

    open spec fn view(&self) -> Map<PaneId, V> {
        entries_map(self.entries@)
    }
}

impl<V> PaneMap<V> {
    /// No pane occurs twice.
    pub open spec fn wf(&self) -> bool {
        distinct_keys(self.entries@)
    }

    /// A map without any pane.
    pub fn new() -> (m: PaneMap<V>)
        ensures
            m.wf(),
            m@ == Map::<PaneId, V>::empty(),
            m.entries@.len() == 0,
    {
        PaneMap { entries: Vec::new() }
    }

    /// Where the pane is among the entries.
    fn find(&self, id: PaneId) -> (at: Option<usize>)
        requires
            self.wf(),
        ensures
            match at {
                Some(i) => i < self.entries@.len() && self.entries@[i as int].0 == id
                    && self@.dom().contains(id) && self@[id] == self.entries@[i as int].1,
                None => !self@.dom().contains(id) && forall|i: int|
                    0 <= i < self.entries@.len() ==> (#[trigger] self.entries@[i]).0 != id,
            },
    {
        proof {
            lemma_entries_map(self.entries@);
        }
        let mut i: usize = 0;
        while i < self.entries.len()
            invariant
                self.wf(),
                i <= self.entries@.len(),
                forall|k: int| 0 <= k < i ==> (#[trigger] self.entries@[k]).0 != id,
            decreases self.entries@.len() - i,
        {
            if self.entries[i].0 == id {
                proof {
                    lemma_entries_map(self.entries@);
                }
                return Some(i);
            }
            i = i + 1;
        }
        None
    }

    /// Whether there is a value for the pane.
    pub fn contains_key(&self, id: PaneId) -> (b: bool)
        requires
            self.wf(),
        ensures
            b == self@.dom().contains(id),
    {
        self.find(id).is_some()
    }

    /// The value for the pane.
    pub fn get(&self, id: PaneId) -> (v: Option<&V>)
        requires
            self.wf(),
        ensures
            match v {
                Some(x) => self@.dom().contains(id) && *x == self@[id],
                None => !self@.dom().contains(id),
            },
    {
        match self.find(id) {
            Some(i) => Some(&self.entries[i].1),
            None => None,
        }
    }

    /// Sets the value for the pane.
    pub fn insert(&mut self, id: PaneId, value: V)
        requires
            old(self).wf(),
        ensures
            final(self).wf(),
            final(self)@ == old(self)@.insert(id, value),
    {
        let ghost before = self.entries@;
        let ghost target = self@.insert(id, value);
        proof {
            lemma_entries_map(before);
        }
        match self.find(id) {
            Some(i) => {
                self.entries.set(i, (id, value));
                proof {
                    let after = self.entries@;
                    assert forall|p: PaneId| #[trigger] target.dom().contains(p) implies exists|
                        k: int,
                    |
                        0 <= k < after.len() && (#[trigger] after[k]).0 == p by {
                        if p == id {
                            assert(after[i as int].0 == p);
                        } else {
                            let k = choose|k: int|
                                0 <= k < before.len() && (#[trigger] before[k]).0 == p;
                            assert(after[k].0 == p);
                        }
                    }
                    lemma_same_map(after, target);
                }
            },
            None => {
                self.entries.push((id, value));
                assert(self.entries@.drop_last() =~= before);
            },
        }
    }

    /// The value for the pane, to change it.
    pub fn get_mut(&mut self, id: PaneId) -> (v: Option<&mut V>)
        requires
            old(self).wf(),
        ensures
            match v {
                Some(x) => old(self)@.dom().contains(id) && *x == old(self)@[id]
                    && final(self)@ == old(self)@.insert(id, *final(x)) && final(self).wf(),
                None => !old(self)@.dom().contains(id) && *final(self) == *old(self),
            },
    {
        let ghost before = self.entries@;
        match self.find(id) {
            Some(i) => {
                proof {
                    assert forall|y: V| #[trigger]
                        entries_map(before.update(i as int, (id, y))) == entries_map(before).insert(
                            id,
                            y,
                        ) && distinct_keys(before.update(i as int, (id, y))) by {
                        lemma_update_entry(before, i as int, y);
                    }
                }
                Some(&mut self.entries[i].1)
            },
            None => None,
        }
    }

    /// Drops the value for the pane and returns it.
    pub fn remove(&mut self, id: PaneId) -> (v: Option<V>)
        requires
            old(self).wf(),
        ensures
            final(self).wf(),
            final(self)@ == old(self)@.remove(id),
            match v {
                Some(x) => old(self)@.dom().contains(id) && x == old(self)@[id],
                None => !old(self)@.dom().contains(id),
            },
    {
        let ghost before = self.entries@;
        let ghost target = self@.remove(id);
        proof {
            lemma_entries_map(before);
        }
        match self.find(id) {
            Some(i) => {
                let (_, value) = self.entries.remove(i);
                proof {
                    let after = self.entries@;
                    assert forall|a: int, b: int| 0 <= a < b < after.len() implies (
                    #[trigger] after[a]).0 != (#[trigger] after[b]).0 by {
                        let x = if a < i {
                            a
                        } else {
                            a + 1
                        };
                        let y = if b < i {
                            b
                        } else {
                            b + 1
                        };
                        assert(after[a] == before[x]);
                        assert(after[b] == before[y]);
                    }
                    assert forall|k: int| 0 <= k < after.len() implies target.dom().contains(
                        (#[trigger] after[k]).0,
                    ) && target[after[k].0] == after[k].1 by {
                        let x = if k < i {
                            k
                        } else {
                            k + 1
                        };
                        assert(after[k] == before[x]);
                        assert(before[i as int].0 != before[x].0);
                    }
                    assert forall|p: PaneId| #[trigger] target.dom().contains(p) implies exists|
                        k: int,
                    |
                        0 <= k < after.len() && (#[trigger] after[k]).0 == p by {
                        let k = choose|k: int|
                            0 <= k < before.len() && (#[trigger] before[k]).0 == p;
                        if k < i {
                            assert(after[k].0 == p);
                        } else {
                            assert(after[k - 1].0 == p);
                        }
                    }
                    lemma_same_map(after, target);
                }
                Some(value)
            },
            None => {
                assert(target =~= self@);
                None
            },
        }
    }

    /// What the entries say is what the map says.
    pub proof fn lemma_entries(&self)
        requires
            self.wf(),
        ensures
            forall|i: int|
                0 <= i < self.entries@.len() ==> self@.dom().contains(
                    (#[trigger] self.entries@[i]).0,
                ) && self@[self.entries@[i].0] == self.entries@[i].1,
            forall|p: PaneId| #[trigger]
                self@.dom().contains(p) ==> exists|i: int|
                    0 <= i < self.entries@.len() && (#[trigger] self.entries@[i]).0 == p,
    {
        lemma_entries_map(self.entries@);
    }
}

/// Whether the list holds the pane.
pub fn has_id(ids: &Vec<PaneId>, id: PaneId) -> (b: bool)
    ensures
        b == ids@.contains(id),
{
    let mut i: usize = 0;
    while i < ids.len()
        invariant
            i <= ids@.len(),
            forall|k: int| 0 <= k < i ==> #[trigger] ids@[k] != id,
        decreases ids@.len() - i,
    {
        if ids[i] == id {
            return true;
        }
        i = i + 1;
    }
    false
}

/// Whether two lists hold the same panes in the same order.
pub fn same_ids(a: &Vec<PaneId>, b: &Vec<PaneId>) -> (same: bool)
    ensures
        same == (a@ == b@),
{
    if a.len() != b.len() {
        return false;
    }
    let mut i: usize = 0;
    while i < a.len()
        invariant
            a@.len() == b@.len(),
            i <= a@.len(),
            forall|k: int| 0 <= k < i ==> #[trigger] a@[k] == b@[k],
        decreases a@.len() - i,
    {
        if a[i] != b[i] {
            return false;
        }
        i = i + 1;
    }
    assert(a@ =~= b@);
    true
}

/// The list without the pane.
pub open spec fn without_id(ids: Seq<PaneId>, id: PaneId) -> Seq<PaneId>
    decreases ids.len(),
{
    if ids.len() == 0 {
        ids
    } else if ids.last() == id {
        without_id(ids.drop_last(), id)
    } else {
        without_id(ids.drop_last(), id).push(ids.last())
    }
}

/// Dropping a pane keeps every other pane of the list.
pub proof fn lemma_without_id(ids: Seq<PaneId>, id: PaneId)
    ensures
        !without_id(ids, id).contains(id),
        forall|p: PaneId| p != id ==> (#[trigger] without_id(ids, id).contains(p) == ids.contains(p)),
    decreases ids.len(),
{
    if ids.len() > 0 {
        let rest = ids.drop_last();
        lemma_without_id(rest, id);
        let out = without_id(ids, id);
        let before = without_id(rest, id);
        assert(!out.contains(id)) by {
            if out.contains(id) {
                let k = choose|k: int| 0 <= k < out.len() && out[k] == id;
                assert(before.len() == k || before[k] == id);
            }
        }
        assert forall|p: PaneId| p != id implies (#[trigger] out.contains(p) == ids.contains(p)) by {
            if out.contains(p) {
                let k = choose|k: int| 0 <= k < out.len() && out[k] == p;
                if k < before.len() {
                    assert(before[k] == p);
                    assert(before.contains(p));
                    let m = choose|m: int| 0 <= m < rest.len() && rest[m] == p;
                    assert(ids[m] == p);
                } else {
                    assert(ids[ids.len() - 1] == p);
                }
            }
            if ids.contains(p) {
                let k = choose|k: int| 0 <= k < ids.len() && ids[k] == p;
                if k < rest.len() {
                    assert(rest[k] == p);
                    assert(before.contains(p));
                    let m = choose|m: int| 0 <= m < before.len() && before[m] == p;
                    assert(out[m] == p);
                } else {
                    assert(out[out.len() - 1] == p);
                }
            }
        }
    }
}

/// Drops every occurrence of the pane from the list.
pub fn drop_id(ids: &mut Vec<PaneId>, id: PaneId)
    ensures
        final(ids)@ == without_id(old(ids)@, id),
{
    let mut out: Vec<PaneId> = Vec::new();
    let mut i: usize = 0;
    let ghost all = ids@;
    assert(all.take(0) =~= Seq::<PaneId>::empty());
    while i < ids.len()
        invariant
            i <= ids@.len(),
            all == ids@,
            out@ == without_id(all.take(i as int), id),
        decreases ids@.len() - i,
    {
        assert(all.take(i + 1).drop_last() =~= all.take(i as int));
        if ids[i] != id {
            out.push(ids[i]);
        }
        i = i + 1;
    }
    assert(all.take(i as int) =~= all);
    *ids = out;
}

/// The list without any of the panes.
pub open spec fn without_ids(list: Seq<PaneId>, gone: Seq<PaneId>) -> Seq<PaneId>
    decreases gone.len(),
{
    if gone.len() == 0 {
        list
    } else {
        without_id(without_ids(list, gone.drop_last()), gone.last())
    }
}

/// Which panes are left in the list.
pub proof fn lemma_without_ids(list: Seq<PaneId>, gone: Seq<PaneId>, p: PaneId)
    ensures
        without_ids(list, gone).contains(p) == (list.contains(p) && !gone.contains(p)),
    decreases gone.len(),
{
    if gone.len() > 0 {
        let rest = gone.drop_last();
        lemma_without_ids(list, rest, p);
        lemma_without_id(without_ids(list, rest), gone.last());
        if gone.contains(p) && p != gone.last() {
            let k = choose|k: int| 0 <= k < gone.len() && gone[k] == p;
            assert(rest[k] == p);
        }
        if rest.contains(p) {
            let k = choose|k: int| 0 <= k < rest.len() && rest[k] == p;
            assert(gone[k] == p);
        }
        assert(gone[gone.len() - 1] == gone.last());
    }
}

/// The map without any of the panes.
pub open spec fn map_without<V>(map: Map<PaneId, V>, gone: Seq<PaneId>) -> Map<PaneId, V>
    decreases gone.len(),
{
    if gone.len() == 0 {
        map
    } else {
        map_without(map, gone.drop_last()).remove(gone.last())
    }
}

/// What is left of the map is what it said of the panes that are not gone.
pub proof fn lemma_map_without<V>(map: Map<PaneId, V>, gone: Seq<PaneId>)
    ensures
        forall|p: PaneId| #[trigger]
            map_without(map, gone).dom().contains(p) == (map.dom().contains(p) && !gone.contains(
                p,
            )),
        forall|p: PaneId|
            map_without(map, gone).dom().contains(p) ==> #[trigger] map_without(map, gone)[p]
                == map[p],
    decreases gone.len(),
{
    if gone.len() > 0 {
        let rest = gone.drop_last();
        lemma_map_without(map, rest);
        let m = map_without(map, rest);
        assert(map_without(map, gone) == m.remove(gone.last()));
        assert forall|p: PaneId| #[trigger]
            map_without(map, gone).dom().contains(p) == (map.dom().contains(p) && !gone.contains(
                p,
            )) by {
            assert(m.dom().contains(p) == (map.dom().contains(p) && !rest.contains(p)));
            if gone.contains(p) && p != gone.last() {
                let k = choose|k: int| 0 <= k < gone.len() && gone[k] == p;
                assert(rest[k] == p);
            }
            if rest.contains(p) {
                let k = choose|k: int| 0 <= k < rest.len() && rest[k] == p;
                assert(gone[k] == p);
            }
            assert(gone[gone.len() - 1] == gone.last());
        }
        assert forall|p: PaneId| map_without(map, gone).dom().contains(
            p,
        ) implies #[trigger] map_without(map, gone)[p] == map[p] by {
            assert(m.dom().contains(p));
            assert(m[p] == map[p]);
        }
    }
}

} // verus!
