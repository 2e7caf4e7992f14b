//! The tile tree of a tab: panes at the leaves, splits in between.
use vstd::prelude::*;

use crate::ids;
use crate::ids::{has_id, PaneId};

verus! {

/// How a split divides its area.
#[derive(Clone, Copy, Debug, PartialEq, Eq, Structural)]
pub enum Axis {
    /// Side by side.
    Col,
    /// One above the other.
    Row,
}

/// A node of the tile tree.
#[derive(Debug)]
pub enum TileNode {
    Leaf(PaneId),
    Split(Axis, Box<TileNode>, Box<TileNode>),
}

/// A tile tree with its focused pane.
#[derive(Debug)]
pub struct TileLayout {
    pub root: TileNode,
    pub focus: PaneId,
}

/// A divider between two tiles: the way to its split, `false` for the first
/// half and `true` for the second, and how it divides.
#[derive(Debug)]
pub struct Divider {
    pub path: Vec<bool>,
    pub axis: Axis,
}

impl TileNode {
    /// The panes of the node in order.
    pub open spec fn leaf_seq(self) -> Seq<PaneId>
        decreases self,
    {
        match self {
            TileNode::Leaf(id) => seq![id],
            TileNode::Split(_, a, b) => a.leaf_seq() + b.leaf_seq(),
        }
    }

    /// The node with the leaf `at` split: `id` comes after it.
    pub open spec fn split_spec(self, at: PaneId, axis: Axis, id: PaneId) -> TileNode
        decreases self,
    {
        match self {
            TileNode::Leaf(p) => if p == at {
                TileNode::Split(axis, Box::new(TileNode::Leaf(p)), Box::new(TileNode::Leaf(id)))
            } else {
                self
            },
            TileNode::Split(x, a, b) => TileNode::Split(
                x,
                Box::new(a.split_spec(at, axis, id)),
                Box::new(b.split_spec(at, axis, id)),
            ),
        }
    }

    /// The node without the leaf `id`: the other half takes the place of a split
    /// that lost one. There is none where `id` was the only leaf.
    pub open spec fn removed_spec(self, id: PaneId) -> Option<TileNode>
        decreases self,
    {
        match self {
            TileNode::Leaf(p) => if p == id {
                None
            } else {
                Some(self)
            },
            TileNode::Split(x, a, b) => match (a.removed_spec(id), b.removed_spec(id)) {
                (Some(a2), Some(b2)) => Some(TileNode::Split(x, Box::new(a2), Box::new(b2))),
                (Some(a2), None) => Some(a2),
                (None, Some(b2)) => Some(b2),
                (None, None) => None,
            },
        }
    }
}

/// Every node has a leaf.
pub proof fn lemma_leaves_nonempty(node: TileNode)
    ensures
        node.leaf_seq().len() > 0,
    decreases node,
{
    match node {
        TileNode::Leaf(_) => {},
        TileNode::Split(_, a, b) => {
            lemma_leaves_nonempty(*a);
        },
    }
}

/// The leaves after a removal are the leaves before it without that pane.
pub proof fn lemma_removed_leaves(node: TileNode, id: PaneId)
    ensures
        match node.removed_spec(id) {
            Some(rest) => rest.leaf_seq() == ids::without_id(node.leaf_seq(), id),
            None => ids::without_id(node.leaf_seq(), id).len() == 0,
        },
    decreases node,
{
    match node {
        TileNode::Leaf(p) => {
            reveal_with_fuel(ids::without_id, 2);
            assert(seq![p].drop_last() =~= Seq::<PaneId>::empty());
            assert(ids::without_id(seq![p], id) =~= (if p == id {
                Seq::<PaneId>::empty()
            } else {
                seq![p]
            }));
        },
        TileNode::Split(_, a, b) => {
            lemma_removed_leaves(*a, id);
            lemma_removed_leaves(*b, id);
            lemma_without_id_add(a.leaf_seq(), b.leaf_seq(), id);
            let wa = ids::without_id(a.leaf_seq(), id);
            let wb = ids::without_id(b.leaf_seq(), id);
            assert(wa.len() == 0 ==> wa + wb =~= wb);
            assert(wb.len() == 0 ==> wa + wb =~= wa);
        },
    }
}

pub proof fn lemma_without_id_add(a: Seq<PaneId>, b: Seq<PaneId>, id: PaneId)
    ensures
        ids::without_id(a + b, id) == ids::without_id(a, id) + ids::without_id(b, id),
    decreases b.len(),
{
    if b.len() == 0 {
        assert(a + b =~= a);
        assert(ids::without_id(a, id) + ids::without_id(b, id) =~= ids::without_id(a, id));
    } else {
        lemma_without_id_add(a, b.drop_last(), id);
        assert((a + b).drop_last() =~= a + b.drop_last());
        assert((a + b).last() == b.last());
        assert(ids::without_id(a + b, id) =~= ids::without_id(a, id) + ids::without_id(b, id));
    }
}

/// The list with `id` behind the first occurrence of `at`.
pub open spec fn inserted_after(s: Seq<PaneId>, at: PaneId, id: PaneId) -> Seq<PaneId> {
    let i = s.index_of(at);
    s.insert(i + 1, id)
}

pub proof fn lemma_split_absent(node: TileNode, at: PaneId, axis: Axis, id: PaneId)
    requires
        !node.leaf_seq().contains(at),
    ensures
        node.split_spec(at, axis, id) == node,
    decreases node,
{
    match node {
        TileNode::Leaf(p) => {
            assert(seq![p][0] == p);
        },
        TileNode::Split(x, a, b) => {
            lemma_contains_add(a.leaf_seq(), b.leaf_seq(), at);
            lemma_split_absent(*a, at, axis, id);
            lemma_split_absent(*b, at, axis, id);
        },
    }
}

pub proof fn lemma_contains_add(a: Seq<PaneId>, b: Seq<PaneId>, p: PaneId)
    ensures
        (a + b).contains(p) == (a.contains(p) || b.contains(p)),
{
    if a.contains(p) {
        let i = choose|i: int| 0 <= i < a.len() && a[i] == p;
        assert((a + b)[i] == p);
    }
    if b.contains(p) {
        let i = choose|i: int| 0 <= i < b.len() && b[i] == p;
        assert((a + b)[a.len() + i] == p);
    }
    if (a + b).contains(p) {
        let i = choose|i: int| 0 <= i < (a + b).len() && (a + b)[i] == p;
        if i < a.len() {
            assert(a[i] == p);
        } else {
            assert(b[i - a.len()] == p);
        }
    }
}

/// Splitting a leaf puts the new pane directly behind it.
pub proof fn lemma_split_leaves(node: TileNode, at: PaneId, axis: Axis, id: PaneId)
    requires
        node.leaf_seq().no_duplicates(),
        node.leaf_seq().contains(at),
    ensures
        node.split_spec(at, axis, id).leaf_seq() == inserted_after(node.leaf_seq(), at, id),
    decreases node,
{
    let s = node.leaf_seq();
    match node {
        TileNode::Leaf(p) => {
            assert(p == at);
            assert(s.index_of(at) == 0);
            reveal_with_fuel(TileNode::leaf_seq, 2);
            assert(seq![p] + seq![id] =~= s.insert(1, id));
        },
        TileNode::Split(x, a, b) => {
            let la = a.leaf_seq();
            let lb = b.leaf_seq();
            lemma_contains_add(la, lb, at);
            assert(la.no_duplicates()) by {
                assert forall|i: int, j: int| 0 <= i < la.len() && 0 <= j < la.len() && i != j implies la[i]
                    != la[j] by {
                    assert(s[i] == la[i] && s[j] == la[j]);
                }
            }
            assert(lb.no_duplicates()) by {
                assert forall|i: int, j: int| 0 <= i < lb.len() && 0 <= j < lb.len() && i != j implies lb[i]
                    != lb[j] by {
                    assert(s[la.len() + i] == lb[i] && s[la.len() + j] == lb[j]);
                }
            }
            let i = s.index_of(at);
            assert(s[i] == at);
            if la.contains(at) {
                assert(!lb.contains(at)) by {
                    if lb.contains(at) {
                        let k = choose|k: int| 0 <= k < lb.len() && lb[k] == at;
                        let m = choose|m: int| 0 <= m < la.len() && la[m] == at;
                        assert(s[la.len() + k] == at && s[m] == at);
                    }
                }
                lemma_split_leaves(*a, at, axis, id);
                lemma_split_absent(*b, at, axis, id);
                let k = la.index_of(at);
                assert(la[k] == at && s[k] == at);
                assert(k == i);
                assert(la.insert(k + 1, id) + lb =~= s.insert(i + 1, id));
            } else {
                lemma_split_absent(*a, at, axis, id);
                lemma_split_leaves(*b, at, axis, id);
                let k = lb.index_of(at);
                assert(lb[k] == at && s[la.len() + k] == at);
                assert(la.len() + k == i);
                assert(la + lb.insert(k + 1, id) =~= s.insert(i + 1, id));
            }
        },
    }
}

/// The new list holds what the old one held, and the new pane.
pub proof fn lemma_inserted_after(s: Seq<PaneId>, at: PaneId, id: PaneId)
    requires
        s.contains(at),
    ensures
        inserted_after(s, at, id).contains(id),
        forall|p: PaneId|
            p != id ==> (#[trigger] inserted_after(s, at, id).contains(p) == s.contains(p)),
        s.no_duplicates() && !s.contains(id) ==> inserted_after(s, at, id).no_duplicates(),
        inserted_after(s, at, id).len() == s.len() + 1,
{
    let i = s.index_of(at);
    assert(0 <= i < s.len() && s[i] == at);
    let t = s.insert(i + 1, id);
    assert(t[i + 1] == id);
    assert forall|p: PaneId| p != id implies (#[trigger] t.contains(p) == s.contains(p)) by {
        if s.contains(p) {
            let k = choose|k: int| 0 <= k < s.len() && s[k] == p;
            if k <= i {
                assert(t[k] == p);
            } else {
                assert(t[k + 1] == p);
            }
        }
        if t.contains(p) {
            let k = choose|k: int| 0 <= k < t.len() && t[k] == p;
            if k <= i {
                assert(s[k] == p);
            } else {
                assert(s[k - 1] == p);
            }
        }
    }
    if s.no_duplicates() && !s.contains(id) {
        assert forall|a: int, b: int| 0 <= a < t.len() && 0 <= b < t.len() && a != b implies t[a]
            != t[b] by {
            let x = if a <= i {
                a
            } else {
                a - 1
            };
            let y = if b <= i {
                b
            } else {
                b - 1
            };
            if a == i + 1 {
                assert(t[b] == s[y]);
                assert(s.contains(s[y]));
            } else if b == i + 1 {
                assert(t[a] == s[x]);
                assert(s.contains(s[x]));
            } else {
                assert(t[a] == s[x] && t[b] == s[y]);
            }
        }
    }
}

/// A list without duplicates stays one when a pane leaves it.
pub proof fn lemma_without_no_duplicates(s: Seq<PaneId>, id: PaneId)
    requires
        s.no_duplicates(),
    ensures
        ids::without_id(s, id).no_duplicates(),
        ids::without_id(s, id).len() == (if s.contains(id) {
            s.len() - 1
        } else {
            s.len() as int
        }),
    decreases s.len(),
{
    if s.len() > 0 {
        let rest = s.drop_last();
        assert forall|i: int, j: int| 0 <= i < rest.len() && 0 <= j < rest.len() && i != j implies rest[i]
            != rest[j] by {
            assert(s[i] == rest[i] && s[j] == rest[j]);
        }
        lemma_without_no_duplicates(rest, id);
        ids::lemma_without_id(rest, id);
        let before = ids::without_id(rest, id);
        let out = ids::without_id(s, id);
        assert(!rest.contains(s.last())) by {
            if rest.contains(s.last()) {
                let k = choose|k: int| 0 <= k < rest.len() && rest[k] == s.last();
                assert(s[k] == s[s.len() - 1]);
            }
        }
        if s.last() != id {
            assert(!before.contains(s.last()));
            assert forall|i: int, j: int| 0 <= i < out.len() && 0 <= j < out.len() && i
                != j implies out[i] != out[j] by {
                if i < before.len() {
                    assert(before.contains(out[i]));
                }
                if j < before.len() {
                    assert(before.contains(out[j]));
                }
            }
            assert(s.contains(id) == rest.contains(id)) by {
                if rest.contains(id) {
                    let k = choose|k: int| 0 <= k < rest.len() && rest[k] == id;
                    assert(s[k] == id);
                }
                if s.contains(id) {
                    let k = choose|k: int| 0 <= k < s.len() && s[k] == id;
                    assert(rest[k] == id);
                }
            }
        } else {
            assert(s.contains(id)) by {
                assert(s[s.len() - 1] == id);
            }
        }
    }
}

impl TileNode {
    /// Appends the panes of the node in order.
    fn push_leaves(&self, out: &mut Vec<PaneId>)
        ensures
            final(out)@ == old(out)@ + self.leaf_seq(),
        decreases self,
    {
        match self {
            TileNode::Leaf(id) => {
                out.push(*id);
                assert(out@ =~= old(out)@ + self.leaf_seq());
            },
            TileNode::Split(_, a, b) => {
                a.push_leaves(out);
                b.push_leaves(out);
                assert(out@ =~= old(out)@ + self.leaf_seq());
            },
        }
    }

    /// The node with the leaf `at` split.
    fn split(self, at: PaneId, axis: Axis, id: PaneId) -> (node: TileNode)
        ensures
            node == self.split_spec(at, axis, id),
        decreases self,
    {
        match self {
            TileNode::Leaf(p) => {
                if p == at {
                    TileNode::Split(axis, Box::new(TileNode::Leaf(p)), Box::new(TileNode::Leaf(id)))
                } else {
                    TileNode::Leaf(p)
                }
            },
            TileNode::Split(x, a, b) => {
                let a2 = (*a).split(at, axis, id);
                let b2 = (*b).split(at, axis, id);
                TileNode::Split(x, Box::new(a2), Box::new(b2))
            },
        }
    }

    /// The node without the leaf `id`.
    fn without(self, id: PaneId) -> (node: Option<TileNode>)
        ensures
            node == self.removed_spec(id),
        decreases self,
    {
        match self {
            TileNode::Leaf(p) => {
                if p == id {
                    None
                } else {
                    Some(TileNode::Leaf(p))
                }
            },
            TileNode::Split(x, a, b) => {
                let a2 = (*a).without(id);
                let b2 = (*b).without(id);
                match (a2, b2) {
                    (Some(a3), Some(b3)) => Some(TileNode::Split(x, Box::new(a3), Box::new(b3))),
                    (Some(a3), None) => Some(a3),
                    (None, Some(b3)) => Some(b3),
                    (None, None) => None,
                }
            },
        }
    }
}

impl TileLayout {
    /// The panes in order.
    pub open spec fn leaf_seq(self) -> Seq<PaneId> {
        self.root.leaf_seq()
    }

    /// No pane occurs twice.
    pub open spec fn wf(self) -> bool {
        self.leaf_seq().no_duplicates()
    }

    /// Whether the focused pane is one of the layout.
    pub open spec fn shows_focus(self) -> bool {
        self.leaf_seq().contains(self.focus)
    }

    /// The pane that is focused once `id` is gone: the one that was, or the pane
    /// that follows in its place, or else the last.
    pub open spec fn focus_without(self, id: PaneId) -> PaneId {
        if self.focus != id || !self.leaf_seq().contains(id) {
            self.focus
        } else {
            let rest = ids::without_id(self.leaf_seq(), id);
            let i = self.leaf_seq().index_of(id);
            if i < rest.len() {
                rest[i]
            } else {
                rest.last()
            }
        }
    }

    /// A layout of one pane.
    pub fn new(id: PaneId) -> (layout: TileLayout)
        ensures
            layout.wf(),
            layout.leaf_seq() == seq![id],
            layout.focus == id,
            layout.root == TileNode::Leaf(id),
    {
        let layout = TileLayout { root: TileNode::Leaf(id), focus: id };
        assert(layout.leaf_seq()[0] == id);
        layout
    }

    /// The panes in order.
    pub fn leaves(&self) -> (v: Vec<PaneId>)
        ensures
            v@ == self.leaf_seq(),
    {
        let mut v: Vec<PaneId> = Vec::new();
        self.root.push_leaves(&mut v);
        assert(v@ =~= self.leaf_seq());
        v
    }

    /// Whether the pane is in the layout.
    pub fn contains(&self, id: PaneId) -> (b: bool)
        ensures
            b == self.leaf_seq().contains(id),
    {
        has_id(&self.leaves(), id)
    }

    /// How many panes there are.
    pub fn len(&self) -> (n: usize)
        ensures
            n == self.leaf_seq().len(),
            n > 0,
    {
        proof {
            lemma_leaves_nonempty(self.root);
        }
        self.leaves().len()
    }

    /// Splits the focused pane: the new pane comes after it and has the focus.
    /// Where the focused pane is not in the layout, nothing is split.
    pub fn split_focused(&mut self, axis: Axis, id: PaneId)
        requires
            old(self).wf(),
            !old(self).leaf_seq().contains(id),
        ensures
            final(self).wf(),
            final(self).root == old(self).root.split_spec(old(self).focus, axis, id),
            final(self).leaf_seq() == (if old(self).shows_focus() {
                inserted_after(old(self).leaf_seq(), old(self).focus, id)
            } else {
                old(self).leaf_seq()
            }),
            final(self).focus == id,
    {
        let at: PaneId = self.focus;
        let ghost before = self.root;
        proof {
            if before.leaf_seq().contains(at) {
                lemma_split_leaves(before, at, axis, id);
                lemma_inserted_after(before.leaf_seq(), at, id);
            } else {
                lemma_split_absent(before, at, axis, id);
            }
        }
        let mut root = TileNode::Leaf(id);
        core::mem::swap(&mut root, &mut self.root);
        self.root = root.split(at, axis, id);
        self.focus = id;
    }

    /// Takes the pane out of the layout. Where it is the only one the layout
    /// stays as it is and the answer is `true`: its tab is to be closed.
    pub fn remove(&mut self, id: PaneId) -> (emptied: bool)
        requires
            old(self).wf(),
        ensures
            final(self).wf(),
            emptied == (old(self).leaf_seq() == seq![id]),
            emptied ==> *final(self) == *old(self),
            !emptied ==> final(self).leaf_seq() == ids::without_id(old(self).leaf_seq(), id),
            !emptied ==> old(self).root.removed_spec(id) == Some(final(self).root),
            !emptied ==> final(self).focus == old(self).focus_without(id),
    {
        let leaves = self.leaves();
        let ghost before = self.root;
        let ghost s = self.leaf_seq();
        proof {
            lemma_leaves_nonempty(before);
            lemma_removed_leaves(before, id);
            lemma_without_no_duplicates(s, id);
            ids::lemma_without_id(s, id);
        }
        if leaves.len() == 1 && leaves[0] == id {
            assert(s =~= seq![id]);
            return true;
        }
        assert(s != seq![id]) by {
            if s == seq![id] {
                assert(s.len() == 1 && s[0] == id);
            }
        }
        assert(ids::without_id(s, id).len() > 0) by {
            if s.len() == 1 && s.contains(id) {
                assert(s[0] == id);
            }
        }
        let mut root = TileNode::Leaf(id);
        core::mem::swap(&mut root, &mut self.root);
        match root.without(id) {
            Some(rest) => {
                self.root = rest;
            },
            None => {
                assert(false);
            },
        }
        if self.focus == id && has_id(&leaves, id) {
            let rest = self.leaves();
            let at: usize = position_of(&leaves, id);
            if at < rest.len() {
                self.focus = rest[at];
                assert(self.leaf_seq()[at as int] == self.focus);
            } else {
                self.focus = rest[rest.len() - 1];
                assert(self.leaf_seq()[rest@.len() - 1] == self.focus);
            }
        }
        false
    }
}

/// Where the pane is in a list, or the first place where it is not in it.
pub open spec fn place_in(list: Seq<PaneId>, id: PaneId) -> int {
    if list.contains(id) {
        list.index_of(id)
    } else {
        0
    }
}

/// Where the pane is in a list that holds it at most once, or the first place.
pub fn position_of(list: &Vec<PaneId>, id: PaneId) -> (at: usize)
    requires
        list@.no_duplicates(),
    ensures
        at == place_in(list@, id),
        list@.len() > 0 ==> at < list@.len(),
{
    let mut i: usize = 0;
    while i < list.len()
        invariant
            list@.no_duplicates(),
            i <= list@.len(),
            forall|k: int| 0 <= k < i ==> #[trigger] list@[k] != id,
        decreases list@.len() - i,
    {
        if list[i] == id {
            assert(list@.contains(id));
            assert(list@[list@.index_of(id)] == id);
            return i;
        }
        i = i + 1;
    }
    0
}

// ---------------------------------------------------------------------------
// Laws
// ---------------------------------------------------------------------------

/// Splitting puts the new pane beside one leaf, in a split along the axis that was
/// asked for, and leaves every other split as it is.
pub proof fn law_splitting_replaces_one_tile(node: TileNode, at: PaneId, axis: Axis, id: PaneId)
    ensures
        match node {
            TileNode::Leaf(p) => if p == at {
                node.split_spec(at, axis, id) matches TileNode::Split(x, a, b) && x == axis && *a
                    == TileNode::Leaf(at) && *b == TileNode::Leaf(id)
            } else {
                node.split_spec(at, axis, id) == node
            },
            TileNode::Split(x, a, b) => {
                &&& node.split_spec(at, axis, id) matches TileNode::Split(y, c, d)
                &&& y == x
                &&& *c == a.split_spec(at, axis, id)
                &&& *d == b.split_spec(at, axis, id)
                &&& !a.leaf_seq().contains(at) ==> *c == *a
                &&& !b.leaf_seq().contains(at) ==> *d == *b
            },
        },
{
    match node {
        TileNode::Leaf(_) => {},
        TileNode::Split(_, a, b) => {
            if !a.leaf_seq().contains(at) {
                lemma_split_absent(*a, at, axis, id);
            }
            if !b.leaf_seq().contains(at) {
                lemma_split_absent(*b, at, axis, id);
            }
        },
    }
}

proof fn lemma_removed_absent(node: TileNode, id: PaneId)
    requires
        !node.leaf_seq().contains(id),
    ensures
        node.removed_spec(id) == Some(node),
    decreases node,
{
    match node {
        TileNode::Leaf(p) => {
            assert(seq![p][0] == p);
        },
        TileNode::Split(_, a, b) => {
            lemma_contains_add(a.leaf_seq(), b.leaf_seq(), id);
            lemma_removed_absent(*a, id);
            lemma_removed_absent(*b, id);
        },
    }
}

/// Closing a pane undoes the split that it came from.
pub proof fn law_closing_undoes_splitting(node: TileNode, at: PaneId, axis: Axis, id: PaneId)
    requires
        !node.leaf_seq().contains(id),
        at != id,
    ensures
        node.split_spec(at, axis, id).removed_spec(id) == Some(node),
    decreases node,
{
    match node {
        TileNode::Leaf(p) => {
            reveal_with_fuel(TileNode::removed_spec, 3);
            assert(seq![p][0] == p);
        },
        TileNode::Split(_, a, b) => {
            lemma_contains_add(a.leaf_seq(), b.leaf_seq(), id);
            law_closing_undoes_splitting(*a, at, axis, id);
            law_closing_undoes_splitting(*b, at, axis, id);
        },
    }
}

/// What is left of a split where a pane closes: the other half where the pane was
/// one half, else a split along the same axis of what is left of the halves.
pub proof fn law_closing_gives_room_to_the_other_half(
    axis: Axis,
    a: TileNode,
    b: TileNode,
    id: PaneId,
)
    requires
        (a.leaf_seq() + b.leaf_seq()).no_duplicates(),
    ensures
        ({
            let rest = TileNode::Split(axis, Box::new(a), Box::new(b)).removed_spec(id);
            &&& a == TileNode::Leaf(id) ==> rest == Some(b)
            &&& b == TileNode::Leaf(id) ==> rest == Some(a)
            &&& !a.leaf_seq().contains(id) && !b.leaf_seq().contains(id) ==> rest == Some(
                TileNode::Split(axis, Box::new(a), Box::new(b)),
            )
            &&& a.leaf_seq().len() > 1 && a.leaf_seq().contains(id) ==> {
                &&& rest matches Some(TileNode::Split(x, c, d))
                &&& x == axis
                &&& a.removed_spec(id) == Some(*c)
                &&& *d == b
            }
            &&& b.leaf_seq().len() > 1 && b.leaf_seq().contains(id) ==> {
                &&& rest matches Some(TileNode::Split(x, c, d))
                &&& x == axis
                &&& *c == a
                &&& b.removed_spec(id) == Some(*d)
            }
        }),
{
    let (la, lb) = (a.leaf_seq(), b.leaf_seq());
    let all = la + lb;
    if la.contains(id) && lb.contains(id) {
        let i = choose|i: int| 0 <= i < la.len() && la[i] == id;
        let j = choose|j: int| 0 <= j < lb.len() && lb[j] == id;
        assert(all[i] == all[la.len() + j]);
    }
    if a == TileNode::Leaf(id) {
        assert(la[0] == id);
    }
    if b == TileNode::Leaf(id) {
        assert(lb[0] == id);
    }
    if !la.contains(id) {
        lemma_removed_absent(a, id);
    } else {
        lemma_removed_part(all, la, 0, id);
        lemma_removed_leaves(a, id);
        lemma_without_no_duplicates(la, id);
    }
    if !lb.contains(id) {
        lemma_removed_absent(b, id);
    } else {
        lemma_removed_part(all, lb, la.len() as int, id);
        lemma_removed_leaves(b, id);
        lemma_without_no_duplicates(lb, id);
    }
}

proof fn lemma_removed_part(all: Seq<PaneId>, part: Seq<PaneId>, at: int, id: PaneId)
    requires
        all.no_duplicates(),
        0 <= at,
        at + part.len() <= all.len(),
        all.subrange(at, at + part.len()) =~= part,
    ensures
        part.no_duplicates(),
{
    assert forall|i: int, j: int|
        0 <= i < part.len() && 0 <= j < part.len() && i != j implies part[i] != part[j] by {
        assert(all.subrange(at, at + part.len())[i] == all[at + i]);
        assert(all.subrange(at, at + part.len())[j] == all[at + j]);
    }
}

/// Where the focused pane closes, the pane behind it has the focus, or the one
/// before it where it was the last. Where another pane closes, the focus stays.
pub proof fn law_focus_goes_to_the_neighbour(
    l: TileLayout,
    before: Seq<PaneId>,
    id: PaneId,
    after: Seq<PaneId>,
)
    requires
        l.wf(),
        l.leaf_seq() == before + seq![id] + after,
        before.len() + after.len() > 0,
    ensures
        l.focus != id ==> l.focus_without(id) == l.focus,
        l.focus == id && after.len() > 0 ==> l.focus_without(id) == after[0],
        l.focus == id && after.len() == 0 ==> l.focus_without(id) == before.last(),
{
    let all = l.leaf_seq();
    let k = before.len() as int;
    assert(all[k] == id);
    assert(all.contains(id));
    let i = all.index_of(id);
    assert(all[i] == id);
    assert(i == k);
    let mid = seq![id];
    lemma_without_id_add(before + mid, after, id);
    lemma_without_id_add(before, mid, id);
    assert(!before.contains(id)) by {
        if before.contains(id) {
            let m = choose|m: int| 0 <= m < before.len() && before[m] == id;
            assert(all[m] == id);
        }
    }
    assert(!after.contains(id)) by {
        if after.contains(id) {
            let m = choose|m: int| 0 <= m < after.len() && after[m] == id;
            assert(all[k + 1 + m] == id);
        }
    }
    lemma_without_absent(before, id);
    lemma_without_absent(after, id);
    reveal_with_fuel(ids::without_id, 2);
    assert(mid.drop_last() =~= Seq::<PaneId>::empty());
    assert(ids::without_id(mid, id) =~= Seq::<PaneId>::empty());
    assert(ids::without_id(all, id) =~= before + after);
}

proof fn lemma_without_absent(s: Seq<PaneId>, id: PaneId)
    requires
        !s.contains(id),
    ensures
        ids::without_id(s, id) == s,
    decreases s.len(),
{
    if s.len() > 0 {
        let rest = s.drop_last();
        assert(s[s.len() - 1] == s.last());
        assert(!rest.contains(id)) by {
            if rest.contains(id) {
                let k = choose|k: int| 0 <= k < rest.len() && rest[k] == id;
                assert(s[k] == id);
            }
        }
        lemma_without_absent(rest, id);
        assert(rest.push(s.last()) =~= s);
    }
}

} // verus!
