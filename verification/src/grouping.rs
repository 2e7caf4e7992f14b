//! The order in which workspaces are listed: worktrees below their main
//! checkout, pinned groups first.
use vstd::prelude::*;
use vstd::string::*;

use crate::paths;
use crate::paths::same_path;

verus! {

/// What is known of a workspace: the components of the common git directory of
/// its repository, where it is in one, and whether it is a linked worktree.
pub type Node = (Option<Seq<Seq<char>>>, bool);

/// What the nodes say.
pub open spec fn node_views(nodes: Seq<(Option<&str>, bool)>) -> Seq<Node> {
    Seq::new(
        nodes.len(),
        |i: int|
            (
                match nodes[i].0 {
                    Some(dir) => Some(paths::components(dir@)),
                    None => None,
                },
                nodes[i].1,
            ),
    )
}

/// A listing in progress: the rows so far, each an index and whether it is
/// nested, and the indices that are placed.
#[verifier::ext_equal]
pub struct Listing {
    pub rows: Seq<(int, bool)>,
    pub placed: Set<int>,
}

/// Whether `j` is a worktree that goes below `i`.
pub open spec fn nests(nodes: Seq<Node>, placed: Set<int>, i: int, j: int) -> bool {
    j != i && !placed.contains(j) && nodes[j].1 && nodes[i].0 is Some && nodes[j].0 == nodes[i].0
}

/// The rows that go below `i`, of the first `n` nodes.
pub open spec fn nested_rows(nodes: Seq<Node>, placed: Set<int>, i: int, n: nat) -> Seq<(int, bool)>
    decreases n,
{
    if n == 0 {
        Seq::<(int, bool)>::empty()
    } else {
        let before = nested_rows(nodes, placed, i, (n - 1) as nat);
        if nests(nodes, placed, i, n - 1) {
            before.push(((n - 1) as int, true))
        } else {
            before
        }
    }
}

/// The listing with the group of `i`: its row, then the worktrees of its
/// repository that are not placed yet.
pub open spec fn with_group(nodes: Seq<Node>, l: Listing, i: int) -> Listing {
    Listing {
        rows: l.rows.push((i, false)) + nested_rows(nodes, l.placed, i, nodes.len()),
        placed: Set::new(
            |j: int|
                l.placed.contains(j) || j == i || (0 <= j < nodes.len() && nests(
                    nodes,
                    l.placed,
                    i,
                    j,
                )),
        ),
    }
}

/// A pass over the first `n` nodes: each that is not placed starts a group; with
/// `roots` a linked worktree does not.
pub open spec fn pass(nodes: Seq<Node>, l: Listing, roots: bool, n: nat) -> Listing
    decreases n,
{
    if n == 0 {
        l
    } else {
        let before = pass(nodes, l, roots, (n - 1) as nat);
        if before.placed.contains(n - 1) || (roots && nodes[n - 1].1) {
            before
        } else {
            with_group(nodes, before, n - 1)
        }
    }
}

/// A listing without any row.
pub open spec fn empty_listing() -> Listing {
    Listing { rows: Seq::<(int, bool)>::empty(), placed: Set::<int>::empty() }
}

/// The rows in order: the groups of the main checkouts and of the workspaces
/// outside any repository, then the groups of the worktrees that are left.
pub open spec fn grouped(nodes: Seq<Node>) -> Seq<(int, bool)> {
    let roots = pass(nodes, empty_listing(), true, nodes.len());
    pass(nodes, roots, false, nodes.len()).rows
}

// ---------------------------------------------------------------------------
// Laws
// ---------------------------------------------------------------------------

/// The rows mention every placed index once and no other.
pub open spec fn exact(nodes: Seq<Node>, l: Listing) -> bool {
    &&& forall|k: int|
        0 <= k < l.rows.len() ==> 0 <= (#[trigger] l.rows[k]).0 < nodes.len() && l.placed.contains(
            l.rows[k].0,
        )
    &&& forall|a: int, b: int|
        0 <= a < b < l.rows.len() ==> (#[trigger] l.rows[a]).0 != (#[trigger] l.rows[b]).0
    &&& forall|j: int| #[trigger]
        l.placed.contains(j) ==> exists|k: int| 0 <= k < l.rows.len() && (#[trigger] l.rows[k]).0 == j
}

/// Whether a row mentions the index.
pub open spec fn listed(rows: Seq<(int, bool)>, i: int) -> bool {
    exists|k: int| 0 <= k < rows.len() && (#[trigger] rows[k]).0 == i
}

/// Row `l` leads row `k`: it is the last row up to `k` that is not nested.
pub open spec fn leads(rows: Seq<(int, bool)>, l: int, k: int) -> bool {
    &&& 0 <= l <= k < rows.len()
    &&& !rows[l].1
    &&& forall|m: int| l < m <= k ==> (#[trigger] rows[m]).1
}

/// Every nested row is a worktree below a row of the same repository.
pub open spec fn nested_well(nodes: Seq<Node>, rows: Seq<(int, bool)>) -> bool {
    forall|k: int|
        0 <= k < rows.len() && (#[trigger] rows[k]).1 ==> nodes[rows[k].0].1 && exists|l: int|
            #[trigger]
            leads(rows, l, k) && nodes[rows[l].0].0 == nodes[rows[k].0].0 && nodes[rows[l].0].0 is Some
}

proof fn lemma_nested_rows(nodes: Seq<Node>, placed: Set<int>, i: int, n: nat)
    requires
        n <= nodes.len(),
    ensures
        ({
            let r = nested_rows(nodes, placed, i, n);
            &&& forall|k: int|
                0 <= k < r.len() ==> 0 <= (#[trigger] r[k]).0 < n && r[k].1 && nests(
                    nodes,
                    placed,
                    i,
                    r[k].0,
                )
            &&& forall|a: int, b: int|
                0 <= a < b < r.len() ==> (#[trigger] r[a]).0 < (#[trigger] r[b]).0
            &&& forall|j: int|
                0 <= j < n && #[trigger] nests(nodes, placed, i, j) ==> exists|k: int|
                    0 <= k < r.len() && (#[trigger] r[k]).0 == j
        }),
    decreases n,
{
    if n > 0 {
        lemma_nested_rows(nodes, placed, i, (n - 1) as nat);
        let before = nested_rows(nodes, placed, i, (n - 1) as nat);
        let r = nested_rows(nodes, placed, i, n);
        assert forall|j: int| 0 <= j < n && #[trigger] nests(nodes, placed, i, j) implies exists|
            k: int,
        |
            0 <= k < r.len() && (#[trigger] r[k]).0 == j by {
            if j < n - 1 {
                let k = choose|k: int| 0 <= k < before.len() && (#[trigger] before[k]).0 == j;
                assert(r[k].0 == j);
            } else {
                assert(r[r.len() - 1].0 == j);
            }
        }
    }
}

proof fn lemma_with_group(nodes: Seq<Node>, l: Listing, i: int)
    requires
        0 <= i < nodes.len(),
        !l.placed.contains(i),
        exact(nodes, l),
        nested_well(nodes, l.rows),
    ensures
        exact(nodes, with_group(nodes, l, i)),
        nested_well(nodes, with_group(nodes, l, i).rows),
{
    let g = with_group(nodes, l, i);
    let below = nested_rows(nodes, l.placed, i, nodes.len());
    lemma_nested_rows(nodes, l.placed, i, nodes.len());
    let n = l.rows.len() as int;
    assert forall|k: int| 0 <= k < g.rows.len() implies 0 <= (#[trigger] g.rows[k]).0 < nodes.len()
        && g.placed.contains(g.rows[k].0) by {
        if k < n {
            assert(g.rows[k] == l.rows[k]);
        } else if k > n {
            assert(g.rows[k] == below[k - n - 1]);
        }
    }
    assert forall|a: int, b: int| 0 <= a < b < g.rows.len() implies (#[trigger] g.rows[a]).0 != (
    #[trigger] g.rows[b]).0 by {
        if a < n {
            assert(g.rows[a] == l.rows[a]);
        } else if a > n {
            assert(g.rows[a] == below[a - n - 1]);
        }
        if b < n {
            assert(g.rows[b] == l.rows[b]);
        } else if b > n {
            assert(g.rows[b] == below[b - n - 1]);
        }
    }
    assert forall|j: int| #[trigger] g.placed.contains(j) implies exists|k: int|
        0 <= k < g.rows.len() && (#[trigger] g.rows[k]).0 == j by {
        if l.placed.contains(j) {
            let k = choose|k: int| 0 <= k < l.rows.len() && (#[trigger] l.rows[k]).0 == j;
            assert(g.rows[k].0 == j);
        } else if j == i {
            assert(g.rows[n].0 == j);
        } else {
            assert(nests(nodes, l.placed, i, j));
            let k = choose|k: int| 0 <= k < below.len() && (#[trigger] below[k]).0 == j;
            assert(g.rows[n + 1 + k].0 == j);
        }
    }
    assert forall|k: int| 0 <= k < g.rows.len() && (#[trigger] g.rows[k]).1 implies nodes[g.rows[k].0].1
        && exists|m: int| #[trigger]
        leads(g.rows, m, k) && nodes[g.rows[m].0].0 == nodes[g.rows[k].0].0
            && nodes[g.rows[m].0].0 is Some by {
        if k < n {
            assert(g.rows[k] == l.rows[k]);
            let m = choose|m: int| #[trigger]
                leads(l.rows, m, k) && nodes[l.rows[m].0].0 == nodes[l.rows[k].0].0
                    && nodes[l.rows[m].0].0 is Some;
            assert forall|x: int| m < x <= k implies (#[trigger] g.rows[x]).1 by {
                assert(g.rows[x] == l.rows[x]);
            }
            assert(leads(g.rows, m, k));
        } else {
            assert(g.rows[k] == below[k - n - 1]);
            assert forall|x: int| n < x <= k implies (#[trigger] g.rows[x]).1 by {
                assert(g.rows[x] == below[x - n - 1]);
            }
            assert(leads(g.rows, n, k));
        }
    }
}

proof fn lemma_pass(nodes: Seq<Node>, l: Listing, roots: bool, n: nat)
    requires
        n <= nodes.len(),
        exact(nodes, l),
        nested_well(nodes, l.rows),
    ensures
        exact(nodes, pass(nodes, l, roots, n)),
        nested_well(nodes, pass(nodes, l, roots, n).rows),
        forall|j: int| l.placed.contains(j) ==> #[trigger] pass(nodes, l, roots, n).placed.contains(j),
        forall|j: int|
            0 <= j < n && !(roots && nodes[j].1) ==> #[trigger] pass(
                nodes,
                l,
                roots,
                n,
            ).placed.contains(j),
    decreases n,
{
    if n > 0 {
        lemma_pass(nodes, l, roots, (n - 1) as nat);
        let before = pass(nodes, l, roots, (n - 1) as nat);
        if !(before.placed.contains(n - 1) || (roots && nodes[n - 1].1)) {
            lemma_with_group(nodes, before, n - 1);
        }
        let after = pass(nodes, l, roots, n);
        assert forall|j: int| l.placed.contains(j) implies #[trigger] after.placed.contains(j) by {
            assert(before.placed.contains(j));
        }
        assert forall|j: int| 0 <= j < n && !(roots && nodes[j].1) implies #[trigger] after.placed.contains(
            j,
        ) by {
            if j < n - 1 {
                assert(before.placed.contains(j));
            }
        }
    }
}

/// Every workspace is listed once, and a nested one is a worktree directly in
/// the group of a workspace of its repository.
pub proof fn law_grouping_lists_each_workspace_once(nodes: Seq<Node>)
    ensures
        grouped(nodes).len() == nodes.len(),
        forall|i: int| 0 <= i < nodes.len() ==> #[trigger] listed(grouped(nodes), i),
        forall|k: int|
            0 <= k < grouped(nodes).len() ==> 0 <= (#[trigger] grouped(nodes)[k]).0 < nodes.len(),
        forall|a: int, b: int|
            0 <= a < b < grouped(nodes).len() ==> (#[trigger] grouped(nodes)[a]).0 != (
            #[trigger] grouped(nodes)[b]).0,
        nested_well(nodes, grouped(nodes)),
{
    let l = empty_listing();
    let roots = pass(nodes, l, true, nodes.len());
    lemma_pass(nodes, l, true, nodes.len());
    lemma_pass(nodes, roots, false, nodes.len());
    let end = pass(nodes, roots, false, nodes.len());
    assert forall|i: int| 0 <= i < nodes.len() implies #[trigger] listed(grouped(nodes), i) by {
        assert(end.placed.contains(i));
    }
    lemma_permutation_len(grouped(nodes), nodes.len());
}

/// Rows that mention every number below `n` once are `n` rows.
proof fn lemma_permutation_len(rows: Seq<(int, bool)>, n: nat)
    requires
        forall|k: int| 0 <= k < rows.len() ==> 0 <= (#[trigger] rows[k]).0 < n,
        forall|a: int, b: int|
            0 <= a < b < rows.len() ==> (#[trigger] rows[a]).0 != (#[trigger] rows[b]).0,
        forall|i: int| 0 <= i < n ==> #[trigger] listed(rows, i),
    ensures
        rows.len() == n,
{
    let s = Seq::new(rows.len(), |k: int| rows[k].0);
    assert forall|a: int, b: int| 0 <= a < s.len() && 0 <= b < s.len() && a != b implies s[a]
        != s[b] by {
        if a < b {
            assert(rows[a].0 != rows[b].0);
        } else {
            assert(rows[b].0 != rows[a].0);
        }
    }
    s.unique_seq_to_set();
    vstd::set_lib::lemma_int_range(0, n as int);
    assert(s.to_set() =~= vstd::set_lib::set_int_range(0, n as int)) by {
        assert forall|i: int| vstd::set_lib::set_int_range(0, n as int).contains(i) implies s.to_set().contains(
            i,
        ) by {
            assert(listed(rows, i));
            let k = choose|k: int| 0 <= k < rows.len() && (#[trigger] rows[k]).0 == i;
            assert(s[k] == i);
        }
        assert forall|i: int| s.to_set().contains(i) implies vstd::set_lib::set_int_range(
            0,
            n as int,
        ).contains(i) by {
            let k = choose|k: int| 0 <= k < s.len() && s[k] == i;
            assert(rows[k].0 == i);
        }
    }
}

proof fn lemma_root_group_takes_worktrees(nodes: Seq<Node>, n: nat, root: int, j: int)
    requires
        n <= nodes.len(),
        0 <= root < n,
        0 <= j < nodes.len(),
        !nodes[root].1,
        nodes[j].1,
        nodes[root].0 is Some,
        nodes[j].0 == nodes[root].0,
    ensures
        pass(nodes, empty_listing(), true, n).rows.contains((j, true)),
    decreases n,
{
    let before = pass(nodes, empty_listing(), true, (n - 1) as nat);
    let after = pass(nodes, empty_listing(), true, n);
    if root < n - 1 {
        lemma_root_group_takes_worktrees(nodes, (n - 1) as nat, root, j);
        lemma_pass_keeps_rows(nodes, before, n - 1, (j, true));
    } else {
        lemma_roots_place(nodes, (n - 1) as nat);
        assert(!before.placed.contains(root)) by {
            lemma_pass(nodes, empty_listing(), true, (n - 1) as nat);
            if before.placed.contains(root) {
                let k = choose|k: int|
                    0 <= k < before.rows.len() && (#[trigger] before.rows[k]).0 == root;
                assert(!before.rows[k].1);
            }
        }
        if before.placed.contains(j) {
            lemma_pass(nodes, empty_listing(), true, (n - 1) as nat);
            let k = choose|k: int| 0 <= k < before.rows.len() && (#[trigger] before.rows[k]).0 == j;
            assert(before.rows[k] == (j, true));
            assert(after.rows[k] == (j, true));
        } else {
            let below = nested_rows(nodes, before.placed, root, nodes.len());
            lemma_nested_rows(nodes, before.placed, root, nodes.len());
            assert(nests(nodes, before.placed, root, j));
            let k = choose|k: int| 0 <= k < below.len() && (#[trigger] below[k]).0 == j;
            assert(below[k] == (j, true));
            assert(after.rows[before.rows.len() + 1 + k] == (j, true));
        }
    }
}

/// In the first pass a row is nested exactly where it is a worktree, and only
/// the nodes seen so far start a group.
proof fn lemma_roots_place(nodes: Seq<Node>, n: nat)
    requires
        n <= nodes.len(),
    ensures
        forall|k: int|
            0 <= k < pass(nodes, empty_listing(), true, n).rows.len() ==> {
                let row = #[trigger] pass(nodes, empty_listing(), true, n).rows[k];
                0 <= row.0 < nodes.len() && row.1 == nodes[row.0].1 && (!row.1 ==> row.0 < n)
            },
    decreases n,
{
    if n > 0 {
        lemma_roots_place(nodes, (n - 1) as nat);
        let before = pass(nodes, empty_listing(), true, (n - 1) as nat);
        let after = pass(nodes, empty_listing(), true, n);
        lemma_nested_rows(nodes, before.placed, n - 1, nodes.len());
        assert forall|k: int| 0 <= k < after.rows.len() implies {
            let row = #[trigger] after.rows[k];
            0 <= row.0 < nodes.len() && row.1 == nodes[row.0].1 && (!row.1 ==> row.0 < n)
        } by {
            if k < before.rows.len() {
                assert(after.rows[k] == before.rows[k]);
            } else if k > before.rows.len() {
                let below = nested_rows(nodes, before.placed, n - 1, nodes.len());
                assert(after.rows[k] == below[k - before.rows.len() - 1]);
            }
        }
    }
}

proof fn lemma_pass_keeps_rows(nodes: Seq<Node>, before: Listing, i: int, row: (int, bool))
    requires
        before.rows.contains(row),
    ensures
        with_group(nodes, before, i).rows.contains(row),
{
    let k = choose|k: int| 0 <= k < before.rows.len() && before.rows[k] == row;
    assert(with_group(nodes, before, i).rows[k] == row);
}

proof fn lemma_second_pass_keeps_rows(nodes: Seq<Node>, l: Listing, n: nat, row: (int, bool))
    requires
        l.rows.contains(row),
    ensures
        pass(nodes, l, false, n).rows.contains(row),
    decreases n,
{
    if n > 0 {
        lemma_second_pass_keeps_rows(nodes, l, (n - 1) as nat, row);
        lemma_pass_keeps_rows(nodes, pass(nodes, l, false, (n - 1) as nat), n - 1, row);
    }
}

/// A linked worktree whose main checkout is open is nested, never a group of its
/// own; every other workspace that is no worktree starts a group.
pub proof fn law_worktrees_nest_below_an_open_checkout(nodes: Seq<Node>, root: int, j: int)
    requires
        0 <= root < nodes.len(),
        0 <= j < nodes.len(),
        !nodes[root].1,
        nodes[j].1,
        nodes[root].0 is Some,
        nodes[j].0 == nodes[root].0,
    ensures
        grouped(nodes).contains((j, true)),
        !grouped(nodes).contains((j, false)),
{
    let roots = pass(nodes, empty_listing(), true, nodes.len());
    lemma_root_group_takes_worktrees(nodes, nodes.len(), root, j);
    lemma_second_pass_keeps_rows(nodes, roots, nodes.len(), (j, true));
    law_grouping_lists_each_workspace_once(nodes);
    let rows = grouped(nodes);
    if rows.contains((j, false)) {
        let a = choose|a: int| 0 <= a < rows.len() && rows[a] == (j, true);
        let b = choose|b: int| 0 <= b < rows.len() && rows[b] == (j, false);
        if a < b {
            assert(rows[a].0 != rows[b].0);
        } else {
            assert(rows[b].0 != rows[a].0);
        }
    }
}

/// Whether a worktree is of that repository.
pub open spec fn is_worktree_of(nodes: Seq<Node>, i: int, dir: Seq<Seq<char>>) -> bool {
    0 <= i < nodes.len() && nodes[i].1 && nodes[i].0 == Some(dir)
}

/// The first worktree of a repository.
proof fn lemma_first_worktree(nodes: Seq<Node>, j: int, dir: Seq<Seq<char>>) -> (m: int)
    requires
        is_worktree_of(nodes, j, dir),
    ensures
        m <= j,
        is_worktree_of(nodes, m, dir),
        forall|i: int| i < m ==> !#[trigger] is_worktree_of(nodes, i, dir),
    decreases j,
{
    if exists|i: int| i < j && #[trigger] is_worktree_of(nodes, i, dir) {
        let i = choose|i: int| i < j && #[trigger] is_worktree_of(nodes, i, dir);
        lemma_first_worktree(nodes, i, dir)
    } else {
        j
    }
}

/// Without an open checkout the first worktree of a repository starts the group
/// of the others.
proof fn lemma_orphans(nodes: Seq<Node>, n: nat, m: int, dir: Seq<Seq<char>>)
    requires
        n <= nodes.len(),
        is_worktree_of(nodes, m, dir),
        forall|i: int| i < m ==> !#[trigger] is_worktree_of(nodes, i, dir),
        forall|i: int|
            0 <= i < nodes.len() && (#[trigger] nodes[i]).0 == Some(dir) ==> nodes[i].1,
    ensures
        ({
            let l = pass(nodes, pass(nodes, empty_listing(), true, nodes.len()), false, n);
            &&& n <= m ==> forall|j: int| #[trigger]
                is_worktree_of(nodes, j, dir) ==> !l.placed.contains(j)
            &&& n > m ==> l.rows.contains((m, false)) && forall|j: int| #[trigger]
                is_worktree_of(nodes, j, dir) && j != m ==> l.rows.contains((j, true))
        }),
    decreases n,
{
    let first = pass(nodes, empty_listing(), true, nodes.len());
    let l = pass(nodes, first, false, n);
    lemma_pass(nodes, empty_listing(), true, nodes.len());
    if n == 0 {
        lemma_roots_place(nodes, nodes.len());
        assert forall|j: int| #[trigger] is_worktree_of(nodes, j, dir) implies !l.placed.contains(
            j,
        ) by {
            if first.placed.contains(j) {
                let k = choose|k: int|
                    0 <= k < first.rows.len() && (#[trigger] first.rows[k]).0 == j;
                assert(first.rows[k].1);
                let a = choose|a: int| #[trigger]
                    leads(first.rows, a, k) && nodes[first.rows[a].0].0 == nodes[first.rows[k].0].0
                        && nodes[first.rows[a].0].0 is Some;
                assert(nodes[first.rows[a].0].1);
            }
        }
    } else {
        lemma_orphans(nodes, (n - 1) as nat, m, dir);
        let before = pass(nodes, first, false, (n - 1) as nat);
        let i = n - 1;
        if before.placed.contains(i) {
            assert(i != m);
        } else {
            let below = nested_rows(nodes, before.placed, i, nodes.len());
            lemma_nested_rows(nodes, before.placed, i, nodes.len());
            if i == m {
                assert(l.rows[before.rows.len() as int] == (m, false));
                assert forall|j: int| #[trigger]
                    is_worktree_of(nodes, j, dir) && j != m implies l.rows.contains((j, true)) by {
                    assert(nests(nodes, before.placed, i, j));
                    let k = choose|k: int| 0 <= k < below.len() && (#[trigger] below[k]).0 == j;
                    assert(below[k] == (j, true));
                    assert(l.rows[before.rows.len() + 1 + k] == (j, true));
                }
            } else if i < m {
                assert(!is_worktree_of(nodes, i, dir));
                assert forall|j: int| #[trigger]
                    is_worktree_of(nodes, j, dir) implies !l.placed.contains(j) by {
                    assert(!before.placed.contains(j));
                    assert(!nests(nodes, before.placed, i, j)) by {
                        assert(nodes[i].0 == Some(dir) ==> nodes[i].1);
                    }
                }
            } else {
                lemma_pass_keeps_rows(nodes, before, i, (m, false));
                assert forall|j: int| #[trigger]
                    is_worktree_of(nodes, j, dir) && j != m implies l.rows.contains((j, true)) by {
                    lemma_pass_keeps_rows(nodes, before, i, (j, true));
                }
            }
        }
    }
}

/// Whether another workspace of the repository comes before this one: its main
/// checkout, wherever that is, or an earlier worktree.
pub open spec fn has_elder(nodes: Seq<Node>, j: int) -> bool {
    exists|i: int|
        0 <= i < nodes.len() && i != j && (#[trigger] nodes[i]).0 == nodes[j].0 && (!nodes[i].1 || i
            < j)
}

/// A workspace is nested exactly where it is a linked worktree of a repository
/// of which another workspace is open: its main checkout, or an earlier worktree.
pub proof fn law_worktrees_nest_exactly_below_an_elder(nodes: Seq<Node>, j: int)
    requires
        0 <= j < nodes.len(),
    ensures
        grouped(nodes).contains((j, true)) <==> nodes[j].1 && nodes[j].0 is Some && has_elder(
            nodes,
            j,
        ),
        grouped(nodes).contains((j, false)) <==> !grouped(nodes).contains((j, true)),
{
    let rows = grouped(nodes);
    law_grouping_lists_each_workspace_once(nodes);
    assert(listed(rows, j));
    let at = choose|k: int| 0 <= k < rows.len() && (#[trigger] rows[k]).0 == j;
    assert(rows.contains(rows[at]));
    assert forall|b: bool| rows.contains((j, b)) implies b == rows[at].1 by {
        let k = choose|k: int| 0 <= k < rows.len() && rows[k] == (j, b);
        if k < at {
            assert(rows[k].0 != rows[at].0);
        } else if at < k {
            assert(rows[at].0 != rows[k].0);
        }
    }
    if rows[at].1 {
        assert(nodes[j].1 && nodes[j].0 is Some);
    }
    if nodes[j].1 && nodes[j].0 is Some {
        let dir = nodes[j].0->0;
        if exists|i: int| 0 <= i < nodes.len() && (#[trigger] nodes[i]).0 == Some(dir) && !nodes[i].1 {
            let root = choose|i: int|
                0 <= i < nodes.len() && (#[trigger] nodes[i]).0 == Some(dir) && !nodes[i].1;
            law_worktrees_nest_below_an_open_checkout(nodes, root, j);
            assert(nodes[root].0 == nodes[j].0);
        } else {
            assert(is_worktree_of(nodes, j, dir));
            let m = lemma_first_worktree(nodes, j, dir);
            lemma_orphans(nodes, nodes.len(), m, dir);
            if j == m {
                if has_elder(nodes, j) {
                    let i = choose|i: int|
                        0 <= i < nodes.len() && i != j && (#[trigger] nodes[i]).0 == nodes[j].0 && (
                        !nodes[i].1 || i < j);
                    assert(is_worktree_of(nodes, i, dir));
                }
            } else {
                assert(nodes[m].0 == nodes[j].0);
            }
        }
    }
}

// ---------------------------------------------------------------------------
// Grouping
// ---------------------------------------------------------------------------

/// What the rows say.
pub open spec fn row_views(rows: Seq<(usize, bool)>) -> Seq<(int, bool)> {
    Seq::new(rows.len(), |k: int| (rows[k].0 as int, rows[k].1))
}

/// Whether the marks say which indices are placed.
spec fn marks(placed: Seq<bool>, s: Set<int>) -> bool {
    &&& forall|j: int| 0 <= j < placed.len() ==> #[trigger] placed[j] == s.contains(j)
    &&& forall|j: int| s.contains(j) ==> 0 <= j < placed.len()
}

fn same_dir(a: Option<&str>, b: Option<&str>) -> (same: bool)
    ensures
        same == (a is Some && b is Some && paths::components(a->0@) == paths::components(b->0@)),
{
    match (a, b) {
        (Some(x), Some(y)) => same_path(x, y),
        _ => false,
    }
}

fn one_pass(
    nodes: &[(Option<&str>, bool)],
    roots: bool,
    out: &mut Vec<(usize, bool)>,
    placed: &mut Vec<bool>,
    Ghost(l): Ghost<Listing>,
)
    requires
        old(placed)@.len() == nodes@.len(),
        marks(old(placed)@, l.placed),
        row_views(old(out)@) == l.rows,
    ensures
        final(placed)@.len() == nodes@.len(),
        ({
            let end = pass(node_views(nodes@), l, roots, nodes@.len());
            &&& row_views(final(out)@) == end.rows
            &&& marks(final(placed)@, end.placed)
        }),
{
    let ghost nv = node_views(nodes@);
    let n: usize = nodes.len();
    let mut i: usize = 0;
    while i < n
        invariant
            n == nodes@.len(),
            nv == node_views(nodes@),
            i <= n,
            placed@.len() == n,
            ({
                let cur = pass(nv, l, roots, i as nat);
                &&& row_views(out@) == cur.rows
                &&& marks(placed@, cur.placed)
            }),
        decreases n - i,
    {
        let ghost cur = pass(nv, l, roots, i as nat);
        assert(nv[i as int].1 == nodes@[i as int].1);
        if placed[i] || (roots && nodes[i].1) {
            i = i + 1;
            continue ;
        }
        let ghost next = with_group(nv, cur, i as int);
        let ghost rows_before = row_views(out@);
        placed.set(i, true);
        out.push((i, false));
        assert(row_views(out@) =~= rows_before.push((i as int, false)));
        let ghost lead = row_views(out@);
        let mut j: usize = 0;
        assert(lead + nested_rows(nv, cur.placed, i as int, 0) =~= lead);
        while j < n
            invariant
                n == nodes@.len(),
                nv == node_views(nodes@),
                i < n,
                j <= n,
                placed@.len() == n,
                !cur.placed.contains(i as int),
                row_views(out@) == lead + nested_rows(nv, cur.placed, i as int, j as nat),
                forall|k: int|
                    0 <= k < n ==> #[trigger] placed@[k] == (cur.placed.contains(k) || k == i || (k
                        < j && nests(nv, cur.placed, i as int, k))),
            decreases n - j,
        {
            let ghost before = row_views(out@);
            let ghost below = nested_rows(nv, cur.placed, i as int, j as nat);
            assert(nv[i as int].0 is Some <==> nodes@[i as int].0 is Some);
            assert(nv[j as int].0 is Some <==> nodes@[j as int].0 is Some);
            if j != i && !placed[j] && nodes[j].1 && same_dir(nodes[i].0, nodes[j].0) {
                assert(nests(nv, cur.placed, i as int, j as int));
                placed.set(j, true);
                out.push((j, true));
                assert(row_views(out@) =~= before.push((j as int, true)));
                assert(lead + below.push((j as int, true)) =~= (lead + below).push((j as int, true)));
            } else {
                assert(!nests(nv, cur.placed, i as int, j as int));
            }
            j = j + 1;
        }
        proof {
            assert(row_views(out@) =~= next.rows);
            assert(marks(placed@, next.placed));
        }
        i = i + 1;
    }
}

/// Lists workspaces with each linked worktree directly below the workspace that
/// it branched from. `nodes[i]` is the common git directory of workspace `i`,
/// where it has one, and whether it is a linked worktree; a row is an index and
/// whether it is nested.
pub fn group_worktrees(nodes: &[(Option<&str>, bool)]) -> (rows: Vec<(usize, bool)>)
    ensures
        row_views(rows@) == grouped(node_views(nodes@)),
        rows@.len() == nodes@.len(),
        forall|k: int| 0 <= k < rows@.len() ==> (#[trigger] rows@[k]).0 < nodes@.len(),
{
    let ghost nv = node_views(nodes@);
    let mut out: Vec<(usize, bool)> = Vec::new();
    let mut placed: Vec<bool> = Vec::new();
    let mut i: usize = 0;
    while i < nodes.len()
        invariant
            i <= nodes@.len(),
            placed@.len() == i,
            forall|k: int| 0 <= k < i ==> !(#[trigger] placed@[k]),
        decreases nodes@.len() - i,
    {
        placed.push(false);
        i = i + 1;
    }
    assert(row_views(out@) =~= empty_listing().rows);
    let ghost first = pass(nv, empty_listing(), true, nodes@.len());
    one_pass(nodes, true, &mut out, &mut placed, Ghost(empty_listing()));
    one_pass(nodes, false, &mut out, &mut placed, Ghost(first));
    proof {
        law_grouping_lists_each_workspace_once(nv);
        assert(row_views(out@).len() == out@.len());
        assert forall|k: int| 0 <= k < out@.len() implies (#[trigger] out@[k]).0 < nodes@.len() by {
            assert(row_views(out@)[k].0 == out@[k].0);
        }
    }
    out
}

// ---------------------------------------------------------------------------
// Pins
// ---------------------------------------------------------------------------

/// The workspace whose group row `k` belongs to.
pub open spec fn group_of(rows: Seq<(int, bool)>, k: int) -> int
    decreases k + 1,
{
    if k < 0 {
        0
    } else if !rows[k].1 {
        rows[k].0
    } else {
        group_of(rows, k - 1)
    }
}

/// Whether a workspace of the group is pinned.
pub open spec fn group_pinned(rows: Seq<(int, bool)>, pins: Seq<bool>, group: int) -> bool {
    exists|m: int|
        0 <= m < rows.len() && #[trigger] group_of(rows, m) == group && pins[rows[m].0]
}

/// Of the first `n` rows those whose group is pinned, or those whose is not.
pub open spec fn picked(rows: Seq<(int, bool)>, pins: Seq<bool>, pinned: bool, n: nat) -> Seq<
    (int, bool),
>
    decreases n,
{
    if n == 0 {
        Seq::<(int, bool)>::empty()
    } else {
        let before = picked(rows, pins, pinned, (n - 1) as nat);
        if group_pinned(rows, pins, group_of(rows, n - 1)) == pinned {
            before.push(rows[n - 1])
        } else {
            before
        }
    }
}

/// The rows with the pinned groups first. Either part keeps its order.
pub open spec fn pinned_first(rows: Seq<(int, bool)>, pins: Seq<bool>) -> Seq<(int, bool)> {
    picked(rows, pins, true, rows.len()) + picked(rows, pins, false, rows.len())
}

/// Whether the row belongs to a pinned group.
pub open spec fn in_pinned_group(
    rows: Seq<(int, bool)>,
    pins: Seq<bool>,
    row: (int, bool),
) -> bool {
    exists|k: int|
        0 <= k < rows.len() && #[trigger] rows[k] == row && group_pinned(
            rows,
            pins,
            group_of(rows, k),
        )
}

proof fn lemma_picked(rows: Seq<(int, bool)>, pins: Seq<bool>, pinned: bool, n: nat)
    requires
        n <= rows.len(),
    ensures
        ({
            let p = picked(rows, pins, pinned, n);
            &&& p.len() + picked(rows, pins, !pinned, n).len() == n
            &&& forall|i: int|
                0 <= i < p.len() ==> exists|k: int|
                    0 <= k < n && rows[k] == #[trigger] p[i] && group_pinned(
                        rows,
                        pins,
                        #[trigger] group_of(rows, k),
                    ) == pinned
            &&& forall|k: int|
                0 <= k < n && group_pinned(rows, pins, group_of(rows, k)) == pinned
                    ==> p.contains(#[trigger] rows[k])
        }),
    decreases n,
{
    if n > 0 {
        lemma_picked(rows, pins, pinned, (n - 1) as nat);
        let before = picked(rows, pins, pinned, (n - 1) as nat);
        let p = picked(rows, pins, pinned, n);
        assert forall|i: int| 0 <= i < p.len() implies exists|k: int|
            0 <= k < n && rows[k] == #[trigger] p[i] && group_pinned(
                rows,
                pins,
                #[trigger] group_of(rows, k),
            ) == pinned by {
            if i < before.len() {
                assert(p[i] == before[i]);
                let k = choose|k: int|
                    0 <= k < n - 1 && rows[k] == before[i] && group_pinned(
                        rows,
                        pins,
                        #[trigger] group_of(rows, k),
                    ) == pinned;
                assert(group_pinned(rows, pins, group_of(rows, k)) == pinned);
            } else {
                assert(group_pinned(rows, pins, group_of(rows, n - 1)) == pinned);
            }
        }
        assert forall|k: int| 0 <= k < n && group_pinned(rows, pins, group_of(rows, k)) == pinned implies p.contains(
            #[trigger] rows[k],
        ) by {
            if k < n - 1 {
                let i = choose|i: int| 0 <= i < before.len() && before[i] == rows[k];
                assert(p[i] == rows[k]);
            } else {
                assert(p[p.len() - 1] == rows[k]);
            }
        }
    }
}

/// Pinning only reorders: the listing has the rows that it had, pinned groups
/// come before all others, and within each part rows keep their order.
#[verifier::rlimit(40)]
#[verifier::spinoff_prover]
pub proof fn law_pinned_groups_come_first(nodes: Seq<Node>, pins: Seq<bool>)
    requires
        pins.len() == nodes.len(),
    ensures
        pinned_first(grouped(nodes), pins).len() == nodes.len(),
        forall|r: (int, bool)| #[trigger]
            pinned_first(grouped(nodes), pins).contains(r) == grouped(nodes).contains(r),
        forall|i: int, j: int|
            0 <= i < j < nodes.len() && in_pinned_group(
                grouped(nodes),
                pins,
                #[trigger] pinned_first(grouped(nodes), pins)[j],
            ) ==> in_pinned_group(
                grouped(nodes),
                pins,
                #[trigger] pinned_first(grouped(nodes), pins)[i],
            ),
{
    let rows = grouped(nodes);
    let n = rows.len();
    law_grouping_lists_each_workspace_once(nodes);
    lemma_picked(rows, pins, true, n);
    lemma_picked(rows, pins, false, n);
    let a = picked(rows, pins, true, n);
    let b = picked(rows, pins, false, n);
    let out = pinned_first(rows, pins);
    assert forall|r: (int, bool)| #[trigger] out.contains(r) == rows.contains(r) by {
        if out.contains(r) {
            let i = choose|i: int| 0 <= i < out.len() && out[i] == r;
            if i < a.len() {
                assert(a[i] == r);
            } else {
                assert(b[i - a.len()] == r);
            }
        }
        if rows.contains(r) {
            let k = choose|k: int| 0 <= k < rows.len() && rows[k] == r;
            if group_pinned(rows, pins, group_of(rows, k)) {
                assert(a.contains(rows[k]));
                let i = choose|i: int| 0 <= i < a.len() && a[i] == r;
                assert(out[i] == r);
            } else {
                assert(b.contains(rows[k]));
                let i = choose|i: int| 0 <= i < b.len() && b[i] == r;
                assert(out[a.len() + i] == r);
            }
        }
    }
    assert forall|i: int, j: int|
        0 <= i < j < nodes.len() && in_pinned_group(rows, pins, #[trigger] out[j]) implies in_pinned_group(
        rows,
        pins,
        #[trigger] out[i],
    ) by {
        if j < a.len() {
            assert(out[i] == a[i]);
            let k = choose|k: int|
                0 <= k < n && rows[k] == a[i] && group_pinned(rows, pins, #[trigger] group_of(rows, k))
                    == true;
            assert(rows[k] == out[i]);
        } else {
            let x = j - a.len();
            assert(out[j] == b[x]);
            let k = choose|k: int|
                0 <= k < n && rows[k] == b[x] && group_pinned(rows, pins, #[trigger] group_of(rows, k))
                    == false;
            let m = choose|m: int|
                0 <= m < rows.len() && #[trigger] rows[m] == out[j] && group_pinned(
                    rows,
                    pins,
                    group_of(rows, m),
                );
            assert(rows[k].0 == rows[m].0);
            if k < m {
                assert(rows[k].0 != rows[m].0);
            }
            if m < k {
                assert(rows[m].0 != rows[k].0);
            }
            assert(false);
        }
    }
}

/// Puts the pinned groups first: a group is pinned where any of its workspaces
/// is.
pub fn pin_order(rows: &Vec<(usize, bool)>, pins: &Vec<bool>) -> (out: Vec<(usize, bool)>)
    requires
        forall|k: int| 0 <= k < rows@.len() ==> (#[trigger] rows@[k]).0 < pins@.len(),
        rows@.len() > 0 ==> !rows@[0].1,
    ensures
        row_views(out@) == pinned_first(row_views(rows@), pins@),
{
    let ghost rv = row_views(rows@);
    let n: usize = pins.len();
    let mut flags: Vec<bool> = Vec::new();
    let mut i: usize = 0;
    while i < n
        invariant
            i <= n,
            flags@.len() == i,
            forall|g: int| 0 <= g < i ==> !(#[trigger] flags@[g]),
        decreases n - i,
    {
        flags.push(false);
        i = i + 1;
    }
    // Which groups are pinned.
    let mut leader: usize = 0;
    let mut k: usize = 0;
    while k < rows.len()
        invariant
            n == pins@.len(),
            flags@.len() == n,
            rv == row_views(rows@),
            k <= rows@.len(),
            forall|m: int| 0 <= m < rows@.len() ==> (#[trigger] rows@[m]).0 < n,
            rows@.len() > 0 ==> !rows@[0].1,
            k > 0 ==> leader < n && leader == group_of(rv, k - 1),
            forall|g: int|
                0 <= g < n ==> (#[trigger] flags@[g] <==> exists|m: int|
                    0 <= m < k && #[trigger] group_of(rv, m) == g && pins@[rv[m].0]),
        decreases rows@.len() - k,
    {
        let (idx, child) = rows[k];
        assert(rv[k as int] == (idx as int, child));
        if !child {
            leader = idx;
        }
        assert(leader == group_of(rv, k as int));
        let ghost before = flags@;
        if pins[idx] {
            flags.set(leader, true);
        }
        proof {
            assert forall|g: int| 0 <= g < n implies (#[trigger] flags@[g] <==> exists|m: int|
                0 <= m < k + 1 && #[trigger] group_of(rv, m) == g && pins@[rv[m].0]) by {
                if flags@[g] {
                    if before[g] {
                        let m = choose|m: int|
                            0 <= m < k && #[trigger] group_of(rv, m) == g && pins@[rv[m].0];
                        assert(group_of(rv, m) == g);
                    } else {
                        assert(group_of(rv, k as int) == g);
                    }
                } else {
                    assert(!before[g]);
                }
            }
        }
        k = k + 1;
    }
    assert forall|g: int| 0 <= g < n implies #[trigger] flags@[g] == group_pinned(rv, pins@, g) by {
    }
    let mut first: Vec<(usize, bool)> = Vec::new();
    let mut rest: Vec<(usize, bool)> = Vec::new();
    let mut leader: usize = 0;
    let mut k: usize = 0;
    assert(row_views(first@) =~= picked(rv, pins@, true, 0));
    assert(row_views(rest@) =~= picked(rv, pins@, false, 0));
    while k < rows.len()
        invariant
            n == pins@.len(),
            flags@.len() == n,
            rv == row_views(rows@),
            k <= rows@.len(),
            forall|m: int| 0 <= m < rows@.len() ==> (#[trigger] rows@[m]).0 < n,
            rows@.len() > 0 ==> !rows@[0].1,
            k > 0 ==> leader < n && leader == group_of(rv, k - 1),
            forall|g: int| 0 <= g < n ==> #[trigger] flags@[g] == group_pinned(rv, pins@, g),
            row_views(first@) == picked(rv, pins@, true, k as nat),
            row_views(rest@) == picked(rv, pins@, false, k as nat),
        decreases rows@.len() - k,
    {
        let (idx, child) = rows[k];
        assert(rv[k as int] == (idx as int, child));
        if !child {
            leader = idx;
        }
        assert(leader == group_of(rv, k as int));
        let ghost fb = row_views(first@);
        let ghost rb = row_views(rest@);
        if flags[leader] {
            first.push((idx, child));
            assert(row_views(first@) =~= fb.push(rv[k as int]));
        } else {
            rest.push((idx, child));
            assert(row_views(rest@) =~= rb.push(rv[k as int]));
        }
        k = k + 1;
    }
    let ghost fv = row_views(first@);
    let ghost rest_view = row_views(rest@);
    let ghost fs = first@;
    let ghost rs = rest@;
    first.append(&mut rest);
    assert(first@ =~= fs + rs);
    assert(row_views(first@) =~= fv + rest_view);
    first
}

/// The first row of a listing is never nested.
pub proof fn lemma_first_row_leads(nodes: Seq<Node>)
    ensures
        grouped(nodes).len() > 0 ==> !grouped(nodes)[0].1,
{
    law_grouping_lists_each_workspace_once(nodes);
    let rows = grouped(nodes);
    if rows.len() > 0 && rows[0].1 {
        let l = choose|l: int| #[trigger]
            leads(rows, l, 0) && nodes[rows[l].0].0 == nodes[rows[0].0].0
                && nodes[rows[l].0].0 is Some;
        assert(leads(rows, l, 0));
    }
}

proof fn lemma_roots_pass(nodes: Seq<Node>, n: nat)
    requires
        n <= nodes.len(),
    ensures
        ({
            let l = pass(nodes, empty_listing(), true, n);
            &&& forall|k: int| 0 <= k < l.rows.len() && !(#[trigger] l.rows[k]).1 ==> l.rows[k].0 < n
            &&& forall|a: int, b: int|
                0 <= a < b < l.rows.len() && !(#[trigger] l.rows[a]).1 && !(#[trigger] l.rows[b]).1
                    ==> l.rows[a].0 < l.rows[b].0
            &&& forall|j: int| 0 <= j < n && !(#[trigger] nodes[j]).1 ==> l.placed.contains(j)
        }),
    decreases n,
{
    if n > 0 {
        let m = (n - 1) as nat;
        lemma_roots_pass(nodes, m);
        let before = pass(nodes, empty_listing(), true, m);
        let l = pass(nodes, empty_listing(), true, n);
        if !before.placed.contains(m as int) && !nodes[m as int].1 {
            let below = nested_rows(nodes, before.placed, m as int, nodes.len());
            lemma_nested_rows(nodes, before.placed, m as int, nodes.len());
            let at = before.rows.len() as int;
            assert forall|k: int| 0 <= k < l.rows.len() && !(#[trigger] l.rows[k]).1 implies (k < at
                && l.rows[k] == before.rows[k]) || (k == at && l.rows[k].0 == m) by {
                if k > at {
                    assert(l.rows[k] == below[k - at - 1]);
                }
            }
        }
    }
}

proof fn lemma_later_pass(nodes: Seq<Node>, start: Listing, n: nat)
    requires
        n <= nodes.len(),
        forall|j: int| 0 <= j < nodes.len() && !(#[trigger] nodes[j]).1 ==> start.placed.contains(j),
    ensures
        ({
            let l = pass(nodes, start, false, n);
            &&& start.rows.len() <= l.rows.len()
            &&& forall|k: int| 0 <= k < start.rows.len() ==> #[trigger] l.rows[k] == start.rows[k]
            &&& forall|k: int|
                start.rows.len() <= k < l.rows.len() && !(#[trigger] l.rows[k]).1 ==> 0
                    <= l.rows[k].0 < n && nodes[l.rows[k].0].1
            &&& forall|a: int, b: int|
                start.rows.len() <= a < b < l.rows.len() && !(#[trigger] l.rows[a]).1 && !(
                #[trigger] l.rows[b]).1 ==> l.rows[a].0 < l.rows[b].0
            &&& forall|j: int| #[trigger] start.placed.contains(j) ==> l.placed.contains(j)
        }),
    decreases n,
{
    if n > 0 {
        let m = (n - 1) as nat;
        lemma_later_pass(nodes, start, m);
        let before = pass(nodes, start, false, m);
        let l = pass(nodes, start, false, n);
        if !before.placed.contains(m as int) {
            assert(nodes[m as int].1);
            let below = nested_rows(nodes, before.placed, m as int, nodes.len());
            lemma_nested_rows(nodes, before.placed, m as int, nodes.len());
            let at = before.rows.len() as int;
            assert forall|k: int| 0 <= k < l.rows.len() && !(#[trigger] l.rows[k]).1 implies (k < at
                && l.rows[k] == before.rows[k]) || (k == at && l.rows[k].0 == m) by {
                if k > at {
                    assert(l.rows[k] == below[k - at - 1]);
                }
            }
            assert forall|k: int| 0 <= k < start.rows.len() implies #[trigger] l.rows[k]
                == start.rows[k] by {
                assert(l.rows[k] == before.rows[k]);
            }
        }
    }
}

/// Workspaces that lead a group stand in the order in which they were opened: those
/// that are no worktrees first, and behind them the worktrees without a checkout to
/// stand below.
pub proof fn law_groups_stand_in_the_order_of_opening(nodes: Seq<Node>, a: int, b: int)
    requires
        0 <= a < b < grouped(nodes).len(),
        !grouped(nodes)[a].1,
        !grouped(nodes)[b].1,
    ensures
        nodes[grouped(nodes)[a].0].1 == nodes[grouped(nodes)[b].0].1 ==> grouped(nodes)[a].0
            < grouped(nodes)[b].0,
        nodes[grouped(nodes)[a].0].1 ==> nodes[grouped(nodes)[b].0].1,
{
    let start = pass(nodes, empty_listing(), true, nodes.len());
    lemma_roots_pass(nodes, nodes.len());
    lemma_later_pass(nodes, start, nodes.len());
    let rows = grouped(nodes);
    assert(rows == pass(nodes, start, false, nodes.len()).rows);
    lemma_roots_are_no_worktrees(nodes, nodes.len());
    if b < start.rows.len() {
        assert(rows[a] == start.rows[a] && rows[b] == start.rows[b]);
    } else if a < start.rows.len() {
        assert(rows[a] == start.rows[a]);
    }
}

proof fn lemma_roots_are_no_worktrees(nodes: Seq<Node>, n: nat)
    requires
        n <= nodes.len(),
    ensures
        forall|k: int|
            0 <= k < pass(nodes, empty_listing(), true, n).rows.len() && !(#[trigger] pass(
                nodes,
                empty_listing(),
                true,
                n,
            ).rows[k]).1 ==> !nodes[pass(nodes, empty_listing(), true, n).rows[k].0].1,
    decreases n,
{
    if n > 0 {
        let m = (n - 1) as nat;
        lemma_roots_are_no_worktrees(nodes, m);
        let before = pass(nodes, empty_listing(), true, m);
        let l = pass(nodes, empty_listing(), true, n);
        if !before.placed.contains(m as int) && !nodes[m as int].1 {
            let below = nested_rows(nodes, before.placed, m as int, nodes.len());
            lemma_nested_rows(nodes, before.placed, m as int, nodes.len());
            let at = before.rows.len() as int;
            assert forall|k: int| 0 <= k < l.rows.len() && !(#[trigger] l.rows[k]).1 implies !nodes[
            l.rows[k].0].1 by {
                if k < at {
                    assert(l.rows[k] == before.rows[k]);
                } else if k > at {
                    assert(l.rows[k] == below[k - at - 1]);
                }
            }
        }
    }
}

proof fn lemma_picked_order(
    rows: Seq<(int, bool)>,
    pins: Seq<bool>,
    pinned: bool,
    n: nat,
    a: int,
    b: int,
) -> (at: (int, int))
    requires
        0 <= a < b < n <= rows.len(),
        group_pinned(rows, pins, group_of(rows, a)) == pinned,
        group_pinned(rows, pins, group_of(rows, b)) == pinned,
    ensures
        0 <= at.0 < at.1 < picked(rows, pins, pinned, n).len(),
        picked(rows, pins, pinned, n)[at.0] == rows[a],
        picked(rows, pins, pinned, n)[at.1] == rows[b],
    decreases n,
{
    let before = picked(rows, pins, pinned, (n - 1) as nat);
    if b == n - 1 {
        let i = lemma_picked_has(rows, pins, pinned, (n - 1) as nat, a);
        (i, before.len() as int)
    } else {
        lemma_picked_order(rows, pins, pinned, (n - 1) as nat, a, b)
    }
}

proof fn lemma_picked_has(rows: Seq<(int, bool)>, pins: Seq<bool>, pinned: bool, n: nat, a: int) -> (
    at: int)
    requires
        0 <= a < n <= rows.len(),
        group_pinned(rows, pins, group_of(rows, a)) == pinned,
    ensures
        0 <= at < picked(rows, pins, pinned, n).len(),
        picked(rows, pins, pinned, n)[at] == rows[a],
    decreases n,
{
    if a == n - 1 {
        picked(rows, pins, pinned, (n - 1) as nat).len() as int
    } else {
        lemma_picked_has(rows, pins, pinned, (n - 1) as nat, a)
    }
}

/// Two rows of pinned groups stand in the order in which they stood, and so do two of
/// other groups.
pub proof fn law_pinning_keeps_the_order(
    rows: Seq<(int, bool)>,
    pins: Seq<bool>,
    a: int,
    b: int,
)
    requires
        0 <= a < b < rows.len(),
        group_pinned(rows, pins, group_of(rows, a)) == group_pinned(
            rows,
            pins,
            group_of(rows, b),
        ),
    ensures
        exists|i: int, j: int|
            0 <= i < j < rows.len() && #[trigger] pinned_first(rows, pins)[i] == rows[a]
                && #[trigger] pinned_first(rows, pins)[j] == rows[b],
{
    let pinned = group_pinned(rows, pins, group_of(rows, a));
    let n = rows.len();
    let at = lemma_picked_order(rows, pins, pinned, n, a, b);
    let (x, y) = (picked(rows, pins, true, n), picked(rows, pins, false, n));
    lemma_picked_len(rows, pins, n);
    let out = pinned_first(rows, pins);
    if pinned {
        assert(out[at.0] == rows[a] && out[at.1] == rows[b]);
    } else {
        assert(out[x.len() + at.0] == rows[a] && out[x.len() + at.1] == rows[b]);
    }
}

proof fn lemma_picked_len(rows: Seq<(int, bool)>, pins: Seq<bool>, n: nat)
    ensures
        picked(rows, pins, true, n).len() + picked(rows, pins, false, n).len() == n,
    decreases n,
{
    if n > 0 {
        lemma_picked_len(rows, pins, (n - 1) as nat);
    }
}

} // verus!
