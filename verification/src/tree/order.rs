//! The depth-first, left-to-right order in which a layout tree is traversed.
//!
//! [`dfs_paths`] lists, for a tree, the path of every node in traversal
//! order: all of a node's tiling children (recursively) first, then its
//! floating children, then the node itself, so the whole sequence ends with
//! the empty path of the root. [`succ_path`] is one step of the traversal —
//! move to the next sibling's left-most descendant, or up to the parent —
//! and the lemmas here show that stepping from the first leaf enumerates
//! `dfs_paths` exactly: every valid path appears, exactly once, in strictly
//! increasing [`path_lt`] order.

use vstd::prelude::*;

verus! {

use crate::tree::TreeNode;
use crate::tree::path::{
    combined, lemma_child_smaller, lemma_node_at_push, lmost_rel, node_at, valid_path,
};

/// The paths of the first `j` combined children's subtrees, in traversal
/// order: child 0's subtree first, each child's own path last in its block.
pub open spec fn dfs_upto(n: TreeNode, j: int) -> Seq<Seq<int>>
    decreases n, j via dfs_upto_decreases
{
    if j <= 0 || j > combined(n).len() {
        Seq::empty()
    } else {
        dfs_upto(n, j - 1) + dfs_paths(combined(n)[j - 1]).map_values(|p: Seq<int>| seq![j - 1] + p)
    }
}

/// The paths of every node under `n`, in depth-first traversal order; the
/// last entry is the empty path, `n` itself.
pub open spec fn dfs_paths(n: TreeNode) -> Seq<Seq<int>>
    decreases n, combined(n).len() + 1,
{
    dfs_upto(n, combined(n).len() as int) + seq![Seq::<int>::empty()]
}

#[via_fn]
proof fn dfs_upto_decreases(n: TreeNode, j: int) {
    if 0 < j && j <= combined(n).len() {
        lemma_child_smaller(n, j - 1);
    }
}

/// One traversal step from the node at `p`: the left-most descendant of the
/// next sibling when there is one, else the parent; `None` only at the root.
pub open spec fn succ_path(r: TreeNode, p: Seq<int>) -> Option<Seq<int>> {
    if p.len() == 0 {
        None
    } else if p.last() + 1 < combined(node_at(r, p.drop_last())).len() {
        Some(
            p.drop_last().push(p.last() + 1) + lmost_rel(
                node_at(r, p.drop_last().push(p.last() + 1)),
            ),
        )
    } else {
        Some(p.drop_last())
    }
}

/// `p` comes strictly before `q` in depth-first traversal order: either `q`
/// is a proper ancestor of `p`, or the two diverge at some level where `p`
/// takes the smaller sibling index.
pub open spec fn path_lt(p: Seq<int>, q: Seq<int>) -> bool {
    ||| (q.len() < p.len() && p.take(q.len() as int) == q)
    ||| (exists|k: int|
        0 <= k < p.len() && k < q.len() && p.take(k) == q.take(k) && #[trigger] p[k] < #[trigger] q[
            k
        ])
}

/// Within the fixed tree `r`, the traversal of the subtree of `n` (which
/// stands at `q`): its paths are valid, the block starts at the left-most
/// descendant, ends with `n` itself, and consecutive entries are one
/// [`succ_path`] step apart.
pub proof fn lemma_dfs_block(n: TreeNode, r: TreeNode, q: Seq<int>)
    requires
        valid_path(r, q),
        node_at(r, q) == n,
    ensures
        dfs_paths(n).len() >= 1,
        dfs_paths(n)[0] == lmost_rel(n),
        dfs_paths(n).last() == Seq::<int>::empty(),
        forall|k: int|
            0 <= k < dfs_paths(n).len() ==> valid_path(r, q + #[trigger] dfs_paths(n)[k]),
        forall|k: int|
            0 <= k < dfs_paths(n).len() - 1 ==> succ_path(r, q + #[trigger] dfs_paths(n)[k])
                == Some(q + dfs_paths(n)[k + 1]),
    decreases n, combined(n).len() + 1,
{
    let len = combined(n).len() as int;
    lemma_dfs_upto_block(n, r, q, len);
    let u = dfs_upto(n, len);
    let s = dfs_paths(n);
    let empty = Seq::<int>::empty();
    assert(s == u + seq![empty]);
    assert(s.last() == empty);
    assert(q + empty =~= q);
    if len == 0 {
        assert(u == Seq::<Seq<int>>::empty());
        assert(s[0] == empty);
        assert(lmost_rel(n) == empty);
    } else {
        assert(s[0] == u[0]);
    }
    assert forall|k: int| 0 <= k < s.len() implies valid_path(r, q + #[trigger] s[k]) by {
        if k < u.len() {
            assert(s[k] == u[k]);
        } else {
            assert(s[k] == empty);
        }
    }
    assert forall|k: int| 0 <= k < s.len() - 1 implies succ_path(r, q + #[trigger] s[k]) == Some(
        q + s[k + 1],
    ) by {
        if k < u.len() - 1 {
            assert(s[k] == u[k]);
            assert(s[k + 1] == u[k + 1]);
        } else {
            // the step from the last child's own path up to `n`
            assert(k == u.len() - 1);
            assert(len > 0);
            assert(s[k] == u[k]);
            assert(u[k] == u.last());
            assert(u.last() == seq![len - 1]);
            let p = q + seq![len - 1];
            assert(p.drop_last() =~= q);
            assert(p.last() == len - 1);
            assert(succ_path(r, p) == Some(q));
            assert(s[k + 1] == empty);
        }
    }
}

/// The helper behind [`lemma_dfs_block`], by induction on the child count.
#[verifier::rlimit(100)]
#[verifier::spinoff_prover]
proof fn lemma_dfs_upto_block(n: TreeNode, r: TreeNode, q: Seq<int>, j: int)
    requires
        valid_path(r, q),
        node_at(r, q) == n,
        0 <= j <= combined(n).len(),
    ensures
        dfs_upto(n, j).len() >= j,
        j > 0 ==> dfs_upto(n, j)[0] == lmost_rel(n),
        j > 0 ==> dfs_upto(n, j).last() == seq![j - 1],
        forall|k: int|
            0 <= k < dfs_upto(n, j).len() ==> valid_path(r, q + #[trigger] dfs_upto(n, j)[k]),
        forall|k: int|
            0 <= k < dfs_upto(n, j).len() - 1 ==> succ_path(r, q + #[trigger] dfs_upto(n, j)[k])
                == Some(q + dfs_upto(n, j)[k + 1]),
    decreases n, j,
{
    if j > 0 {
        lemma_dfs_upto_block(n, r, q, j - 1);
        let c = combined(n)[j - 1];
        lemma_child_smaller(n, j - 1);
        lemma_node_at_push(r, q, j - 1);
        lemma_dfs_block(c, r, q.push(j - 1));
        let u1 = dfs_upto(n, j - 1);
        let bc = dfs_paths(c);
        let b = bc.map_values(|p: Seq<int>| seq![j - 1] + p);
        let u = dfs_upto(n, j);
        assert(u == u1 + b);
        assert(b.len() == bc.len());
        assert forall|m: int| 0 <= m < b.len() implies q + #[trigger] b[m] == (q.push(j - 1))
            + bc[m] by {
            assert(b[m] == seq![j - 1] + bc[m]);
            assert(q + (seq![j - 1] + bc[m]) =~= (q.push(j - 1)) + bc[m]);
        }
        assert forall|k: int| 0 <= k < u.len() implies valid_path(r, q + #[trigger] u[k]) by {
            if k < u1.len() {
                assert(u[k] == u1[k]);
            } else {
                let m = k - u1.len();
                assert(u[k] == b[m]);
                assert(q + u[k] == (q.push(j - 1)) + bc[m]);
            }
        }
        // first entry of the run
        if j - 1 == 0 {
            assert(u1 == Seq::<Seq<int>>::empty());
            assert(u[0] == b[0]);
            assert(b[0] == seq![0int] + bc[0]);
            assert(bc[0] == lmost_rel(c));
            assert(combined(n).len() > 0);
            assert(lmost_rel(n) == seq![0int] + lmost_rel(combined(n)[0]));
        } else {
            assert(u[0] == u1[0]);
        }
        // last entry of the run
        assert(u.last() == b.last());
        assert(b.last() == seq![j - 1] + bc.last());
        assert(seq![j - 1] + Seq::<int>::empty() =~= seq![j - 1]);
        // consecutive entries are one step apart
        assert forall|k: int| 0 <= k < u.len() - 1 implies succ_path(r, q + #[trigger] u[k])
            == Some(q + u[k + 1]) by {
            if k < u1.len() - 1 {
                assert(u[k] == u1[k]);
                assert(u[k + 1] == u1[k + 1]);
            } else if k == u1.len() - 1 {
                // the step from child j-2's own path into child j-1's block
                if j - 1 == 0 {
                    assert(u1.len() == 0);
                    assert(false);
                }
                assert(u[k] == u1.last());
                assert(u1.last() == seq![j - 2]);
                let p = q + seq![j - 2];
                assert(p =~= q.push(j - 2));
                assert(p.drop_last() =~= q);
                assert(p.last() == j - 2);
                assert(p.drop_last().push(p.last() + 1) =~= q.push(j - 1));
                assert(node_at(r, q.push(j - 1)) == c);
                assert(succ_path(r, p) == Some(q.push(j - 1) + lmost_rel(c)));
                assert(u[k + 1] == b[0]);
                assert(b[0] == seq![j - 1] + bc[0]);
                assert(bc[0] == lmost_rel(c));
                assert(q + (seq![j - 1] + lmost_rel(c)) =~= q.push(j - 1) + lmost_rel(c));
            } else {
                let m = k - u1.len();
                assert(u[k] == b[m]);
                assert(u[k + 1] == b[m + 1]);
                assert(q + u[k] == (q.push(j - 1)) + bc[m]);
                assert(q + u[k + 1] == (q.push(j - 1)) + bc[m + 1]);
            }
        }
    }
}

/// [`lemma_dfs_block`] read at the root: the whole traversal starts at the
/// root's left-most descendant, ends at the root, and steps by
/// [`succ_path`].
pub proof fn lemma_dfs_root(n: TreeNode)
    ensures
        dfs_paths(n).len() >= 1,
        dfs_paths(n)[0] == lmost_rel(n),
        dfs_paths(n).last() == Seq::<int>::empty(),
        forall|k: int| 0 <= k < dfs_paths(n).len() ==> valid_path(n, #[trigger] dfs_paths(n)[k]),
        forall|k: int|
            0 <= k < dfs_paths(n).len() - 1 ==> succ_path(n, #[trigger] dfs_paths(n)[k]) == Some(
                dfs_paths(n)[k + 1],
            ),
{
    let empty = Seq::<int>::empty();
    lemma_dfs_block(n, n, empty);
    let s = dfs_paths(n);
    assert forall|k: int| 0 <= k < s.len() implies valid_path(n, #[trigger] s[k]) by {
        assert(empty + s[k] =~= s[k]);
    }
    assert forall|k: int| 0 <= k < s.len() - 1 implies succ_path(n, #[trigger] s[k]) == Some(
        s[k + 1],
    ) by {
        assert(empty + s[k] =~= s[k]);
        assert(empty + s[k + 1] =~= s[k + 1]);
    }
}

/// Every path contained in a child's traversal appears, extended by that
/// child's sibling index, in the run of the first `j` children.
proof fn lemma_upto_contains(n: TreeNode, j: int, i: int, x: Seq<int>)
    requires
        0 <= i < j <= combined(n).len(),
        dfs_paths(combined(n)[i]).contains(x),
    ensures
        dfs_upto(n, j).contains(seq![i] + x),
    decreases j,
{
    let u = dfs_upto(n, j);
    let u1 = dfs_upto(n, j - 1);
    let bc = dfs_paths(combined(n)[j - 1]);
    let b = bc.map_values(|p: Seq<int>| seq![j - 1] + p);
    assert(u == u1 + b);
    if i == j - 1 {
        let m = choose|m: int| 0 <= m < bc.len() && bc[m] == x;
        assert(b[m] == seq![i] + x);
        assert(u[u1.len() + m] == b[m]);
        assert(u.contains(seq![i] + x));
    } else {
        lemma_upto_contains(n, j - 1, i, x);
        let m = choose|m: int| 0 <= m < u1.len() && u1[m] == seq![i] + x;
        assert(u[m] == u1[m]);
        assert(u.contains(seq![i] + x));
    }
}

/// Every valid path of the tree appears in the traversal.
pub proof fn lemma_dfs_contains(n: TreeNode, p: Seq<int>)
    requires
        valid_path(n, p),
    ensures
        dfs_paths(n).contains(p),
    decreases n,
{
    let s = dfs_paths(n);
    if p.len() == 0 {
        assert(s[s.len() - 1] == Seq::<int>::empty());
        assert(p =~= Seq::<int>::empty());
        assert(s.contains(p));
    } else {
        let i = p[0];
        let c = combined(n)[i];
        lemma_child_smaller(n, i);
        lemma_dfs_contains(c, p.skip(1));
        lemma_upto_contains(n, combined(n).len() as int, i, p.skip(1));
        assert(seq![i] + p.skip(1) =~= p);
        let u = dfs_upto(n, combined(n).len() as int);
        let m = choose|m: int| 0 <= m < u.len() && u[m] == p;
        assert(s[m] == u[m]);
        assert(s.contains(p));
    }
}

/// Law: the depth-first traversal visits exactly the nodes of the tree — a
/// path occurs in [`dfs_paths`] if and only if it is a valid path of the
/// tree.
pub proof fn lemma_dfs_paths_complete(n: TreeNode)
    ensures
        forall|p: Seq<int>| #[trigger] dfs_paths(n).contains(p) <==> valid_path(n, p),
{
    lemma_dfs_root(n);
    let s = dfs_paths(n);
    assert forall|p: Seq<int>| #[trigger] s.contains(p) <==> valid_path(n, p) by {
        if s.contains(p) {
            let k = choose|k: int| 0 <= k < s.len() && s[k] == p;
            assert(valid_path(n, s[k]));
        }
        if valid_path(n, p) {
            lemma_dfs_contains(n, p);
        }
    }
}

/// One traversal step always moves strictly forward in [`path_lt`].
pub proof fn lemma_succ_lt(r: TreeNode, p: Seq<int>, s: Seq<int>)
    requires
        succ_path(r, p) == Some(s),
    ensures
        path_lt(p, s),
{
    let d = p.len() - 1;
    if p.last() + 1 < combined(node_at(r, p.drop_last())).len() {
        let t = p.drop_last().push(p.last() + 1);
        assert(s == t + lmost_rel(node_at(r, t)));
        assert(s.len() >= t.len());
        assert(p.take(d) =~= s.take(d));
        assert(s[d] == p.last() + 1);
        assert(p[d] < s[d]);
    } else {
        assert(s == p.drop_last());
        assert(s.len() < p.len());
        assert(p.take(s.len() as int) == s);
    }
}

/// [`path_lt`] never relates a path to itself.
pub proof fn lemma_path_lt_irreflexive(p: Seq<int>)
    ensures
        !path_lt(p, p),
{
}

/// [`path_lt`] is transitive.
pub proof fn lemma_path_lt_transitive(a: Seq<int>, b: Seq<int>, c: Seq<int>)
    requires
        path_lt(a, b),
        path_lt(b, c),
    ensures
        path_lt(a, c),
{
    if b.len() < a.len() && a.take(b.len() as int) == b {
        if c.len() < b.len() && b.take(c.len() as int) == c {
            assert(a.take(c.len() as int) =~= b.take(c.len() as int));
        } else {
            let k = choose|k: int|
                0 <= k < b.len() && k < c.len() && b.take(k) == c.take(k) && b[k] < c[k];
            assert(a.take(k) =~= b.take(k));
            assert(a[k] == b[k]);
            assert(0 <= k < a.len() && k < c.len() && a.take(k) == c.take(k) && a[k] < c[k]);
        }
    } else {
        let k1 = choose|k: int|
            0 <= k < a.len() && k < b.len() && a.take(k) == b.take(k) && a[k] < b[k];
        if c.len() < b.len() && b.take(c.len() as int) == c {
            if k1 < c.len() {
                assert(c.take(k1) =~= b.take(k1));
                assert(c[k1] == b[k1]);
                assert(0 <= k1 < a.len() && k1 < c.len() && a.take(k1) == c.take(k1) && a[k1] < c[
                    k1
                ]);
            } else {
                assert(a.take(c.len() as int) =~= b.take(c.len() as int));
                assert(c.len() < a.len() && a.take(c.len() as int) == c);
            }
        } else {
            let k2 = choose|k: int|
                0 <= k < b.len() && k < c.len() && b.take(k) == c.take(k) && b[k] < c[k];
            if k1 < k2 {
                assert(b.take(k2).take(k1) =~= b.take(k1));
                assert(c.take(k2).take(k1) =~= c.take(k1));
                assert(b.take(k2)[k1] == b[k1]);
                assert(c.take(k2)[k1] == c[k1]);
                assert(0 <= k1 < a.len() && k1 < c.len() && a.take(k1) == c.take(k1) && a[k1] < c[
                    k1
                ]);
            } else if k2 < k1 {
                assert(a.take(k1).take(k2) =~= a.take(k2));
                assert(b.take(k1).take(k2) =~= b.take(k2));
                assert(a.take(k1)[k2] == a[k2]);
                assert(b.take(k1)[k2] == b[k2]);
                assert(0 <= k2 < a.len() && k2 < c.len() && a.take(k2) == c.take(k2) && a[k2] < c[
                    k2
                ]);
            } else {
                assert(0 <= k1 < a.len() && k1 < c.len() && a.take(k1) == c.take(k1) && a[k1] < c[
                    k1
                ]);
            }
        }
    }
}

/// Entries `i` through `j` of the traversal are strictly ordered.
proof fn lemma_dfs_range_lt(n: TreeNode, i: int, j: int)
    requires
        0 <= i < j < dfs_paths(n).len(),
    ensures
        path_lt(dfs_paths(n)[i], dfs_paths(n)[j]),
    decreases j - i,
{
    let s = dfs_paths(n);
    lemma_dfs_root(n);
    if j == i + 1 {
        assert(succ_path(n, s[i]) == Some(s[j]));
        lemma_succ_lt(n, s[i], s[j]);
    } else {
        lemma_dfs_range_lt(n, i, j - 1);
        lemma_dfs_range_lt(n, j - 1, j);
        lemma_path_lt_transitive(s[i], s[j - 1], s[j]);
    }
}

/// Law: the depth-first traversal is strictly increasing in [`path_lt`], so
/// it visits no node twice; with [`lemma_dfs_paths_complete`] it therefore
/// visits every node exactly once, tiling children before floating children
/// before the node itself, and a whole subtree before the next sibling's
/// subtree.
pub proof fn lemma_dfs_paths_sorted(n: TreeNode)
    ensures
        forall|i: int, j: int|
            0 <= i < j < dfs_paths(n).len() ==> path_lt(
                #[trigger] dfs_paths(n)[i],
                #[trigger] dfs_paths(n)[j],
            ),
        forall|i: int, j: int|
            0 <= i < j < dfs_paths(n).len() ==> #[trigger] dfs_paths(n)[i]
                != #[trigger] dfs_paths(n)[j],
{
    let s = dfs_paths(n);
    assert forall|i: int, j: int| 0 <= i < j < s.len() implies path_lt(
        #[trigger] s[i],
        #[trigger] s[j],
    ) && s[i] != s[j] by {
        lemma_dfs_range_lt(n, i, j);
        lemma_path_lt_irreflexive(s[i]);
    }
}

/// Law: the traversal visits positions in exactly the [`path_lt`] order.
/// In particular, since a descendant stands [`path_lt`]-before its ancestor
/// and a smaller sibling index [`path_lt`]-before a larger one, every node's
/// subtrees are visited in sibling order — all tiling children before any
/// floating child — and a whole subtree is visited before the node itself.
pub proof fn lemma_dfs_index_order(n: TreeNode, k1: int, k2: int)
    requires
        0 <= k1 < dfs_paths(n).len(),
        0 <= k2 < dfs_paths(n).len(),
        path_lt(dfs_paths(n)[k1], dfs_paths(n)[k2]),
    ensures
        k1 < k2,
{
    lemma_dfs_paths_sorted(n);
    if k2 < k1 {
        lemma_path_lt_transitive(dfs_paths(n)[k1], dfs_paths(n)[k2], dfs_paths(n)[k1]);
        lemma_path_lt_irreflexive(dfs_paths(n)[k1]);
    } else if k1 == k2 {
        lemma_path_lt_irreflexive(dfs_paths(n)[k1]);
    }
}

} // verus!
