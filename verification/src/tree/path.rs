//! Paths into a layout tree, and the depth-first order over them.
//!
//! A *path* is the sequence of sibling indices that leads from a root node to
//! a descendant: the empty path names the root itself, and each entry indexes
//! the combined sibling sequence — tiling children first, floating children
//! after them — at the next level down. Cursors and the depth-first
//! traversal are specified entirely in terms of paths.

use vstd::prelude::*;

verus! {

use crate::tree::TreeNode;

/// The combined children of a node: tiling children first, then floating
/// children, in one sibling sequence.
pub open spec fn combined(n: TreeNode) -> Seq<TreeNode> {
    n.nodes@ + n.floating_nodes@
}

/// Whether `p` leads from `n` to a node of the tree.
pub open spec fn valid_path(n: TreeNode, p: Seq<int>) -> bool
    decreases p.len(),
{
    p.len() == 0 || (0 <= p[0] < combined(n).len() && valid_path(combined(n)[p[0]], p.skip(1)))
}

/// The node that `p` leads to from `n` (arbitrary when `p` is not valid).
pub open spec fn node_at(n: TreeNode, p: Seq<int>) -> TreeNode
    decreases p.len(),
{
    if p.len() == 0 {
        n
    } else {
        node_at(combined(n)[p[0]], p.skip(1))
    }
}

/// Every node of the tree under `n` has few enough children for their
/// combined sibling indices to fit in `usize`. Any tree that exists in
/// memory satisfies this; it is what lets sibling arithmetic stay in bounds.
pub open spec fn arity_ok(n: TreeNode) -> bool
    decreases n via arity_ok_decreases
{
    combined(n).len() <= usize::MAX && (forall|i: int|
        0 <= i < combined(n).len() ==> arity_ok(#[trigger] combined(n)[i]))
}

/// A child stands lower than its parent in the well-founded order that
/// justifies recursion over the tree.
pub proof fn lemma_child_smaller(n: TreeNode, i: int)
    requires
        0 <= i < combined(n).len(),
    ensures
        decreases_to!(n => combined(n)[i]),
{
    if i < n.nodes@.len() {
        assert(combined(n)[i] == n.nodes@[i]);
        assert(decreases_to!(n => n.nodes));
        assert(decreases_to!(n.nodes => n.nodes@));
        assert(decreases_to!(n.nodes@ => n.nodes@[i]));
    } else {
        let j = i - n.nodes@.len();
        assert(combined(n)[i] == n.floating_nodes@[j]);
        assert(decreases_to!(n => n.floating_nodes));
        assert(decreases_to!(n.floating_nodes => n.floating_nodes@));
        assert(decreases_to!(n.floating_nodes@ => n.floating_nodes@[j]));
    }
}

#[via_fn]
proof fn arity_ok_decreases(n: TreeNode) {
    assert forall|i: int| 0 <= i < combined(n).len() implies decreases_to!(
        n => combined(n)[i]
    ) by {
        lemma_child_smaller(n, i);
    }
}

/// Walking `p` and then `q` is the same as walking `p + q`.
pub proof fn lemma_node_at_concat(r: TreeNode, p: Seq<int>, q: Seq<int>)
    requires
        valid_path(r, p),
    ensures
        valid_path(r, p + q) <==> valid_path(node_at(r, p), q),
        valid_path(r, p + q) ==> node_at(r, p + q) == node_at(node_at(r, p), q),
    decreases p.len(),
{
    if p.len() == 0 {
        assert(p + q =~= q);
    } else {
        assert((p + q)[0] == p[0]);
        assert((p + q).skip(1) =~= p.skip(1) + q);
        lemma_node_at_concat(combined(r)[p[0]], p.skip(1), q);
    }
}

/// Extending a valid path by one sibling index stays valid exactly when the
/// index is in range, and then leads to that child.
pub proof fn lemma_node_at_push(r: TreeNode, p: Seq<int>, i: int)
    requires
        valid_path(r, p),
    ensures
        valid_path(r, p.push(i)) <==> 0 <= i < combined(node_at(r, p)).len(),
        0 <= i < combined(node_at(r, p)).len() ==> node_at(r, p.push(i)) == combined(
            node_at(r, p),
        )[i],
{
    let q = seq![i];
    let m = node_at(r, p);
    assert(p.push(i) =~= p + q);
    lemma_node_at_concat(r, p, q);
    assert(q.skip(1) =~= Seq::<int>::empty());
    assert(q[0] == i);
    assert(valid_path(combined(m)[i], q.skip(1)));
    if 0 <= i < combined(m).len() {
        assert(node_at(m, q) == node_at(combined(m)[i], q.skip(1)));
        assert(node_at(combined(m)[i], Seq::<int>::empty()) == combined(m)[i]);
    }
}

/// Every node reached by a valid path inherits the arity bound.
pub proof fn lemma_arity_at(r: TreeNode, p: Seq<int>)
    requires
        arity_ok(r),
        valid_path(r, p),
    ensures
        arity_ok(node_at(r, p)),
    decreases p.len(),
{
    if p.len() > 0 {
        lemma_arity_at(combined(r)[p[0]], p.skip(1));
    }
}

/// A nonempty valid path ends in a sibling index that is in range at its
/// parent, and leads to that child of the parent.
pub proof fn lemma_last_in_range(r: TreeNode, p: Seq<int>)
    requires
        valid_path(r, p),
        p.len() > 0,
    ensures
        0 <= p.last() < combined(node_at(r, p.drop_last())).len(),
        node_at(r, p) == combined(node_at(r, p.drop_last()))[p.last()],
{
    lemma_valid_path_take(r, p, p.len() - 1);
    assert(p =~= p.take(p.len() - 1).push(p.last()));
    lemma_node_at_push(r, p.take(p.len() - 1), p.last());
}

/// The path from a node to its left-most descendant: step into the first
/// combined child until a childless node is reached.
pub open spec fn lmost_rel(n: TreeNode) -> Seq<int>
    decreases n via lmost_rel_decreases
{
    if combined(n).len() == 0 {
        Seq::empty()
    } else {
        seq![0int] + lmost_rel(combined(n)[0])
    }
}

#[via_fn]
proof fn lmost_rel_decreases(n: TreeNode) {
    if combined(n).len() > 0 {
        lemma_child_smaller(n, 0);
    }
}

/// A prefix of a valid path is valid.
pub proof fn lemma_valid_path_take(r: TreeNode, p: Seq<int>, k: int)
    requires
        valid_path(r, p),
        0 <= k <= p.len(),
    ensures
        valid_path(r, p.take(k)),
    decreases p.len(),
{
    if p.len() > 0 && k > 0 {
        assert(p.take(k)[0] == p[0]);
        assert(p.take(k).skip(1) =~= p.skip(1).take(k - 1));
        lemma_valid_path_take(combined(r)[p[0]], p.skip(1), k - 1);
    } else {
        assert(p.take(k) =~= Seq::<int>::empty());
    }
}

} // verus!
