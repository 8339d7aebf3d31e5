//! A cursor into the layout tree which keeps track of where it is.
//!
//! The cursor abstracts over floating and tiling children when navigating:
//! the two groups form one combined sibling sequence, floating children after
//! tiling ones. Navigation operations return `Ok` with the moved cursor, or
//! `Err` with the unchanged cursor when the move is not possible; callers
//! pattern-match rather than treat `Err` as a hard error.

use vstd::prelude::*;

verus! {

use crate::tree::TreeNode;
use crate::tree::order::{
    dfs_paths, lemma_dfs_contains, lemma_dfs_paths_sorted, lemma_dfs_root, succ_path,
};
use crate::tree::path::{
    arity_ok, combined, lemma_arity_at, lemma_last_in_range, lemma_node_at_push,
    lemma_valid_path_take, lmost_rel, node_at, valid_path,
};

/// A position in a layout tree: the current node together with the path that
/// leads to it from the root.
///
/// The ancestor chain is carried as borrowed nodes, so a cursor never owns
/// any part of the tree and reaching the parent needs no fresh traversal.
#[derive(Debug, Clone)]
pub struct Cursor<'a> {
    parents: Vec<&'a TreeNode>,
    node: &'a TreeNode,
    path: Vec<usize>,
}

impl<'a> Cursor<'a> {
    /// The path from the root to the current node: each entry indexes the
    /// combined sibling sequence at that level.
    pub closed spec fn path(self) -> Seq<int> {
        self.path@.map_values(|v: usize| v as int)
    }

    /// The root the cursor was created from.
    pub closed spec fn root(self) -> TreeNode {
        if self.parents@.len() == 0 {
            *self.node
        } else {
            *self.parents@[0]
        }
    }

    /// The node the cursor currently stands on.
    pub open spec fn current(self) -> TreeNode {
        node_at(self.root(), self.path())
    }

    /// The cursor's ancestor chain matches its path, the path is valid, and
    /// the tree's sibling counts fit in `usize`.
    pub closed spec fn wf(self) -> bool {
        &&& self.parents@.len() == self.path@.len()
        &&& arity_ok(self.root())
        &&& valid_path(self.root(), self.path())
        &&& (forall|i: int|
            0 <= i < self.parents@.len() ==> *(#[trigger] self.parents@[i]) == node_at(
                self.root(),
                self.path().take(i),
            ))
        &&& *self.node == node_at(self.root(), self.path())
    }

    /// Create a cursor standing on `node`, which becomes its root.
    pub fn new(node: &'a TreeNode) -> (c: Cursor<'a>)
        requires
            arity_ok(*node),
        ensures
            c.wf(),
            c.root() == *node,
            c.path() == Seq::<int>::empty(),
    {
        let c = Cursor { parents: Vec::new(), node, path: Vec::new() };
        proof {
            assert(c.path() =~= Seq::<int>::empty());
        }
        c
    }

    /// Get the node associated with the cursor.
    pub fn get_node(&self) -> (r: &'a TreeNode)
        requires
            self.wf(),
        ensures
            *r == self.current(),
    {
        self.node
    }

    /// Descend into the first child node if possible or return self on
    /// failure. The first child is the first tiling child, or the first
    /// floating child when there are no tiling ones.
    pub fn descend(self) -> (r: Result<Cursor<'a>, Cursor<'a>>)
        requires
            self.wf(),
        ensures
            match r {
                Ok(c) => {
                    &&& combined(self.current()).len() > 0
                    &&& c.wf()
                    &&& c.root() == self.root()
                    &&& c.path() == self.path().push(0)
                },
                Err(c) => c == self && combined(self.current()).len() == 0,
            },
    {
        let child: &'a TreeNode;
        if self.node.nodes.len() > 0 {
            child = &self.node.nodes[0];
        } else if self.node.floating_nodes.len() > 0 {
            child = &self.node.floating_nodes[0];
            proof {
                assert(combined(self.current())[0] == self.node.floating_nodes@[0]);
            }
        } else {
            proof {
                assert(combined(self.current()) =~= Seq::<TreeNode>::empty());
            }
            return Err(self);
        }
        let ghost old_self = self;
        let mut c = self;
        c.parents.push(c.node);
        c.path.push(0);
        c.node = child;
        proof {
            assert(c.path() =~= old_self.path().push(0));
            assert(c.root() == old_self.root());
            lemma_node_at_push(old_self.root(), old_self.path(), 0);
            assert forall|i: int| 0 <= i < c.parents@.len() implies *(
            #[trigger] c.parents@[i]) == node_at(c.root(), c.path().take(i)) by {
                if i < old_self.parents@.len() {
                    assert(c.path().take(i) =~= old_self.path().take(i));
                } else {
                    assert(c.path().take(i) =~= old_self.path());
                }
            }
        }
        Ok(c)
    }

    /// The parent of the current node (meaningful only off the root).
    pub open spec fn parent(self) -> TreeNode {
        node_at(self.root(), self.path().drop_last())
    }

    /// The child of `node` at `idx` in the combined sibling sequence.
    fn deref_child(node: &'a TreeNode, idx: usize) -> (r: Option<&'a TreeNode>)
        ensures
            match r {
                Some(ch) => idx < combined(*node).len() && *ch == combined(*node)[idx as int],
                None => idx >= combined(*node).len(),
            },
    {
        if idx < node.nodes.len() {
            Some(&node.nodes[idx])
        } else {
            let k = idx - node.nodes.len();
            if k < node.floating_nodes.len() {
                proof {
                    assert(combined(*node)[idx as int] == node.floating_nodes@[k as int]);
                }
                Some(&node.floating_nodes[k])
            } else {
                None
            }
        }
    }

    /// Navigate to the parent if there is one or return self on failure.
    pub fn ascend(self) -> (r: Result<Cursor<'a>, Cursor<'a>>)
        requires
            self.wf(),
        ensures
            match r {
                Ok(c) => {
                    &&& self.path().len() > 0
                    &&& c.wf()
                    &&& c.root() == self.root()
                    &&& c.path() == self.path().drop_last()
                },
                Err(c) => c == self && self.path().len() == 0,
            },
    {
        let mut c = self;
        if c.parents.len() == 0 {
            return Err(c);
        }
        let ghost old_self = self;
        let d = c.parents.len() - 1;
        let up = c.parents.pop().unwrap();
        c.path.pop();
        c.node = up;
        proof {
            assert(c.path() =~= old_self.path().drop_last());
            lemma_valid_path_take(old_self.root(), old_self.path(), d as int);
            assert(old_self.path().take(d as int) =~= c.path());
            if d == 0 {
                assert(c.path() =~= Seq::<int>::empty());
                assert(c.root() == *c.node);
            } else {
                assert(c.root() == old_self.root());
            }
            assert(*c.node == node_at(old_self.root(), c.path()));
            assert forall|i: int| 0 <= i < c.parents@.len() implies *(
            #[trigger] c.parents@[i]) == node_at(c.root(), c.path().take(i)) by {
                assert(c.parents@[i] == old_self.parents@[i]);
                assert(c.path().take(i) =~= old_self.path().take(i));
            }
        }
        Ok(c)
    }

    /// Navigate to the next sibling in the combined sibling sequence if there
    /// is one or return self on failure.
    pub fn next_sibling(self) -> (r: Result<Cursor<'a>, Cursor<'a>>)
        requires
            self.wf(),
        ensures
            match r {
                Ok(c) => {
                    &&& self.path().len() > 0
                    &&& self.path().last() + 1 < combined(self.parent()).len()
                    &&& c.wf()
                    &&& c.root() == self.root()
                    &&& c.path() == self.path().update(
                        self.path().len() - 1,
                        self.path().last() + 1,
                    )
                },
                Err(c) => {
                    &&& c == self
                    &&& (self.path().len() == 0 || self.path().last() + 1 >= combined(
                        self.parent(),
                    ).len())
                },
            },
    {
        if self.parents.len() == 0 {
            return Err(self);
        }
        let d = self.parents.len() - 1;
        let up: &'a TreeNode = self.parents[d];
        let idx = self.path[d];
        proof {
            lemma_last_in_range(self.root(), self.path());
            assert(self.path()[d as int] == idx as int);
            assert(*up == self.parent());
            lemma_valid_path_take(self.root(), self.path(), d as int);
            assert(self.path().drop_last() =~= self.path().take(d as int));
            lemma_arity_at(self.root(), self.path().drop_last());
        }
        match Self::deref_child(up, idx + 1) {
            None => Err(self),
            Some(ch) => {
                let ghost old_self = self;
                let mut c = self;
                c.path.pop();
                c.path.push(idx + 1);
                c.node = ch;
                proof {
                    assert(c.path() =~= old_self.path().update(d as int, idx + 1 as int));
                    assert(c.root() == old_self.root());
                    assert(c.path().drop_last() =~= old_self.path().drop_last());
                    assert(c.path() =~= old_self.path().drop_last().push(idx + 1 as int));
                    lemma_valid_path_take(old_self.root(), old_self.path(), d as int);
                    lemma_node_at_push(old_self.root(), old_self.path().drop_last(), idx + 1 as int);
                    assert forall|i: int| 0 <= i < c.parents@.len() implies *(
                    #[trigger] c.parents@[i]) == node_at(c.root(), c.path().take(i)) by {
                        assert(c.path().take(i) =~= old_self.path().take(i));
                    }
                }
                Ok(c)
            },
        }
    }

    /// Navigate to the previous sibling in the combined sibling sequence if
    /// there is one or return self on failure.
    pub fn prev_sibling(self) -> (r: Result<Cursor<'a>, Cursor<'a>>)
        requires
            self.wf(),
        ensures
            match r {
                Ok(c) => {
                    &&& self.path().len() > 0
                    &&& self.path().last() > 0
                    &&& c.wf()
                    &&& c.root() == self.root()
                    &&& c.path() == self.path().update(
                        self.path().len() - 1,
                        self.path().last() - 1,
                    )
                },
                Err(c) => c == self && (self.path().len() == 0 || self.path().last() == 0),
            },
    {
        if self.parents.len() == 0 {
            return Err(self);
        }
        let d = self.parents.len() - 1;
        let up: &'a TreeNode = self.parents[d];
        let idx = self.path[d];
        if idx == 0 {
            return Err(self);
        }
        proof {
            lemma_last_in_range(self.root(), self.path());
            assert(self.path()[d as int] == idx as int);
            assert(*up == self.parent());
        }
        match Self::deref_child(up, idx - 1) {
            None => {
                proof {
                    assert(false);
                }
                Err(self)
            },
            Some(ch) => {
                let ghost old_self = self;
                let mut c = self;
                c.path.pop();
                c.path.push(idx - 1);
                c.node = ch;
                proof {
                    assert(c.path() =~= old_self.path().update(d as int, idx - 1 as int));
                    assert(c.root() == old_self.root());
                    assert(c.path().drop_last() =~= old_self.path().drop_last());
                    assert(c.path() =~= old_self.path().drop_last().push(idx - 1 as int));
                    lemma_valid_path_take(old_self.root(), old_self.path(), d as int);
                    lemma_node_at_push(old_self.root(), old_self.path().drop_last(), idx - 1 as int);
                    assert forall|i: int| 0 <= i < c.parents@.len() implies *(
                    #[trigger] c.parents@[i]) == node_at(c.root(), c.path().take(i)) by {
                        assert(c.path().take(i) =~= old_self.path().take(i));
                    }
                }
                Ok(c)
            },
        }
    }

    /// Is the node associated with the cursor a floating node: true exactly
    /// when its sibling index falls in the floating region of its parent's
    /// combined children. The root is never floating.
    pub fn is_floating(&self) -> (r: bool)
        requires
            self.wf(),
        ensures
            r == (self.path().len() > 0 && self.path().last() >= self.parent().nodes@.len()),
    {
        if self.parents.len() == 0 {
            return false;
        }
        let d = self.parents.len() - 1;
        let up: &'a TreeNode = self.parents[d];
        proof {
            assert(self.path()[d as int] == self.path@[d as int] as int);
            assert(*up == self.parent());
        }
        self.path[d] >= up.nodes.len()
    }

    /// The ancestors of the current node, the immediate parent first and the
    /// root last.
    pub fn ancestors(&self) -> (r: Vec<Cursor<'a>>)
        requires
            self.wf(),
        ensures
            r@.len() == self.path().len(),
            forall|k: int|
                0 <= k < r@.len() ==> {
                    &&& (#[trigger] r@[k]).wf()
                    &&& r@[k].root() == self.root()
                    &&& r@[k].path() == self.path().take(self.path().len() - 1 - k)
                },
    {
        let mut out: Vec<Cursor<'a>> = Vec::new();
        let d = self.parents.len();
        let mut k: usize = 0;
        while k < d
            invariant
                self.wf(),
                d == self.parents@.len(),
                k <= d,
                out@.len() == k,
                forall|m: int|
                    0 <= m < k ==> {
                        &&& (#[trigger] out@[m]).wf()
                        &&& out@[m].root() == self.root()
                        &&& out@[m].path() == self.path().take(self.path().len() - 1 - m)
                    },
            decreases d - k,
        {
            let depth = d - 1 - k;
            let mut ppath: Vec<usize> = Vec::new();
            let mut pparents: Vec<&'a TreeNode> = Vec::new();
            let mut j: usize = 0;
            while j < depth
                invariant
                    self.wf(),
                    depth < d,
                    d == self.parents@.len(),
                    j <= depth,
                    ppath@ == self.path@.take(j as int),
                    pparents@ == self.parents@.take(j as int),
                decreases depth - j,
            {
                let pv = self.path[j];
                let pr = self.parents[j];
                ppath.push(pv);
                pparents.push(pr);
                proof {
                    assert(ppath@ =~= self.path@.take(j + 1 as int));
                    assert(pparents@ =~= self.parents@.take(j + 1 as int));
                }
                j += 1;
            }
            let anc = Cursor { parents: pparents, node: self.parents[depth], path: ppath };
            proof {
                assert(anc.path() =~= self.path().take(depth as int));
                if depth == 0 {
                    assert(anc.path() =~= Seq::<int>::empty());
                    assert(anc.root() == *anc.node);
                } else {
                    assert(anc.parents@[0] == self.parents@[0]);
                    assert(anc.root() == self.root());
                }
                assert(*anc.node == node_at(self.root(), self.path().take(depth as int)));
                lemma_valid_path_take(self.root(), self.path(), depth as int);
                assert forall|i: int| 0 <= i < anc.parents@.len() implies *(
                #[trigger] anc.parents@[i]) == node_at(anc.root(), anc.path().take(i)) by {
                    assert(anc.parents@[i] == self.parents@[i]);
                    assert(anc.path().take(i) =~= self.path().take(i));
                }
                assert(anc.wf());
                assert(out@.push(anc).len() == k + 1);
            }
            out.push(anc);
            k += 1;
        }
        out
    }

    /// A fresh cursor standing at the same position.
    fn duplicate(&self) -> (r: Cursor<'a>)
        requires
            self.wf(),
        ensures
            r.wf(),
            r.root() == self.root(),
            r.path() == self.path(),
    {
        let d = self.parents.len();
        let mut ppath: Vec<usize> = Vec::new();
        let mut pparents: Vec<&'a TreeNode> = Vec::new();
        let mut j: usize = 0;
        while j < d
            invariant
                self.wf(),
                d == self.parents@.len(),
                j <= d,
                ppath@ == self.path@.take(j as int),
                pparents@ == self.parents@.take(j as int),
            decreases d - j,
        {
            let pv = self.path[j];
            let pr = self.parents[j];
            ppath.push(pv);
            pparents.push(pr);
            proof {
                assert(ppath@ =~= self.path@.take(j + 1 as int));
                assert(pparents@ =~= self.parents@.take(j + 1 as int));
            }
            j += 1;
        }
        let r = Cursor { parents: pparents, node: self.node, path: ppath };
        proof {
            assert(r.path@ =~= self.path@);
            assert(r.parents@ =~= self.parents@);
            assert(r.path() =~= self.path());
        }
        r
    }

    /// Drive the cursor to its left-most descendant: descend while possible.
    fn left_most_descendant(self) -> (r: Cursor<'a>)
        requires
            self.wf(),
        ensures
            r.wf(),
            r.root() == self.root(),
            r.path() == self.path() + lmost_rel(self.current()),
            combined(r.current()).len() == 0,
    {
        let mut c = self;
        loop
            invariant
                c.wf(),
                c.root() == self.root(),
                c.path() + lmost_rel(c.current()) == self.path() + lmost_rel(self.current()),
            decreases lmost_rel(c.current()).len(),
        {
            match c.descend() {
                Err(done) => {
                    proof {
                        assert(lmost_rel(done.current()) =~= Seq::<int>::empty());
                        assert(done.path() =~= done.path() + lmost_rel(done.current()));
                    }
                    return done;
                },
                Ok(next) => {
                    proof {
                        let cur = c.current();
                        assert(lmost_rel(cur) == seq![0int] + lmost_rel(combined(cur)[0]));
                        lemma_node_at_push(c.root(), c.path(), 0);
                        assert(next.current() == combined(cur)[0]);
                        assert(next.path() + lmost_rel(next.current()) =~= c.path() + lmost_rel(
                            cur,
                        ));
                    }
                    c = next;
                },
            }
        }
    }

    /// Return an iterator over the tree, visiting nodes depth first, left to
    /// right, children before their parent.
    pub fn iter(self) -> (it: CursorIterator<'a>)
        requires
            self.wf(),
        ensures
            it.wf(),
            it.root() == self.root(),
            0 <= it.pos() < dfs_paths(it.root()).len(),
            dfs_paths(it.root())[it.pos()] == self.path() + lmost_rel(self.current()),
            self.path().len() == 0 ==> it.pos() == 0,
    {
        CursorIterator::new(self)
    }
}

/// A depth-first, left-to-right iterator over a layout tree, yielding one
/// cursor per node; children are yielded before their parent, tiling
/// children before floating ones. Fresh instance required per traversal.
pub struct CursorIterator<'a> {
    state: Result<Cursor<'a>, Cursor<'a>>,
    pos: Ghost<int>,
}

impl<'a> CursorIterator<'a> {
    /// The root of the tree being traversed.
    pub closed spec fn root(self) -> TreeNode {
        match self.state {
            Ok(c) => c.root(),
            Err(c) => c.root(),
        }
    }

    /// How many nodes have been yielded so far: the iterator stands at this
    /// entry of [`dfs_paths`], or one past the end when exhausted.
    pub closed spec fn pos(self) -> int {
        self.pos@
    }

    pub closed spec fn wf(self) -> bool {
        match self.state {
            Ok(c) => {
                &&& c.wf()
                &&& c.root() == self.root()
                &&& 0 <= self.pos@ < dfs_paths(self.root()).len()
                &&& c.path() == dfs_paths(self.root())[self.pos@]
            },
            Err(c) => c.wf() && c.root() == self.root() && self.pos@ == dfs_paths(
                self.root(),
            ).len(),
        }
    }

    /// Start a traversal at the left-most descendant of `c`; from the root
    /// cursor this stands at the very first entry of the depth-first order.
    pub fn new(c: Cursor<'a>) -> (it: CursorIterator<'a>)
        requires
            c.wf(),
        ensures
            it.wf(),
            it.root() == c.root(),
            0 <= it.pos() < dfs_paths(it.root()).len(),
            dfs_paths(it.root())[it.pos()] == c.path() + lmost_rel(c.current()),
            c.path().len() == 0 ==> it.pos() == 0,
    {
        let ghost r = c.root();
        let lm = c.left_most_descendant();
        proof {
            lemma_dfs_contains(r, lm.path());
        }
        let ghost s = dfs_paths(r);
        let ghost i = choose|i: int| 0 <= i < s.len() && s[i] == lm.path();
        proof {
            if c.path().len() == 0 {
                lemma_dfs_root(r);
                assert(c.current() == r);
                assert(lm.path() =~= lmost_rel(r));
                assert(s[0] == lmost_rel(r));
                if i != 0 {
                    lemma_dfs_paths_sorted(r);
                    assert(s[0] != s[i]);
                    assert(false);
                }
            }
        }
        CursorIterator { state: Ok(lm), pos: Ghost(i) }
    }

    /// Yield the cursor at the current traversal position and step to the
    /// next one; `None` once the whole tree has been yielded.
    pub fn next(&mut self) -> (r: Option<Cursor<'a>>)
        requires
            old(self).wf(),
        ensures
            final(self).wf(),
            final(self).root() == old(self).root(),
            old(self).pos() < dfs_paths(old(self).root()).len() ==> {
                &&& final(self).pos() == old(self).pos() + 1
                &&& match r {
                    Some(c) => {
                        &&& c.wf()
                        &&& c.root() == old(self).root()
                        &&& c.path() == dfs_paths(old(self).root())[old(self).pos()]
                    },
                    None => false,
                }
            },
            old(self).pos() >= dfs_paths(old(self).root()).len() ==> r is None && *final(self)
                == *old(self),
    {
        let ghost r0 = self.root();
        let ghost s = dfs_paths(r0);
        let ghost p0 = self.pos@;
        match &self.state {
            Err(_) => None,
            Ok(c) => {
                let cur = c.duplicate();
                proof {
                    lemma_dfs_root(r0);
                }
                let next_state: Result<Cursor<'a>, Cursor<'a>> = match cur.duplicate(
                ).next_sibling() {
                    Ok(sib) => {
                        let lm = sib.left_most_descendant();
                        proof {
                            assert(sib.path() =~= cur.path().drop_last().push(
                                cur.path().last() + 1,
                            ));
                            assert(lm.path() == sib.path() + lmost_rel(node_at(r0, sib.path())));
                            assert(succ_path(r0, cur.path()) == Some(lm.path()));
                            if p0 == s.len() - 1 {
                                assert(s[p0] == Seq::<int>::empty());
                                assert(false);
                            }
                            assert(succ_path(r0, s[p0]) == Some(s[p0 + 1]));
                        }
                        Ok(lm)
                    },
                    Err(same) => match same.ascend() {
                        Ok(par) => {
                            proof {
                                assert(succ_path(r0, cur.path()) == Some(par.path()));
                                if p0 == s.len() - 1 {
                                    assert(s[p0] == Seq::<int>::empty());
                                    assert(false);
                                }
                                assert(succ_path(r0, s[p0]) == Some(s[p0 + 1]));
                            }
                            Ok(par)
                        },
                        Err(done) => {
                            proof {
                                assert(done.path().len() == 0);
                                if p0 < s.len() - 1 {
                                    lemma_dfs_paths_sorted(r0);
                                    assert(s[s.len() - 1] == Seq::<int>::empty());
                                    assert(s[p0] =~= s[s.len() - 1]);
                                    assert(false);
                                }
                            }
                            Err(done)
                        },
                    },
                };
                self.state = next_state;
                proof {
                    self.pos@ = p0 + 1;
                }
                Some(cur)
            },
        }
    }
}

/// Law: moving to the next sibling and then to the previous one returns to
/// the original position. `c1` is any cursor standing neither on its
/// parent's first nor last combined child, `c2` is what `next_sibling`
/// promises to return for it, and `c3` what `prev_sibling` promises for
/// `c2`; then `c3` stands where `c1` stood.
pub proof fn lemma_sibling_navigation_inverse<'a>(c1: Cursor<'a>, c2: Cursor<'a>, c3: Cursor<'a>)
    requires
        c1.wf(),
        c1.path().len() > 0,
        c1.path().last() > 0,
        c1.path().last() + 1 < combined(c1.parent()).len(),
        c2.root() == c1.root(),
        c2.path() == c1.path().update(c1.path().len() - 1, c1.path().last() + 1),
        c3.root() == c2.root(),
        c3.path() == c2.path().update(c2.path().len() - 1, c2.path().last() - 1),
    ensures
        c3.path() == c1.path(),
        c3.current() == c1.current(),
{
    assert(c3.path() =~= c1.path());
}

/// The spot of the first focused node in the depth-first traversal of `n`:
/// entry `i` is focused and no earlier entry is.
pub open spec fn first_focused_at(n: TreeNode, i: int) -> bool {
    &&& 0 <= i < dfs_paths(n).len()
    &&& node_at(n, dfs_paths(n)[i]).focused
    &&& forall|j: int| 0 <= j < i ==> !node_at(n, #[trigger] dfs_paths(n)[j]).focused
}

/// Find the currently focused node in the layout tree: the first node in
/// depth-first order whose `focused` flag is set, or `None` when no node is
/// focused (a valid state, not an error).
pub fn find_focused<'a>(root: &'a TreeNode) -> (r: Option<Cursor<'a>>)
    requires
        arity_ok(*root),
    ensures
        match r {
            Some(c) => {
                &&& c.wf()
                &&& c.root() == *root
                &&& c.current().focused
                &&& exists|i: int|
                    first_focused_at(*root, i) && c.path() == #[trigger] dfs_paths(*root)[i]
            },
            None => forall|p: Seq<int>| valid_path(*root, p) ==> !node_at(*root, p).focused,
        },
{
    let mut it = CursorIterator::new(Cursor::new(root));
    loop
        invariant
            it.wf(),
            it.root() == *root,
            forall|j: int|
                0 <= j < it.pos() ==> !node_at(*root, #[trigger] dfs_paths(*root)[j]).focused,
        decreases dfs_paths(*root).len() - it.pos(),
    {
        let ghost before = it.pos();
        match it.next() {
            None => {
                proof {
                    assert forall|p: Seq<int>| valid_path(*root, p) implies !node_at(
                        *root,
                        p,
                    ).focused by {
                        lemma_dfs_contains(*root, p);
                        let k = choose|k: int|
                            0 <= k < dfs_paths(*root).len() && dfs_paths(*root)[k] == p;
                        assert(!node_at(*root, dfs_paths(*root)[k]).focused);
                    }
                }
                return None;
            },
            Some(c) => {
                if c.get_node().focused {
                    proof {
                        assert(c.current() == node_at(*root, dfs_paths(*root)[before]));
                        assert(first_focused_at(*root, before));
                    }
                    return Some(c);
                }
                proof {
                    assert(c.current() == node_at(*root, dfs_paths(*root)[before]));
                }
            },
        }
    }
}

} // verus!
