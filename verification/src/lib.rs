//! Focus navigation for a tiling window manager that skips over siblings in
//! tabbed or stacked containers.
//!
//! Moving focus in a direction normally selects the next sibling inside the
//! enclosing container, even when that container is tabbed or stacked and the
//! sibling is not physically adjacent on screen. This library computes, from
//! the window manager's layout tree, the batch of "focus parent" commands
//! needed to escape such containers before the final directional move.
//!
//! The tree arrives over the window manager's IPC socket and is decoded by
//! the caller; this crate holds the verified core: the layout tree model
//! ([`tree`]), a cursor and depth-first traversal over it ([`tree::cursor`]),
//! the framing of IPC messages ([`messages`]), and the navigation planner
//! (this module).

use vstd::prelude::*;

pub mod cli;
pub mod messages;
pub mod tree;

verus! {

use vstd::string::StringExecFns;

use crate::cli::Direction;
use crate::tree::cursor::{find_focused, first_focused_at, Cursor};
use crate::tree::order::dfs_paths;
use crate::tree::path::{arity_ok, node_at, valid_path};
use crate::tree::{CommandResult, Layout, TreeNode};

/// A layout in which siblings occupy adjacent regions of the screen, so a
/// directional focus move already does the right thing: the ancestor walk
/// stops here. Tabbed, stacked and leaf layouts are escaped instead.
pub open spec fn spatial_layout(layout: Layout) -> bool {
    layout == Layout::SplitH || layout == Layout::SplitV || layout == Layout::Output
}

/// How many "focus parent" commands the walk emits when it starts at the
/// `k`-th ancestor (nearest first) of the node at `p`: one per ancestor until
/// the first with a spatial layout.
pub open spec fn escapes_from(r: TreeNode, p: Seq<int>, k: int) -> int
    decreases p.len() - k,
{
    if !(0 <= k < p.len()) {
        0
    } else if spatial_layout(node_at(r, p.take(p.len() - 1 - k)).layout) {
        0
    } else {
        1 + escapes_from(r, p, k + 1)
    }
}

/// While no ancestor below `k` is spatial, the whole walk splits into `k`
/// emitted commands plus the walk from `k` on.
proof fn lemma_escapes_prefix(r: TreeNode, p: Seq<int>, k: int)
    requires
        0 <= k <= p.len(),
        forall|j: int|
            0 <= j < k ==> !spatial_layout(
                node_at(r, #[trigger] p.take(p.len() - 1 - j)).layout,
            ),
    ensures
        escapes_from(r, p, 0) == k + escapes_from(r, p, k),
    decreases k,
{
    if k > 0 {
        lemma_escapes_prefix(r, p, k - 1);
    }
}

/// The command that moves focus in `dir`.
pub open spec fn direction_command_spec(dir: Direction) -> Seq<char> {
    match dir {
        Direction::Left => "focus left"@,
        Direction::Right => "focus right"@,
        Direction::Up => "focus up"@,
        Direction::Down => "focus down"@,
    }
}

/// The command that moves focus in `dir`.
pub fn direction_command(dir: Direction) -> (r: &'static str)
    ensures
        r@ == direction_command_spec(dir),
{
    match dir {
        Direction::Left => "focus left",
        Direction::Right => "focus right",
        Direction::Up => "focus up",
        Direction::Down => "focus down",
    }
}

/// The full command batch: `n` "focus parent" commands, then the directional
/// move, joined by the command separator.
pub open spec fn batch_spec(n: int, dir: Direction) -> Seq<char>
    decreases n,
{
    if n <= 0 {
        direction_command_spec(dir)
    } else {
        "focus parent; "@ + batch_spec(n - 1, dir)
    }
}

/// Count the ancestors of the focused node, nearest first, that must be
/// escaped before a directional move: all of them up to (not counting) the
/// first whose layout is spatial.
pub fn escape_count(c: &Cursor) -> (n: usize)
    requires
        c.wf(),
    ensures
        n as int == escapes_from(c.root(), c.path(), 0),
        n <= c.path().len(),
{
    let ancs = c.ancestors();
    let d = ancs.len();
    let mut k: usize = 0;
    loop
        invariant
            c.wf(),
            d == ancs@.len(),
            ancs@.len() == c.path().len(),
            forall|m: int|
                0 <= m < ancs@.len() ==> {
                    &&& (#[trigger] ancs@[m]).wf()
                    &&& ancs@[m].root() == c.root()
                    &&& ancs@[m].path() == c.path().take(c.path().len() - 1 - m)
                },
            0 <= k <= d,
            forall|j: int|
                0 <= j < k ==> !spatial_layout(
                    node_at(c.root(), #[trigger] c.path().take(c.path().len() - 1 - j)).layout,
                ),
        decreases d - k,
    {
        if k == d {
            proof {
                lemma_escapes_prefix(c.root(), c.path(), k as int);
            }
            return k;
        }
        let layout = (&ancs[k]).get_node().layout;
        if layout == Layout::SplitH || layout == Layout::SplitV || layout == Layout::Output {
            proof {
                assert(spatial_layout(
                    node_at(c.root(), c.path().take(c.path().len() - 1 - k as int)).layout,
                ));
                lemma_escapes_prefix(c.root(), c.path(), k as int);
            }
            return k;
        }
        k += 1;
    }
}

/// Join `escapes` "focus parent" commands and the directional move into one
/// batch string.
pub fn build_batch(escapes: usize, dir: Direction) -> (r: String)
    ensures
        r@ == batch_spec(escapes as int, dir),
{
    let mut s = String::new();
    proof {
        assert(s@ + batch_spec(escapes as int, dir) =~= batch_spec(escapes as int, dir));
    }
    let mut i: usize = 0;
    while i < escapes
        invariant
            i <= escapes,
            s@ + batch_spec(escapes - i as int, dir) == batch_spec(escapes as int, dir),
        decreases escapes - i,
    {
        s.append("focus parent; ");
        proof {
            assert(s@ + batch_spec(escapes - (i + 1) as int, dir) =~= batch_spec(
                escapes as int,
                dir,
            ));
        }
        i += 1;
    }
    s.append(direction_command(dir));
    proof {
        assert(s@ =~= batch_spec(escapes as int, dir));
    }
    s
}

/// Plan a change of focus in `dir`: find the focused node, escape its
/// tabbed, stacked and leaf ancestors, and end with the directional move.
/// `None` when no node is focused — a valid outcome on which the caller
/// submits nothing and reports informationally.
pub fn plan_focus_change(root: &TreeNode, dir: Direction) -> (r: Option<String>)
    requires
        arity_ok(*root),
    ensures
        match r {
            Some(batch) => exists|i: int|
                #[trigger] first_focused_at(*root, i) && batch@ == batch_spec(
                    escapes_from(*root, dfs_paths(*root)[i], 0),
                    dir,
                ),
            None => forall|p: Seq<int>| valid_path(*root, p) ==> !node_at(*root, p).focused,
        },
{
    match find_focused(root) {
        None => None,
        Some(c) => {
            let n = escape_count(&c);
            let batch = build_batch(n, dir);
            proof {
                let i = choose|i: int|
                    first_focused_at(*root, i) && c.path() == #[trigger] dfs_paths(*root)[i];
                assert(first_focused_at(*root, i) && batch@ == batch_spec(
                    escapes_from(*root, dfs_paths(*root)[i], 0),
                    dir,
                ));
            }
            Some(batch)
        },
    }
}

/// The index of the first command of a submitted batch that the window
/// manager reports as failed, or `None` when every command succeeded. Any
/// failure is fatal for the invocation; commands before it stay applied.
pub fn first_failure(results: &Vec<CommandResult>) -> (r: Option<usize>)
    ensures
        match r {
            Some(i) => i < results@.len() && !results@[i as int].success && forall|j: int|
                0 <= j < i ==> (#[trigger] results@[j]).success,
            None => forall|j: int| 0 <= j < results@.len() ==> (#[trigger] results@[j]).success,
        },
{
    let mut i: usize = 0;
    while i < results.len()
        invariant
            i <= results@.len(),
            forall|j: int| 0 <= j < i ==> (#[trigger] results@[j]).success,
        decreases results@.len() - i,
    {
        if !(&results[i]).success {
            return Some(i);
        }
        i += 1;
    }
    None
}

} // verus!
