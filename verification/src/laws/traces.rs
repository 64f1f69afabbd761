//! Laws of traces: how many ancestors come, and that they climb.

use crate::syntax::{is_prefix, node_at, Path, SyntaxNode};
use crate::tracer::ancestors;
use vstd::prelude::*;

verus! {

/// How many of the ancestors of the node at `path` are named.
pub open spec fn named_depth(root: SyntaxNode, path: Path) -> nat
    decreases path.len(),
{
    if path.len() == 0 {
        0
    } else {
        (if node_at(root, path.drop_last()).named {
            1nat
        } else {
            0nat
        }) + named_depth(root, path.drop_last())
    }
}

/// `a` is an ancestor of `b`: a position strictly above it.
pub open spec fn strictly_above(a: Path, b: Path) -> bool {
    is_prefix(a, b) && a.len() < b.len()
}

/// The parent of a position, and what is above the parent, is above the
/// position.
proof fn lemma_above_parent(a: Path, path: Path)
    requires
        path.len() > 0,
        a == path.drop_last() || strictly_above(a, path.drop_last()),
    ensures
        strictly_above(a, path),
{
    assert(path.take(a.len() as int) =~= path.drop_last().take(a.len() as int));
    assert(path.drop_last().take(path.len() - 1) =~= path.drop_last());
}

/// A trace yields as many positions as the node has ancestors, or named
/// ancestors where it yields only those; each is an ancestor of the node, and
/// each is an ancestor of the one before it, so that none comes twice and
/// none lies below an earlier one. A trace over all ancestors ends on the
/// root.
pub proof fn law_trace_climbs(root: SyntaxNode, path: Path, concrete: bool)
    ensures
        concrete ==> ancestors(root, path, concrete).len() == path.len(),
        !concrete ==> ancestors(root, path, concrete).len() == named_depth(root, path),
        forall|i: int|
            0 <= i < ancestors(root, path, concrete).len() ==> strictly_above(
                #[trigger] ancestors(root, path, concrete)[i],
                path,
            ),
        forall|i: int, j: int|
            0 <= i < j < ancestors(root, path, concrete).len() ==> strictly_above(
                #[trigger] ancestors(root, path, concrete)[j],
                #[trigger] ancestors(root, path, concrete)[i],
            ),
        concrete && path.len() > 0 ==> ancestors(root, path, concrete).last() == Seq::<
            int,
        >::empty(),
    decreases path.len(),
{
    if path.len() > 0 {
        let up = path.drop_last();
        let all = ancestors(root, path, concrete);
        let head_len: int = if concrete || node_at(root, up).named {
            1
        } else {
            0
        };
        let tail = ancestors(root, up, concrete);
        law_trace_climbs(root, up, concrete);
        // After the parent, where it is yielded, come the ancestors that a
        // trace from the parent yields.
        assert forall|i: int| head_len <= i < all.len() implies #[trigger] all[i] == tail[i
            - head_len] by {}
        assert forall|i: int| 0 <= i < all.len() implies strictly_above(#[trigger] all[i], path) by {
            lemma_above_parent(all[i], path);
        }
        if concrete && up.len() > 0 {
            assert(all.last() == tail.last());
        }
    }
}

} // verus!
