//! Laws of blocked kinds: nothing below a blocked node is let out, and each
//! node that the walk comes to is.

use crate::cursor::exposed;
use crate::events::{blocked, surfaced, visits, visits_from, walk_events, Event, Walk};
use crate::laws::filtering::{lemma_emitted_keeps, lemma_emitted_subset};
use crate::laws::nesting::lemma_through_child;
use crate::syntax::{
    is_prefix, lemma_child, lemma_node_at_concat, node_at, valid_path, Path, SyntaxNode,
};
use vstd::prelude::*;

verus! {

/// No node above `q`, from `from` down, is blocked.
pub open spec fn unblocked_above(w: Walk, root: SyntaxNode, from: Path, q: Path) -> bool {
    forall|r: Path|
        is_prefix(from, r) && is_prefix(r, q) && r != q ==> !blocked(
            w,
            #[trigger] node_at(root, r),
        )
}

/// The walk comes to the node at `q`: `q` lies at or below `anchor` in the
/// tree, the walk's movement exposes each node on the way down from the
/// anchor, and no node above `q`, from the anchor down, is blocked.
pub open spec fn reached(w: Walk, root: SyntaxNode, anchor: Path, q: Path) -> bool {
    &&& is_prefix(anchor, q)
    &&& valid_path(node_at(root, anchor), q.skip(anchor.len() as int))
    &&& unblocked_above(w, root, anchor, q)
    &&& forall|r: Path|
        is_prefix(anchor, r) && is_prefix(r, q) && r != anchor ==> exposed(
            w.nav,
            #[trigger] node_at(root, r),
        )
}

/// The walk from a node comes to that node.
proof fn lemma_reached_self(w: Walk, root: SyntaxNode, p: Path)
    ensures
        reached(w, root, p, p),
{
    assert(p.take(p.len() as int) =~= p);
    assert(p.skip(p.len() as int) =~= Seq::<int>::empty());
    assert forall|r: Path| is_prefix(p, r) && is_prefix(r, p) implies r == p by {
        assert(r.take(p.len() as int) =~= r);
    }
}

/// Where the walk from an exposed child of a node that is not blocked comes
/// to, the walk from the node comes to.
proof fn lemma_reached_through_child(w: Walk, root: SyntaxNode, p: Path, i: int, q: Path)
    requires
        0 <= i < node_at(root, p).children.len(),
        exposed(w.nav, node_at(root, p).children[i]),
        !blocked(w, node_at(root, p)),
        reached(w, root, p.push(i), q),
    ensures
        reached(w, root, p, q),
{
    let n = node_at(root, p);
    let c = p.push(i);
    let rest = q.skip(c.len() as int);
    lemma_through_child(p, i, q);
    lemma_child(root, p, i);
    // The way from `p` to `q` is the step to the child, then the way on.
    let step = Seq::<int>::empty().push(i);
    assert(q.skip(p.len() as int) =~= step + rest);
    lemma_child(n, Seq::empty(), i);
    lemma_node_at_concat(n, step, rest);
    // What lies between `p` and `q` is `p` itself or lies at or below the
    // child.
    assert forall|r: Path| is_prefix(p, r) && is_prefix(r, q) && r != q implies !blocked(
        w,
        #[trigger] node_at(root, r),
    ) by {
        if r.len() == p.len() {
            assert(r.take(p.len() as int) =~= r);
        } else {
            assert(r.take(p.len() as int + 1) =~= q.take(p.len() as int + 1));
            assert(is_prefix(c, r));
        }
    }
    assert forall|r: Path| is_prefix(p, r) && is_prefix(r, q) && r != p implies exposed(
        w.nav,
        #[trigger] node_at(root, r),
    ) by {
        if r.len() == p.len() {
            assert(r.take(p.len() as int) =~= r);
        } else {
            assert(r.take(p.len() as int + 1) =~= q.take(p.len() as int + 1));
            assert(is_prefix(c, r));
        }
    }
}

/// The walk over the node at `p` comes to the node of each of its events.
proof fn lemma_visits_reached(w: Walk, root: SyntaxNode, n: SyntaxNode, p: Path)
    requires
        n == node_at(root, p),
    ensures
        forall|k: int|
            0 <= k < visits(w, n, p).len() ==> reached(
                w,
                root,
                p,
                (#[trigger] visits(w, n, p)[k]).path(),
            ),
    decreases n, n.children.len() + 1,
{
    let all = visits(w, n, p);
    let inner = if blocked(w, n) {
        Seq::empty()
    } else {
        visits_from(w, n, p, 0)
    };
    if !blocked(w, n) {
        lemma_visits_from_reached(w, root, n, p, 0);
    }
    lemma_reached_self(w, root, p);
    assert forall|k: int| 0 <= k < all.len() implies reached(
        w,
        root,
        p,
        (#[trigger] all[k]).path(),
    ) by {
        if 0 < k < all.len() - 1 {
            assert(all[k] == inner[k - 1]);
        }
    }
}

/// The walk over a node that is not blocked comes to the node of each event
/// of the walks over its children.
proof fn lemma_visits_from_reached(w: Walk, root: SyntaxNode, n: SyntaxNode, p: Path, i: int)
    requires
        n == node_at(root, p),
        !blocked(w, n),
    ensures
        forall|k: int|
            0 <= k < visits_from(w, n, p, i).len() ==> reached(
                w,
                root,
                p,
                (#[trigger] visits_from(w, n, p, i)[k]).path(),
            ),
    decreases n, n.children.len() - i,
{
    if 0 <= i < n.children.len() {
        let all = visits_from(w, n, p, i);
        let head = if exposed(w.nav, n.children[i]) {
            visits(w, n.children[i], p.push(i))
        } else {
            Seq::empty()
        };
        let tail = visits_from(w, n, p, i + 1);
        lemma_child(root, p, i);
        if exposed(w.nav, n.children[i]) {
            lemma_visits_reached(w, root, n.children[i], p.push(i));
        }
        lemma_visits_from_reached(w, root, n, p, i + 1);
        assert forall|k: int| 0 <= k < all.len() implies reached(
            w,
            root,
            p,
            (#[trigger] all[k]).path(),
        ) by {
            if k < head.len() {
                assert(all[k] == head[k]);
                lemma_reached_through_child(w, root, p, i, all[k].path());
            } else {
                assert(all[k] == tail[k - head.len()]);
            }
        }
    }
}

/// A walk comes to the node of each event that it lets out, and lets that
/// node out: the node lies at or below the anchor, the walk's movement
/// exposes each node on the way down to it, and no node above it, from the
/// anchor down, is blocked.
pub proof fn law_events_are_reached(w: Walk, root: SyntaxNode, anchor: Path)
    ensures
        forall|k: int|
            0 <= k < walk_events(w, root, anchor).len() ==> {
                &&& reached(w, root, anchor, (#[trigger] walk_events(w, root, anchor)[k]).path())
                &&& surfaced(w, node_at(root, walk_events(w, root, anchor)[k].path()))
            },
{
    let n = node_at(root, anchor);
    let all = visits(w, n, anchor);
    lemma_visits_reached(w, root, n, anchor);
    lemma_emitted_subset(w, root, all);
    assert forall|k: int| 0 <= k < walk_events(w, root, anchor).len() implies reached(
        w,
        root,
        anchor,
        (#[trigger] walk_events(w, root, anchor)[k]).path(),
    ) by {
        let e = walk_events(w, root, anchor)[k];
        let j = choose|j: int| 0 <= j < all.len() && all[j] == e;
        assert(all[j] == e);
    }
}

/// No event that a walk lets out is about a node below a blocked node, that
/// is below a node of a blocked kind that the walk lets out; and each event
/// is about a node at or below the anchor.
pub proof fn law_nothing_below_blocked(w: Walk, root: SyntaxNode, anchor: Path)
    ensures
        forall|k: int|
            0 <= k < walk_events(w, root, anchor).len() ==> is_prefix(
                anchor,
                (#[trigger] walk_events(w, root, anchor)[k]).path(),
            ) && unblocked_above(w, root, anchor, walk_events(w, root, anchor)[k].path()),
{
    law_events_are_reached(w, root, anchor);
}

/// What one of two runs of events holds, the two in a row hold.
proof fn lemma_contains_concat(a: Seq<Event>, b: Seq<Event>, e: Event)
    requires
        a.contains(e) || b.contains(e),
    ensures
        (a + b).contains(e),
{
    if a.contains(e) {
        let j = choose|j: int| 0 <= j < a.len() && a[j] == e;
        assert((a + b)[j] == e);
    } else {
        let j = choose|j: int| 0 <= j < b.len() && b[j] == e;
        assert((a + b)[a.len() + j] == e);
    }
}

/// The events of the walk over an exposed child are among the events of the
/// walks over the children.
proof fn lemma_visits_from_contains(w: Walk, n: SyntaxNode, p: Path, from: int, i: int, e: Event)
    requires
        0 <= from <= i < n.children.len(),
        exposed(w.nav, n.children[i]),
        visits(w, n.children[i], p.push(i)).contains(e),
    ensures
        visits_from(w, n, p, from).contains(e),
    decreases i - from,
{
    let head = if exposed(w.nav, n.children[from]) {
        visits(w, n.children[from], p.push(from))
    } else {
        Seq::empty()
    };
    if from < i {
        lemma_visits_from_contains(w, n, p, from + 1, i, e);
    }
    lemma_contains_concat(head, visits_from(w, n, p, from + 1), e);
}

/// The walk over the node at `p` enters and leaves each node that it comes
/// to.
proof fn lemma_visits_reach(w: Walk, root: SyntaxNode, n: SyntaxNode, p: Path, q: Path)
    requires
        n == node_at(root, p),
        reached(w, root, p, q),
    ensures
        visits(w, n, p).contains(Event::Enter(q)),
        visits(w, n, p).contains(Event::Leave(q)),
    decreases q.len() - p.len(),
{
    let all = visits(w, n, p);
    if q.len() == p.len() {
        assert(q.take(p.len() as int) =~= q);
        assert(all[0] == Event::Enter(q));
        assert(all[all.len() - 1] == Event::Leave(q));
    } else {
        // The way to `q` goes through the child `c` of `p`, which the walk
        // comes to, and from which it comes to `q`.
        let i = q[p.len() as int];
        let c = p.push(i);
        let rel = q.skip(p.len() as int);
        let enter = seq![Event::Enter(p)];
        let inner = visits_from(w, n, p, 0);
        assert(p.take(p.len() as int) =~= p);
        assert(!blocked(w, node_at(root, p)));
        assert(seq![i] + rel.skip(1) =~= rel);
        assert(seq![i].drop_last() =~= Seq::<int>::empty());
        lemma_node_at_concat(n, seq![i], rel.skip(1));
        lemma_child(root, p, i);
        assert(q.take(p.len() as int + 1) =~= c);
        assert(q.skip(c.len() as int) =~= rel.skip(1));
        assert forall|r: Path| is_prefix(c, r) && is_prefix(r, q) implies is_prefix(p, r) && r
            != p by {
            assert(r.take(p.len() as int) =~= r.take(c.len() as int).take(p.len() as int));
        }
        assert(c.take(p.len() as int) =~= p);
        assert(exposed(w.nav, node_at(root, c)));
        assert(reached(w, root, c, q));
        lemma_visits_reach(w, root, n.children[i], c, q);
        lemma_visits_from_contains(w, n, p, 0, i, Event::Enter(q));
        lemma_visits_from_contains(w, n, p, 0, i, Event::Leave(q));
        lemma_contains_concat(enter, inner, Event::Enter(q));
        lemma_contains_concat(enter, inner, Event::Leave(q));
        lemma_contains_concat(enter + inner, seq![Event::Leave(p)], Event::Enter(q));
        lemma_contains_concat(enter + inner, seq![Event::Leave(p)], Event::Leave(q));
    }
}

/// A walk lets out the entering and the leaving of each node that it comes
/// to and lets out. A node of a blocked kind is such a node where nothing
/// above it is blocked: it is entered and left, though nothing below it is.
pub proof fn law_reached_nodes_appear(w: Walk, root: SyntaxNode, anchor: Path, q: Path)
    requires
        reached(w, root, anchor, q),
        surfaced(w, node_at(root, q)),
    ensures
        walk_events(w, root, anchor).contains(Event::Enter(q)),
        walk_events(w, root, anchor).contains(Event::Leave(q)),
{
    let n = node_at(root, anchor);
    lemma_visits_reach(w, root, n, anchor, q);
    lemma_emitted_keeps(w, root, visits(w, n, anchor), Event::Enter(q));
    lemma_emitted_keeps(w, root, visits(w, n, anchor), Event::Leave(q));
}

} // verus!
