//! Laws of the events of a walk: enterings and leavings match and nest, each
//! node comes once, and a walk that is over stays over.

use crate::cursor::exposed;
use crate::events::{
    blocked, emitted, enters, leaves, lemma_emitted_concat, lemma_emitted_one, nesting, surfaces,
    visits, visits_from, walk_events, well_nested, Event, Walk,
};
use crate::laws::filtering::{lemma_emitted_keeps_order, source_index};
use crate::syntax::{is_prefix, node_at, Path, SyntaxNode};
use crate::traverser::{lemma_advance, TraversalView};
use vstd::prelude::*;

verus! {

/// Running two runs of events is running the first, then the second.
pub proof fn lemma_nesting_concat(a: Seq<Event>, b: Seq<Event>, open: Seq<Path>)
    ensures
        nesting(a + b, open) == match nesting(a, open) {
            Some(then) => nesting(b, then),
            None => None,
        },
    decreases a.len(),
{
    if a.len() > 0 {
        assert((a + b).skip(1) =~= a.skip(1) + b);
        match a[0] {
            Event::Enter(p) => lemma_nesting_concat(a.skip(1), b, open.push(p)),
            Event::Leave(p) => if open.len() > 0 && open.last() == p {
                lemma_nesting_concat(a.skip(1), b, open.drop_last());
            },
        }
    }
}

/// What a walk over a subtree lets out leaves the open nodes as they were.
pub proof fn lemma_walk_nests(w: Walk, root: SyntaxNode, n: SyntaxNode, p: Path, open: Seq<Path>)
    ensures
        nesting(emitted(w, root, visits(w, n, p)), open) == Some(open),
    decreases n, n.children.len() + 1,
{
    let enter = seq![Event::Enter(p)];
    let leave = seq![Event::Leave(p)];
    let inner = if blocked(w, n) {
        Seq::empty()
    } else {
        visits_from(w, n, p, 0)
    };
    lemma_emitted_concat(w, root, enter + inner, leave);
    lemma_emitted_concat(w, root, enter, inner);
    lemma_emitted_one(w, root, Event::Enter(p));
    lemma_emitted_one(w, root, Event::Leave(p));
    let e_enter = emitted(w, root, enter);
    let e_inner = emitted(w, root, inner);
    let e_leave = emitted(w, root, leave);
    // The node is open while its children are walked, if it is let out.
    let within = if surfaces(w, root, Event::Enter(p)) {
        open.push(p)
    } else {
        open
    };
    assert(nesting(e_enter, open) == Some(within)) by {
        reveal_with_fuel(nesting, 2);
    }
    assert(nesting(e_inner, within) == Some(within)) by {
        if !blocked(w, n) {
            lemma_children_nest(w, root, n, p, 0, within);
        }
    }
    assert(nesting(e_leave, within) == Some(open)) by {
        reveal_with_fuel(nesting, 2);
        assert(open.push(p).drop_last() =~= open);
    }
    lemma_nesting_concat(e_enter, e_inner, open);
    lemma_nesting_concat(e_enter + e_inner, e_leave, open);
}

/// What the walks over the children of a node let out leaves the open nodes
/// as they were.
pub proof fn lemma_children_nest(
    w: Walk,
    root: SyntaxNode,
    n: SyntaxNode,
    p: Path,
    i: int,
    open: Seq<Path>,
)
    ensures
        nesting(emitted(w, root, visits_from(w, n, p, i)), open) == Some(open),
    decreases n, n.children.len() - i,
{
    if 0 <= i < n.children.len() {
        let head = if exposed(w.nav, n.children[i]) {
            visits(w, n.children[i], p.push(i))
        } else {
            Seq::empty()
        };
        let tail = visits_from(w, n, p, i + 1);
        lemma_emitted_concat(w, root, head, tail);
        if exposed(w.nav, n.children[i]) {
            lemma_walk_nests(w, root, n.children[i], p.push(i), open);
        }
        lemma_children_nest(w, root, n, p, i + 1, open);
        lemma_nesting_concat(emitted(w, root, head), emitted(w, root, tail), open);
    }
}

/// Events that nest enter as many nodes more than they leave as they leave
/// open.
pub proof fn lemma_nesting_counts(events: Seq<Event>, open: Seq<Path>)
    requires
        nesting(events, open) is Some,
    ensures
        enters(events) + open.len() == leaves(events) + nesting(events, open)->0.len(),
    decreases events.len(),
{
    if events.len() > 0 {
        match events[0] {
            Event::Enter(p) => lemma_nesting_counts(events.skip(1), open.push(p)),
            Event::Leave(p) => lemma_nesting_counts(events.skip(1), open.drop_last()),
        }
    }
}

/// A walk lets out as many enterings as leavings, and they nest: each node
/// that is left is the innermost one that was entered and not yet left.
pub proof fn law_events_nest(w: Walk, root: SyntaxNode, anchor: Path)
    ensures
        well_nested(walk_events(w, root, anchor)),
        enters(walk_events(w, root, anchor)) == leaves(walk_events(w, root, anchor)),
{
    lemma_walk_nests(w, root, node_at(root, anchor), anchor, Seq::empty());
    lemma_nesting_counts(walk_events(w, root, anchor), Seq::empty());
}

/// No event occurs twice.
pub open spec fn no_repeats(events: Seq<Event>) -> bool {
    forall|i: int, j: int|
        0 <= i < j < events.len() ==> #[trigger] events[i] != #[trigger] events[j]
}

/// The events of the walk over a node are all different, and all are about
/// the node or nodes below it.
proof fn lemma_visits_once(w: Walk, n: SyntaxNode, p: Path)
    ensures
        no_repeats(visits(w, n, p)),
        forall|k: int|
            0 <= k < visits(w, n, p).len() ==> is_prefix(p, (#[trigger] visits(w, n, p)[k]).path()),
    decreases n, n.children.len() + 1,
{
    let all = visits(w, n, p);
    let inner = if blocked(w, n) {
        Seq::empty()
    } else {
        visits_from(w, n, p, 0)
    };
    if !blocked(w, n) {
        lemma_visits_from_once(w, n, p, 0);
    }
    assert(p.take(p.len() as int) =~= p);
    // Between the entering and the leaving of the node stand the events of
    // its children, which are about longer paths.
    assert forall|k: int| 0 < k < all.len() - 1 implies #[trigger] all[k] == inner[k - 1] by {}
}

/// The events of the walks over the children of a node from the child with
/// index `i` on are all different, and each is about a node at or below one
/// of those children.
proof fn lemma_visits_from_once(w: Walk, n: SyntaxNode, p: Path, i: int)
    requires
        0 <= i,
    ensures
        no_repeats(visits_from(w, n, p, i)),
        forall|k: int|
            0 <= k < visits_from(w, n, p, i).len() ==> {
                let q = (#[trigger] visits_from(w, n, p, i)[k]).path();
                &&& is_prefix(p, q)
                &&& q.len() > p.len()
                &&& q[p.len() as int] >= i
            },
    decreases n, n.children.len() - i,
{
    if i < n.children.len() {
        let all = visits_from(w, n, p, i);
        let head = if exposed(w.nav, n.children[i]) {
            visits(w, n.children[i], p.push(i))
        } else {
            Seq::empty()
        };
        let tail = visits_from(w, n, p, i + 1);
        if exposed(w.nav, n.children[i]) {
            lemma_visits_once(w, n.children[i], p.push(i));
        }
        lemma_visits_from_once(w, n, p, i + 1);
        // The events of the child with index `i` go through that child, the
        // later ones through later children.
        assert forall|k: int| 0 <= k < all.len() implies {
            let q = (#[trigger] all[k]).path();
            &&& is_prefix(p, q)
            &&& q.len() > p.len()
            &&& (k < head.len() ==> all[k] == head[k] && q[p.len() as int] == i)
            &&& (k >= head.len() ==> all[k] == tail[k - head.len()] && q[p.len() as int] > i)
        } by {
            if k < head.len() {
                lemma_through_child(p, i, all[k].path());
            }
        }
    }
}

/// A path that starts with `p` and then `i` starts with `p` and has `i` as
/// its next index.
pub proof fn lemma_through_child(p: Path, i: int, q: Path)
    requires
        is_prefix(p.push(i), q),
    ensures
        is_prefix(p, q),
        q.len() > p.len(),
        q[p.len() as int] == i,
        q.take(p.len() as int + 1) == p.push(i),
{
    assert(q.take(p.len() as int) =~= q.take(p.len() as int + 1).take(p.len() as int));
    assert(p.push(i).take(p.len() as int) =~= p);
    assert(q.take(p.len() as int + 1)[p.len() as int] == i);
}

/// A walk lets out no event twice: each node is entered at most once and left
/// at most once.
pub proof fn law_each_node_once(w: Walk, root: SyntaxNode, anchor: Path)
    ensures
        no_repeats(walk_events(w, root, anchor)),
{
    let all = visits(w, node_at(root, anchor), anchor);
    let out = walk_events(w, root, anchor);
    lemma_visits_once(w, node_at(root, anchor), anchor);
    lemma_emitted_keeps_order(w, root, all);
    assert forall|a: int, b: int| 0 <= a < b < out.len() implies #[trigger] out[a]
        != #[trigger] out[b] by {
        assert(all[source_index(w, root, all, a)] != all[source_index(w, root, all, b)]);
    }
}

/// A walk that is over stays over: no step, pass or `next` brings it back,
/// and it yields nothing more.
pub proof fn law_walk_stays_over(v: TraversalView)
    requires
        v.end,
    ensures
        v.stepped().end,
        v.passed().end,
        v.after_next().end,
        v.step_event() is None,
        v.rest().len() == 0,
{
}

/// A walk that is to let out nothing more is over after `next`.
pub proof fn law_walk_ends(v: TraversalView)
    requires
        v.wf(),
        v.rest().len() == 0,
    ensures
        v.after_next().end,
    decreases v.pending().len(),
{
    if !v.end {
        let first = v.pending()[0];
        lemma_advance(v);
        assert(v.pending() =~= seq![first] + v.pending().skip(1));
        lemma_emitted_concat(v.walk, v.root, seq![first], v.pending().skip(1));
        lemma_emitted_one(v.walk, v.root, first);
        law_walk_ends(v.advanced());
    }
}

} // verus!
