//! How the events that a walk lets out relate to the events that it makes.

use crate::events::{emitted, surfaces, Event, Walk};
use crate::syntax::SyntaxNode;
use vstd::prelude::*;

verus! {

/// Each event that is let out is one of the events, and one that the walk
/// lets out.
pub proof fn lemma_emitted_subset(w: Walk, root: SyntaxNode, events: Seq<Event>)
    ensures
        forall|k: int|
            0 <= k < emitted(w, root, events).len() ==> events.contains(
                #[trigger] emitted(w, root, events)[k],
            ) && surfaces(w, root, emitted(w, root, events)[k]),
    decreases events.len(),
{
    if events.len() > 0 {
        let tail = events.skip(1);
        let head_len: int = if surfaces(w, root, events[0]) {
            1
        } else {
            0
        };
        lemma_emitted_subset(w, root, tail);
        assert forall|k: int| 0 <= k < emitted(w, root, events).len() implies events.contains(
            #[trigger] emitted(w, root, events)[k],
        ) && surfaces(w, root, emitted(w, root, events)[k]) by {
            if k >= head_len {
                let e = emitted(w, root, tail)[k - head_len];
                let j = choose|j: int| 0 <= j < tail.len() && tail[j] == e;
                assert(events[j + 1] == e);
            }
        }
    }
}

/// Each of the events that the walk lets out is among those let out.
pub proof fn lemma_emitted_keeps(w: Walk, root: SyntaxNode, events: Seq<Event>, e: Event)
    requires
        events.contains(e),
        surfaces(w, root, e),
    ensures
        emitted(w, root, events).contains(e),
    decreases events.len(),
{
    let tail = events.skip(1);
    let head_len: int = if surfaces(w, root, events[0]) {
        1
    } else {
        0
    };
    if events[0] == e {
        assert(emitted(w, root, events)[0] == e);
    } else {
        let j = choose|j: int| 0 <= j < events.len() && events[j] == e;
        assert(tail[j - 1] == e);
        lemma_emitted_keeps(w, root, tail, e);
        let k = choose|k: int|
            0 <= k < emitted(w, root, tail).len() && emitted(w, root, tail)[k] == e;
        assert(emitted(w, root, events)[k + head_len] == e);
    }
}

/// A walk that lets every node out lets out all its events.
pub proof fn lemma_emitted_all(w: Walk, root: SyntaxNode, events: Seq<Event>)
    requires
        w.concrete,
    ensures
        emitted(w, root, events) == events,
    decreases events.len(),
{
    if events.len() > 0 {
        lemma_emitted_all(w, root, events.skip(1));
    }
}

/// Where among `events` the event with index `k` of those let out stands.
pub open spec fn source_index(w: Walk, root: SyntaxNode, events: Seq<Event>, k: int) -> int
    decreases events.len(),
{
    if events.len() == 0 {
        0
    } else if surfaces(w, root, events[0]) {
        if k == 0 {
            0
        } else {
            1 + source_index(w, root, events.skip(1), k - 1)
        }
    } else {
        1 + source_index(w, root, events.skip(1), k)
    }
}

/// What is let out keeps the order of the events: each event let out is one
/// of the events, and a later one is a later one among the events.
pub proof fn lemma_emitted_keeps_order(w: Walk, root: SyntaxNode, events: Seq<Event>)
    ensures
        forall|k: int|
            0 <= k < emitted(w, root, events).len() ==> {
                &&& 0 <= #[trigger] source_index(w, root, events, k) < events.len()
                &&& events[source_index(w, root, events, k)] == emitted(w, root, events)[k]
            },
        forall|a: int, b: int|
            0 <= a < b < emitted(w, root, events).len() ==> #[trigger] source_index(
                w,
                root,
                events,
                a,
            ) < #[trigger] source_index(w, root, events, b),
    decreases events.len(),
{
    if events.len() > 0 {
        let tail = events.skip(1);
        let out = emitted(w, root, events);
        let head_len: int = if surfaces(w, root, events[0]) {
            1
        } else {
            0
        };
        lemma_emitted_keeps_order(w, root, tail);
        assert forall|k: int| 0 <= k < out.len() implies {
            &&& 0 <= #[trigger] source_index(w, root, events, k) < events.len()
            &&& events[source_index(w, root, events, k)] == out[k]
        } by {
            if k >= head_len {
                let t = source_index(w, root, tail, k - head_len);
                assert(out[k] == emitted(w, root, tail)[k - head_len]);
                assert(tail[t] == events[t + 1]);
            }
        }
        assert forall|a: int, b: int| 0 <= a < b < out.len() implies #[trigger] source_index(
            w,
            root,
            events,
            a,
        ) < #[trigger] source_index(w, root, events, b) by {
            if a >= head_len {
                assert(source_index(w, root, tail, a - head_len) < source_index(
                    w,
                    root,
                    tail,
                    b - head_len,
                ));
            }
        }
    }
}

} // verus!
