//! The events of a walk over a subtree, as sequences: which nodes a walk
//! enters and leaves, in which order, and which of those it lets out.

use crate::cursor::{exposed, first_exposed, STKind};
use crate::syntax::{node_at, Path, SyntaxNode};
use vstd::prelude::*;

verus! {

/// One step of a walk: a node is entered or left. The node is given by its
/// path from the root of the tree.
pub enum Event {
    Enter(Path),
    Leave(Path),
}

impl Event {
    /// The node that the event is about.
    pub open spec fn path(self) -> Path {
        match self {
            Event::Enter(p) => p,
            Event::Leave(p) => p,
        }
    }
}

/// The settings of a walk: how it moves (`nav`), whether it lets every node
/// out or only the named ones (`concrete`), and the kinds it does not look
/// into (`blocks`).
pub struct Walk {
    pub nav: STKind,
    pub concrete: bool,
    pub blocks: Seq<Seq<char>>,
}

/// Whether the walk lets events about the node `n` out.
pub open spec fn surfaced(w: Walk, n: SyntaxNode) -> bool {
    w.concrete || n.named
}

/// Whether the walk skips what is below `n`: `n` is let out and its kind is
/// one of the blocked kinds.
pub open spec fn blocked(w: Walk, n: SyntaxNode) -> bool {
    surfaced(w, n) && w.blocks.contains(n.kind)
}

/// Every event of the walk over the node `n`, which stands at `p`: `n` is
/// entered, then each child that the movement exposes is walked in turn,
/// unless `n` is blocked, then `n` is left.
pub open spec fn visits(w: Walk, n: SyntaxNode, p: Path) -> Seq<Event>
    decreases n,
{
    seq![Event::Enter(p)] + (if blocked(w, n) {
        Seq::empty()
    } else {
        visits_from(w, n, p, 0)
    }) + seq![Event::Leave(p)]
}

/// The events of the walks over the exposed children of `n` from the child
/// with index `i` on.
pub open spec fn visits_from(w: Walk, n: SyntaxNode, p: Path, i: int) -> Seq<Event>
    decreases n, n.children.len() - i,
{
    if 0 <= i < n.children.len() {
        (if exposed(w.nav, n.children[i]) {
            visits(w, n.children[i], p.push(i))
        } else {
            Seq::empty()
        }) + visits_from(w, n, p, i + 1)
    } else {
        Seq::empty()
    }
}

/// Whether the walk lets the event `e` out.
pub open spec fn surfaces(w: Walk, root: SyntaxNode, e: Event) -> bool {
    surfaced(w, node_at(root, e.path()))
}

/// The events among `events` that the walk lets out, in order.
pub open spec fn emitted(w: Walk, root: SyntaxNode, events: Seq<Event>) -> Seq<Event>
    decreases events.len(),
{
    if events.len() == 0 {
        Seq::empty()
    } else {
        (if surfaces(w, root, events[0]) {
            seq![events[0]]
        } else {
            Seq::empty()
        }) + emitted(w, root, events.skip(1))
    }
}

/// The events that a walk from the node at `anchor` lets out, in order.
pub open spec fn walk_events(w: Walk, root: SyntaxNode, anchor: Path) -> Seq<Event> {
    emitted(w, root, visits(w, node_at(root, anchor), anchor))
}

/// The node of the first event among `events` that enters a node of kind
/// `kind`.
pub open spec fn first_entered(root: SyntaxNode, events: Seq<Event>, kind: Seq<char>) -> Option<
    Path,
>
    decreases events.len(),
{
    if events.len() == 0 {
        None
    } else if events[0] is Enter && node_at(root, events[0].path()).kind == kind {
        Some(events[0].path())
    } else {
        first_entered(root, events.skip(1), kind)
    }
}

/// The nodes of kind `kind` that `events` enter, in order.
pub open spec fn entered_of_kind(root: SyntaxNode, events: Seq<Event>, kind: Seq<char>) -> Seq<
    Path,
>
    decreases events.len(),
{
    if events.len() == 0 {
        Seq::empty()
    } else {
        (if events[0] is Enter && node_at(root, events[0].path()).kind == kind {
            seq![events[0].path()]
        } else {
            Seq::empty()
        }) + entered_of_kind(root, events.skip(1), kind)
    }
}

/// How many of the events enter a node.
pub open spec fn enters(events: Seq<Event>) -> nat
    decreases events.len(),
{
    if events.len() == 0 {
        0
    } else {
        (if events[0] is Enter {
            1nat
        } else {
            0nat
        }) + enters(events.skip(1))
    }
}

/// How many of the events leave a node.
pub open spec fn leaves(events: Seq<Event>) -> nat
    decreases events.len(),
{
    if events.len() == 0 {
        0
    } else {
        (if events[0] is Leave {
            1nat
        } else {
            0nat
        }) + leaves(events.skip(1))
    }
}

/// The nodes that are entered and not yet left after `events`, outermost
/// first, where `open` were so before; nothing where an event leaves a node
/// that is not the innermost one entered.
pub open spec fn nesting(events: Seq<Event>, open: Seq<Path>) -> Option<Seq<Path>>
    decreases events.len(),
{
    if events.len() == 0 {
        Some(open)
    } else {
        match events[0] {
            Event::Enter(p) => nesting(events.skip(1), open.push(p)),
            Event::Leave(p) => if open.len() > 0 && open.last() == p {
                nesting(events.skip(1), open.drop_last())
            } else {
                None
            },
        }
    }
}

/// Each node that is left was the innermost one entered, and in the end
/// every node that was entered has been left.
pub open spec fn well_nested(events: Seq<Event>) -> bool {
    nesting(events, Seq::empty()) == Some(Seq::<Path>::empty())
}

/// The events that are still to come once the walk has left the node at `p`,
/// up to the leaving of the node at `anchor`.
pub open spec fn after(w: Walk, root: SyntaxNode, anchor: Path, p: Path) -> Seq<Event>
    decreases p.len(),
{
    if p.len() <= anchor.len() {
        Seq::empty()
    } else {
        visits_from(w, node_at(root, p.drop_last()), p.drop_last(), p.last() + 1) + seq![
            Event::Leave(p.drop_last()),
        ] + after(w, root, anchor, p.drop_last())
    }
}

/// The walk over the children from `from` on starts with the walk over the
/// first exposed child, if there is one.
pub proof fn lemma_visits_from(w: Walk, n: SyntaxNode, p: Path, from: int)
    requires
        0 <= from,
    ensures
        visits_from(w, n, p, from) == match first_exposed(w.nav, n.children, from) {
            Some(k) => visits(w, n.children[k], p.push(k)) + visits_from(w, n, p, k + 1),
            None => Seq::empty(),
        },
    decreases n.children.len() - from,
{
    if from < n.children.len() && !exposed(w.nav, n.children[from]) {
        lemma_visits_from(w, n, p, from + 1);
    }
}

/// What is let out of two runs of events is what is let out of the first,
/// then what is let out of the second.
pub proof fn lemma_emitted_concat(w: Walk, root: SyntaxNode, a: Seq<Event>, b: Seq<Event>)
    ensures
        emitted(w, root, a + b) == emitted(w, root, a) + emitted(w, root, b),
    decreases a.len(),
{
    if a.len() > 0 {
        assert((a + b).skip(1) =~= a.skip(1) + b);
        lemma_emitted_concat(w, root, a.skip(1), b);
    }
}

/// What is let out of a single event.
pub proof fn lemma_emitted_one(w: Walk, root: SyntaxNode, e: Event)
    ensures
        emitted(w, root, seq![e]) == if surfaces(w, root, e) {
            seq![e]
        } else {
            Seq::<Event>::empty()
        },
{
    assert(emitted(w, root, seq![e].skip(1)) =~= Seq::<Event>::empty());
}

} // verus!
