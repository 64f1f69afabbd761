//! Laws of the two ways of letting events out: the named nodes among all.

use crate::cursor::STKind;
use crate::events::{blocked, emitted, visits, visits_from, walk_events, Walk};
use crate::laws::filtering::{lemma_emitted_all, lemma_emitted_subset};
use crate::syntax::{lemma_node_at_concat, node_at, valid_path, Path, SyntaxNode};
use vstd::prelude::*;

verus! {

/// The walk `w` with every node let out.
pub open spec fn concrete_of(w: Walk) -> Walk {
    Walk { concrete: true, ..w }
}

/// The walk `w` with the named nodes let out only.
pub open spec fn abstract_of(w: Walk) -> Walk {
    Walk { concrete: false, ..w }
}

/// No node of the tree `n` that is not named has a blocked kind.
pub open spec fn blocks_named_only(blocks: Seq<Seq<char>>, n: SyntaxNode) -> bool {
    forall|rel: Path|
        valid_path(n, rel) && !(#[trigger] node_at(n, rel)).named ==> !blocks.contains(
            node_at(n, rel).kind,
        )
}

/// What holds of a tree holds of the trees under its children.
proof fn lemma_blocks_named_only_child(blocks: Seq<Seq<char>>, n: SyntaxNode, i: int)
    requires
        blocks_named_only(blocks, n),
        0 <= i < n.children.len(),
    ensures
        blocks_named_only(blocks, n.children[i]),
{
    let one = seq![i];
    assert(one.drop_last() =~= Seq::<int>::empty());
    assert(node_at(n, one) == n.children[i]);
    assert forall|rel: Path|
        valid_path(n.children[i], rel) && !(#[trigger] node_at(n.children[i], rel)).named implies
        !blocks.contains(node_at(n.children[i], rel).kind) by {
        lemma_node_at_concat(n, one, rel);
    }
}

/// Where the walks block the same nodes they make the same events.
proof fn lemma_same_visits(w: Walk, n: SyntaxNode, p: Path)
    requires
        blocks_named_only(w.blocks, n),
    ensures
        visits(abstract_of(w), n, p) == visits(concrete_of(w), n, p),
    decreases n, n.children.len() + 1,
{
    assert(node_at(n, Seq::<int>::empty()) == n);
    assert(blocked(abstract_of(w), n) == blocked(concrete_of(w), n));
    if !blocked(concrete_of(w), n) {
        lemma_same_visits_from(w, n, p, 0);
    }
}

/// Where the walks block the same nodes they make the same events over the
/// children of a node.
proof fn lemma_same_visits_from(w: Walk, n: SyntaxNode, p: Path, i: int)
    requires
        blocks_named_only(w.blocks, n),
    ensures
        visits_from(abstract_of(w), n, p, i) == visits_from(concrete_of(w), n, p, i),
    decreases n, n.children.len() - i,
{
    if 0 <= i < n.children.len() {
        lemma_blocks_named_only_child(w.blocks, n, i);
        lemma_same_visits(w, n.children[i], p.push(i));
        lemma_same_visits_from(w, n, p, i + 1);
    }
}

/// Of two walks over the same subtree that move alike and block the same
/// kinds, the one that lets every node out lets out each event that the other
/// lets out, and the other lets out exactly those of its events that are
/// about named nodes, in the same order. This holds where no node of the
/// subtree that is not named has a blocked kind, as is the case for walks
/// that block nothing.
pub proof fn law_named_events_of_concrete(w: Walk, root: SyntaxNode, anchor: Path)
    requires
        blocks_named_only(w.blocks, node_at(root, anchor)),
    ensures
        walk_events(abstract_of(w), root, anchor) == emitted(
            abstract_of(w),
            root,
            walk_events(concrete_of(w), root, anchor),
        ),
        forall|k: int|
            0 <= k < walk_events(abstract_of(w), root, anchor).len() ==> {
                &&& walk_events(concrete_of(w), root, anchor).contains(
                    #[trigger] walk_events(abstract_of(w), root, anchor)[k],
                )
                &&& node_at(root, walk_events(abstract_of(w), root, anchor)[k].path()).named
            },
{
    let n = node_at(root, anchor);
    lemma_same_visits(w, n, anchor);
    lemma_emitted_all(concrete_of(w), root, visits(concrete_of(w), n, anchor));
    lemma_emitted_subset(abstract_of(w), root, walk_events(concrete_of(w), root, anchor));
}

/// Of two walks over the same subtree that move alike and block nothing, the
/// one over the named nodes lets out exactly those events of the other that
/// are about named nodes, in the same order.
pub proof fn law_named_events_of_plain_walks(nav: STKind, root: SyntaxNode, anchor: Path)
    ensures
        walk_events(Walk { nav, concrete: false, blocks: Seq::empty() }, root, anchor) == emitted(
            Walk { nav, concrete: false, blocks: Seq::empty() },
            root,
            walk_events(Walk { nav, concrete: true, blocks: Seq::empty() }, root, anchor),
        ),
{
    law_named_events_of_concrete(
        Walk { nav, concrete: false, blocks: Seq::empty() },
        root,
        anchor,
    );
}

} // verus!
