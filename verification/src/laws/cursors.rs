//! Laws of cursors: the way back from the parent, and the text of a node.

use crate::cursor::{
    exposed, lemma_first_exposed, lemma_named_before_bound, named_before, nth_exposed,
    CursorView, STKind,
};
use crate::syntax::{lemma_children_fit, lemma_parent, node_at, SyntaxNode};
use crate::text::lemma_slice_all;
use vstd::prelude::*;
use vstd::utf8::encode_utf8;

verus! {

/// How many of the nodes from `from` up to, not including, `to` the mode
/// exposes.
pub open spec fn exposed_between(mode: STKind, nodes: Seq<SyntaxNode>, from: int, to: int) -> nat
    decreases to - from,
{
    if from >= to {
        0
    } else {
        (if exposed(mode, nodes[from]) {
            1nat
        } else {
            0nat
        }) + exposed_between(mode, nodes, from + 1, to)
    }
}

/// Counting up to and including a node adds that node to the count.
proof fn lemma_exposed_between_last(mode: STKind, nodes: Seq<SyntaxNode>, from: int, to: int)
    requires
        from <= to,
    ensures
        exposed_between(mode, nodes, from, to + 1) == exposed_between(mode, nodes, from, to) + (
        if exposed(mode, nodes[to]) {
            1nat
        } else {
            0nat
        }),
    decreases to - from,
{
    if from < to {
        lemma_exposed_between_last(mode, nodes, from + 1, to);
    } else {
        assert(exposed_between(mode, nodes, from + 1, to + 1) == 0);
    }
}

/// Where the mode exposes exactly the named nodes, the named nodes and the
/// exposed nodes before a node are equally many.
proof fn lemma_named_before_counts(mode: STKind, nodes: Seq<SyntaxNode>, upto: int)
    requires
        0 <= upto,
        forall|k: int| 0 <= k < upto ==> exposed(mode, #[trigger] nodes[k]) == nodes[k].named,
    ensures
        named_before(nodes, upto) == exposed_between(mode, nodes, 0, upto),
    decreases upto,
{
    if upto > 0 {
        lemma_named_before_counts(mode, nodes, upto - 1);
        lemma_exposed_between_last(mode, nodes, 0, upto - 1);
    }
}

/// Counting as many exposed nodes as lie before an exposed node leads to it.
pub proof fn lemma_nth_exposed_reaches(
    mode: STKind,
    nodes: Seq<SyntaxNode>,
    from: int,
    target: int,
)
    requires
        0 <= from <= target < nodes.len(),
        exposed(mode, nodes[target]),
    ensures
        nth_exposed(mode, nodes, from, exposed_between(mode, nodes, from, target)) == Some(
            target,
        ),
    decreases target - from,
{
    lemma_first_exposed(mode, nodes, from);
    if from < target {
        lemma_nth_exposed_reaches(mode, nodes, from + 1, target);
        if !exposed(mode, nodes[from]) {
            lemma_first_exposed(mode, nodes, from + 1);
        }
    }
}

/// From a node other than the root, `goto_parent` followed by `goto_child`
/// with what `get_index` gave leads back to the node, provided that the
/// cursor's mode exposes the node and that, among the siblings before it, the
/// mode exposes exactly the named ones. In `Abstract` mode that asks that the
/// node is named; in `Concrete` mode, that the siblings before it are. The
/// index fits a machine integer, so that `get_index` gives it as it is.
pub proof fn law_parent_then_indexed_child(c: CursorView)
    requires
        c.path.len() > 0,
        c.on_tree(),
        exposed(c.stkind, c.node()),
        forall|k: int|
            0 <= k < c.path.last() ==> exposed(
                c.stkind,
                #[trigger] node_at(c.root, c.path.drop_last()).children[k],
            ) == node_at(c.root, c.path.drop_last()).children[k].named,
    ensures
        c.parent() is Some,
        c.index() <= usize::MAX,
        c.go(c.parent()).child(c.index()) == Some(c.path),
        c.go(c.parent()).go(c.go(c.parent()).child(c.index())) == c,
{
    let siblings = node_at(c.root, c.path.drop_last()).children;
    lemma_parent(c.root, c.path);
    lemma_children_fit(c.root, c.path.drop_last());
    lemma_named_before_bound(siblings, c.path.last());
    lemma_named_before_counts(c.stkind, siblings, c.path.last());
    lemma_nth_exposed_reaches(c.stkind, siblings, 0, c.path.last());
}

/// The text of a node that spans the whole text of its file, as the root of
/// a tree does where the parser made it so, is that text.
pub proof fn law_text_of_spanning_node(c: CursorView)
    requires
        c.node().start == 0,
        c.node().end == encode_utf8(c.file.source).len(),
    ensures
        c.text() == c.file.source,
{
    lemma_slice_all(c.file.source);
}

} // verus!
