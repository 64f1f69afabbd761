//! The mathematical model of a syntax tree: a node with its facts and its
//! children, and positions in it given as paths of child indices.

use vstd::prelude::*;
use vstd::set_lib::{lemma_int_range, lemma_len_subset, lemma_map_size, set_int_range};

verus! {

/// One node of a syntax tree together with everything below it.
///
/// `field` is the role that the grammar gives the node under its parent; the
/// root of a tree has none. `start` and `end` are byte offsets into the text
/// that the tree was made from.
pub struct SyntaxNode {
    pub kind: Seq<char>,
    pub named: bool,
    pub id: usize,
    pub start: usize,
    pub end: usize,
    pub field: Option<Seq<char>>,
    pub children: Seq<SyntaxNode>,
}

/// A position in a tree: the child indices to follow from the root.
pub type Path = Seq<int>;

/// The node that `path` leads to from `root`. Meaningful where
/// `valid_path(root, path)` holds.
pub open spec fn node_at(root: SyntaxNode, path: Path) -> SyntaxNode
    decreases path.len(),
{
    if path.len() == 0 {
        root
    } else {
        node_at(root, path.drop_last()).children[path.last()]
    }
}

/// Every index of `path` names an existing child.
pub open spec fn valid_path(root: SyntaxNode, path: Path) -> bool
    decreases path.len(),
{
    path.len() == 0 || {
        &&& valid_path(root, path.drop_last())
        &&& 0 <= path.last() < node_at(root, path.drop_last()).children.len()
    }
}

/// No two nodes of the tree carry the same id.
pub open spec fn distinct_ids(root: SyntaxNode) -> bool {
    forall|p: Path, q: Path|
        #![trigger node_at(root, p), node_at(root, q)]
        valid_path(root, p) && valid_path(root, q) && node_at(root, p).id == node_at(root, q).id
            ==> p == q
}

/// The two nodes agree in all but their field: in kind, named, id, start, end
/// and children.
pub open spec fn same_but_field(a: SyntaxNode, b: SyntaxNode) -> bool {
    &&& a.kind == b.kind
    &&& a.named == b.named
    &&& a.id == b.id
    &&& a.start == b.start
    &&& a.end == b.end
    &&& a.children == b.children
}

/// `node` is, but for its field, the node of the tree `root` that `path`
/// leads to, in a tree whose ids tell its nodes apart.
pub open spec fn stands_on(node: SyntaxNode, root: SyntaxNode, path: Path) -> bool {
    &&& valid_path(root, path)
    &&& same_but_field(node, node_at(root, path))
    &&& distinct_ids(root)
}

/// The current node has a sibling after it.
pub open spec fn has_next_sibling(root: SyntaxNode, path: Path) -> bool {
    path.len() > 0 && path.last() + 1 < node_at(root, path.drop_last()).children.len()
}

/// The position of the sibling that follows `path`.
pub open spec fn next_sibling(path: Path) -> Path {
    path.drop_last().push(path.last() + 1)
}

/// `prefix` is an initial part of `path`, possibly all of it.
pub open spec fn is_prefix(prefix: Path, path: Path) -> bool {
    prefix.len() <= path.len() && path.take(prefix.len() as int) == prefix
}

/// What pushing an index onto a path does: the path then leads to that child.
pub proof fn lemma_child(root: SyntaxNode, path: Path, i: int)
    ensures
        node_at(root, path.push(i)) == node_at(root, path).children[i],
        valid_path(root, path.push(i)) == (valid_path(root, path) && 0 <= i < node_at(
            root,
            path,
        ).children.len()),
        path.push(i).drop_last() == path,
        path.push(i).last() == i,
{
    assert(path.push(i).drop_last() =~= path);
}

/// Cutting the last index off a path and pushing it back gives the path, and
/// a valid path stays valid when its last index is cut off.
pub proof fn lemma_parent(root: SyntaxNode, path: Path)
    requires
        path.len() > 0,
    ensures
        path.drop_last().push(path.last()) == path,
        valid_path(root, path) ==> valid_path(root, path.drop_last()),
{
}

/// Following `a` and then `b` is following `a + b`.
pub proof fn lemma_node_at_concat(root: SyntaxNode, a: Path, b: Path)
    ensures
        node_at(root, a + b) == node_at(node_at(root, a), b),
        valid_path(root, a + b) == (valid_path(root, a) && valid_path(node_at(root, a), b)),
    decreases b.len(),
{
    if b.len() > 0 {
        assert((a + b).drop_last() =~= a + b.drop_last());
        lemma_node_at_concat(root, a, b.drop_last());
    }
}

/// In a tree whose ids tell its nodes apart, a node has no more children than
/// there are ids: each child carries another one.
pub proof fn lemma_children_fit(root: SyntaxNode, path: Path)
    requires
        valid_path(root, path),
        distinct_ids(root),
    ensures
        node_at(root, path).children.len() <= usize::MAX + 1,
{
    let count = node_at(root, path).children.len() as int;
    let indices = set_int_range(0, count);
    let id_of = |i: int| node_at(root, path.push(i)).id as int;
    let ids = indices.map(id_of);
    let all_ids = set_int_range(0, usize::MAX + 1);
    assert forall|i: int, j: int|
        indices.contains(i) && indices.contains(j) && #[trigger] id_of(i) == #[trigger] id_of(
            j,
        ) implies i == j by {
        lemma_child(root, path, i);
        lemma_child(root, path, j);
        assert(path.push(i).last() == i && path.push(j).last() == j);
    }
    lemma_int_range(0, count);
    lemma_int_range(0, usize::MAX + 1);
    lemma_map_size(indices, ids, id_of);
    assert forall|id: int| ids.contains(id) implies all_ids.contains(id) by {
        let i = choose|i: int| indices.contains(i) && id_of(i) == id;
        assert(0 <= id_of(i) <= usize::MAX);
    }
    lemma_len_subset(ids, all_ids);
}

} // verus!
