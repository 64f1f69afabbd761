//! A position in a syntax tree that moves in one of two modes: over every
//! node, or over the named nodes only.

use crate::events::{first_entered, walk_events, Walk};
use crate::file::{File, FileView};
use crate::raw::{cursor_path, cursor_rooted, cursor_shape};
use crate::syntax::{
    distinct_ids, lemma_child, lemma_children_fit, lemma_parent, node_at, valid_path, Path,
    SyntaxNode,
};
use crate::text::{same_text, slice_of, slice_text};
use crate::tracer::{Trace, TraceView};
use crate::traverser::{kinds, lemma_fresh_rest, Traversal, TraversalView};
use std::hash::{Hash, Hasher};
use vstd::prelude::*;
use vstd::std_specs::cmp::PartialEqSpecImpl;
use vstd::string::StringExecFns;

verus! {

/// Which nodes a cursor or a traversal exposes.
#[derive(Copy, Clone, Debug, PartialEq, Eq, Structural)]
pub enum STKind {
    /// Named nodes only.
    Abstract,
    /// Every node.
    Concrete,
}

/// Whether movement in `mode` stops on the node `n`.
pub open spec fn exposed(mode: STKind, n: SyntaxNode) -> bool {
    mode == STKind::Concrete || n.named
}

/// The index of the first node at or after `from` that `mode` exposes.
pub open spec fn first_exposed(mode: STKind, nodes: Seq<SyntaxNode>, from: int) -> Option<int>
    decreases nodes.len() - from,
{
    if from >= nodes.len() {
        None
    } else if exposed(mode, nodes[from]) {
        Some(from)
    } else {
        first_exposed(mode, nodes, from + 1)
    }
}

/// The index of the node that comes `n` exposed nodes after the first
/// exposed one at or after `from`.
pub open spec fn nth_exposed(mode: STKind, nodes: Seq<SyntaxNode>, from: int, n: nat) -> Option<
    int,
>
    decreases n,
{
    match first_exposed(mode, nodes, from) {
        None => None,
        Some(i) => if n == 0 {
            Some(i)
        } else {
            nth_exposed(mode, nodes, i + 1, (n - 1) as nat)
        },
    }
}

/// The index of the first exposed node at or after `from` whose field is
/// `field`.
pub open spec fn first_with_field(
    mode: STKind,
    nodes: Seq<SyntaxNode>,
    from: int,
    field: Seq<char>,
) -> Option<int>
    decreases nodes.len() - from,
{
    if from >= nodes.len() {
        None
    } else if exposed(mode, nodes[from]) && nodes[from].field == Some(field) {
        Some(from)
    } else {
        first_with_field(mode, nodes, from + 1, field)
    }
}

/// The index of the first exposed node at or after `from` whose kind is
/// `kind`.
pub open spec fn first_of_kind(mode: STKind, nodes: Seq<SyntaxNode>, from: int, kind: Seq<char>)
    -> Option<int>
    decreases nodes.len() - from,
{
    if from >= nodes.len() {
        None
    } else if exposed(mode, nodes[from]) && nodes[from].kind == kind {
        Some(from)
    } else {
        first_of_kind(mode, nodes, from + 1, kind)
    }
}

/// The kind of the nodes that hold a name.
pub open spec fn name_kind() -> Seq<char> {
    "name"@
}

/// How many of the first `upto` nodes are named.
pub open spec fn named_before(nodes: Seq<SyntaxNode>, upto: int) -> nat
    decreases upto,
{
    if upto <= 0 {
        0
    } else {
        named_before(nodes, upto - 1) + if nodes[upto - 1].named {
            1nat
        } else {
            0nat
        }
    }
}

/// Among the first `upto` nodes no more than `upto` are named.
pub proof fn lemma_named_before_bound(nodes: Seq<SyntaxNode>, upto: int)
    requires
        0 <= upto,
    ensures
        named_before(nodes, upto) <= upto,
    decreases upto,
{
    if upto > 0 {
        lemma_named_before_bound(nodes, upto - 1);
    }
}

/// What `first_exposed` finds is exposed, and nothing before it is.
pub proof fn lemma_first_exposed(mode: STKind, nodes: Seq<SyntaxNode>, from: int)
    requires
        0 <= from,
    ensures
        match first_exposed(mode, nodes, from) {
            Some(i) => {
                &&& from <= i < nodes.len()
                &&& exposed(mode, nodes[i])
                &&& first_exposed(mode, nodes, i) == Some(i)
                &&& forall|k: int| from <= k < i ==> !exposed(mode, #[trigger] nodes[k])
            },
            None => forall|k: int| from <= k < nodes.len() ==> !exposed(mode, #[trigger] nodes[k]),
        },
    decreases nodes.len() - from,
{
    if from < nodes.len() && !exposed(mode, nodes[from]) {
        lemma_first_exposed(mode, nodes, from + 1);
    }
}

/// Counting exposed nodes may start at the first exposed one.
pub proof fn lemma_nth_exposed_skip(mode: STKind, nodes: Seq<SyntaxNode>, from: int, n: nat)
    requires
        0 <= from,
    ensures
        match first_exposed(mode, nodes, from) {
            Some(i) => nth_exposed(mode, nodes, from, n) == nth_exposed(mode, nodes, i, n),
            None => nth_exposed(mode, nodes, from, n) is None,
        },
{
    lemma_first_exposed(mode, nodes, from);
}

/// Looking for a field may start at the first exposed node.
pub proof fn lemma_first_with_field_skip(
    mode: STKind,
    nodes: Seq<SyntaxNode>,
    from: int,
    field: Seq<char>,
)
    requires
        0 <= from,
    ensures
        match first_exposed(mode, nodes, from) {
            Some(i) => first_with_field(mode, nodes, from, field) == first_with_field(
                mode,
                nodes,
                i,
                field,
            ),
            None => first_with_field(mode, nodes, from, field) is None,
        },
    decreases nodes.len() - from,
{
    if from < nodes.len() && !exposed(mode, nodes[from]) {
        lemma_first_with_field_skip(mode, nodes, from + 1, field);
    }
}

/// Looking for a kind may start at the first exposed node.
pub proof fn lemma_first_of_kind_skip(
    mode: STKind,
    nodes: Seq<SyntaxNode>,
    from: int,
    kind: Seq<char>,
)
    requires
        0 <= from,
    ensures
        match first_exposed(mode, nodes, from) {
            Some(i) => first_of_kind(mode, nodes, from, kind) == first_of_kind(
                mode,
                nodes,
                i,
                kind,
            ),
            None => first_of_kind(mode, nodes, from, kind) is None,
        },
    decreases nodes.len() - from,
{
    if from < nodes.len() && !exposed(mode, nodes[from]) {
        lemma_first_of_kind_skip(mode, nodes, from + 1, kind);
    }
}

/// What a `Cursor` is: the file it belongs to, the tree it walks, where it
/// stands, how it moves, and whether it was created on the root of its tree.
///
/// The cursors that a `File` hands out are created on the root, and so are
/// their copies. Moving up, and what is built on it, asks for such a cursor.
pub struct CursorView {
    pub file: FileView,
    pub root: SyntaxNode,
    pub path: Path,
    pub stkind: STKind,
    pub rooted: bool,
}

impl CursorView {
    /// The node that the cursor stands on.
    pub open spec fn node(self) -> SyntaxNode {
        node_at(self.root, self.path)
    }

    /// The same cursor standing at `path`.
    pub open spec fn at(self, path: Path) -> CursorView {
        CursorView { path, ..self }
    }

    /// The same cursor after a move to `target`, or unmoved where there is
    /// no target.
    pub open spec fn go(self, target: Option<Path>) -> CursorView {
        match target {
            Some(path) => self.at(path),
            None => self,
        }
    }

    /// The cursor stands on a node of its tree, and ids tell the nodes of
    /// that tree apart.
    pub open spec fn on_tree(self) -> bool {
        valid_path(self.root, self.path) && distinct_ids(self.root)
    }

    /// The child with index `i`.
    pub open spec fn child_path(self, i: Option<int>) -> Option<Path> {
        match i {
            Some(i) => Some(self.path.push(i)),
            None => None,
        }
    }

    /// The sibling with index `i`.
    pub open spec fn sibling_path(self, i: Option<int>) -> Option<Path> {
        match i {
            Some(i) => Some(self.path.drop_last().push(i)),
            None => None,
        }
    }

    /// Where `goto_parent` leads.
    pub open spec fn parent(self) -> Option<Path> {
        if self.path.len() > 0 {
            Some(self.path.drop_last())
        } else {
            None
        }
    }

    /// Where `goto_first_child` leads: the first child that the mode exposes.
    pub open spec fn first_child(self) -> Option<Path> {
        self.child_path(first_exposed(self.stkind, self.node().children, 0))
    }

    /// Where `goto_next_sibling` leads: the next sibling that the mode
    /// exposes. The root has no siblings.
    pub open spec fn next_sibling(self) -> Option<Path> {
        if self.path.len() == 0 {
            None
        } else {
            self.sibling_path(
                first_exposed(
                    self.stkind,
                    node_at(self.root, self.path.drop_last()).children,
                    self.path.last() + 1,
                ),
            )
        }
    }

    /// Where `goto_child(index)` leads: the child with `index` exposed
    /// children before it.
    pub open spec fn child(self, index: nat) -> Option<Path> {
        self.child_path(nth_exposed(self.stkind, self.node().children, 0, index))
    }

    /// Where `goto_field(field)` leads: the first exposed child with that
    /// field.
    pub open spec fn field_child(self, field: Seq<char>) -> Option<Path> {
        self.child_path(first_with_field(self.stkind, self.node().children, 0, field))
    }

    /// The number of named siblings before the node; 0 on the root.
    pub open spec fn index(self) -> nat {
        if self.path.len() == 0 {
            0
        } else {
            named_before(node_at(self.root, self.path.drop_last()).children, self.path.last())
        }
    }

    /// The text that the node spans.
    pub open spec fn text(self) -> Seq<char> {
        slice_of(self.file.source, self.node().start as int, self.node().end as int)
    }

    /// The walk that looks for a name below the node: it moves as the cursor
    /// moves and lets out the named nodes.
    pub open spec fn name_walk(self) -> Walk {
        Walk { nav: self.stkind, concrete: false, blocks: Seq::empty() }
    }

    /// The node whose text is the name of this node: the node itself where it
    /// is of kind `name`; else its first exposed child of that kind; else,
    /// with `deep`, the first node of that kind that a walk over the named
    /// nodes below enters.
    pub open spec fn name_node(self, deep: bool) -> Option<Path> {
        if self.node().kind == name_kind() {
            Some(self.path)
        } else {
            match first_of_kind(self.stkind, self.node().children, 0, name_kind()) {
                Some(i) => Some(self.path.push(i)),
                None => if deep {
                    first_entered(
                        self.root,
                        walk_events(self.name_walk(), self.root, self.path),
                        name_kind(),
                    )
                } else {
                    None
                },
            }
        }
    }

    /// The name of the node, if one is found.
    pub open spec fn name(self, deep: bool) -> Option<Seq<char>> {
        match self.name_node(deep) {
            Some(p) => Some(self.at(p).text()),
            None => None,
        }
    }

    /// The kind of the node, followed by a blank and its name where a name is
    /// found in depth.
    pub open spec fn description(self) -> Seq<char> {
        self.node().kind + match self.name(true) {
            Some(name) => " "@ + name,
            None => Seq::empty(),
        }
    }

    /// The two cursors are equal: same file name, same node id.
    pub open spec fn same_node(self, other: CursorView) -> bool {
        self.file.name == other.file.name && self.node().id == other.node().id
    }
}

/// A position in the syntax tree of a `File`.
pub struct Cursor<'a> {
    cursor: tree_sitter::TreeCursor<'a>,
    file: &'a File,
    pub stkind: STKind,
}

impl<'a> View for Cursor<'a> {
    type V = CursorView;

    closed spec fn view(&self) -> CursorView {
        CursorView {
            file: self.file@,
            root: cursor_shape(self.cursor),
            path: cursor_path(self.cursor),
            stkind: self.stkind,
            rooted: cursor_rooted(self.cursor),
        }
    }
}

impl<'a> Clone for Cursor<'a> {
    /// A cursor of the same file on the same node, moving in the same mode.
    fn clone(&self) -> (copy: Self)
        ensures
            copy@ == self@,
    {
        Cursor { cursor: self.cursor.clone(), file: self.file, stkind: self.stkind }
    }
}

impl<'a> PartialEq for Cursor<'a> {
    /// Cursors are equal where they belong to files of the same name and
    /// stand on nodes with the same id, whatever their mode.
    fn eq(&self, other: &Self) -> (same: bool) {
        self.same_node(other)
    }
}

impl<'a> PartialEqSpecImpl for Cursor<'a> {
    open spec fn obeys_eq_spec() -> bool {
        true
    }

    open spec fn eq_spec(&self, other: &Self) -> bool {
        self@.same_node(other@)
    }
}

impl<'a> Eq for Cursor<'a> {

}

impl<'a> Hash for Cursor<'a> {
    /// Feeds the name of the file and the id of the node to the hasher.
    fn hash<H: Hasher>(&self, state: &mut H) {
        self.file.name_str().hash(state);
        self.cursor.node().id().hash(state);
    }
}

impl<'a> Cursor<'a> {
    /// Wraps a cursor of the parsing engine with the file it belongs to.
    ///
    /// The cursor may be any cursor. One that was not created on the root of
    /// its tree can be read and can move down and sideways; moving up, and
    /// what is built on it, asks for one that was, as `File::raw_cursor` and
    /// `Cursor::raw_cursor` give.
    pub fn from_cursor(cursor: tree_sitter::TreeCursor<'a>, file: &'a File, stkind: STKind) -> (c:
        Self)
        ensures
            c@ == (CursorView {
                file: file@,
                root: cursor_shape(cursor),
                path: cursor_path(cursor),
                stkind,
                rooted: cursor_rooted(cursor),
            }),
    {
        Cursor { cursor, file, stkind }
    }

    /// A cursor on the root node of the file.
    pub fn from_file(file: &'a File, stkind: STKind) -> (c: Self)
        ensures
            c@ == (CursorView {
                file: file@,
                root: file@.root,
                path: Seq::empty(),
                stkind,
                rooted: true,
            }),
    {
        Cursor { cursor: file.raw_cursor(), file, stkind }
    }

    /// A walk over the subtree under the cursor that moves as the cursor
    /// moves and lets out every node (`Concrete`) or the named ones
    /// (`Abstract`).
    pub fn traverse(&self, stkind: STKind) -> (walk: Traversal<'a>)
        requires
            self@.rooted,
        ensures
            walk.wf(),
            walk@.wf(),
            walk@ == TraversalView::fresh(
                Walk {
                    nav: self@.stkind,
                    concrete: stkind == STKind::Concrete,
                    blocks: Seq::empty(),
                },
                self@.file,
                self@.root,
                self@.path,
            ),
    {
        Traversal::from_cursor(self, stkind)
    }

    /// A walk like that of `traverse` that does not look into nodes of the
    /// kinds in `breaks`.
    pub fn traverse_block(&self, breaks: Vec<&'a str>, stkind: STKind) -> (walk: Traversal<'a>)
        requires
            self@.rooted,
        ensures
            walk.wf(),
            walk@.wf(),
            walk@ == TraversalView::fresh(
                Walk {
                    nav: self@.stkind,
                    concrete: stkind == STKind::Concrete,
                    blocks: kinds(breaks@),
                },
                self@.file,
                self@.root,
                self@.path,
            ),
    {
        Traversal::from_block(self, breaks, stkind)
    }

    /// The named ancestors of the node, nearest first.
    pub fn trace(&self) -> (trace: Trace<'a>)
        ensures
            trace@ == (TraceView { cursor: self@, concrete: false }),
    {
        Trace::new(self.clone())
    }

    /// The name of the file.
    pub fn filename(&self) -> (name: String)
        ensures
            name@ == self@.file.name,
    {
        self.file.name()
    }

    /// The file.
    pub fn file(&self) -> (file: &File)
        ensures
            file@ == self@.file,
    {
        self.file
    }

    /// The syntactic kind of the node.
    pub fn kind(&self) -> (kind: &str)
        ensures
            kind@ == self@.node().kind,
    {
        self.cursor.node().kind()
    }

    /// The field of the node under its parent, if it has one.
    pub fn field(&self) -> (field: Option<&str>)
        ensures
            match field {
                Some(name) => self@.node().field == Some(name@),
                None => self@.node().field is None,
            },
    {
        self.cursor.field_name()
    }

    /// Whether the node is a named one.
    pub fn is_named(&self) -> (named: bool)
        ensures
            named == self@.node().named,
    {
        self.cursor.node().is_named()
    }

    /// The id of the node. Reading it also tells that the cursor stands on a
    /// node of its tree.
    pub fn node_id(&self) -> (id: usize)
        ensures
            id == self@.node().id,
            self@.on_tree(),
    {
        self.cursor.node().id()
    }

    /// A copy of the underlying cursor of the parsing engine.
    pub fn raw_cursor(&self) -> (cursor: tree_sitter::TreeCursor<'a>)
        ensures
            cursor_shape(cursor) == self@.root,
            cursor_path(cursor) == self@.path,
            cursor_rooted(cursor) == self@.rooted,
    {
        self.cursor.clone()
    }

    /// Moves to the parent. Returns `false`, without moving, on the root.
    pub fn goto_parent(&mut self) -> (moved: bool)
        requires
            old(self)@.rooted,
        ensures
            moved == old(self)@.parent() is Some,
            final(self)@ == old(self)@.go(old(self)@.parent()),
    {
        self.cursor.goto_parent()
    }

    /// Moves to the first child that the mode exposes. Returns `false`,
    /// without moving, where there is none.
    pub fn goto_first_child(&mut self) -> (moved: bool)
        requires
            old(self)@.rooted,
        ensures
            moved == old(self)@.first_child() is Some,
            final(self)@ == old(self)@.go(old(self)@.first_child()),
    {
        let ghost start = self@;
        let ghost children = start.node().children;
        if !self.cursor.goto_first_child() {
            return false;
        }
        proof {
            lemma_child(start.root, start.path, 0);
        }
        let mut found = self.stkind == STKind::Concrete || self.cursor.node().is_named();
        let ghost mut i: int = 0;
        while !found
            invariant
                start == old(self)@,
                start.rooted,
                0 <= i < children.len(),
                children == node_at(start.root, start.path).children,
                self@ == start.at(start.path.push(i)),
                found == exposed(start.stkind, children[i]),
                first_exposed(start.stkind, children, 0) == first_exposed(
                    start.stkind,
                    children,
                    i,
                ),
            decreases children.len() - i,
        {
            proof {
                lemma_child(start.root, start.path, i);
                lemma_child(start.root, start.path, i + 1);
            }
            if !self.cursor.goto_next_sibling() {
                self.cursor.goto_parent();
                proof {
                    assert(first_exposed(start.stkind, children, i + 1) is None);
                }
                return false;
            }
            found = self.cursor.node().is_named();
            proof {
                i = i + 1;
            }
        }
        true
    }

    /// Moves to the next sibling that the mode exposes. Returns `false`,
    /// without moving, where there is none.
    pub fn goto_next_sibling(&mut self) -> (moved: bool)
        ensures
            moved == old(self)@.next_sibling() is Some,
            final(self)@ == old(self)@.go(old(self)@.next_sibling()),
    {
        let ghost start = self@;
        if self.stkind == STKind::Concrete {
            proof {
                if start.path.len() > 0 {
                    lemma_parent(start.root, start.path);
                }
            }
            return self.cursor.goto_next_sibling();
        }
        let origin = self.cursor.clone();
        if !self.cursor.goto_next_sibling() {
            return false;
        }
        let ghost up = start.path.drop_last();
        let ghost children = node_at(start.root, up).children;
        let ghost first = start.path.last() + 1;
        let ghost mut i: int = first;
        proof {
            lemma_child(start.root, up, i);
        }
        let mut found = self.cursor.node().is_named();
        while !found
            invariant
                start == old(self)@,
                start.path.len() > 0,
                up == start.path.drop_last(),
                children == node_at(start.root, up).children,
                first == start.path.last() + 1,
                first <= i < children.len(),
                start.stkind == STKind::Abstract,
                self@ == start.at(up.push(i)),
                cursor_shape(origin) == start.root,
                cursor_path(origin) == start.path,
                cursor_rooted(origin) == start.rooted,
                found == exposed(start.stkind, children[i]),
                first_exposed(start.stkind, children, first) == first_exposed(
                    start.stkind,
                    children,
                    i,
                ),
            decreases children.len() - i,
        {
            proof {
                lemma_child(start.root, up, i);
                lemma_child(start.root, up, i + 1);
            }
            if !self.cursor.goto_next_sibling() {
                self.cursor = origin;
                proof {
                    assert(first_exposed(start.stkind, children, i + 1) is None);
                }
                return false;
            }
            found = self.cursor.node().is_named();
            proof {
                i = i + 1;
            }
        }
        true
    }

    /// Moves to the child that has `index` exposed children before it.
    /// Returns `false`, without moving, where there are too few.
    pub fn goto_child(&mut self, index: usize) -> (moved: bool)
        requires
            old(self)@.rooted,
        ensures
            moved == old(self)@.child(index as nat) is Some,
            final(self)@ == old(self)@.go(old(self)@.child(index as nat)),
    {
        let ghost start = self@;
        let ghost children = start.node().children;
        let ghost mode = start.stkind;
        proof {
            lemma_first_exposed(mode, children, 0);
        }
        if !self.goto_first_child() {
            return false;
        }
        let ghost mut at: int = first_exposed(mode, children, 0)->0;
        let mut passed: usize = 0;
        while passed < index
            invariant
                start == old(self)@,
                start.rooted,
                passed <= index,
                0 <= at < children.len(),
                children == node_at(start.root, start.path).children,
                mode == start.stkind,
                self@ == start.at(start.path.push(at)),
                first_exposed(mode, children, at) == Some(at),
                nth_exposed(mode, children, 0, index as nat) == nth_exposed(
                    mode,
                    children,
                    at,
                    (index - passed) as nat,
                ),
            decreases index - passed,
        {
            proof {
                lemma_child(start.root, start.path, at);
                lemma_nth_exposed_skip(mode, children, at + 1, (index - passed - 1) as nat);
                lemma_first_exposed(mode, children, at + 1);
            }
            if !self.goto_next_sibling() {
                self.goto_parent();
                return false;
            }
            proof {
                at = first_exposed(mode, children, at + 1)->0;
            }
            passed += 1;
        }
        true
    }

    /// Moves to the first exposed child whose field is `field`. Returns
    /// `false`, without moving, where there is none.
    pub fn goto_field(&mut self, field: &str) -> (moved: bool)
        requires
            old(self)@.rooted,
        ensures
            moved == old(self)@.field_child(field@) is Some,
            final(self)@ == old(self)@.go(old(self)@.field_child(field@)),
    {
        let ghost start = self@;
        let ghost children = start.node().children;
        let ghost mode = start.stkind;
        proof {
            lemma_first_exposed(mode, children, 0);
            lemma_first_with_field_skip(mode, children, 0, field@);
        }
        if !self.goto_first_child() {
            return false;
        }
        let ghost mut at: int = first_exposed(mode, children, 0)->0;
        loop
            invariant
                start == old(self)@,
                start.rooted,
                0 <= at < children.len(),
                children == node_at(start.root, start.path).children,
                mode == start.stkind,
                self@ == start.at(start.path.push(at)),
                first_exposed(mode, children, at) == Some(at),
                first_with_field(mode, children, 0, field@) == first_with_field(
                    mode,
                    children,
                    at,
                    field@,
                ),
            decreases children.len() - at,
        {
            proof {
                lemma_child(start.root, start.path, at);
                lemma_first_with_field_skip(mode, children, at + 1, field@);
                lemma_first_exposed(mode, children, at + 1);
            }
            let here = match self.field() {
                Some(name) => same_text(name, field),
                None => false,
            };
            if here {
                return true;
            }
            if !self.goto_next_sibling() {
                self.goto_parent();
                return false;
            }
            proof {
                at = first_exposed(mode, children, at + 1)->0;
            }
        }
    }

    /// A name for the node, if one is found: the text of the node itself
    /// where it is of kind `name`; else that of its first exposed child of
    /// that kind; else, with `deep`, that of the first node of that kind that
    /// a walk over the named nodes below enters.
    pub fn name(&self, deep: bool) -> (name: Option<String>)
        requires
            self@.rooted,
        ensures
            match name {
                Some(text) => self@.name(deep) == Some(text@),
                None => self@.name(deep) is None,
            },
    {
        if same_text(self.kind(), "name") {
            return Some(self.to_string());
        }
        let ghost children = self@.node().children;
        let ghost mode = self@.stkind;
        let mut cur = self.clone();
        proof {
            lemma_first_exposed(mode, children, 0);
            lemma_first_of_kind_skip(mode, children, 0, name_kind());
        }
        if cur.goto_first_child() {
            let ghost mut at: int = first_exposed(mode, children, 0)->0;
            loop
                invariant
                    0 <= at < children.len(),
                    children == node_at(self@.root, self@.path).children,
                    mode == self@.stkind,
                    self@.node().kind != name_kind(),
                    cur@ == self@.at(self@.path.push(at)),
                    first_exposed(mode, children, at) == Some(at),
                    first_of_kind(mode, children, 0, name_kind()) == first_of_kind(
                        mode,
                        children,
                        at,
                        name_kind(),
                    ),
                ensures
                    first_of_kind(mode, children, 0, name_kind()) is None,
                decreases children.len() - at,
            {
                proof {
                    lemma_child(self@.root, self@.path, at);
                    lemma_first_of_kind_skip(mode, children, at + 1, name_kind());
                    lemma_first_exposed(mode, children, at + 1);
                }
                if same_text(cur.kind(), "name") {
                    return Some(cur.to_string());
                }
                if !cur.goto_next_sibling() {
                    break ;
                }
                proof {
                    at = first_exposed(mode, children, at + 1)->0;
                }
            }
        }
        if !deep {
            return None;
        }
        let mut walk = self.traverse(STKind::Abstract);
        proof {
            lemma_fresh_rest(self@.name_walk(), self@.file, self@.root, self@.path);
        }
        let ghost all = walk@.rest();
        loop
            invariant
                walk.wf(),
                walk@.walk == self@.name_walk(),
                walk@.file == self@.file,
                walk@.root == self@.root,
                self@.node().kind != name_kind(),
                first_of_kind(self@.stkind, self@.node().children, 0, name_kind()) is None,
                deep,
                all == walk_events(self@.name_walk(), self@.root, self@.path),
                first_entered(self@.root, all, name_kind()) == first_entered(
                    self@.root,
                    walk@.rest(),
                    name_kind(),
                ),
            decreases walk@.rest().len(),
        {
            match walk.next() {
                None => {
                    return None;
                },
                Some(motion) => {
                    if motion.is_enter() && same_text(motion.cursor().kind(), "name") {
                        return Some(motion.cursor().to_string());
                    }
                },
            }
        }
    }

    /// A short description for messages: the kind of the node, followed by a
    /// blank and its name where a name is found in depth.
    pub fn describe(&self) -> (text: String)
        requires
            self@.rooted,
        ensures
            text@ == self@.description(),
    {
        let mut text = self.kind().to_owned();
        match self.name(true) {
            Some(name) => {
                text.append(" ");
                text.append(name.as_str());
            },
            None => {
            },
        }
        text
    }

    /// The number of named siblings before the node, whatever the mode;
    /// 0 on the root. Reading the ids of the siblings also tells that the
    /// cursor stands on a node of its tree.
    pub fn get_index(&self) -> (index: usize)
        requires
            self@.rooted,
        ensures
            index == self@.index(),
            self@.on_tree(),
    {
        let node_id = self.cursor.node().id();
        let mut cursor = self.cursor.clone();
        if !cursor.goto_parent() {
            return 0;
        }
        let ghost root = self@.root;
        let ghost up = self@.path.drop_last();
        let ghost last = self@.path.last();
        let ghost children = node_at(root, up).children;
        proof {
            lemma_parent(root, self@.path);
            lemma_child(root, up, 0);
        }
        cursor.goto_first_child();
        let mut index: usize = 0;
        let ghost mut i: int = 0;
        loop
            invariant
                self@.path.len() > 0,
                root == self@.root,
                up == self@.path.drop_last(),
                last == self@.path.last(),
                children == node_at(root, up).children,
                valid_path(root, self@.path),
                distinct_ids(root),
                node_id == self@.node().id,
                0 <= i <= last < children.len(),
                cursor_shape(cursor) == root,
                cursor_path(cursor) == up.push(i),
                index == named_before(children, i),
            decreases last - i,
        {
            proof {
                lemma_child(root, up, i);
                lemma_child(root, up, i + 1);
                lemma_parent(root, self@.path);
            }
            let node = cursor.node();
            if node.id() == node_id {
                return index;
            }
            if node.is_named() {
                proof {
                    lemma_children_fit(root, up);
                    lemma_named_before_bound(children, i);
                }
                index += 1;
            }
            cursor.goto_next_sibling();
            proof {
                i = i + 1;
            }
        }
    }

    /// Whether the two cursors are equal: they belong to files of the same
    /// name and stand on nodes with the same id. Reading the ids also tells
    /// that both stand on nodes of their trees.
    pub fn same_node(&self, other: &Cursor<'a>) -> (same: bool)
        ensures
            same == self@.same_node(other@),
            self@.on_tree(),
            other@.on_tree(),
    {
        let a = self.cursor.node().id();
        let b = other.cursor.node().id();
        same_text(self.file.name_str(), other.file.name_str()) && a == b
    }

    /// The text of the node: the part of the file's text that the node's
    /// byte range spans.
    pub fn to_str(&self) -> (text: &str)
        ensures
            text@ == self@.text(),
    {
        let node = self.cursor.node();
        slice_text(self.file.get_source(), node.start_byte(), node.end_byte())
    }

    /// The text of the node, owned.
    pub fn to_string(&self) -> (text: String)
        ensures
            text@ == self@.text(),
    {
        self.to_str().to_owned()
    }
}

} // verus!
