//! What this library takes on trust: the types of the parsing engine, a model
//! of what they hold, what each of its calls does in terms of that model, and
//! three functions of the standard library.

use crate::syntax::{has_next_sibling, next_sibling, node_at, stands_on, Path, SyntaxNode};
use std::hash::{Hash, Hasher};
use vstd::prelude::*;

verus! {

/// `tree_sitter::Language`: a grammar. Nothing of what it holds is seen here.
#[verifier::external_type_specification]
#[verifier::external_body]
pub struct ExLanguage(tree_sitter::Language);

/// `tree_sitter::LanguageError`: why a parser refused a grammar. Nothing of
/// what it holds is seen here.
#[verifier::external_type_specification]
#[verifier::external_body]
pub struct ExLanguageError(tree_sitter::LanguageError);

/// `tree_sitter::Parser`: a parser. Nothing of what it holds is seen here.
#[verifier::external_type_specification]
#[verifier::external_body]
pub struct ExParser(tree_sitter::Parser);

/// `tree_sitter::Tree`: a syntax tree. What it holds is named by
/// `tree_shape`.
#[verifier::external_type_specification]
#[verifier::external_body]
pub struct ExTree(tree_sitter::Tree);

/// `tree_sitter::Node`: a node of a syntax tree. What it holds is named by
/// `node_shape`.
#[verifier::external_type_specification]
#[verifier::external_body]
pub struct ExNode<'a>(tree_sitter::Node<'a>);

/// `tree_sitter::TreeCursor`: a position in a syntax tree. What it holds is
/// named by `cursor_shape` and `cursor_path`.
#[verifier::external_type_specification]
#[verifier::external_body]
pub struct ExTreeCursor<'a>(tree_sitter::TreeCursor<'a>);

/// The syntax tree that a `Tree` holds, from its root node down.
pub uninterp spec fn tree_shape(tree: tree_sitter::Tree) -> SyntaxNode;

/// The tree that a `TreeCursor` walks: the node it was created on and
/// everything below it.
pub uninterp spec fn cursor_shape(cursor: tree_sitter::TreeCursor) -> SyntaxNode;

/// Where a `TreeCursor` stands in `cursor_shape`.
pub uninterp spec fn cursor_path(cursor: tree_sitter::TreeCursor) -> Path;

/// Whether a `TreeCursor` was created on the root of its tree, so that it
/// walks the whole tree.
pub uninterp spec fn cursor_rooted(cursor: tree_sitter::TreeCursor) -> bool;

/// The node that a `Node` refers to, with everything below it. A `Node` does
/// not know its field under its parent: no contract speaks of the field of
/// this value.
pub uninterp spec fn node_shape(node: tree_sitter::Node) -> SyntaxNode;

/// The ABI version of the grammar that a `Language` holds.
pub uninterp spec fn language_version(language: tree_sitter::Language) -> usize;

/// Whether a grammar is assigned to a `Parser`.
pub uninterp spec fn parser_has_language(parser: tree_sitter::Parser) -> bool;

/// Whether a timeout or a cancellation flag is set on a `Parser`, so that it
/// may give a parse up.
pub uninterp spec fn parser_may_halt(parser: tree_sitter::Parser) -> bool;

/// The ABI versions of grammars that the engine supports: from its
/// `MIN_COMPATIBLE_LANGUAGE_VERSION`, which is 13, to its `LANGUAGE_VERSION`,
/// which is 14.
pub open spec fn supported_version(version: usize) -> bool {
    13 <= version <= 14
}

/// `Parser::new`: a parser with no grammar assigned, no timeout and no
/// cancellation flag.
pub assume_specification[ tree_sitter::Parser::new ]() -> (parser: tree_sitter::Parser)
    ensures
        !parser_has_language(parser),
        !parser_may_halt(parser),
;

/// `Parser::set_language`: assigns the grammar and returns `Ok` exactly when
/// the grammar's ABI version is one that the engine supports. It sets no
/// timeout and no cancellation flag, and clears none.
pub assume_specification[ tree_sitter::Parser::set_language ](
    parser: &mut tree_sitter::Parser,
    language: tree_sitter::Language,
) -> (accepted: Result<(), tree_sitter::LanguageError>)
    ensures
        accepted is Ok <==> supported_version(language_version(language)),
        accepted is Ok ==> parser_has_language(*final(parser)),
        parser_may_halt(*final(parser)) == parser_may_halt(*old(parser)),
;

/// `Parser::parse` on UTF-8 text, without an earlier tree. A tree comes back
/// where a grammar is assigned and neither a timeout nor a cancellation flag
/// is set. Nothing is claimed about what the tree looks like.
#[verifier::external_body]
pub(crate) fn parse_text(parser: &mut tree_sitter::Parser, source: &str) -> (tree: Option<
    tree_sitter::Tree,
>)
    ensures
        parser_has_language(*old(parser)) && !parser_may_halt(*old(parser)) ==> tree is Some,
{
    parser.parse(source, None)
}

/// `Tree::clone`: a copy of the tree. Nothing is claimed of the copy.
pub assume_specification[ <tree_sitter::Tree as Clone>::clone ](
    tree: &tree_sitter::Tree,
) -> tree_sitter::Tree;

/// `Tree::walk`: a fresh cursor created on the root of the tree, standing on
/// it.
pub assume_specification[ tree_sitter::Tree::walk ](tree: &tree_sitter::Tree) -> (cursor:
    tree_sitter::TreeCursor<'_>)
    ensures
        cursor_shape(cursor) == tree_shape(*tree),
        cursor_path(cursor) == Seq::<int>::empty(),
        cursor_rooted(cursor),
;

/// `TreeCursor::clone`: the copy walks the same tree as the cursor and stands
/// where it stands.
pub assume_specification<'a>[ <tree_sitter::TreeCursor<'a> as Clone>::clone ](
    cursor: &tree_sitter::TreeCursor<'a>,
) -> (copy: tree_sitter::TreeCursor<'a>)
    ensures
        cursor_shape(copy) == cursor_shape(*cursor),
        cursor_path(copy) == cursor_path(*cursor),
        cursor_rooted(copy) == cursor_rooted(*cursor),
;

/// `TreeCursor::goto_first_child`: moves to the first child and returns `true`
/// exactly when the current node has children; otherwise the cursor stays.
pub assume_specification<'a>[ tree_sitter::TreeCursor::<'a>::goto_first_child ](
    cursor: &mut tree_sitter::TreeCursor<'a>,
) -> (moved: bool)
    ensures
        cursor_shape(*final(cursor)) == cursor_shape(*old(cursor)),
        cursor_rooted(*final(cursor)) == cursor_rooted(*old(cursor)),
        moved == (node_at(cursor_shape(*old(cursor)), cursor_path(*old(cursor))).children.len()
            > 0),
        cursor_path(*final(cursor)) == if moved {
            cursor_path(*old(cursor)).push(0)
        } else {
            cursor_path(*old(cursor))
        },
;

/// `TreeCursor::goto_next_sibling`: moves to the next child of the same parent
/// and returns `true` exactly when there is one; otherwise the cursor stays.
/// The node that the cursor was created on has no siblings for it.
pub assume_specification<'a>[ tree_sitter::TreeCursor::<'a>::goto_next_sibling ](
    cursor: &mut tree_sitter::TreeCursor<'a>,
) -> (moved: bool)
    ensures
        cursor_shape(*final(cursor)) == cursor_shape(*old(cursor)),
        cursor_rooted(*final(cursor)) == cursor_rooted(*old(cursor)),
        moved == has_next_sibling(cursor_shape(*old(cursor)), cursor_path(*old(cursor))),
        cursor_path(*final(cursor)) == if moved {
            next_sibling(cursor_path(*old(cursor)))
        } else {
            cursor_path(*old(cursor))
        },
;

/// `TreeCursor::goto_parent`: where it returns `true` the cursor has moved to
/// the parent, else it stays. A cursor that was created on the root of its
/// tree moves exactly when it does not stand on that root. Of any other
/// cursor the engine may also refuse the move to the node it was created on.
pub assume_specification<'a>[ tree_sitter::TreeCursor::<'a>::goto_parent ](
    cursor: &mut tree_sitter::TreeCursor<'a>,
) -> (moved: bool)
    ensures
        cursor_shape(*final(cursor)) == cursor_shape(*old(cursor)),
        cursor_rooted(*final(cursor)) == cursor_rooted(*old(cursor)),
        moved ==> cursor_path(*old(cursor)).len() > 0,
        cursor_rooted(*old(cursor)) ==> moved == (cursor_path(*old(cursor)).len() > 0),
        cursor_path(*final(cursor)) == if moved {
            cursor_path(*old(cursor)).drop_last()
        } else {
            cursor_path(*old(cursor))
        },
;

/// `TreeCursor::field_name`: the field of the current node under its parent.
pub assume_specification<'a>[ tree_sitter::TreeCursor::<'a>::field_name ](
    cursor: &tree_sitter::TreeCursor<'a>,
) -> (field: Option<&'static str>)
    ensures
        match field {
            Some(name) => node_at(cursor_shape(*cursor), cursor_path(*cursor)).field == Some(
                name@,
            ),
            None => node_at(cursor_shape(*cursor), cursor_path(*cursor)).field is None,
        },
;

/// `TreeCursor::node`: the node that the cursor stands on, which has the
/// kind, the id, the byte range and the children of that node, and is named
/// as it is. A cursor always stands on a node of its tree, and within one
/// tree no two nodes have the same id.
pub assume_specification<'a>[ tree_sitter::TreeCursor::<'a>::node ](
    cursor: &tree_sitter::TreeCursor<'a>,
) -> (node: tree_sitter::Node<'a>)
    ensures
        stands_on(node_shape(node), cursor_shape(*cursor), cursor_path(*cursor)),
;

/// `Node::kind`: the node's syntactic kind.
pub assume_specification<'tree>[ tree_sitter::Node::<'tree>::kind ](
    node: &tree_sitter::Node<'tree>,
) -> (kind: &'static str)
    ensures
        kind@ == node_shape(*node).kind,
;

/// `Node::is_named`: whether the node stands for a named rule of the grammar.
pub assume_specification<'tree>[ tree_sitter::Node::<'tree>::is_named ](
    node: &tree_sitter::Node<'tree>,
) -> (named: bool)
    ensures
        named == node_shape(*node).named,
;

/// `Node::id`: the node's id.
pub assume_specification<'tree>[ tree_sitter::Node::<'tree>::id ](
    node: &tree_sitter::Node<'tree>,
) -> (id: usize)
    ensures
        id == node_shape(*node).id,
;

/// `Node::start_byte`: the byte offset at which the node starts.
pub assume_specification<'tree>[ tree_sitter::Node::<'tree>::start_byte ](
    node: &tree_sitter::Node<'tree>,
) -> (start: usize)
    ensures
        start == node_shape(*node).start,
;

/// `Node::end_byte`: the byte offset at which the node ends.
pub assume_specification<'tree>[ tree_sitter::Node::<'tree>::end_byte ](
    node: &tree_sitter::Node<'tree>,
) -> (end: usize)
    ensures
        end == node_shape(*node).end,
;

/// `Hash::hash` of a `usize`: feeds the number to the hasher. Nothing is
/// claimed of what the hasher then holds.
pub assume_specification<H: Hasher>[ <usize as Hash>::hash::<H> ](value: &usize, state: &mut H);

/// `Hash::hash` of a `str`: feeds the text to the hasher. Nothing is claimed
/// of what the hasher then holds.
pub assume_specification<H: Hasher>[ <str as Hash>::hash::<H> ](value: &str, state: &mut H);

/// `String::pop`: takes the last character off the string and returns it;
/// returns `None`, and leaves the string empty, where it holds none.
pub assume_specification[ String::pop ](text: &mut String) -> (last: Option<char>)
    ensures
        match last {
            Some(c) => old(text)@.len() > 0 && c == old(text)@.last() && final(text)@ == old(
                text,
            )@.drop_last(),
            None => old(text)@.len() == 0 && final(text)@ == old(text)@,
        },
;

} // verus!
