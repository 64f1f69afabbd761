//! A parsed source text: its display name, the text, and the syntax tree.

use crate::cursor::{Cursor, CursorView, STKind};
use crate::raw::{
    cursor_path, cursor_rooted, cursor_shape, language_version, parse_text, supported_version,
    tree_shape,
};
use crate::events::Walk;
use crate::syntax::SyntaxNode;
use crate::traverser::{Traversal, TraversalView};
use vstd::prelude::*;

verus! {

/// A source text with the syntax tree that was parsed from it.
pub struct File {
    name: String,
    source: String,
    tree: tree_sitter::Tree,
}

/// What a `File` holds.
pub struct FileView {
    pub name: Seq<char>,
    pub source: Seq<char>,
    pub root: SyntaxNode,
}

/// Why no `File` could be made from a text.
#[derive(Clone, Copy, Debug, PartialEq, Eq, Structural)]
pub enum FileError {
    /// The parser refused the grammar.
    Language,
    /// The parser produced no tree.
    NoTree,
}

impl View for File {
    type V = FileView;

    closed spec fn view(&self) -> FileView {
        FileView { name: self.name@, source: self.source@, root: tree_shape(self.tree) }
    }
}

impl Clone for File {
    /// A copy with the same name and text. The engine copies the tree; what
    /// ids the nodes of the copy carry is its business.
    fn clone(&self) -> (copy: Self)
        ensures
            copy@.name == self@.name,
            copy@.source == self@.source,
    {
        File { name: self.name.clone(), source: self.source.clone(), tree: self.tree.clone() }
    }
}

impl File {
    /// Parses `source` with the grammar `language`.
    ///
    /// Succeeds exactly when the ABI version of the grammar is one that the
    /// parsing engine supports; the file then has the given name and text and
    /// the tree that the engine made of the text. Else the grammar is
    /// refused.
    pub fn from_string(filename: &str, source: String, language: tree_sitter::Language) -> (file:
        Result<Self, FileError>)
        ensures
            match file {
                Ok(f) => {
                    &&& supported_version(language_version(language))
                    &&& f@.name == filename@
                    &&& f@.source == source@
                },
                Err(error) => {
                    &&& !supported_version(language_version(language))
                    &&& error == FileError::Language
                },
            },
    {
        let mut parser = tree_sitter::Parser::new();
        match parser.set_language(language) {
            Err(_) => Err(FileError::Language),
            Ok(_) => {
                let parsed = parse_text(&mut parser, source.as_str());
                File::from_parsed(filename, parsed, source)
            },
        }
    }

    /// A `File` from what the parser returned for `source`: the file where it
    /// returned a tree, `FileError::NoTree` where it returned none.
    pub fn from_parsed(name: &str, parsed: Option<tree_sitter::Tree>, source: String) -> (file:
        Result<Self, FileError>)
        ensures
            match parsed {
                Some(tree) => file matches Ok(f) && f@ == (FileView {
                    name: name@,
                    source: source@,
                    root: tree_shape(tree),
                }),
                None => file == Err::<Self, FileError>(FileError::NoTree),
            },
    {
        match parsed {
            Some(tree) => Ok(File::from_tree(name, tree, source)),
            None => Err(FileError::NoTree),
        }
    }

    /// A `File` from a tree that was parsed elsewhere and the text it was
    /// parsed from.
    pub fn from_tree(name: &str, tree: tree_sitter::Tree, source: String) -> (file: Self)
        ensures
            file@ == (FileView { name: name@, source: source@, root: tree_shape(tree) }),
    {
        File { name: name.to_owned(), source, tree }
    }

    /// The display name.
    pub fn name(&self) -> (name: String)
        ensures
            name@ == self@.name,
    {
        self.name.clone()
    }

    /// The display name, borrowed.
    pub(crate) fn name_str(&self) -> (name: &str)
        ensures
            name@ == self@.name,
    {
        self.name.as_str()
    }

    /// The text that the tree was parsed from.
    pub fn get_source(&self) -> (source: &str)
        ensures
            source@ == self@.source,
    {
        self.source.as_str()
    }

    /// A fresh cursor of the parsing engine on the root of the tree.
    pub fn raw_cursor(&self) -> (cursor: tree_sitter::TreeCursor<'_>)
        ensures
            cursor_shape(cursor) == self@.root,
            cursor_path(cursor) == Seq::<int>::empty(),
            cursor_rooted(cursor),
    {
        self.tree.walk()
    }

    /// A cursor on the root of the tree, moving in the given mode.
    pub fn cursor(&self, stkind: STKind) -> (cursor: Cursor<'_>)
        ensures
            cursor@ == (CursorView {
                file: self@,
                root: self@.root,
                path: Seq::empty(),
                stkind,
                rooted: true,
            }),
    {
        Cursor::from_cursor(self.raw_cursor(), self, stkind)
    }

    /// A walk over the whole tree that moves over every node and lets out
    /// every node (`Concrete`) or the named ones (`Abstract`).
    pub fn traverse(&self, stkind: STKind) -> (walk: Traversal<'_>)
        ensures
            walk.wf(),
            walk@.wf(),
            walk@ == TraversalView::fresh(
                Walk {
                    nav: STKind::Concrete,
                    concrete: stkind == STKind::Concrete,
                    blocks: Seq::empty(),
                },
                self@,
                self@.root,
                Seq::empty(),
            ),
    {
        let cursor = self.cursor(STKind::Concrete);
        Traversal::from_cursor(&cursor, stkind)
    }
}

} // verus!
