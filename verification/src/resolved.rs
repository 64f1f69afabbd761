//! What a node stands for: a function with its parameters, or the root.

use crate::cursor::{Cursor, CursorView};
use crate::events::{entered_of_kind, walk_events};
use crate::syntax::Path;
use crate::text::same_text;
use crate::traverser::{lemma_fresh_rest, Traversal};
use std::hash::{Hash, Hasher};
use vstd::prelude::*;
use vstd::std_specs::cmp::PartialEqSpecImpl;
use vstd::string::StringExecFns;

verus! {

/// The field that holds the parameter list of a function.
pub open spec fn parameters_field() -> Seq<char> {
    "parameters"@
}

/// The kind of the nodes that name a parameter.
pub open spec fn parameter_kind() -> Seq<char> {
    "variable_name"@
}

/// The names, each followed by a blank; an absent name adds nothing.
pub open spec fn spaced(names: Seq<Option<Seq<char>>>) -> Seq<char>
    decreases names.len(),
{
    if names.len() == 0 {
        Seq::empty()
    } else {
        spaced(names.drop_last()) + match names.last() {
            Some(name) => name + seq![' '],
            None => Seq::empty(),
        }
    }
}

/// A node seen as a function or as the root of a tree.
pub enum Resolved<'a> {
    Function { cursor: Cursor<'a> },
    Root { cursor: Cursor<'a> },
}

impl<'a> Clone for Resolved<'a> {
    /// The same variant on a copy of the cursor.
    fn clone(&self) -> (copy: Self)
        ensures
            copy.at() == self.at(),
            copy is Function == self is Function,
    {
        match self {
            Resolved::Function { cursor } => Resolved::Function { cursor: cursor.clone() },
            Resolved::Root { cursor } => Resolved::Root { cursor: cursor.clone() },
        }
    }
}

impl<'a> PartialEq for Resolved<'a> {
    /// Resolved nodes are equal where they are of the same variant and their
    /// cursors are equal.
    fn eq(&self, other: &Self) -> (same: bool) {
        match (self, other) {
            (Resolved::Function { cursor: a }, Resolved::Function { cursor: b }) => a.same_node(b),
            (Resolved::Root { cursor: a }, Resolved::Root { cursor: b }) => a.same_node(b),
            _ => false,
        }
    }
}

impl<'a> PartialEqSpecImpl for Resolved<'a> {
    open spec fn obeys_eq_spec() -> bool {
        true
    }

    open spec fn eq_spec(&self, other: &Self) -> bool {
        (self is Function == other is Function) && self.at().same_node(other.at())
    }
}

impl<'a> Eq for Resolved<'a> {

}

impl<'a> Hash for Resolved<'a> {
    /// Feeds a number for the variant, then the cursor, to the hasher.
    fn hash<H: Hasher>(&self, state: &mut H) {
        match self {
            Resolved::Function { cursor } => {
                let tag: usize = 0;
                tag.hash(state);
                cursor.hash(state);
            },
            Resolved::Root { cursor } => {
                let tag: usize = 1;
                tag.hash(state);
                cursor.hash(state);
            },
        }
    }
}

impl<'a> Resolved<'a> {
    /// The cursor on the node.
    pub open spec fn at(self) -> CursorView {
        match self {
            Resolved::Function { cursor } => cursor@,
            Resolved::Root { cursor } => cursor@,
        }
    }

    /// The nodes that name the parameters, in the order of the text: none for
    /// the root; for a function, the nodes of the parameter kind that a walk
    /// over the named nodes of its parameter list enters, and none where it
    /// has no parameter list.
    pub open spec fn parameter_nodes(self) -> Seq<Path> {
        match self {
            Resolved::Function { cursor } => match cursor@.field_child(parameters_field()) {
                Some(list) => entered_of_kind(
                    cursor@.root,
                    walk_events(cursor@.name_walk(), cursor@.root, list),
                    parameter_kind(),
                ),
                None => Seq::empty(),
            },
            Resolved::Root { .. } => Seq::empty(),
        }
    }

    /// The names of the parameters, where they have one.
    pub open spec fn parameter_names(self) -> Seq<Option<Seq<char>>> {
        Seq::new(
            self.parameter_nodes().len(),
            |i: int| self.at().at(self.parameter_nodes()[i]).name(true),
        )
    }

    /// A function on `cursor`.
    pub fn new_function(cursor: Cursor<'a>) -> (resolved: Self)
        ensures
            resolved == (Resolved::Function { cursor }),
    {
        Resolved::Function { cursor }
    }

    /// A root on `cursor`.
    pub fn new_root(cursor: Cursor<'a>) -> (resolved: Self)
        ensures
            resolved == (Resolved::Root { cursor }),
    {
        Resolved::Root { cursor }
    }

    /// A copy of the cursor on the node.
    pub fn cursor(&self) -> (cursor: Cursor<'a>)
        ensures
            cursor@ == self.at(),
    {
        match self {
            Resolved::Function { cursor } => cursor.clone(),
            Resolved::Root { cursor } => cursor.clone(),
        }
    }

    /// Cursors on the nodes that name the parameters, in the order of the
    /// text. Empty for a root and for a function without a parameter list.
    pub fn parameters(&self) -> (found: Vec<Cursor<'a>>)
        requires
            self.at().rooted,
        ensures
            found@.len() == self.parameter_nodes().len(),
            forall|i: int|
                0 <= i < found@.len() ==> (#[trigger] found@[i])@ == self.at().at(
                    self.parameter_nodes()[i],
                ),
    {
        let mut found: Vec<Cursor<'a>> = Vec::new();
        match self {
            Resolved::Function { cursor } => {
                let mut list = cursor.clone();
                if !list.goto_field("parameters") {
                    return found;
                }
                let mut walk = Traversal::new(&list);
                proof {
                    lemma_fresh_rest(cursor@.name_walk(), list@.file, list@.root, list@.path);
                }
                let ghost all = walk@.rest();
                let ghost mut done: Seq<Path> = Seq::empty();
                loop
                    invariant
                        walk.wf(),
                        walk@.walk == cursor@.name_walk(),
                        walk@.file == cursor@.file,
                        walk@.root == cursor@.root,
                        cursor@.rooted,
                        found@.len() == done.len(),
                        forall|i: int|
                            0 <= i < found@.len() ==> (#[trigger] found@[i])@ == cursor@.at(
                                done[i],
                            ),
                        entered_of_kind(cursor@.root, all, parameter_kind()) == done
                            + entered_of_kind(cursor@.root, walk@.rest(), parameter_kind()),
                    ensures
                        found@.len() == done.len(),
                        forall|i: int|
                            0 <= i < found@.len() ==> (#[trigger] found@[i])@ == cursor@.at(
                                done[i],
                            ),
                        entered_of_kind(cursor@.root, all, parameter_kind()) == done,
                    decreases walk@.rest().len(),
                {
                    match walk.next() {
                        None => {
                            break ;
                        },
                        Some(motion) => {
                            if motion.is_enter() && same_text(
                                motion.cursor().kind(),
                                "variable_name",
                            ) {
                                let cur = motion.cursor().clone();
                                proof {
                                    done = done.push(cur@.path);
                                }
                                found.push(cur);
                            }
                        },
                    }
                }
                found
            },
            Resolved::Root { .. } => found,
        }
    }

    /// The names of the parameters, each followed by a blank. A parameter
    /// without a name adds nothing.
    pub fn dump_parameters(&self) -> (line: String)
        requires
            self.at().rooted,
        ensures
            line@ == spaced(self.parameter_names()),
    {
        let parameters = self.parameters();
        let ghost names = self.parameter_names();
        let mut line = String::new();
        let mut i: usize = 0;
        while i < parameters.len()
            invariant
                i <= parameters.len(),
                self.at().rooted,
                forall|k: int|
                    0 <= k < parameters@.len() ==> (#[trigger] parameters@[k])@ == self.at().at(
                        self.parameter_nodes()[k],
                    ),
                names == self.parameter_names(),
                parameters@.len() == names.len(),
                forall|k: int|
                    0 <= k < parameters@.len() ==> (#[trigger] parameters@[k])@.name(true)
                        == names[k],
                line@ == spaced(names.take(i as int)),
            decreases parameters.len() - i,
        {
            proof {
                assert(names.take(i + 1).drop_last() =~= names.take(i as int));
                reveal_strlit(" ");
            }
            match parameters[i].name(true) {
                Some(name) => {
                    line.append(name.as_str());
                    line.append(" ");
                },
                None => {},
            }
            i += 1;
        }
        assert(names.take(i as int) =~= names);
        line
    }

    /// The name of the node, looked for in depth; nothing where none is
    /// found.
    pub fn name(&self) -> (name: Option<String>)
        requires
            self.at().rooted,
        ensures
            match name {
                Some(text) => self.at().name(true) == Some(text@),
                None => self.at().name(true) is None,
            },
    {
        match self {
            Resolved::Function { cursor } => cursor.name(true),
            Resolved::Root { cursor } => cursor.name(true),
        }
    }
}

} // verus!
