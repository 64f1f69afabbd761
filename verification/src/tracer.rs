//! The ancestors of a node, nearest first.

use crate::cursor::{Cursor, CursorView};
use crate::syntax::{node_at, Path, SyntaxNode};
use vstd::prelude::*;

verus! {

/// The ancestors of the node at `path` that a trace yields, nearest first:
/// all of them where `concrete`, else the named ones.
pub open spec fn ancestors(root: SyntaxNode, path: Path, concrete: bool) -> Seq<Path>
    decreases path.len(),
{
    if path.len() == 0 {
        Seq::empty()
    } else {
        (if concrete || node_at(root, path.drop_last()).named {
            seq![path.drop_last()]
        } else {
            Seq::empty()
        }) + ancestors(root, path.drop_last(), concrete)
    }
}

/// What a `Trace` is: a cursor that climbs, and whether it stops on every
/// ancestor or on the named ones only.
pub struct TraceView {
    pub cursor: CursorView,
    pub concrete: bool,
}

impl TraceView {
    /// The ancestors that are still to come.
    pub open spec fn rest(self) -> Seq<Path> {
        ancestors(self.cursor.root, self.cursor.path, self.concrete)
    }
}

/// A walk from a node up to the root of its tree.
pub struct Trace<'a> {
    cursor: Cursor<'a>,
    concrete: bool,
}

impl<'a> View for Trace<'a> {
    type V = TraceView;

    closed spec fn view(&self) -> TraceView {
        TraceView { cursor: self.cursor@, concrete: self.concrete }
    }
}

impl<'a> Trace<'a> {
    /// A trace from `cursor` that yields the named ancestors.
    pub fn new(cursor: Cursor<'a>) -> (trace: Self)
        ensures
            trace@ == (TraceView { cursor: cursor@, concrete: false }),
    {
        Trace { cursor, concrete: false }
    }

    /// A trace from `cursor` that yields every ancestor.
    pub fn new_concrete(cursor: Cursor<'a>) -> (trace: Self)
        ensures
            trace@ == (TraceView { cursor: cursor@, concrete: true }),
    {
        Trace { cursor, concrete: true }
    }

    /// A cursor on the next ancestor that the trace yields, or nothing once
    /// the root is behind.
    pub fn next(&mut self) -> (ancestor: Option<Cursor<'a>>)
        requires
            old(self)@.cursor.rooted,
        ensures
            final(self)@.concrete == old(self)@.concrete,
            match ancestor {
                Some(c) => {
                    &&& old(self)@.rest().len() > 0
                    &&& c@ == old(self)@.cursor.at(old(self)@.rest()[0])
                    &&& final(self)@.cursor == c@
                    &&& final(self)@.rest() == old(self)@.rest().skip(1)
                },
                None => {
                    &&& old(self)@.rest().len() == 0
                    &&& final(self)@.cursor == old(self)@.cursor.at(Seq::empty())
                },
            },
    {
        let ghost start = self@;
        loop
            invariant
                self@.concrete == start.concrete,
                start == old(self)@,
                start.cursor.rooted,
                self@.cursor == start.cursor.at(self@.cursor.path),
                self@.rest() == start.rest(),
            decreases self@.cursor.path.len(),
        {
            let ghost before = self@;
            if !self.cursor.goto_parent() {
                assert(before.cursor.path =~= Seq::<int>::empty());
                return None;
            }
            if self.concrete || self.cursor.is_named() {
                return Some(self.cursor.clone());
            }
        }
    }
}

} // verus!
