//! A walk over the subtree under a cursor that yields, step by step, the
//! entering and the leaving of each node.

use crate::cursor::{first_exposed, lemma_first_exposed, Cursor, CursorView, STKind};
use crate::events::{
    after, blocked, emitted, lemma_emitted_concat, lemma_emitted_one, lemma_visits_from, surfaces,
    visits, walk_events, Event, Walk,
};
use crate::file::{File, FileView};
use crate::syntax::{is_prefix, lemma_child, lemma_parent, node_at, Path, SyntaxNode};
use crate::text::same_text;
use vstd::prelude::*;

verus! {

/// `p` lies at or below `anchor`: `anchor` is an initial part of `p`, and the
/// steps that follow it are child indices.
pub open spec fn below(anchor: Path, p: Path) -> bool {
    &&& is_prefix(anchor, p)
    &&& forall|k: int| anchor.len() <= k < p.len() ==> p[k] >= 0
}

/// The state of a walk.
pub struct TraversalView {
    /// The settings of the walk.
    pub walk: Walk,
    /// The file that the tree belongs to.
    pub file: FileView,
    /// The tree.
    pub root: SyntaxNode,
    /// Where the walk started; it covers this node and what is below it.
    pub anchor: Path,
    /// Where the walk stands.
    pub at: Path,
    /// Where the walk stood before the latest step, if there was one.
    pub last: Option<Path>,
    /// Whether the node at `at` has been entered and is to be left next.
    pub visited: bool,
    /// Whether the walk is over.
    pub end: bool,
}

impl TraversalView {
    /// The state of a walk that has not begun.
    pub open spec fn fresh(walk: Walk, file: FileView, root: SyntaxNode, anchor: Path) -> Self {
        TraversalView {
            walk,
            file,
            root,
            anchor,
            at: anchor,
            last: None,
            visited: false,
            end: false,
        }
    }

    /// The cursor that the walk moves.
    pub open spec fn cursor(self) -> CursorView {
        self.cursor_at(self.at)
    }

    /// A cursor of the walk standing at `path`. The cursors of a walk are
    /// created on the root of the tree.
    pub open spec fn cursor_at(self, path: Path) -> CursorView {
        CursorView {
            file: self.file,
            root: self.root,
            path,
            stkind: self.walk.nav,
            rooted: true,
        }
    }

    /// The node that the walk stands on.
    pub open spec fn node(self) -> SyntaxNode {
        node_at(self.root, self.at)
    }

    /// While the walk is not over it stands at or below its anchor, and so
    /// does the position before it.
    pub open spec fn wf(self) -> bool {
        !self.end ==> {
            &&& below(self.anchor, self.at)
            &&& (self.last matches Some(p) ==> below(self.anchor, p))
        }
    }

    /// Every event that is still to come, let out or not.
    pub open spec fn pending(self) -> Seq<Event> {
        if self.end {
            Seq::empty()
        } else if self.visited {
            seq![Event::Leave(self.at)] + after(self.walk, self.root, self.anchor, self.at)
        } else {
            visits(self.walk, self.node(), self.at) + after(
                self.walk,
                self.root,
                self.anchor,
                self.at,
            )
        }
    }

    /// The events that `next` is still to yield, in order.
    pub open spec fn rest(self) -> Seq<Event> {
        emitted(self.walk, self.root, self.pending())
    }

    /// The event that one `step` yields.
    pub open spec fn step_event(self) -> Option<Event> {
        if self.end {
            None
        } else if self.visited {
            Some(Event::Leave(self.at))
        } else {
            Some(Event::Enter(self.at))
        }
    }

    /// The state after one `step`.
    ///
    /// An unvisited node is entered: the walk moves to its first exposed
    /// child, or marks the node visited where it has none. A visited node is
    /// left: the walk moves to the next exposed sibling, which is unvisited,
    /// else to the parent, which is visited. The walk is over once the anchor
    /// is left, or where there is nowhere to move.
    pub open spec fn stepped(self) -> Self {
        let seen = TraversalView { last: Some(self.at), ..self };
        if self.end {
            seen
        } else if self.visited {
            let done = self.at == self.anchor;
            match self.cursor().next_sibling() {
                Some(q) => TraversalView { at: q, visited: false, end: done, ..seen },
                None => match self.cursor().parent() {
                    Some(q) => TraversalView { at: q, end: done, ..seen },
                    None => TraversalView { end: true, ..seen },
                },
            }
        } else {
            match self.cursor().first_child() {
                Some(q) => TraversalView { at: q, ..seen },
                None => TraversalView { visited: true, ..seen },
            }
        }
    }

    /// The state after `pass`: the walk is back where it stood before the
    /// latest step, on a node marked visited; it is over where there was no
    /// step.
    pub open spec fn passed(self) -> Self {
        match self.last {
            Some(p) => TraversalView { at: p, visited: true, ..self },
            None => TraversalView { visited: true, end: true, ..self },
        }
    }

    /// Whether `next` passes over what is below the node that a step from
    /// this state enters.
    pub open spec fn enters_blocked(self) -> bool {
        !self.end && !self.visited && blocked(self.walk, self.node())
    }

    /// The state after the part of `next` that handles one step: the step,
    /// and the pass where the step entered a blocked node.
    pub open spec fn advanced(self) -> Self {
        if self.enters_blocked() {
            self.stepped().passed()
        } else {
            self.stepped()
        }
    }

    /// The state after `next`: the walk has advanced up to and including the
    /// first event that it lets out, or to its end where it lets out no
    /// more.
    pub open spec fn after_next(self) -> Self
        decreases self.pending().len(),
    {
        if self.end || !self.wf() {
            self.stepped()
        } else if surfaces(self.walk, self.root, self.pending()[0]) {
            self.advanced()
        } else {
            proof {
                lemma_advance(self);
            }
            self.advanced().after_next()
        }
    }
}

/// A child of a position at or below the anchor lies below the anchor.
proof fn lemma_below_child(anchor: Path, p: Path, i: int)
    requires
        below(anchor, p),
        0 <= i,
    ensures
        below(anchor, p.push(i)),
{
    assert(p.push(i).take(anchor.len() as int) =~= p.take(anchor.len() as int));
}

/// A position other than the anchor that lies at or below the anchor is
/// longer than the anchor, and its parent lies at or below the anchor too.
proof fn lemma_below_parent(anchor: Path, p: Path)
    requires
        below(anchor, p),
        p != anchor,
    ensures
        p.len() > anchor.len(),
        p.last() >= 0,
        below(anchor, p.drop_last()),
{
    if p.len() == anchor.len() {
        assert(p.take(anchor.len() as int) =~= p);
    }
    assert(p.drop_last().take(anchor.len() as int) =~= p.take(anchor.len() as int));
}

/// One step, with the pass that `next` adds to it on a blocked node, takes
/// the first pending event away and yields it.
pub proof fn lemma_advance(v: TraversalView)
    requires
        v.wf(),
        !v.end,
    ensures
        v.pending().len() > 0,
        v.step_event() == Some(v.pending()[0]),
        v.stepped().wf(),
        v.advanced().wf(),
        v.advanced().pending() == v.pending().skip(1),
{
    let w = v.walk;
    if v.visited {
        if v.at != v.anchor {
            // The node is left for its next exposed sibling, else for its
            // parent; either lies at or below the anchor.
            let up = v.at.drop_last();
            let siblings = node_at(v.root, up).children;
            lemma_below_parent(v.anchor, v.at);
            lemma_parent(v.root, v.at);
            lemma_visits_from(w, node_at(v.root, up), up, v.at.last() + 1);
            lemma_first_exposed(w.nav, siblings, v.at.last() + 1);
            if let Some(j) = first_exposed(w.nav, siblings, v.at.last() + 1) {
                lemma_child(v.root, up, j);
                lemma_below_child(v.anchor, up, j);
            }
        }
    } else {
        // The node is entered, and the walk moves to its first exposed child
        // where it has one.
        let children = v.node().children;
        lemma_visits_from(w, v.node(), v.at, 0);
        lemma_first_exposed(w.nav, children, 0);
        if let Some(j) = first_exposed(w.nav, children, 0) {
            lemma_child(v.root, v.at, j);
            lemma_below_child(v.anchor, v.at, j);
        }
    }
}

/// A walk that has not begun is still to yield the events of the walk over
/// the subtree under its anchor.
pub proof fn lemma_fresh_rest(walk: Walk, file: FileView, root: SyntaxNode, anchor: Path)
    ensures
        TraversalView::fresh(walk, file, root, anchor).wf(),
        TraversalView::fresh(walk, file, root, anchor).rest() == walk_events(walk, root, anchor),
{
    assert(anchor.take(anchor.len() as int) =~= anchor);
    assert(visits(walk, node_at(root, anchor), anchor) + Seq::<Event>::empty() =~= visits(
        walk,
        node_at(root, anchor),
        anchor,
    ));
}

/// The kinds that a list of kind names spells.
pub open spec fn kinds(names: Seq<&str>) -> Seq<Seq<char>> {
    Seq::new(names.len(), |i: int| names[i]@)
}

/// One event of a walk, with a cursor on the node that it is about.
pub enum Order<'a> {
    Enter(Cursor<'a>),
    Leave(Cursor<'a>),
}

impl<'a> Order<'a> {
    /// The event, with the node given by its path.
    pub open spec fn event(self) -> Event {
        match self {
            Order::Enter(c) => Event::Enter(c@.path),
            Order::Leave(c) => Event::Leave(c@.path),
        }
    }

    /// The cursor that the event carries.
    pub open spec fn at(self) -> CursorView {
        match self {
            Order::Enter(c) => c@,
            Order::Leave(c) => c@,
        }
    }

    /// The cursor on the node that the event is about.
    pub fn cursor(&self) -> (c: &Cursor<'a>)
        ensures
            c@ == self.at(),
    {
        match self {
            Order::Enter(c) => c,
            Order::Leave(c) => c,
        }
    }

    /// Whether a node is entered.
    pub fn is_enter(&self) -> (enter: bool)
        ensures
            enter == (self is Enter),
    {
        match self {
            Order::Enter(_) => true,
            Order::Leave(_) => false,
        }
    }
}

impl<'a> Clone for Order<'a> {
    /// The same event with a copy of the cursor.
    fn clone(&self) -> (copy: Self)
        ensures
            copy.event() == self.event(),
            copy.at() == self.at(),
    {
        match self {
            Order::Enter(c) => Order::Enter(c.clone()),
            Order::Leave(c) => Order::Leave(c.clone()),
        }
    }
}

/// A walk over the subtree under a cursor.
pub struct Traversal<'a> {
    cursor: Cursor<'a>,
    start: Cursor<'a>,
    last: Option<Cursor<'a>>,
    blocks: Vec<&'a str>,
    concrete: bool,
    visited: bool,
    end: bool,
}

impl<'a> View for Traversal<'a> {
    type V = TraversalView;

    closed spec fn view(&self) -> TraversalView {
        TraversalView {
            walk: Walk {
                nav: self.start@.stkind,
                concrete: self.concrete,
                blocks: kinds(self.blocks@),
            },
            file: self.start@.file,
            root: self.start@.root,
            anchor: self.start@.path,
            at: self.cursor@.path,
            last: match self.last {
                Some(c) => Some(c@.path),
                None => None,
            },
            visited: self.visited,
            end: self.end,
        }
    }
}

impl<'a> Traversal<'a> {
    /// The cursors of the walk are cursors of one file and one tree that
    /// move alike and were created on the root of the tree, and the state is
    /// a state of a walk.
    pub closed spec fn wf(&self) -> bool {
        &&& self.start@.rooted
        &&& self.cursor@ == self.start@.at(self.cursor@.path)
        &&& (self.last matches Some(c) ==> c@ == self.start@.at(c@.path))
        &&& self@.wf()
    }

    /// A walk from `cursor` that moves as `cursor` moves, lets out every node
    /// (`Concrete`) or the named ones (`Abstract`), and does not look into
    /// nodes of the kinds in `blocks`.
    pub fn from_block(cursor: &Cursor<'a>, blocks: Vec<&'a str>, stkind: STKind) -> (walk: Self)
        requires
            cursor@.rooted,
        ensures
            walk.wf(),
            walk@.wf(),
            walk@ == TraversalView::fresh(
                Walk {
                    nav: cursor@.stkind,
                    concrete: stkind == STKind::Concrete,
                    blocks: kinds(blocks@),
                },
                cursor@.file,
                cursor@.root,
                cursor@.path,
            ),
    {
        let walk = Traversal {
            start: cursor.clone(),
            last: None,
            cursor: cursor.clone(),
            visited: false,
            concrete: stkind == STKind::Concrete,
            end: false,
            blocks,
        };
        proof {
            assert(cursor@.path.take(cursor@.path.len() as int) =~= cursor@.path);
        }
        walk
    }

    /// A walk from `cursor` that blocks nothing.
    pub fn from_cursor(cursor: &Cursor<'a>, stkind: STKind) -> (walk: Self)
        requires
            cursor@.rooted,
        ensures
            walk.wf(),
            walk@.wf(),
            walk@ == TraversalView::fresh(
                Walk {
                    nav: cursor@.stkind,
                    concrete: stkind == STKind::Concrete,
                    blocks: Seq::empty(),
                },
                cursor@.file,
                cursor@.root,
                cursor@.path,
            ),
    {
        let blocks: Vec<&'a str> = Vec::new();
        assert(kinds(blocks@) =~= Seq::<Seq<char>>::empty());
        Traversal::from_block(cursor, blocks, stkind)
    }

    /// A walk from `cursor` that lets out the named nodes only.
    pub fn new(cursor: &Cursor<'a>) -> (walk: Self)
        requires
            cursor@.rooted,
        ensures
            walk.wf(),
            walk@.wf(),
            walk@ == TraversalView::fresh(
                Walk { nav: cursor@.stkind, concrete: false, blocks: Seq::empty() },
                cursor@.file,
                cursor@.root,
                cursor@.path,
            ),
    {
        Traversal::from_cursor(cursor, STKind::Abstract)
    }

    /// A walk over the whole tree of `file` that moves over every node and
    /// lets out the named ones only.
    pub fn from_file(file: &'a File) -> (walk: Self)
        ensures
            walk.wf(),
            walk@.wf(),
            walk@ == TraversalView::fresh(
                Walk { nav: STKind::Concrete, concrete: false, blocks: Seq::empty() },
                file@,
                file@.root,
                Seq::empty(),
            ),
    {
        let cursor = file.cursor(STKind::Concrete);
        Traversal::from_cursor(&cursor, STKind::Abstract)
    }

    /// A walk from `cursor` that lets out the named nodes only and does not
    /// look into nodes of the kinds in `blocks`.
    pub fn new_block(cursor: &Cursor<'a>, blocks: Vec<&'a str>) -> (walk: Self)
        requires
            cursor@.rooted,
        ensures
            walk.wf(),
            walk@.wf(),
            walk@ == TraversalView::fresh(
                Walk { nav: cursor@.stkind, concrete: false, blocks: kinds(blocks@) },
                cursor@.file,
                cursor@.root,
                cursor@.path,
            ),
    {
        Traversal::from_block(cursor, blocks, STKind::Abstract)
    }

    /// A walk from `cursor` that lets out every node.
    pub fn new_concrete(cursor: &Cursor<'a>) -> (walk: Self)
        requires
            cursor@.rooted,
        ensures
            walk.wf(),
            walk@.wf(),
            walk@ == TraversalView::fresh(
                Walk { nav: cursor@.stkind, concrete: true, blocks: Seq::empty() },
                cursor@.file,
                cursor@.root,
                cursor@.path,
            ),
    {
        Traversal::from_cursor(cursor, STKind::Concrete)
    }

    /// Goes back to where the walk stood before the latest step and marks
    /// that node visited, so that what is below it is passed over. Ends the
    /// walk where there was no step.
    pub fn pass(&mut self)
        requires
            old(self).wf(),
        ensures
            final(self).wf(),
            final(self)@.wf(),
            final(self)@ == old(self)@.passed(),
    {
        match &self.last {
            Some(cur) => {
                self.cursor = cur.clone();
            },
            None => {
                self.end = true;
            },
        }
        self.visited = true;
    }

    /// One step of the walk: the entering or the leaving of the node that
    /// the walk stands on, or nothing once the walk is over.
    pub fn step(&mut self) -> (event: Option<Order<'a>>)
        requires
            old(self).wf(),
        ensures
            final(self).wf(),
            final(self)@.wf(),
            final(self)@ == old(self)@.stepped(),
            match event {
                Some(e) => old(self)@.step_event() == Some(e.event()) && e.at() == old(
                    self,
                )@.cursor(),
                None => old(self)@.step_event() is None,
            },
    {
        let ghost before = self@;
        let last = self.cursor.clone();
        self.last = Some(last.clone());
        if self.end {
            return None;
        }
        proof {
            lemma_advance(before);
        }
        if self.visited {
            if last.same_node(&self.start) {
                self.end = true;
            }
            if self.cursor.goto_next_sibling() {
                self.visited = false;
                Some(Order::Leave(last))
            } else if self.cursor.goto_parent() {
                Some(Order::Leave(last))
            } else {
                self.end = true;
                Some(Order::Leave(last))
            }
        } else {
            if self.cursor.goto_first_child() {
                Some(Order::Enter(last))
            } else {
                self.visited = true;
                Some(Order::Enter(self.cursor.clone()))
            }
        }
    }

    /// Whether `kind` is one of the blocked kinds.
    fn blocks_kind(&self, kind: &str) -> (found: bool)
        ensures
            found == self@.walk.blocks.contains(kind@),
    {
        let mut i: usize = 0;
        while i < self.blocks.len()
            invariant
                i <= self.blocks.len(),
                forall|k: int| 0 <= k < i ==> kinds(self.blocks@)[k] != kind@,
            decreases self.blocks.len() - i,
        {
            if same_text(self.blocks[i], kind) {
                assert(kinds(self.blocks@)[i as int] == kind@);
                return true;
            }
            i += 1;
        }
        false
    }

    /// The next event that the walk lets out, or nothing once it is over.
    ///
    /// Steps until an event is about a node that the walk lets out. Where
    /// such an event enters a node of a blocked kind, what is below that node
    /// is passed over.
    pub fn next(&mut self) -> (event: Option<Order<'a>>)
        requires
            old(self).wf(),
        ensures
            final(self).wf(),
            final(self)@.wf(),
            final(self)@ == old(self)@.after_next(),
            final(self)@.walk == old(self)@.walk,
            final(self)@.file == old(self)@.file,
            final(self)@.root == old(self)@.root,
            final(self)@.anchor == old(self)@.anchor,
            match event {
                Some(e) => {
                    &&& old(self)@.rest().len() > 0
                    &&& e.event() == old(self)@.rest()[0]
                    &&& e.at() == old(self)@.cursor_at(e.event().path())
                    &&& final(self)@.rest() == old(self)@.rest().skip(1)
                },
                None => old(self)@.rest().len() == 0 && final(self)@.rest().len() == 0,
            },
    {
        loop
            invariant
                self.wf(),
                self@.walk == old(self)@.walk,
                self@.file == old(self)@.file,
                self@.root == old(self)@.root,
                self@.anchor == old(self)@.anchor,
                self@.rest() == old(self)@.rest(),
                self@.after_next() == old(self)@.after_next(),
            decreases self@.pending().len(),
        {
            let ghost before = self@;
            match self.step() {
                None => {
                    return None;
                },
                Some(item) => {
                    proof {
                        lemma_advance(before);
                        let first = before.pending()[0];
                        lemma_emitted_concat(
                            before.walk,
                            before.root,
                            seq![first],
                            before.pending().skip(1),
                        );
                        lemma_emitted_one(before.walk, before.root, first);
                    }
                    let shown = self.concrete || item.cursor().is_named();
                    if shown {
                        if item.is_enter() && self.blocks_kind(item.cursor().kind()) {
                            self.pass();
                        }
                        return Some(item);
                    }
                },
            }
        }
    }
}

} // verus!
