//! A plain-text picture of a syntax tree: one entry for each node that a
//! walk enters, indented by its depth.

use crate::cursor::{name_kind, Cursor, CursorView, STKind};
use crate::events::{nesting, walk_events, Event, Walk};
use crate::file::{File, FileView};
use crate::laws::nesting::law_events_nest;
use crate::syntax::Path;
use crate::text::same_text;
use crate::traverser::{lemma_fresh_rest, Order, Traversal};
use vstd::prelude::*;
use vstd::string::StringExecFns;

verus! {

/// Two blanks for each level of depth.
pub open spec fn indent(depth: nat) -> Seq<char>
    decreases depth,
{
    if depth == 0 {
        Seq::empty()
    } else {
        indent((depth - 1) as nat) + "  "@
    }
}

/// The entry for the node under `c`: a line with its kind, a line with its
/// text where it is of kind `name`, and a line with its field where it has
/// one, each behind the indentation `blanks`.
pub open spec fn entry(c: CursorView, blanks: Seq<char>) -> Seq<char> {
    blanks + "Kind: "@ + c.node().kind + "\n"@ + (if c.node().kind == name_kind() {
        blanks + "Name: "@ + c.text() + "\n"@
    } else {
        Seq::empty()
    }) + (match c.node().field {
        Some(field) => blanks + "Field: "@ + field + "\n"@,
        None => Seq::empty(),
    })
}

/// The entries for the nodes that `events` enter, where `base` is a cursor of
/// the tree and `depth` nodes are entered and not left at the start. Each
/// entering adds to the depth, each leaving takes from it.
pub open spec fn rendered(base: CursorView, events: Seq<Event>, depth: nat) -> Seq<char>
    decreases events.len(),
{
    if events.len() == 0 {
        Seq::empty()
    } else {
        match events[0] {
            Event::Enter(p) => entry(base.at(p), indent(depth)) + rendered(
                base,
                events.skip(1),
                depth + 1,
            ),
            Event::Leave(_) => rendered(base, events.skip(1), (depth - 1) as nat),
        }
    }
}

/// The walk that a dump of the subtree under a cursor makes.
pub open spec fn dump_walk(c: CursorView, concrete: bool) -> Walk {
    Walk { nav: c.stkind, concrete, blocks: Seq::empty() }
}

/// The events of the walk that a dump of the subtree under `c` makes.
pub open spec fn dump_events(c: CursorView, concrete: bool) -> Seq<Event> {
    walk_events(dump_walk(c, concrete), c.root, c.path)
}

/// The cursor on the root of `file` that a dump of the file starts from.
pub open spec fn root_cursor(file: FileView) -> CursorView {
    CursorView {
        file,
        root: file.root,
        path: Seq::empty(),
        stkind: STKind::Concrete,
        rooted: true,
    }
}

/// The dumps of the first `upto` files, one after the other.
pub open spec fn dumped(files: Seq<&File>, concrete: bool, upto: int) -> Seq<char>
    decreases upto,
{
    if upto <= 0 {
        Seq::empty()
    } else {
        dumped(files, concrete, upto - 1) + rendered(
            root_cursor(files[upto - 1]@),
            dump_events(root_cursor(files[upto - 1]@), concrete),
            0,
        )
    }
}

/// Dumps the syntax trees of a list of files.
pub struct Dumper<'a> {
    files: Vec<&'a File>,
}

impl<'a> View for Dumper<'a> {
    type V = Seq<&'a File>;

    closed spec fn view(&self) -> Seq<&'a File> {
        self.files@
    }
}

/// The entry for the node under `cur` behind the indentation `blanks`.
fn entry_of(cur: &Cursor, blanks: &str) -> (text: String)
    ensures
        text@ == entry(cur@, blanks@),
{
    let mut text = String::new();
    text.append(blanks);
    text.append("Kind: ");
    text.append(cur.kind());
    text.append("\n");
    if same_text(cur.kind(), "name") {
        text.append(blanks);
        text.append("Name: ");
        text.append(cur.to_str());
        text.append("\n");
    }
    match cur.field() {
        Some(field) => {
            text.append(blanks);
            text.append("Field: ");
            text.append(field);
            text.append("\n");
        },
        None => {},
    }
    text
}

impl<'a> Dumper<'a> {
    /// A dumper of `files`.
    pub fn new(files: Vec<&'a File>) -> (dumper: Self)
        ensures
            dumper@ == files@,
    {
        Dumper { files }
    }

    /// The picture of the subtree under `cursor`: the entries for the nodes
    /// that a walk from `cursor` enters, every node with `concrete`, else the
    /// named ones.
    pub fn dump_cursor(cursor: Cursor<'a>, concrete: bool) -> (text: String)
        requires
            cursor@.rooted,
        ensures
            text@ == rendered(cursor@, dump_events(cursor@, concrete), 0),
    {
        let mut text = String::new();
        let mut blanks = String::new();
        let mode = if concrete {
            STKind::Concrete
        } else {
            STKind::Abstract
        };
        let mut walk = Traversal::from_cursor(&cursor, mode);
        let ghost base = cursor@;
        let ghost all = dump_events(base, concrete);
        let ghost mut open: Seq<Path> = Seq::empty();
        proof {
            lemma_fresh_rest(dump_walk(base, concrete), base.file, base.root, base.path);
            law_events_nest(dump_walk(base, concrete), base.root, base.path);
        }
        loop
            invariant
                walk.wf(),
                walk@.walk == dump_walk(base, concrete),
                walk@.file == base.file,
                walk@.root == base.root,
                base == cursor@,
                all == dump_events(base, concrete),
                blanks@ == indent(open.len()),
                nesting(walk@.rest(), open) == Some(Seq::<Path>::empty()),
                text@ + rendered(base, walk@.rest(), open.len()) == rendered(base, all, 0),
            ensures
                text@ == rendered(base, all, 0),
            decreases walk@.rest().len(),
        {
            match walk.next() {
                None => {
                    break ;
                },
                Some(motion) => {
                    match motion {
                        Order::Enter(cur) => {
                            let lines = entry_of(&cur, blanks.as_str());
                            proof {
                                open = open.push(cur@.path);
                            }
                            text.append(lines.as_str());
                            blanks.append("  ");
                        },
                        Order::Leave(_) => {
                            proof {
                                reveal_strlit("  ");
                                open = open.drop_last();
                            }
                            blanks.pop();
                            blanks.pop();
                        },
                    }
                },
            }
        }
        text
    }

    /// The pictures of the whole trees of the files, one after the other.
    pub fn dump(&self, concrete: bool) -> (text: String)
        ensures
            text@ == dumped(self@, concrete, self@.len() as int),
    {
        let mut text = String::new();
        let mut i: usize = 0;
        while i < self.files.len()
            invariant
                i <= self.files.len(),
                text@ == dumped(self@, concrete, i as int),
            decreases self.files.len() - i,
        {
            let file = self.files[i];
            let part = Dumper::dump_cursor(file.cursor(STKind::Concrete), concrete);
            text.append(part.as_str());
            i += 1;
        }
        text
    }
}

} // verus!
