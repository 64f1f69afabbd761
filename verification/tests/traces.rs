use ts_cursor::cursor::{Cursor, STKind};
use ts_cursor::file::File;
use ts_cursor::tracer::Trace;

fn js(source: &str) -> File {
    File::from_string("script.js", source.to_string(), tree_sitter_javascript::language()).unwrap()
}

/// A cursor on the `<` of the opening tag.
fn bracket(file: &File) -> Cursor<'_> {
    let mut cursor = Cursor::from_file(file, STKind::Concrete);
    for _ in 0..4 {
        assert!(cursor.goto_first_child());
    }
    assert_eq!(cursor.kind(), "<");
    cursor
}

fn kinds(trace: &mut Trace) -> Vec<String> {
    let mut out = Vec::new();
    while let Some(ancestor) = trace.next() {
        out.push(ancestor.kind().to_string());
    }
    out
}

#[test]
fn a_trace_yields_the_ancestors_nearest_first() {
    let file = js("<div>hello</div>;");
    let cursor = bracket(&file);
    let want = vec!["jsx_opening_element", "jsx_element", "expression_statement", "program"];
    assert_eq!(kinds(&mut cursor.trace()), want);
    assert_eq!(kinds(&mut Trace::new(cursor.clone())), want);
    assert_eq!(kinds(&mut Trace::new_concrete(cursor.clone())), want);
    // The cursor that was traced stays where it was.
    assert_eq!(cursor.kind(), "<");
}

#[test]
fn a_trace_climbs_and_never_comes_back() {
    let file = js("<div>hello</div>;");
    let cursor = bracket(&file);
    let mut trace = Trace::new_concrete(cursor.clone());
    let mut seen: Vec<Cursor> = Vec::new();
    let mut below = cursor.clone();
    while let Some(ancestor) = trace.next() {
        let mut up = below.clone();
        assert!(up.goto_parent());
        assert!(up == ancestor);
        for earlier in seen.iter() {
            assert!(*earlier != ancestor);
        }
        seen.push(ancestor.clone());
        below = ancestor;
    }
    assert_eq!(seen.len(), 4);
    assert!(*seen.last().unwrap() == Cursor::from_file(&file, STKind::Concrete));
    assert!(trace.next().is_none());
}

#[test]
fn a_trace_from_the_root_is_empty() {
    let file = js("a;");
    let root = Cursor::from_file(&file, STKind::Abstract);
    assert!(root.trace().next().is_none());
    assert!(Trace::new_concrete(root).next().is_none());
}

#[test]
fn a_trace_yields_cursors_that_move_like_the_traced_one() {
    let file = js("let a = 1;");
    let mut cursor = Cursor::from_file(&file, STKind::Abstract);
    assert!(cursor.goto_first_child());
    assert!(cursor.goto_first_child());
    assert!(cursor.goto_first_child());
    assert_eq!(cursor.kind(), "identifier");
    let mut trace = cursor.trace();
    let mut declarator = trace.next().unwrap();
    assert_eq!(declarator.kind(), "variable_declarator");
    assert!(declarator.goto_parent());
    assert!(declarator.goto_first_child());
    // An abstract cursor passes over the unnamed `let`.
    assert_eq!(declarator.kind(), "variable_declarator");
    assert_eq!(kinds(&mut trace), vec!["lexical_declaration", "program"]);
}
