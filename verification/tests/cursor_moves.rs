use std::collections::hash_map::DefaultHasher;
use std::hash::{Hash, Hasher};
use ts_cursor::cursor::{Cursor, STKind};
use ts_cursor::file::File;

const SCRIPT: &str = "<?php\nfunction add($a, $b) {\n    return $a + $b;\n}\necho add(1, 2);\n";

fn php(source: &str) -> File {
    File::from_string("script.php", source.to_string(), tree_sitter_php::language()).unwrap()
}

fn js(source: &str) -> File {
    File::from_string("script.js", source.to_string(), tree_sitter_javascript::language()).unwrap()
}

fn hash_of(cursor: &Cursor) -> u64 {
    let mut hasher = DefaultHasher::new();
    cursor.hash(&mut hasher);
    hasher.finish()
}

/// A cursor on the function definition of `SCRIPT`.
fn function_cursor(file: &File, stkind: STKind) -> Cursor<'_> {
    let mut cursor = Cursor::from_file(file, stkind);
    assert!(cursor.goto_first_child());
    while cursor.kind() != "function_definition" {
        assert!(cursor.goto_next_sibling());
    }
    cursor
}

#[test]
fn root_has_no_parent_and_no_sibling() {
    let file = js("let a = 1;");
    let mut cursor = Cursor::from_file(&file, STKind::Concrete);
    let root = cursor.clone();
    assert!(!cursor.goto_parent());
    assert!(cursor == root);
    assert!(!cursor.goto_next_sibling());
    assert!(cursor == root);
    assert_eq!(cursor.kind(), "program");
    assert_eq!(cursor.field(), None);
    assert_eq!(cursor.get_index(), 0);
    let mut named = Cursor::from_file(&file, STKind::Abstract);
    assert!(!named.goto_next_sibling());
    assert!(named == root);
}

#[test]
fn concrete_cursor_stops_on_every_child() {
    let file = js("let a = 1;");
    let mut cursor = Cursor::from_file(&file, STKind::Concrete);
    assert!(cursor.goto_first_child());
    assert_eq!(cursor.kind(), "lexical_declaration");
    assert!(cursor.goto_first_child());
    assert_eq!(cursor.kind(), "let");
    assert!(!cursor.is_named());
    assert_eq!(cursor.field(), Some("kind"));
    assert!(cursor.goto_next_sibling());
    assert_eq!(cursor.kind(), "variable_declarator");
    assert!(cursor.goto_next_sibling());
    assert_eq!(cursor.kind(), ";");
    assert!(!cursor.goto_next_sibling());
    assert_eq!(cursor.kind(), ";");
    assert!(!cursor.goto_first_child());
    assert_eq!(cursor.kind(), ";");
}

#[test]
fn abstract_cursor_skips_unnamed_children() {
    let file = js("let a = 1;");
    let mut cursor = Cursor::from_file(&file, STKind::Abstract);
    assert!(cursor.goto_first_child());
    assert_eq!(cursor.kind(), "lexical_declaration");
    assert!(cursor.goto_first_child());
    assert_eq!(cursor.kind(), "variable_declarator");
    assert!(!cursor.goto_next_sibling());
    assert_eq!(cursor.kind(), "variable_declarator");
    assert_eq!(cursor.get_index(), 0);
    assert!(cursor.goto_first_child());
    assert_eq!(cursor.kind(), "identifier");
    assert_eq!(cursor.to_str(), "a");
    assert!(cursor.goto_next_sibling());
    assert_eq!(cursor.kind(), "number");
    assert_eq!(cursor.get_index(), 1);
    assert!(!cursor.goto_first_child());
    assert_eq!(cursor.kind(), "number");
}

#[test]
fn abstract_cursor_stays_where_no_child_is_named() {
    let file = php("<?php function f() {}");
    let mut cursor = function_cursor(&file, STKind::Abstract);
    assert!(cursor.goto_field("parameters"));
    assert_eq!(cursor.kind(), "formal_parameters");
    let list = cursor.clone();
    assert!(!cursor.goto_first_child());
    assert!(cursor == list);
    assert_eq!(cursor.kind(), "formal_parameters");
    assert!(!cursor.goto_child(0));
    assert!(cursor == list);

    let mut every = function_cursor(&file, STKind::Concrete);
    assert!(every.goto_field("parameters"));
    assert!(every.goto_first_child());
    assert_eq!(every.kind(), "(");
}

#[test]
fn goto_child_counts_exposed_children() {
    let file = js("let a = 1;");
    let mut cursor = Cursor::from_file(&file, STKind::Concrete);
    assert!(cursor.goto_first_child());
    let declaration = cursor.clone();

    assert!(cursor.goto_child(0));
    assert_eq!(cursor.kind(), "let");
    assert!(cursor.goto_parent());
    assert!(cursor.goto_child(1));
    assert_eq!(cursor.kind(), "variable_declarator");
    assert!(cursor.goto_parent());
    assert!(cursor.goto_child(2));
    assert_eq!(cursor.kind(), ";");
    assert!(cursor.goto_parent());
    assert!(!cursor.goto_child(3));
    assert!(cursor == declaration);
    assert_eq!(cursor.kind(), "lexical_declaration");

    let mut named = Cursor::from_file(&file, STKind::Abstract);
    assert!(named.goto_first_child());
    assert!(named.goto_child(0));
    assert_eq!(named.kind(), "variable_declarator");
    assert!(named.goto_child(1));
    assert_eq!(named.to_string(), "1");
    assert!(named.goto_parent());
    assert!(!named.goto_child(2));
    assert_eq!(named.kind(), "variable_declarator");
    assert!(named.goto_parent());
    assert!(!named.goto_child(1));
    assert!(named == declaration);
}

#[test]
fn goto_child_fails_on_a_leaf() {
    let file = js("let a = 1;");
    let mut cursor = Cursor::from_file(&file, STKind::Concrete);
    assert!(cursor.goto_first_child());
    assert!(cursor.goto_first_child());
    let leaf = cursor.clone();
    assert!(!cursor.goto_child(0));
    assert!(cursor == leaf);
    assert!(!cursor.goto_field("name"));
    assert!(cursor == leaf);
}

#[test]
fn goto_field_finds_the_child_with_that_field() {
    let file = php(SCRIPT);
    let mut cursor = function_cursor(&file, STKind::Abstract);
    assert!(cursor.goto_field("body"));
    assert_eq!(cursor.kind(), "compound_statement");
    assert_eq!(cursor.field(), Some("body"));
    assert!(cursor.goto_parent());
    assert!(cursor.goto_field("name"));
    assert_eq!(cursor.to_str(), "add");
}

#[test]
fn goto_field_on_unnamed_child_needs_concrete_mode() {
    let file = js("let a = 1;");
    let mut named = Cursor::from_file(&file, STKind::Abstract);
    assert!(named.goto_first_child());
    assert!(!named.goto_field("kind"));
    assert_eq!(named.kind(), "lexical_declaration");

    let mut every = Cursor::from_file(&file, STKind::Concrete);
    assert!(every.goto_first_child());
    assert!(every.goto_field("kind"));
    assert_eq!(every.kind(), "let");
}

#[test]
fn goto_field_without_such_field_leaves_cursor_in_place() {
    let file = php(SCRIPT);
    let mut cursor = Cursor::from_file(&file, STKind::Concrete);
    assert!(cursor.goto_first_child());
    while cursor.kind() != "echo_statement" {
        assert!(cursor.goto_next_sibling());
    }
    let before = cursor.clone();
    assert!(!cursor.goto_field("parameters"));
    assert!(cursor == before);
    assert_eq!(cursor.kind(), "echo_statement");
    assert_eq!(cursor.to_str(), "echo add(1, 2);");

    let mut named = before.clone();
    named.stkind = STKind::Abstract;
    assert!(!named.goto_field("parameters"));
    assert!(named == before);
}

#[test]
fn get_index_counts_named_siblings_in_every_mode() {
    let file = php(SCRIPT);
    let mut cursor = function_cursor(&file, STKind::Concrete);
    // php_tag comes before the function.
    assert_eq!(cursor.get_index(), 1);
    assert!(cursor.goto_field("parameters"));
    // `function` is not named, `name` is.
    assert_eq!(cursor.get_index(), 1);
    assert!(cursor.goto_first_child());
    assert_eq!(cursor.kind(), "(");
    assert_eq!(cursor.get_index(), 0);
    assert!(cursor.goto_next_sibling());
    assert_eq!(cursor.kind(), "simple_parameter");
    assert_eq!(cursor.get_index(), 0);
    assert!(cursor.goto_next_sibling());
    assert_eq!(cursor.kind(), ",");
    assert_eq!(cursor.get_index(), 1);
    assert!(cursor.goto_next_sibling());
    assert_eq!(cursor.kind(), "simple_parameter");
    assert_eq!(cursor.get_index(), 1);
    assert!(cursor.goto_next_sibling());
    assert_eq!(cursor.kind(), ")");
    assert_eq!(cursor.get_index(), 2);
}

#[test]
fn parent_then_indexed_child_leads_back_in_abstract_mode() {
    let file = php(SCRIPT);
    let mut walk = Cursor::from_file(&file, STKind::Concrete).traverse(STKind::Abstract);
    let mut checked = 0;
    while let Some(event) = walk.next() {
        if !event.is_enter() {
            continue;
        }
        let mut cursor = event.cursor().clone();
        cursor.stkind = STKind::Abstract;
        let here = cursor.clone();
        let index = cursor.get_index();
        if !cursor.goto_parent() {
            continue;
        }
        assert!(cursor.goto_child(index));
        assert!(cursor == here);
        assert_eq!(cursor.to_str(), here.to_str());
        checked += 1;
    }
    assert_eq!(checked, 25);
}

#[test]
fn parent_then_indexed_child_leads_back_in_concrete_mode_behind_named_siblings() {
    let file = php(SCRIPT);
    // The function comes behind the named php_tag only.
    let mut cursor = function_cursor(&file, STKind::Concrete);
    let here = cursor.clone();
    let index = cursor.get_index();
    assert!(cursor.goto_parent());
    assert!(cursor.goto_child(index));
    assert!(cursor == here);

    // The parameter list comes behind the unnamed `function`: the index
    // counts named siblings, the concrete cursor counts all.
    let mut list = function_cursor(&file, STKind::Concrete);
    assert!(list.goto_field("parameters"));
    let here = list.clone();
    let index = list.get_index();
    assert!(list.goto_parent());
    assert!(list.goto_child(index));
    assert!(list != here);
    assert_eq!(list.kind(), "name");
}

#[test]
fn cursors_on_one_node_are_equal_whatever_their_mode() {
    let file = php(SCRIPT);
    let a = function_cursor(&file, STKind::Concrete);
    let b = function_cursor(&file, STKind::Abstract);
    assert!(a == b);
    assert_eq!(hash_of(&a), hash_of(&b));
    assert!(a.same_node(&b));
    assert_eq!(a.node_id(), b.node_id());

    let root = Cursor::from_file(&file, STKind::Concrete);
    assert!(a != root);
    assert!(!a.same_node(&root));
    let mut child = a.clone();
    assert!(child.goto_first_child());
    assert!(child != a);
    assert!(child.goto_parent());
    assert!(child == a);
}

#[test]
fn cursors_of_files_with_other_names_differ() {
    let one = File::from_string("one.js", "a;".to_string(), tree_sitter_javascript::language())
        .unwrap();
    let copy = one.clone();
    let other = File::from_tree(
        "two.js",
        {
            let mut parser = tree_sitter::Parser::new();
            parser.set_language(tree_sitter_javascript::language()).unwrap();
            parser.parse("a;", None).unwrap()
        },
        "a;".to_string(),
    );
    let a = Cursor::from_file(&one, STKind::Concrete);
    let b = Cursor::from_file(&other, STKind::Concrete);
    assert!(a != b);
    let c = Cursor::from_file(&copy, STKind::Abstract);
    assert!(c != b);
    assert_eq!(copy.name(), "one.js");
}

#[test]
fn text_of_the_root_is_the_source() {
    let file = php(SCRIPT);
    let cursor = Cursor::from_file(&file, STKind::Concrete);
    assert_eq!(cursor.to_str(), SCRIPT);
    assert_eq!(cursor.to_string(), file.get_source());

    let plain = js("let a = 1;");
    assert_eq!(Cursor::from_file(&plain, STKind::Abstract).to_str(), "let a = 1;");
}

#[test]
fn text_of_the_root_leaves_out_leading_blanks() {
    let file = js("  let a = 1;");
    let cursor = Cursor::from_file(&file, STKind::Concrete);
    assert_eq!(cursor.to_str(), "let a = 1;");
}

#[test]
fn text_of_a_node_with_wide_characters() {
    let file = js("let s = \"h\u{e9}llo \u{4e16}\u{754c}\"; let t = 2;");
    let mut cursor = Cursor::from_file(&file, STKind::Abstract);
    assert!(cursor.goto_first_child());
    assert_eq!(cursor.to_str(), "let s = \"h\u{e9}llo \u{4e16}\u{754c}\";");
    assert!(cursor.goto_next_sibling());
    assert_eq!(cursor.to_str(), "let t = 2;");
    assert!(cursor.goto_first_child());
    assert!(cursor.goto_field("value"));
    assert_eq!(cursor.to_string(), "2");
}

#[test]
fn text_of_a_node_outside_the_text_is_empty() {
    let mut parser = tree_sitter::Parser::new();
    parser.set_language(tree_sitter_javascript::language()).unwrap();
    let tree = parser.parse("let a = 1;", None).unwrap();
    let file = File::from_tree("short.js", tree, "let".to_string());
    let mut cursor = Cursor::from_file(&file, STKind::Concrete);
    assert_eq!(cursor.to_str(), "");
    assert!(cursor.goto_first_child());
    assert!(cursor.goto_first_child());
    assert_eq!(cursor.kind(), "let");
    assert_eq!(cursor.to_str(), "let");
    assert!(cursor.goto_next_sibling());
    assert_eq!(cursor.to_str(), "");
}

#[test]
fn name_of_a_name_node_is_its_text() {
    let file = php(SCRIPT);
    let mut cursor = function_cursor(&file, STKind::Abstract);
    assert!(cursor.goto_field("name"));
    assert_eq!(cursor.kind(), "name");
    assert_eq!(cursor.name(false), Some("add".to_string()));
    assert_eq!(cursor.name(true), Some("add".to_string()));
}

#[test]
fn name_comes_from_a_child_of_kind_name() {
    let file = php(SCRIPT);
    let cursor = function_cursor(&file, STKind::Concrete);
    assert_eq!(cursor.name(false), Some("add".to_string()));
    assert_eq!(cursor.name(true), Some("add".to_string()));
    assert_eq!(cursor.describe(), "function_definition add");
}

#[test]
fn name_in_depth_is_the_first_name_that_a_walk_enters() {
    let file = php(SCRIPT);
    let mut cursor = function_cursor(&file, STKind::Abstract);
    assert!(cursor.goto_field("parameters"));
    assert_eq!(cursor.name(false), None);
    assert_eq!(cursor.name(true), Some("a".to_string()));
    assert!(cursor.goto_parent());
    assert!(cursor.goto_field("body"));
    assert_eq!(cursor.name(false), None);
    assert_eq!(cursor.name(true), Some("a".to_string()));
    assert_eq!(cursor.describe(), "compound_statement a");
}

#[test]
fn name_is_absent_where_no_node_is_of_kind_name() {
    let file = js("let a = 1;");
    let cursor = Cursor::from_file(&file, STKind::Concrete);
    assert_eq!(cursor.name(false), None);
    assert_eq!(cursor.name(true), None);
    assert_eq!(cursor.describe(), "program");
}

#[test]
fn raw_cursor_is_a_copy_at_the_same_node() {
    let file = php(SCRIPT);
    let cursor = function_cursor(&file, STKind::Concrete);
    let mut raw = cursor.raw_cursor();
    assert_eq!(raw.node().kind(), "function_definition");
    assert!(raw.goto_first_child());
    assert_eq!(cursor.kind(), "function_definition");
    let again = Cursor::from_cursor(cursor.raw_cursor(), cursor.file(), STKind::Abstract);
    assert!(again == cursor);
    assert_eq!(again.filename(), "script.php");
    assert_eq!(file.raw_cursor().node().kind(), "program");
}

#[test]
fn a_cursor_created_on_an_inner_node_reads_and_moves_below_it() {
    let file = php(SCRIPT);
    let function = function_cursor(&file, STKind::Concrete);
    let inner = function.raw_cursor().node().walk();
    let mut cursor = Cursor::from_cursor(inner, &file, STKind::Abstract);
    assert!(cursor == function);
    assert_eq!(cursor.kind(), "function_definition");
    assert_eq!(cursor.to_str(), function.to_str());
    // For the engine the node that a cursor was created on has no siblings
    // and no field.
    assert_eq!(cursor.field(), None);
    assert!(!cursor.goto_next_sibling());
    assert!(cursor == function);
    assert!(cursor.is_named());
    assert_eq!(cursor.node_id(), function.node_id());
}
