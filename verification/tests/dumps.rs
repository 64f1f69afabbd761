use ts_cursor::cursor::{Cursor, STKind};
use ts_cursor::file::File;
use ts_cursor::utils::dumper::Dumper;

fn js(source: &str) -> File {
    File::from_string("script.js", source.to_string(), tree_sitter_javascript::language()).unwrap()
}

fn php(source: &str) -> File {
    File::from_string("script.php", source.to_string(), tree_sitter_php::language()).unwrap()
}

const EVERY: &str = "Kind: program
  Kind: lexical_declaration
    Kind: let
    Field: kind
    Kind: variable_declarator
      Kind: identifier
      Field: name
      Kind: =
      Kind: number
      Field: value
    Kind: ;
";

const NAMED: &str = "Kind: program
  Kind: lexical_declaration
    Kind: variable_declarator
      Kind: identifier
      Field: name
      Kind: number
      Field: value
";

#[test]
fn dump_of_every_node() {
    let file = js("let a = 1;");
    let text = Dumper::dump_cursor(Cursor::from_file(&file, STKind::Concrete), true);
    assert_eq!(text, EVERY);
}

#[test]
fn dump_of_the_named_nodes() {
    let file = js("let a = 1;");
    let text = Dumper::dump_cursor(Cursor::from_file(&file, STKind::Concrete), false);
    assert_eq!(text, NAMED);
}

#[test]
fn dump_of_a_subtree_starts_at_depth_zero() {
    let file = js("let a = 1;");
    let mut cursor = Cursor::from_file(&file, STKind::Abstract);
    assert!(cursor.goto_first_child());
    assert!(cursor.goto_first_child());
    let text = Dumper::dump_cursor(cursor, false);
    let want = "Kind: variable_declarator
  Kind: identifier
  Field: name
  Kind: number
  Field: value
";
    assert_eq!(text, want);
}

#[test]
fn dump_shows_the_text_of_name_nodes() {
    let file = php("<?php function f() {}");
    let mut cursor = Cursor::from_file(&file, STKind::Abstract);
    assert!(cursor.goto_child(1));
    let text = Dumper::dump_cursor(cursor, false);
    let want = "Kind: function_definition
  Kind: name
  Name: f
  Field: name
  Kind: formal_parameters
  Field: parameters
  Kind: compound_statement
  Field: body
";
    assert_eq!(text, want);
}

#[test]
fn dump_of_several_files_follows_their_order() {
    let one = js("let a = 1;");
    let two = js("a;");
    let dumper = Dumper::new(vec![&one, &two, &one]);
    let want = format!(
        "{}{}{}",
        NAMED, "Kind: program\n  Kind: expression_statement\n    Kind: identifier\n", NAMED
    );
    assert_eq!(dumper.dump(false), want);
    assert_eq!(Dumper::new(Vec::new()).dump(true), "");
}
