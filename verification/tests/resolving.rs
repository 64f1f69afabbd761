use std::collections::hash_map::DefaultHasher;
use std::hash::{Hash, Hasher};
use ts_cursor::cursor::{Cursor, STKind};
use ts_cursor::file::File;
use ts_cursor::resolved::Resolved;

const SCRIPT: &str = "<?php\nfunction add($a, $b) {\n    return $a + $b;\n}\necho add(1, 2);\n";

fn php(source: &str) -> File {
    File::from_string("script.php", source.to_string(), tree_sitter_php::language()).unwrap()
}

fn function_cursor(file: &File, stkind: STKind) -> Cursor<'_> {
    let mut cursor = Cursor::from_file(file, stkind);
    assert!(cursor.goto_first_child());
    while cursor.kind() != "function_definition" {
        assert!(cursor.goto_next_sibling());
    }
    cursor
}

fn hash_of(resolved: &Resolved) -> u64 {
    let mut hasher = DefaultHasher::new();
    resolved.hash(&mut hasher);
    hasher.finish()
}

#[test]
fn a_function_has_its_parameters_in_the_order_of_the_text() {
    let file = php(SCRIPT);
    for stkind in [STKind::Abstract, STKind::Concrete].iter() {
        let function = Resolved::new_function(function_cursor(&file, *stkind));
        let parameters = function.parameters();
        assert_eq!(parameters.len(), 2);
        assert_eq!(parameters[0].kind(), "variable_name");
        assert_eq!(parameters[0].to_str(), "$a");
        assert_eq!(parameters[1].to_str(), "$b");
        assert_eq!(parameters[0].name(true), Some("a".to_string()));
        assert_eq!(parameters[1].name(false), Some("b".to_string()));
        assert_eq!(function.name(), Some("add".to_string()));
        assert_eq!(function.dump_parameters(), "a b ");
    }
}

#[test]
fn a_function_without_parameters_has_none() {
    let file = php("<?php function f() {}");
    let function = Resolved::Function { cursor: function_cursor(&file, STKind::Abstract) };
    assert!(function.parameters().is_empty());
    assert_eq!(function.dump_parameters(), "");
    assert_eq!(function.name(), Some("f".to_string()));
}

#[test]
fn a_node_without_a_parameter_list_has_no_parameters() {
    let file = php(SCRIPT);
    let mut cursor = Cursor::from_file(&file, STKind::Abstract);
    assert!(cursor.goto_first_child());
    while cursor.kind() != "echo_statement" {
        assert!(cursor.goto_next_sibling());
    }
    let function = Resolved::new_function(cursor.clone());
    assert!(function.parameters().is_empty());
    assert!(function.cursor() == cursor);
    assert_eq!(function.name(), Some("add".to_string()));
}

#[test]
fn a_root_has_no_parameters() {
    let file = php(SCRIPT);
    let root = Resolved::new_root(function_cursor(&file, STKind::Abstract));
    assert!(root.parameters().is_empty());
    assert_eq!(root.dump_parameters(), "");
    assert_eq!(root.name(), Some("add".to_string()));
    assert_eq!(root.cursor().kind(), "function_definition");
}

#[test]
fn a_name_may_be_absent() {
    let file = php("<?php 1;");
    let root = Resolved::new_root(Cursor::from_file(&file, STKind::Abstract));
    assert_eq!(root.name(), None);
}

#[test]
fn resolved_nodes_compare_by_variant_and_node() {
    let file = php(SCRIPT);
    let a = Resolved::new_function(function_cursor(&file, STKind::Abstract));
    let b = Resolved::new_function(function_cursor(&file, STKind::Concrete));
    let c = Resolved::new_root(function_cursor(&file, STKind::Abstract));
    let d = Resolved::new_function(Cursor::from_file(&file, STKind::Abstract));
    assert!(a == b);
    assert_eq!(hash_of(&a), hash_of(&b));
    assert!(a != c);
    assert!(a != d);
    let copy = a.clone();
    assert!(copy == a);
    assert!(matches!(copy, Resolved::Function { .. }));
}
