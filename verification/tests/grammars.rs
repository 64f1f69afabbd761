use ts_cursor::cursor::{Cursor, STKind};
use ts_cursor::file::File;

#[test]
fn test_php() {
    let source = "<?php\nclass Data {\n    public $x;\n}\n".to_string();
    let file = File::from_string("test_class.php", source, tree_sitter_php::language()).unwrap();
    let mut cursor = Cursor::from_file(&file, STKind::Concrete);

    assert_eq!(cursor.goto_first_child(), true);
    assert_eq!(cursor.goto_first_child(), false);
    assert_eq!(cursor.kind(), "php_tag");
    assert_eq!(cursor.goto_next_sibling(), true);
    assert_eq!(cursor.name(false), Some("Data".into()));
}

#[test]
fn test_javascript() {
    let source = "<div>hello</div>;".to_string();
    let file =
        File::from_string("test_example.js", source, tree_sitter_javascript::language()).unwrap();
    let mut cursor = Cursor::from_file(&file, STKind::Concrete);

    assert_eq!(cursor.goto_first_child(), true);
    assert_eq!(cursor.goto_first_child(), true);
    assert_eq!(cursor.goto_first_child(), true);
    assert_eq!(cursor.goto_first_child(), true);
    assert_eq!(cursor.kind(), "<");
}
