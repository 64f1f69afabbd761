use ts_cursor::text::{same_text, slice_text};

#[test]
fn same_text_compares_characters() {
    assert!(same_text("name", "name"));
    assert!(same_text("", ""));
    assert!(!same_text("name", "names"));
    assert!(!same_text("name", "nama"));
    assert!(!same_text("", "a"));
    assert!(same_text("h\u{e9}llo", "h\u{e9}llo"));
    assert!(!same_text("h\u{e9}llo", "hello"));
}

#[test]
fn slice_text_cuts_a_byte_range() {
    assert_eq!(slice_text("let a = 1;", 4, 5), "a");
    assert_eq!(slice_text("let a = 1;", 0, 10), "let a = 1;");
    assert_eq!(slice_text("let a = 1;", 0, 0), "");
    assert_eq!(slice_text("let a = 1;", 10, 10), "");
    assert_eq!(slice_text("let a = 1;", 8, 10), "1;");
}

#[test]
fn slice_text_respects_character_boundaries() {
    // h is one byte, e-acute two.
    let text = "h\u{e9}llo";
    assert_eq!(slice_text(text, 1, 3), "\u{e9}");
    assert_eq!(slice_text(text, 0, 3), "h\u{e9}");
    assert_eq!(slice_text(text, 3, 6), "llo");
    assert_eq!(slice_text(text, 1, 2), "");
    assert_eq!(slice_text(text, 2, 3), "");
    assert_eq!(slice_text(text, 2, 6), "");
}

#[test]
fn slice_text_of_a_range_outside_the_text_is_empty() {
    assert_eq!(slice_text("abc", 2, 4), "");
    assert_eq!(slice_text("abc", 4, 5), "");
    assert_eq!(slice_text("abc", 2, 1), "");
    assert_eq!(slice_text("", 0, 1), "");
    assert_eq!(slice_text("", 0, 0), "");
}
