use ts_cursor::cursor::{Cursor, STKind};
use ts_cursor::file::File;
use ts_cursor::traverser::{Order, Traversal};

const SCRIPT: &str = "<?php\nfunction add($a, $b) {\n    return $a + $b;\n}\necho add(1, 2);\n";

fn php(source: &str) -> File {
    File::from_string("script.php", source.to_string(), tree_sitter_php::language()).unwrap()
}

fn js(source: &str) -> File {
    File::from_string("script.js", source.to_string(), tree_sitter_javascript::language()).unwrap()
}

fn function_cursor(file: &File, stkind: STKind) -> Cursor<'_> {
    let mut cursor = Cursor::from_file(file, stkind);
    assert!(cursor.goto_first_child());
    while cursor.kind() != "function_definition" {
        assert!(cursor.goto_next_sibling());
    }
    cursor
}

fn collect<'a>(walk: &mut Traversal<'a>) -> Vec<Order<'a>> {
    let mut events = Vec::new();
    while let Some(event) = walk.next() {
        events.push(event);
    }
    events
}

fn render(events: &[Order]) -> Vec<String> {
    events
        .iter()
        .map(|event| match event {
            Order::Enter(c) => format!("+{}", c.kind()),
            Order::Leave(c) => format!("-{}", c.kind()),
        })
        .collect()
}

/// Whether `inner` stands on a node below the node of `outer`.
fn is_below(inner: &Cursor, outer: &Cursor) -> bool {
    let mut up = inner.clone();
    while up.goto_parent() {
        if up == *outer {
            return true;
        }
    }
    false
}

#[test]
fn concrete_walk_of_a_statement() {
    let file = js("let a = 1;");
    let cursor = Cursor::from_file(&file, STKind::Concrete);
    let mut walk = Traversal::new_concrete(&cursor);
    let got = render(&collect(&mut walk));
    let want = vec![
        "+program",
        "+lexical_declaration",
        "+let",
        "-let",
        "+variable_declarator",
        "+identifier",
        "-identifier",
        "+=",
        "-=",
        "+number",
        "-number",
        "-variable_declarator",
        "+;",
        "-;",
        "-lexical_declaration",
        "-program",
    ];
    assert_eq!(got, want);
}

#[test]
fn abstract_walk_of_a_statement() {
    let file = js("let a = 1;");
    let cursor = Cursor::from_file(&file, STKind::Concrete);
    let want = vec![
        "+program",
        "+lexical_declaration",
        "+variable_declarator",
        "+identifier",
        "-identifier",
        "+number",
        "-number",
        "-variable_declarator",
        "-lexical_declaration",
        "-program",
    ];
    assert_eq!(render(&collect(&mut Traversal::new(&cursor))), want);
    assert_eq!(render(&collect(&mut cursor.traverse(STKind::Abstract))), want);
    assert_eq!(render(&collect(&mut Traversal::from_file(&file))), want);
    assert_eq!(render(&collect(&mut file.traverse(STKind::Abstract))), want);
    let named = Cursor::from_file(&file, STKind::Abstract);
    assert_eq!(render(&collect(&mut Traversal::new(&named))), want);
}

#[test]
fn a_walk_that_is_over_stays_over() {
    let file = js("a;");
    let mut walk = file.traverse(STKind::Concrete);
    let events = collect(&mut walk);
    assert_eq!(events.len(), 8);
    assert!(walk.next().is_none());
    assert!(walk.next().is_none());
    assert!(walk.step().is_none());
    assert!(walk.next().is_none());
}

#[test]
fn a_walk_of_a_leaf_enters_and_leaves_it() {
    let file = js("let a = 1;");
    let mut cursor = Cursor::from_file(&file, STKind::Concrete);
    assert!(cursor.goto_first_child());
    assert!(cursor.goto_first_child());
    assert_eq!(cursor.kind(), "let");
    assert_eq!(render(&collect(&mut cursor.traverse(STKind::Concrete))), vec!["+let", "-let"]);
    // The leaf is not named: a walk over named nodes lets nothing out.
    assert!(collect(&mut cursor.traverse(STKind::Abstract)).is_empty());
}

#[test]
fn a_walk_stays_in_the_subtree_of_its_anchor() {
    let file = php(SCRIPT);
    let anchor = function_cursor(&file, STKind::Concrete);
    let events = collect(&mut anchor.traverse(STKind::Concrete));
    let shown = render(&events);
    assert_eq!(shown.first().unwrap(), "+function_definition");
    assert_eq!(shown.last().unwrap(), "-function_definition");
    assert!(!shown.contains(&"+echo_statement".to_string()));
    assert!(!shown.contains(&"+program".to_string()));
    assert_eq!(events.len(), 2 * 29);
    for event in events.iter() {
        assert!(*event.cursor() == anchor || is_below(event.cursor(), &anchor));
    }
}

#[test]
fn enters_and_leaves_match_and_nest() {
    let file = php(SCRIPT);
    let modes = [
        (STKind::Concrete, STKind::Concrete),
        (STKind::Concrete, STKind::Abstract),
        (STKind::Abstract, STKind::Concrete),
        (STKind::Abstract, STKind::Abstract),
    ];
    for (moves, shows) in modes.iter() {
        let cursor = Cursor::from_file(&file, *moves);
        let events = collect(&mut cursor.traverse(*shows));
        let mut open: Vec<Cursor> = Vec::new();
        let mut enters = 0;
        let mut leaves = 0;
        for event in events.iter() {
            match event {
                Order::Enter(c) => {
                    if let Some(top) = open.last() {
                        assert!(is_below(c, top));
                    }
                    open.push(c.clone());
                    enters += 1;
                },
                Order::Leave(c) => {
                    let top = open.pop().unwrap();
                    assert!(top == *c);
                    leaves += 1;
                },
            }
        }
        assert!(open.is_empty());
        assert_eq!(enters, leaves);
        assert!(enters > 0);
    }
    let every = collect(&mut Cursor::from_file(&file, STKind::Concrete).traverse(STKind::Concrete));
    assert_eq!(every.len(), 2 * 44);
    let named = collect(&mut Cursor::from_file(&file, STKind::Concrete).traverse(STKind::Abstract));
    assert_eq!(named.len(), 2 * 26);
}

#[test]
fn each_node_is_entered_once_and_left_once() {
    let file = php(SCRIPT);
    for shows in [STKind::Concrete, STKind::Abstract].iter() {
        let events = collect(&mut file.traverse(*shows));
        for (i, a) in events.iter().enumerate() {
            for b in events[i + 1..].iter() {
                assert!(a.is_enter() != b.is_enter() || a.cursor() != b.cursor());
            }
        }
    }
    assert_eq!(collect(&mut file.traverse(STKind::Concrete)).len(), 2 * 44);
}

#[test]
fn named_events_are_the_events_of_the_concrete_walk_about_named_nodes() {
    let file = php(SCRIPT);
    for moves in [STKind::Concrete, STKind::Abstract].iter() {
        let cursor = Cursor::from_file(&file, *moves);
        let every = collect(&mut Traversal::new_concrete(&cursor));
        let named = collect(&mut Traversal::new(&cursor));
        let kept: Vec<&Order> = every.iter().filter(|e| e.cursor().is_named()).collect();
        if *moves == STKind::Concrete {
            assert_eq!(every.len(), 2 * 44);
        }
        assert_eq!(named.len(), 2 * 26);
        assert_eq!(kept.len(), named.len());
        for (a, b) in kept.iter().zip(named.iter()) {
            assert_eq!(a.is_enter(), b.is_enter());
            assert!(a.cursor() == b.cursor());
            assert!(b.cursor().is_named());
        }
    }
}

#[test]
fn nothing_below_a_blocked_kind_is_let_out() {
    let file = php(SCRIPT);
    let cursor = Cursor::from_file(&file, STKind::Concrete);
    let blocks = vec!["formal_parameters", "return_statement"];
    for shows in [STKind::Concrete, STKind::Abstract].iter() {
        let events = collect(&mut cursor.traverse_block(blocks.clone(), *shows));
        let shown = render(&events);
        for kind in blocks.iter() {
            let enter = shown.iter().position(|e| *e == format!("+{}", kind)).unwrap();
            assert_eq!(shown[enter + 1], format!("-{}", kind));
        }
        for event in events.iter() {
            let mut up = event.cursor().clone();
            while up.goto_parent() {
                assert!(!blocks.contains(&up.kind()));
            }
        }
        assert!(!shown.contains(&"+simple_parameter".to_string()));
        assert!(!shown.contains(&"+binary_expression".to_string()));
        assert!(shown.contains(&"+compound_statement".to_string()));
        assert!(shown.contains(&"+echo_statement".to_string()));
    }
    let named = render(&collect(&mut Traversal::new_block(&cursor, blocks.clone())));
    let want = vec![
        "+program",
        "+php_tag",
        "-php_tag",
        "+function_definition",
        "+name",
        "-name",
        "+formal_parameters",
        "-formal_parameters",
        "+compound_statement",
        "+return_statement",
        "-return_statement",
        "-compound_statement",
        "-function_definition",
        "+echo_statement",
        "+function_call_expression",
        "+name",
        "-name",
        "+arguments",
        "+argument",
        "+integer",
        "-integer",
        "-argument",
        "+argument",
        "+integer",
        "-integer",
        "-argument",
        "-arguments",
        "-function_call_expression",
        "-echo_statement",
        "-program",
    ];
    assert_eq!(named, want);
}

#[test]
fn a_blocked_anchor_is_entered_and_left() {
    let file = php(SCRIPT);
    let anchor = function_cursor(&file, STKind::Concrete);
    let mut walk = anchor.traverse_block(vec!["function_definition"], STKind::Concrete);
    let shown = render(&collect(&mut walk));
    assert_eq!(shown, vec!["+function_definition", "-function_definition"]);
    assert!(walk.next().is_none());
}

#[test]
fn an_unnamed_node_of_a_blocked_kind_is_not_blocked_by_a_walk_over_named_nodes() {
    let file = js("let a = 1;");
    let cursor = Cursor::from_file(&file, STKind::Concrete);
    let named = render(&collect(&mut cursor.traverse_block(vec!["let", "="], STKind::Abstract)));
    assert_eq!(named, render(&collect(&mut cursor.traverse(STKind::Abstract))));
    let every = render(&collect(&mut cursor.traverse_block(vec!["let", "="], STKind::Concrete)));
    assert_eq!(every, render(&collect(&mut cursor.traverse(STKind::Concrete))));
}

#[test]
fn steps_enter_and_leave_without_regard_to_blocks_or_names() {
    let file = js("a;");
    let cursor = Cursor::from_file(&file, STKind::Concrete);
    let mut walk = Traversal::new_block(&cursor, vec!["program"]);
    let mut shown = Vec::new();
    while let Some(event) = walk.step() {
        shown.push(event);
    }
    let want = vec![
        "+program",
        "+expression_statement",
        "+identifier",
        "-identifier",
        "+;",
        "-;",
        "-expression_statement",
        "-program",
    ];
    assert_eq!(render(&shown), want);
}

#[test]
fn pass_goes_back_and_skips_what_is_below() {
    let file = js("let a = 1;");
    let cursor = Cursor::from_file(&file, STKind::Concrete);
    let mut walk = Traversal::new_concrete(&cursor);
    assert_eq!(render(&[walk.step().unwrap()]), vec!["+program"]);
    assert_eq!(render(&[walk.step().unwrap()]), vec!["+lexical_declaration"]);
    walk.pass();
    assert_eq!(render(&[walk.step().unwrap()]), vec!["-lexical_declaration"]);
    assert_eq!(render(&[walk.step().unwrap()]), vec!["-program"]);
    assert!(walk.step().is_none());
}

#[test]
fn pass_before_any_step_ends_the_walk() {
    let file = js("let a = 1;");
    let cursor = Cursor::from_file(&file, STKind::Concrete);
    let mut walk = Traversal::new_concrete(&cursor);
    walk.pass();
    assert!(walk.step().is_none());
    assert!(walk.next().is_none());
}

#[test]
fn events_carry_cursors_on_their_nodes() {
    let file = js("let a = 1;");
    let cursor = Cursor::from_file(&file, STKind::Abstract);
    let events = collect(&mut cursor.traverse(STKind::Abstract));
    let texts: Vec<String> =
        events.iter().filter(|e| e.is_enter()).map(|e| e.cursor().to_string()).collect();
    assert_eq!(texts, vec!["let a = 1;", "let a = 1;", "a = 1", "a", "1"]);
    let copy = events[0].clone();
    assert!(copy.is_enter());
    assert!(copy.cursor() == events[0].cursor());
    assert!(*copy.cursor() == cursor);
    assert!(!events[events.len() - 1].is_enter());
}
