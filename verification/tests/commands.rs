//! Commands and their keys.
use vorto::action::{DirectKind, Expr, MotionExpr, MotionKind, Operator, Target, Token};
use vorto::app::eval::parse::{classify, is_valid_prefix, tokenize, Parse};
use vorto::app::eval::{format_dirty_list, is_inclusive_motion, override_count, word_under_cursor};
use vorto::app::types::{selection, Selection};
use vorto::buffer_ref::BufferRef;
use vorto::config::command::CommandBind;
use vorto::config::keymap::Keymap;
use vorto::editor::{Buffer, Cursor};
use vorto::keys::{KeyCode, KeyEvent, KeyModifiers};
use vorto::mode::Mode;

#[test]
fn override_count_leaves_expr_alone_when_no_prefix() {
    let e = Expr::Direct { kind: DirectKind::DeleteCharUnderCursor, count: 3 };
    let got = override_count(e.clone(), 1);
    assert_eq!(got, e);
    let got_zero = override_count(e.clone(), 0);
    assert_eq!(got_zero, e);
}

#[test]
fn override_count_replaces_each_expr_shape() {
    let direct = Expr::Direct { kind: DirectKind::Paste, count: 1 };
    let got = override_count(direct, 5);
    assert!(matches!(got, Expr::Direct { kind: DirectKind::Paste, count: 5 }));

    let op = Expr::Op {
        op: Operator::Delete,
        target: Target::Motion(MotionExpr { motion: MotionKind::WordForward, count: 1 }),
        outer_count: 1,
    };
    let got = override_count(op, 4);
    match got {
        Expr::Op { outer_count, .. } => assert_eq!(outer_count, 4),
        _ => panic!("expected Op"),
    }

    let m = Expr::Motion(MotionExpr { motion: MotionKind::Down, count: 1 });
    let got = override_count(m, 7);
    match got {
        Expr::Motion(mx) => assert_eq!(mx.count, 7),
        _ => panic!("expected Motion"),
    }
}

fn key(c: char) -> KeyEvent {
    KeyEvent { code: KeyCode::Char(c), modifiers: KeyModifiers::none() }
}

fn tokens(s: &str) -> Vec<Token> {
    let km = Keymap::vim_default();
    let mut out = Vec::new();
    for c in s.chars() {
        let t = tokenize(&km, &out, key(c)).unwrap();
        out.push(t);
    }
    out
}

#[test]
fn commands_are_read_from_keys() {
    match classify(&tokens("2d3w")) {
        Parse::Complete(Expr::Op { op: Operator::Delete, target: Target::Motion(m), outer_count: 2 }) => {
            assert_eq!(m, MotionExpr { motion: MotionKind::WordForward, count: 3 });
        }
        other => panic!("{other:?}"),
    }
    assert!(matches!(classify(&tokens("dd")), Parse::Complete(_)));
    assert!(matches!(classify(&tokens("diw")), Parse::Complete(_)));
    assert!(matches!(classify(&tokens("f2")), Parse::Complete(_)));
}

#[test]
fn every_start_of_a_command_stays_open() {
    for line in ["2diw", "d2w", "gg", "fx", "3dd"] {
        let t = tokens(line);
        for k in 1..t.len() {
            assert!(is_valid_prefix(&t[..k].to_vec()), "{line} {k}");
        }
    }
}

#[test]
fn a_selection_does_not_depend_on_its_direction() {
    let (a, b) = (Cursor { row: 2, col: 1 }, Cursor { row: 0, col: 4 });
    let s = selection(Mode::Visual, Some(a), b);
    let t = selection(Mode::Visual, Some(b), a);
    assert_eq!(s, t);
    assert_eq!(s, Some(Selection::Char { from: b, to: a }));
    assert_eq!(selection(Mode::VisualBlock, Some(a), b), Some(Selection::Block { r0: 0, c0: 1, r1: 2, c1: 4 }));
    assert_eq!(selection(Mode::Normal, Some(a), b), None);
}

#[test]
fn inclusive_motions() {
    assert!(is_inclusive_motion(MotionKind::WordEnd));
    assert!(!is_inclusive_motion(MotionKind::WordForward));
}

#[test]
fn long_lists_are_cut_short() {
    let f = |s: &str| BufferRef::File(s.to_string());
    assert_eq!(format_dirty_list(&vec![BufferRef::Scratch, f("/a/b.rs")]), "[scratch], b.rs");
    assert_eq!(
        format_dirty_list(&vec![f("/1"), f("/2"), f("/3"), f("/4"), f("/5")]),
        "1, 2, 3 +2 more"
    );
}

#[test]
fn the_word_under_the_cursor_may_be_of_any_script() {
    let mut b = Buffer::new();
    b.lines = vec!["x größe_1;".to_string()];
    b.cursor = Cursor { row: 0, col: 4 };
    assert_eq!(word_under_cursor(&b).as_deref(), Some("größe_1"));
    b.cursor = Cursor { row: 0, col: 9 };
    assert_eq!(word_under_cursor(&b), None);
}

#[test]
fn commands_have_names() {
    assert_eq!(CommandBind::find("q").unwrap().kind, DirectKind::Quit);
    assert!(CommandBind::find("no such command").is_none());
}
