//! Editing a buffer.
use vorto::action::{MotionKind, Object, Scope};
use vorto::editor::history::MAX_UNDO_DEPTH;
use vorto::editor::motion::find::find_char;
use vorto::editor::search::SearchState;
use vorto::editor::substitute::{parse_substitute, SubsRange};
use vorto::editor::{Buffer, Cursor, IndentSettings};
use vorto::text::{join_lines, split_lines};

fn buf(s: &str) -> Buffer {
    let mut b = Buffer::new();
    b.lines = s.split('\n').map(|l| l.to_string()).collect();
    b
}

fn at(row: usize, col: usize) -> Cursor {
    Cursor { row, col }
}

#[test]
fn lines_join_to_what_was_split() {
    let lines = split_lines("a\n\nb\n");
    assert_eq!(lines, vec!["a", "", "b", ""]);
    assert_eq!(join_lines(&lines, 0, 4), "a\n\nb\n");
}

#[test]
fn a_loaded_buffer_saves_what_was_loaded() {
    let b = Buffer::load("/x/y.rs", "fn a() {}\n");
    assert_eq!(b.contents(), "fn a() {}\n");
    assert_eq!(b.save(), Some(("/x/y.rs".to_string(), "fn a() {}\n".to_string())));
    assert!(!b.dirty);
}

#[test]
fn undo_gives_back_what_a_snapshot_held() {
    let mut b = buf("abc");
    b.cursor = at(0, 1);
    b.snapshot();
    b.insert_char('x');
    assert_eq!(b.lines, vec!["axbc"]);
    assert!(b.undo());
    assert_eq!(b.lines, vec!["abc"]);
    assert_eq!(b.cursor, at(0, 1));
    assert!(b.redo());
    assert_eq!(b.lines, vec!["axbc"]);
    assert!(b.undo());
    assert_eq!(b.lines, vec!["abc"]);
    assert!(!b.undo());
}

#[test]
fn backspace_takes_typing_back() {
    let mut b = buf("ab");
    b.cursor = at(0, 1);
    b.insert_char('x');
    b.delete_char_before();
    assert_eq!(b.lines, vec!["ab"]);
    assert_eq!(b.cursor, at(0, 1));
    b.insert_newline();
    assert_eq!(b.lines, vec!["a", "b"]);
    b.delete_char_before();
    assert_eq!(b.lines, vec!["ab"]);
    assert_eq!(b.cursor, at(0, 1));
}

#[test]
fn backspace_takes_a_pair_back() {
    let mut b = buf("f");
    b.cursor = at(0, 1);
    b.insert_char_smart('(');
    assert_eq!(b.lines, vec!["f()"]);
    assert_eq!(b.cursor, at(0, 2));
    b.delete_char_before_smart();
    assert_eq!(b.lines, vec!["f"]);
    assert_eq!(b.cursor, at(0, 1));
}

#[test]
fn a_closer_is_stepped_over() {
    let mut b = buf("f()");
    b.cursor = at(0, 2);
    b.insert_char_smart(')');
    assert_eq!(b.lines, vec!["f()"]);
    assert_eq!(b.cursor, at(0, 3));
}

#[test]
fn a_pair_keeps_clear_of_a_word() {
    let mut b = buf("é");
    b.insert_char_smart('(');
    assert_eq!(b.lines, vec!["(é"]);
}

#[test]
fn deleting_takes_out_what_yanking_copies() {
    let mut b = buf("one two\nthree");
    b.yank_range(at(1, 2), at(0, 4));
    assert_eq!(b.yank, "two\nth");
    b.delete_range(at(0, 4), at(1, 2));
    assert_eq!(b.yank, "two\nth");
    assert_eq!(b.lines, vec!["one ree"]);
    assert_eq!(b.cursor, at(0, 4));
}

#[test]
fn yanking_all_yanks_the_whole_text() {
    let mut b = buf("a\nbc");
    b.yank_range(at(0, 0), at(1, 2));
    assert_eq!(b.yank, "a\nbc");
}

#[test]
fn indenting_and_back_out() {
    let s = IndentSettings { width: 2, use_tabs: false };
    let mut b = buf("x\n\ty\n");
    b.indent_line(0, s);
    b.indent_line(1, s);
    b.indent_line(2, s);
    assert_eq!(b.lines, vec!["  x", "\t\ty", ""]);
    b.dedent_line(0, s);
    b.dedent_line(1, s);
    b.dedent_line(2, s);
    assert_eq!(b.lines, vec!["x", "\ty", ""]);
}

#[test]
fn commenting_twice() {
    let mut b = buf("  x = 1");
    b.toggle_line_comment("//");
    assert_eq!(b.lines, vec!["  // x = 1"]);
    b.toggle_line_comment("//");
    assert_eq!(b.lines, vec!["  x = 1"]);
}

#[test]
fn white_space_of_any_script_is_blank() {
    let mut b = buf("\u{3000}x");
    b.cursor = at(0, 1);
    b.move_first_non_blank();
    assert_eq!(b.cursor, at(0, 1));
}

#[test]
fn case_goes_through_its_mapping() {
    let mut b = buf("ßAé");
    b.toggle_case_under_cursor();
    assert_eq!(b.lines, vec!["SSAé"]);
    let mut c = buf("aÉ1");
    c.toggle_case_range(at(0, 0), at(0, 2));
    assert_eq!(c.lines, vec!["Aé1"]);
}

#[test]
fn joining_lines_puts_one_space_between() {
    let mut b = buf("a\n   b");
    b.join_next_line();
    assert_eq!(b.lines, vec!["a b"]);
}

#[test]
fn an_object_to_the_right_is_found() {
    let mut b = buf("foo (bar) \"q\"");
    assert_eq!(b.text_object_range(Scope::Inner, Object::Paren), Some((at(0, 5), at(0, 8))));
    assert_eq!(b.text_object_range(Scope::Around, Object::Paren), Some((at(0, 4), at(0, 9))));
    assert_eq!(b.text_object_range(Scope::Inner, Object::DoubleQuote), Some((at(0, 11), at(0, 12))));
    b.cursor = at(0, 9);
    assert_eq!(b.text_object_range(Scope::Inner, Object::Paren), None);
    let mut b = buf("( x ((a)");
    b.cursor = at(0, 2);
    assert_eq!(b.text_object_range(Scope::Around, Object::Paren), Some((at(0, 5), at(0, 8))));
}

#[test]
fn the_inner_object_lies_within_the_outer() {
    let mut b = buf("f(a, b)");
    b.cursor = at(0, 3);
    let inner = b.text_object_range(Scope::Inner, Object::Paren).unwrap();
    let outer = b.text_object_range(Scope::Around, Object::Paren).unwrap();
    assert_eq!(inner, (at(0, 2), at(0, 6)));
    assert_eq!(outer, (at(0, 1), at(0, 7)));
    assert!(b.text_object_range(Scope::Inner, Object::Brace).is_none());
}

#[test]
fn searching_finds_the_next_match_round_the_end() {
    let mut b = buf("foo bar\nfoo");
    b.cursor = at(1, 0);
    let mut s = SearchState::default();
    s.set("foo".to_string(), true);
    assert_eq!(s.find_next(&b, true), Some(at(0, 0)));
    assert_eq!(s.find_next(&b, false), Some(at(0, 0)));
    s.set("nope".to_string(), true);
    assert_eq!(s.find_next(&b, true), None);
}

#[test]
fn substitutions_are_read_and_carried_out() {
    let s = parse_substitute("%s/a/bb/g").unwrap();
    assert_eq!(s.range, SubsRange::WholeBuffer);
    let mut b = buf("aa\nxa\nyy");
    let n = b.substitute(&s);
    assert_eq!(b.lines, vec!["bbbb", "xbb", "yy"]);
    assert_eq!((n.matches, n.lines_changed), (3, 2));
    assert!(parse_substitute("s/a/b/x").is_none());
    assert!(parse_substitute("d").is_none());
}

#[test]
fn replacing_a_text_by_itself_changes_nothing() {
    let s = parse_substitute("s/a/a/g").unwrap();
    let mut b = buf("banana");
    let n = b.substitute(&s);
    assert_eq!(b.lines, vec!["banana"]);
    assert_eq!(n.matches, 3);
}

#[test]
fn blocks_are_cut_out_column_by_column() {
    let mut b = buf("abcd\nef\nghij");
    b.delete_block(0, 1, 2, 2);
    assert_eq!(b.yank, "bc\nf\nhi");
    assert_eq!(b.lines, vec!["ad", "e", "gj"]);
}

#[test]
fn the_history_has_a_bound() {
    let mut b = buf("");
    for _ in 0..MAX_UNDO_DEPTH + 5 {
        b.snapshot();
        b.insert_char('x');
    }
    let mut steps = 0;
    while b.undo() {
        steps += 1;
    }
    assert_eq!(steps, MAX_UNDO_DEPTH);
    assert_eq!(b.lines, vec!["xxxxx"]);
}

#[test]
fn brackets_and_their_partners() {
    let b = buf("f(a[1],\n g(b))");
    let there = b.motion_step(at(0, 1), MotionKind::BracketMatch);
    assert_eq!(there, at(1, 5));
    assert_eq!(b.motion_step(there, MotionKind::BracketMatch), at(0, 1));
    assert_eq!(b.motion_step(at(0, 3), MotionKind::BracketMatch), at(0, 5));
}

#[test]
fn the_nearest_hit_is_found() {
    assert_eq!(find_char("a,b,c,", at(0, 1), ',', true, false), at(0, 3));
    assert_eq!(find_char("a,b,c,", at(0, 1), ',', true, true), at(0, 2));
    assert_eq!(find_char("a,b,c,", at(0, 5), ',', false, false), at(0, 3));
    assert_eq!(find_char("a,b,c,", at(0, 1), 'x', true, false), at(0, 1));
}

#[test]
fn motions_end_in_the_text() {
    let b = buf("one two\n\nthree");
    for m in [MotionKind::WordForward, MotionKind::WordEnd, MotionKind::WordBack, MotionKind::Down, MotionKind::LineEnd] {
        for count in [1, 3, 100] {
            let c = b.motion_target(at(0, 4), m, count);
            assert!(c.row < 3 && c.col <= b.lines[c.row].chars().count());
        }
    }
    assert_eq!(b.motion_step(at(0, 4), MotionKind::WordForward), at(1, 0));
}
