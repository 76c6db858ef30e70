//! Motions over the text.
use vorto::action::MotionKind;
use vorto::editor::motion::bracket::bracket_match;
use vorto::editor::motion::find::find_char;
use vorto::editor::motion::viewport::{page_target, viewport_target};
use vorto::editor::motion::word::{
    big_word_back, big_word_forward, word_back_char_class, word_end_back, word_end_char_class, word_forward_char_class,
};
use vorto::editor::motion::{first_non_blank, last_non_blank, paragraph_back_row, paragraph_forward_row};
use vorto::editor::{Buffer, Cursor};

fn lines(s: &str) -> Vec<String> {
    s.split('\n').map(|s| s.to_string()).collect()
}

fn fwd(buf: &Vec<String>, row: usize, col: usize) -> (usize, usize) {
    let c = word_forward_char_class(buf, Cursor { row, col });
    (c.row, c.col)
}

fn back(buf: &Vec<String>, row: usize, col: usize) -> (usize, usize) {
    let c = word_back_char_class(buf, Cursor { row, col });
    (c.row, c.col)
}

fn end(buf: &Vec<String>, row: usize, col: usize, big: bool) -> (usize, usize) {
    let c = word_end_char_class(buf, Cursor { row, col }, big);
    (c.row, c.col)
}

fn big_fwd(buf: &Vec<String>, row: usize, col: usize) -> (usize, usize) {
    let c = big_word_forward(buf, Cursor { row, col });
    (c.row, c.col)
}

fn big_back(buf: &Vec<String>, row: usize, col: usize) -> (usize, usize) {
    let c = big_word_back(buf, Cursor { row, col });
    (c.row, c.col)
}

fn end_back(buf: &Vec<String>, row: usize, col: usize, big: bool) -> (usize, usize) {
    let c = word_end_back(buf, Cursor { row, col }, big);
    (c.row, c.col)
}

fn find(line: &str, col: usize, ch: char, forward: bool, till: bool) -> usize {
    find_char(line, Cursor { row: 0, col }, ch, forward, till).col
}

fn match_pair(s: &str, col: usize) -> Option<usize> {
    let l = lines(s);
    bracket_match(&l, Cursor { row: 0, col }).map(|c| c.col)
}

fn buf_with(lines_in: &str, scroll: usize, height: usize) -> Buffer {
    let mut b = Buffer::new();
    b.lines = lines(lines_in);
    b.scroll = scroll;
    b.viewport_height = height;
    b
}

#[test]
fn motion_word_walks_into_punctuation_not_through_it() {
    let l = lines("foo(bar)");
    assert_eq!(fwd(&l, 0, 0), (0, 3));
    assert_eq!(fwd(&l, 0, 3), (0, 4));
    assert_eq!(fwd(&l, 0, 4), (0, 7));
}

#[test]
fn motion_word_skips_whitespace() {
    let l = lines("a   b");
    assert_eq!(fwd(&l, 0, 0), (0, 4));
}

#[test]
fn motion_back_groups_punctuation_runs() {
    let l = lines("a => b");
    assert_eq!(back(&l, 0, 5), (0, 2));
    assert_eq!(back(&l, 0, 2), (0, 0));
}

#[test]
fn motion_word_end_lands_on_last_char_of_word() {
    let l = lines("foo bar");
    assert_eq!(end(&l, 0, 0, false), (0, 2));
    assert_eq!(end(&l, 0, 2, false), (0, 6));
}

#[test]
fn motion_word_end_walks_into_punctuation_not_through_it() {
    let l = lines("foo(bar)");
    assert_eq!(end(&l, 0, 0, false), (0, 2));
    assert_eq!(end(&l, 0, 2, false), (0, 3));
    assert_eq!(end(&l, 0, 3, false), (0, 6));
    assert_eq!(end(&l, 0, 6, false), (0, 7));
}

#[test]
fn motion_big_word_end_collapses_punctuation() {
    let l = lines("foo(bar)");
    assert_eq!(end(&l, 0, 0, true), (0, 7));
}

#[test]
fn motion_big_word_forward_skips_punctuation() {
    let l = lines("foo(bar) baz");
    assert_eq!(big_fwd(&l, 0, 0), (0, 9));
}

#[test]
fn motion_big_word_back_skips_punctuation() {
    let l = lines("foo(bar) baz");
    assert_eq!(big_back(&l, 0, 9), (0, 0));
}

#[test]
fn motion_word_end_back_lands_on_previous_word_end() {
    let l = lines("foo bar baz");
    assert_eq!(end_back(&l, 0, 8, false), (0, 6));
    assert_eq!(end_back(&l, 0, 6, false), (0, 2));
}

#[test]
fn motion_word_end_back_treats_punctuation_as_its_own_word() {
    let l = lines("foo(bar)");
    assert_eq!(end_back(&l, 0, 7, false), (0, 6));
    assert_eq!(end_back(&l, 0, 7, true), (0, 0));
}

#[test]
fn word_word_walks_into_punctuation_not_through_it() {
    let l = lines("foo(bar)");
    assert_eq!(fwd(&l, 0, 0), (0, 3));
    assert_eq!(fwd(&l, 0, 3), (0, 4));
    assert_eq!(fwd(&l, 0, 4), (0, 7));
}

#[test]
fn word_word_skips_whitespace() {
    let l = lines("a   b");
    assert_eq!(fwd(&l, 0, 0), (0, 4));
}

#[test]
fn word_back_groups_punctuation_runs() {
    let l = lines("a => b");
    assert_eq!(back(&l, 0, 5), (0, 2));
    assert_eq!(back(&l, 0, 2), (0, 0));
}

#[test]
fn word_word_end_lands_on_last_char_of_word() {
    let l = lines("foo bar");
    assert_eq!(end(&l, 0, 0, false), (0, 2));
    assert_eq!(end(&l, 0, 2, false), (0, 6));
}

#[test]
fn word_word_end_walks_into_punctuation_not_through_it() {
    let l = lines("foo(bar)");
    assert_eq!(end(&l, 0, 0, false), (0, 2));
    assert_eq!(end(&l, 0, 2, false), (0, 3));
    assert_eq!(end(&l, 0, 3, false), (0, 6));
    assert_eq!(end(&l, 0, 6, false), (0, 7));
}

#[test]
fn word_big_word_end_collapses_punctuation() {
    let l = lines("foo(bar)");
    assert_eq!(end(&l, 0, 0, true), (0, 7));
}

#[test]
fn word_big_word_forward_skips_punctuation() {
    let l = lines("foo(bar) baz");
    assert_eq!(big_fwd(&l, 0, 0), (0, 9));
}

#[test]
fn word_big_word_back_skips_punctuation() {
    let l = lines("foo(bar) baz");
    assert_eq!(big_back(&l, 0, 9), (0, 0));
}

#[test]
fn word_word_end_back_lands_on_previous_word_end() {
    let l = lines("foo bar baz");
    assert_eq!(end_back(&l, 0, 8, false), (0, 6));
    assert_eq!(end_back(&l, 0, 6, false), (0, 2));
}

#[test]
fn word_word_end_back_treats_punctuation_as_its_own_word() {
    let l = lines("foo(bar)");
    assert_eq!(end_back(&l, 0, 7, false), (0, 6));
    assert_eq!(end_back(&l, 0, 7, true), (0, 0));
}

#[test]
fn word_forward_stops_on_empty_lines() {
    let l = lines("foo\n\nbar");
    assert_eq!(fwd(&l, 0, 2), (1, 0));
    assert_eq!(fwd(&l, 1, 0), (2, 0));
}

#[test]
fn word_forward_skips_blank_lines_to_first_word() {
    let l = lines("foo\n   \nbar");
    assert_eq!(fwd(&l, 0, 2), (2, 0));
}

#[test]
fn big_word_forward_stops_on_empty_lines() {
    let l = lines("foo\n\nbar");
    assert_eq!(big_fwd(&l, 0, 2), (1, 0));
    assert_eq!(big_fwd(&l, 1, 0), (2, 0));
}

#[test]
fn motion_find_char_forward_lands_on_target() {
    assert_eq!(find("hello x world", 0, 'x', true, false), 6);
}

#[test]
fn motion_till_char_forward_stops_one_short() {
    assert_eq!(find("hello x world", 0, 'x', true, true), 5);
}

#[test]
fn motion_find_char_backward_lands_on_target() {
    assert_eq!(find("hello x world", 8, 'h', false, false), 0);
}

#[test]
fn motion_till_char_backward_stops_one_after() {
    assert_eq!(find("hello x world", 8, 'h', false, true), 1);
}

#[test]
fn motion_find_char_missing_returns_origin() {
    assert_eq!(find("hello", 0, 'z', true, false), 0);
}

#[test]
fn find_find_char_forward_lands_on_target() {
    assert_eq!(find("hello x world", 0, 'x', true, false), 6);
}

#[test]
fn find_till_char_forward_stops_one_short() {
    assert_eq!(find("hello x world", 0, 'x', true, true), 5);
}

#[test]
fn find_find_char_backward_lands_on_target() {
    assert_eq!(find("hello x world", 8, 'h', false, false), 0);
}

#[test]
fn find_till_char_backward_stops_one_after() {
    assert_eq!(find("hello x world", 8, 'h', false, true), 1);
}

#[test]
fn find_find_char_missing_returns_origin() {
    assert_eq!(find("hello", 0, 'z', true, false), 0);
}

#[test]
fn motion_viewport_h_m_l_with_full_window() {
    let b = buf_with("a\nb\nc\nd\ne\nf\ng\nh\ni\nj", 0, 10);
    let from = Cursor { row: 5, col: 0 };
    assert_eq!(viewport_target(&b, from, MotionKind::ViewportTop).row, 0);
    assert_eq!(viewport_target(&b, from, MotionKind::ViewportMiddle).row, 4);
    assert_eq!(viewport_target(&b, from, MotionKind::ViewportBottom).row, 9);
}

#[test]
fn motion_viewport_clamps_to_file_end() {
    let b = buf_with("a\nb\nc\nd\ne\nf\ng\nh", 5, 10);
    let from = Cursor { row: 6, col: 0 };
    assert_eq!(viewport_target(&b, from, MotionKind::ViewportBottom).row, 7);
    assert_eq!(viewport_target(&b, from, MotionKind::ViewportTop).row, 5);
}

#[test]
fn motion_page_motions_step_by_height_and_half() {
    let lines_str = (0..20).map(|i| i.to_string()).collect::<Vec<_>>().join("\n");
    let b = buf_with(&lines_str, 0, 10);
    let from = Cursor { row: 0, col: 0 };
    assert_eq!(page_target(&b, from, MotionKind::HalfPageDown).row, 5);
    assert_eq!(page_target(&b, from, MotionKind::PageDown).row, 10);
    let mid = Cursor { row: 15, col: 0 };
    assert_eq!(page_target(&b, mid, MotionKind::HalfPageUp).row, 10);
    assert_eq!(page_target(&b, mid, MotionKind::PageUp).row, 5);
}

#[test]
fn motion_page_motions_clamp_to_file_bounds() {
    let b = buf_with("a\nb\nc", 0, 10);
    let last = Cursor { row: 2, col: 0 };
    assert_eq!(page_target(&b, last, MotionKind::HalfPageDown).row, 2);
    let first = Cursor { row: 0, col: 0 };
    assert_eq!(page_target(&b, first, MotionKind::HalfPageUp).row, 0);
}

#[test]
fn viewport_viewport_h_m_l_with_full_window() {
    let b = buf_with("a\nb\nc\nd\ne\nf\ng\nh\ni\nj", 0, 10);
    let from = Cursor { row: 5, col: 0 };
    assert_eq!(viewport_target(&b, from, MotionKind::ViewportTop).row, 0);
    assert_eq!(viewport_target(&b, from, MotionKind::ViewportMiddle).row, 4);
    assert_eq!(viewport_target(&b, from, MotionKind::ViewportBottom).row, 9);
}

#[test]
fn viewport_viewport_clamps_to_file_end() {
    let b = buf_with("a\nb\nc\nd\ne\nf\ng\nh", 5, 10);
    let from = Cursor { row: 6, col: 0 };
    assert_eq!(viewport_target(&b, from, MotionKind::ViewportBottom).row, 7);
    assert_eq!(viewport_target(&b, from, MotionKind::ViewportTop).row, 5);
}

#[test]
fn viewport_page_motions_step_by_height_and_half() {
    let lines_str = (0..20).map(|i| i.to_string()).collect::<Vec<_>>().join("\n");
    let b = buf_with(&lines_str, 0, 10);
    let from = Cursor { row: 0, col: 0 };
    assert_eq!(page_target(&b, from, MotionKind::HalfPageDown).row, 5);
    assert_eq!(page_target(&b, from, MotionKind::PageDown).row, 10);
    let mid = Cursor { row: 15, col: 0 };
    assert_eq!(page_target(&b, mid, MotionKind::HalfPageUp).row, 10);
    assert_eq!(page_target(&b, mid, MotionKind::PageUp).row, 5);
}

#[test]
fn viewport_page_motions_clamp_to_file_bounds() {
    let b = buf_with("a\nb\nc", 0, 10);
    let last = Cursor { row: 2, col: 0 };
    assert_eq!(page_target(&b, last, MotionKind::HalfPageDown).row, 2);
    let first = Cursor { row: 0, col: 0 };
    assert_eq!(page_target(&b, first, MotionKind::HalfPageUp).row, 0);
}

#[test]
fn motion_bracket_match_finds_matching_close_and_open() {
    assert_eq!(match_pair("foo(bar)", 3), Some(7));
    assert_eq!(match_pair("foo(bar)", 7), Some(3));
}

#[test]
fn motion_bracket_match_respects_nesting() {
    assert_eq!(match_pair("((a))", 0), Some(4));
    assert_eq!(match_pair("((a))", 1), Some(3));
}

#[test]
fn motion_bracket_match_returns_none_on_non_bracket_line() {
    assert_eq!(match_pair("plain text", 0), None);
}

#[test]
fn motion_bracket_match_skips_to_first_bracket_after_cursor() {
    assert_eq!(match_pair("foo(bar)", 0), Some(7));
}

#[test]
fn motion_bracket_match_works_across_lines() {
    let l = lines("foo(\n  bar,\n  baz\n)");
    let from = Cursor { row: 0, col: 3 };
    let r = bracket_match(&l, from).unwrap();
    assert_eq!((r.row, r.col), (3, 0));
}

#[test]
fn bracket_bracket_match_finds_matching_close_and_open() {
    assert_eq!(match_pair("foo(bar)", 3), Some(7));
    assert_eq!(match_pair("foo(bar)", 7), Some(3));
}

#[test]
fn bracket_bracket_match_respects_nesting() {
    assert_eq!(match_pair("((a))", 0), Some(4));
    assert_eq!(match_pair("((a))", 1), Some(3));
}

#[test]
fn bracket_bracket_match_returns_none_on_non_bracket_line() {
    assert_eq!(match_pair("plain text", 0), None);
}

#[test]
fn bracket_bracket_match_skips_to_first_bracket_after_cursor() {
    assert_eq!(match_pair("foo(bar)", 0), Some(7));
}

#[test]
fn bracket_bracket_match_works_across_lines() {
    let l = lines("foo(\n  bar,\n  baz\n)");
    let from = Cursor { row: 0, col: 3 };
    let r = bracket_match(&l, from).unwrap();
    assert_eq!((r.row, r.col), (3, 0));
}

#[test]
fn first_and_last_non_blank() {
    assert_eq!(first_non_blank("    hello"), 4);
    assert_eq!(first_non_blank(""), 0);
    assert_eq!(first_non_blank("   "), 0);
    assert_eq!(last_non_blank("hello   "), 4);
    assert_eq!(last_non_blank("hello"), 4);
    assert_eq!(last_non_blank("   "), 0);
}

#[test]
fn paragraph_motion_finds_blank_lines() {
    let l = lines("foo\nbar\n\nbaz\nqux\n");
    assert_eq!(paragraph_forward_row(&l, 0), 2);
    assert_eq!(paragraph_forward_row(&l, 1), 2);
    assert_eq!(paragraph_forward_row(&l, 2), 5);
    assert_eq!(paragraph_back_row(&l, 4), 2);
    assert_eq!(paragraph_back_row(&l, 3), 2);
    assert_eq!(paragraph_back_row(&l, 2), 0);
}
