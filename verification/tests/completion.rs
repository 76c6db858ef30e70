//! The completion menu.
use vorto::app::completion::{identifier_prefix_start, prefix_slice, CompletionState};
use vorto::editor::Cursor;
use vorto::lsp::CompletionItem;

fn item(label: &str) -> CompletionItem {
    CompletionItem {
        label: label.to_string(),
        kind: 0,
        text_edit: None,
        insert_text: None,
        filter_text: None,
        sort_text: None,
        detail: None,
        additional_text_edits: Vec::new(),
        raw: String::new(),
        source: String::new(),
    }
}

#[test]
fn prefix_start_walks_back_over_ident_chars() {
    let line = "let foo_bar";
    assert_eq!(identifier_prefix_start(line, line.chars().count()), 4);
    assert_eq!(identifier_prefix_start("let  x", 4), 4);
    assert_eq!(identifier_prefix_start("abc", 0), 0);
}

#[test]
fn refilter_prefers_prefix_matches() {
    let items = vec![item("into_vec"), item("vec"), item("vector")];
    let mut s = CompletionState::new(Cursor { row: 0, col: 0 }, items, "vec");
    let order: Vec<&str> = s.filtered.iter().map(|i| s.items[*i].label.as_str()).collect();
    assert_eq!(order, vec!["vec", "vector", "into_vec"]);
    s.refilter("");
    assert_eq!(s.filtered.len(), 3);
}

#[test]
fn refilter_clamps_selection() {
    let items = vec![item("aaa"), item("aab"), item("aac")];
    let mut s = CompletionState::new(Cursor { row: 0, col: 0 }, items, "");
    s.selected = 2;
    s.refilter("aac");
    assert_eq!(s.filtered.len(), 1);
    assert_eq!(s.selected, 0);
}

#[test]
fn move_selection_wraps() {
    let items = vec![item("a"), item("b"), item("c")];
    let mut s = CompletionState::new(Cursor { row: 0, col: 0 }, items, "");
    s.move_selection(1);
    assert_eq!(s.selected, 1);
    s.move_selection(-2);
    assert_eq!(s.selected, 2);
    s.move_selection(1);
    assert_eq!(s.selected, 0);
}

#[test]
fn prefix_slice_extracts_typed_chars() {
    assert_eq!(prefix_slice("let foo_bar", 4, 7), "foo");
    assert_eq!(prefix_slice("xy", 2, 1), "");
    assert_eq!(prefix_slice("xy", 2, 2), "");
}

#[test]
fn the_menu_ignores_case() {
    let items = vec![item("ÉCLAIR"), item("other")];
    let s = CompletionState::new(Cursor { row: 0, col: 0 }, items, "éc");
    assert_eq!(s.filtered, vec![0]);
}

#[test]
fn the_menu_is_in_order_of_place_and_sort_text() {
    let mut a = item("xfoo");
    a.sort_text = Some("1".to_string());
    let mut b = item("foob");
    b.sort_text = Some("2".to_string());
    let mut c = item("fooa");
    c.sort_text = Some("3".to_string());
    let s = CompletionState::new(Cursor { row: 0, col: 0 }, vec![a, b, c], "foo");
    assert_eq!(s.filtered, vec![1, 2, 0]);
    assert_eq!(s.current().unwrap().label, "foob");
    assert!(!s.is_empty());
}

#[test]
fn matches_behind_the_start_are_ordered_by_sort_text_alone() {
    let mut a = item("abvec");
    a.sort_text = Some("1".to_string());
    let mut b = item("avec");
    b.sort_text = Some("2".to_string());
    let mut s = CompletionState::new(Cursor { row: 0, col: 0 }, vec![a, b], "");
    s.refilter("vec");
    assert_eq!(s.filtered, vec![0, 1]);
}
