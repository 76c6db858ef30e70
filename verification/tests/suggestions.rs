//! Suggestions in the text.
use vorto::editor::inline_suggestion::{RequestId, Suggestion, SuggestionState};
use vorto::editor::Cursor;

fn cur(row: usize, col: usize) -> Cursor {
    Cursor { row, col }
}

#[test]
fn default_is_idle() {
    let s = SuggestionState::default();
    assert!(matches!(s, SuggestionState::Idle));
    assert!(s.showing().is_none());
}

#[test]
fn showing_returns_suggestion_only_in_showing_state() {
    let mut s = SuggestionState::Pending { id: RequestId(1), anchor: cur(0, 0) };
    assert!(s.showing().is_none());

    s = SuggestionState::Showing {
        id: RequestId(1),
        suggestion: Suggestion { text: "abc".into(), anchor: cur(2, 4) },
    };
    let got = s.showing().expect("should be showing");
    assert_eq!(got.text, "abc");
    assert_eq!(got.anchor, cur(2, 4));
}

#[test]
fn dismiss_resets_to_idle() {
    let mut s = SuggestionState::Showing {
        id: RequestId(7),
        suggestion: Suggestion { text: "x".into(), anchor: cur(0, 0) },
    };
    s.dismiss();
    assert!(matches!(s, SuggestionState::Idle));
}

#[test]
fn anchor_check_distinguishes_positions() {
    let s = Suggestion { text: "y".into(), anchor: cur(3, 5) };
    assert!(s.is_anchored_at(cur(3, 5)));
    assert!(!s.is_anchored_at(cur(3, 6)));
    assert!(!s.is_anchored_at(cur(4, 5)));
}
