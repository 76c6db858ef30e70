//! Language servers.
use vorto::editor::Cursor;
use vorto::lsp::coordinator::{client_key, LspCoordinator, LspEvent};
use vorto::lsp::edits::apply_text_edits;
use vorto::lsp::group::{dedup_completion, GroupAccum, LspEventOutcome, LspRequestKind, Reply};
use vorto::lsp::requests::{edit_text, plan_workspace_edit, Params};
use vorto::lsp::wire::{diagnostic_to_json, params_to_json};
use vorto::lsp::{
    CodeAction, CompletionItem, Diagnostic, Hover, Location, Position, Range, Severity, TextEdit, WorkspaceEdit,
};
use vorto::path::{path_to_uri, uri_to_path};

fn pos(line: u32, character: u32) -> Position {
    Position { line, character }
}

fn edit(a: Position, b: Position, s: &str) -> TextEdit {
    TextEdit { range: Range { start: a, end: b }, new_text: s.to_string() }
}

fn found(line: u32, message: &str) -> Diagnostic {
    Diagnostic {
        range: Range { start: pos(line, 0), end: pos(line, 3) },
        severity: Severity::Warning,
        message: message.to_string(),
        source: None,
    }
}

fn item(label: &str, insert: Option<&str>) -> CompletionItem {
    CompletionItem {
        label: label.to_string(),
        kind: 3,
        text_edit: None,
        insert_text: insert.map(str::to_string),
        filter_text: None,
        sort_text: None,
        detail: None,
        additional_text_edits: Vec::new(),
        raw: String::new(),
        source: String::new(),
    }
}

fn two_servers() -> LspCoordinator {
    let mut c = LspCoordinator::new("/home/x".to_string());
    assert!(c.attach_client("ts::a", vec![".".to_string()]));
    assert!(c.attach_client("ts::b", Vec::new()));
    assert!(!c.attach_client("ts::a", Vec::new()));
    c.note_opened("ts::a", "ts", "file:///x.ts");
    c.note_opened("ts::b", "ts", "file:///x.ts");
    c
}

#[test]
fn clients_are_named_by_language_and_server() {
    assert_eq!(client_key("rust", "rust-analyzer"), "rust::rust-analyzer");
}

#[test]
fn a_coordinator_starts_with_nothing_but_its_directory() {
    let mut c = LspCoordinator::new("/srv/p".to_string());
    assert_eq!(c.startup_cwd(), "/srv/p");
    assert!(!c.has_lsp());
    assert_eq!(c.last_synced_version(), 0);
    assert!(c.clients.is_empty() && c.pending.is_empty() && c.groups.is_empty() && c.diagnostics.is_empty());
    c.set_last_synced_version(3);
    assert_eq!((c.last_synced_version(), c.startup_cwd()), (3, "/srv/p"));
}

#[test]
fn opening_with_a_client_that_does_not_run_does_nothing() {
    let mut c = LspCoordinator::new("/home/x".to_string());
    c.note_opened("ts::a", "ts", "file:///x.ts");
    assert_eq!(c.current_uri(), None);
    assert!(!c.has_lsp());
    assert!(c.current_clients.is_empty());
}

#[test]
fn an_outcome_comes_with_the_last_answer() {
    let mut c = two_servers();
    let call = c.request_hover(Cursor { row: 1, col: 2 });
    assert_eq!(call.targets, vec!["ts::a", "ts::b"]);
    c.note_sent(vec![("ts::a".to_string(), 7), ("ts::b".to_string(), 7)], call.kind, call.accum);
    assert_eq!(c.pending_kind("ts::a", 7), Some(LspRequestKind::Hover));
    let first = c.handle_event(LspEvent::Response {
        client: "ts::a".to_string(),
        id: 7,
        reply: Some(Reply::Hover(Some(Hover { contents: "one".to_string() }))),
    });
    assert!(matches!(first, LspEventOutcome::Nothing));
    let stray = c.handle_response("ts::a", 7, None);
    assert!(matches!(stray, LspEventOutcome::Nothing));
    let last = c.handle_response("ts::b", 7, Some(Reply::Hover(Some(Hover { contents: "two".to_string() }))));
    match last {
        LspEventOutcome::Hover(Some(s)) => assert_eq!(s, "one\n\n---\n\ntwo"),
        other => panic!("{other:?}"),
    }
    assert!(c.groups.is_empty());
    assert!(c.pending.is_empty());
}

#[test]
fn a_failed_answer_counts_as_an_empty_one() {
    let mut c = two_servers();
    c.note_sent(
        vec![("ts::a".to_string(), 1), ("ts::b".to_string(), 1)],
        LspRequestKind::References,
        GroupAccum::References(Vec::new()),
    );
    assert!(matches!(c.handle_response("ts::a", 1, None), LspEventOutcome::Nothing));
    let l = Location { uri: "file:///y".to_string(), range: Range { start: pos(0, 0), end: pos(0, 1) } };
    match c.handle_response("ts::b", 1, Some(Reply::Locations(vec![l]))) {
        LspEventOutcome::References(v) => assert_eq!(v.len(), 1),
        other => panic!("{other:?}"),
    }
}

#[test]
fn a_client_that_fails_is_forgotten() {
    let mut c = two_servers();
    c.note_sent(
        vec![("ts::a".to_string(), 1), ("ts::b".to_string(), 1)],
        LspRequestKind::Hover,
        GroupAccum::Hover(Vec::new()),
    );
    c.publish_diagnostics("ts::a".to_string(), "file:///x.ts".to_string(), vec![found(0, "m")]);
    let r = c.handle_event(LspEvent::Error { client: "ts::a".to_string(), message: "gone".to_string() });
    match r {
        LspEventOutcome::ErrorMessage(s) => assert_eq!(s, "lsp: gone"),
        other => panic!("{other:?}"),
    }
    assert!(!c.has_client("ts::a"));
    assert!(c.has_client("ts::b"));
    assert_eq!(c.groups[0].remaining, 1);
    assert_eq!(c.pending.len(), 1);
    assert!(c.current_diagnostics().is_none());
    assert!(c.has_lsp());
}

#[test]
fn messages_of_level_one_are_errors() {
    let mut c = LspCoordinator::new("/home/x".to_string());
    let say = |level: u8| LspEvent::Message { level, text: "t".to_string() };
    assert!(matches!(c.handle_event(say(1)), LspEventOutcome::ErrorMessage(_)));
    assert!(matches!(c.handle_event(say(2)), LspEventOutcome::InfoMessage(_)));
}

#[test]
fn findings_are_merged_by_place() {
    let mut c = two_servers();
    let uri = "file:///x.ts".to_string();
    c.handle_event(LspEvent::Diagnostics {
        client: "ts::a".to_string(),
        uri: uri.clone(),
        items: vec![found(4, "late"), found(1, "early")],
    });
    c.publish_diagnostics("ts::b".to_string(), uri.clone(), vec![found(2, "middle")]);
    let all: Vec<String> = c.current_diagnostics().unwrap().into_iter().map(|d| d.message).collect();
    assert_eq!(all, vec!["early", "middle", "late"]);
    c.publish_diagnostics("ts::a".to_string(), uri, Vec::new());
    assert_eq!(c.current_diagnostics().unwrap().len(), 1);
}

#[test]
fn characters_that_ask_for_completions() {
    let mut c = two_servers();
    assert!(c.is_completion_trigger_char('.'));
    assert!(!c.is_completion_trigger_char(':'));
    let (uri, keys) = c.detach_current().unwrap();
    assert_eq!(uri, "file:///x.ts");
    assert_eq!(keys.len(), 2);
    assert!(!c.is_completion_trigger_char('.'));
    assert!(!c.has_lsp());
    assert!(c.detach_current().is_none());
}

#[test]
fn items_go_back_to_where_they_came_from() {
    let c = two_servers();
    assert_eq!(c.request_completion_resolve("{}", "ts::b", None).targets, vec!["ts::b"]);
    assert_eq!(c.request_code_action_resolve("{}", "gone").targets, vec!["ts::a"]);
    assert!(LspCoordinator::new("/home/x".to_string()).request_code_action_resolve("{}", "gone").targets.is_empty());
    assert_eq!(c.formatting_client(), Some(("file:///x.ts".to_string(), "ts::a".to_string())));
}

#[test]
fn requests_as_text() {
    let c = two_servers();
    let at = Cursor { row: 3, col: 5 };
    let place = "\"textDocument\":{\"uri\":\"file:///x.ts\"},\"position\":{\"line\":3,\"character\":5}";
    assert_eq!(params_to_json(&c.request_jump("m", "l", at).params), format!("{{{place}}}"));
    assert_eq!(
        params_to_json(&c.request_references(at).params),
        format!("{{{place},\"context\":{{\"includeDeclaration\":true}}}}")
    );
    assert_eq!(
        params_to_json(&c.request_completion(at, at, Some('"')).params),
        format!("{{{place},\"context\":{{\"triggerKind\":2,\"triggerCharacter\":\"\\\"\"}}}}")
    );
    assert_eq!(
        params_to_json(&c.request_completion(at, at, None).params),
        format!("{{{place},\"context\":{{\"triggerKind\":1}}}}")
    );
    assert_eq!(
        params_to_json(&c.request_rename("a\tb\u{1}", at).params),
        format!("{{{place},\"newName\":\"a\\tb\\u0001\"}}")
    );
    assert_eq!(params_to_json(&Params::Raw("{\"x\":1}".to_string())), "{\"x\":1}");
}

#[test]
fn requests_read_back_as_json() {
    let c = two_servers();
    let call = c.request_code_action(Cursor { row: 2, col: 0 }, &vec![found(2, "q\"\\\n"), found(9, "far")]);
    let v: serde_json::Value = serde_json::from_str(&params_to_json(&call.params)).unwrap();
    assert_eq!(v["range"]["start"]["line"], 2);
    assert_eq!(v["context"]["diagnostics"].as_array().unwrap().len(), 1);
    assert_eq!(v["context"]["diagnostics"][0]["message"], "q\"\\\n");
    assert_eq!(v["context"]["diagnostics"][0]["severity"], 2);
    assert!(v["context"]["diagnostics"][0]["source"].is_null());
}

#[test]
fn a_finding_as_text() {
    let mut d = found(1, "m");
    d.source = Some("s".to_string());
    assert_eq!(
        diagnostic_to_json(&d),
        "{\"range\":{\"start\":{\"line\":1,\"character\":0},\"end\":{\"line\":1,\"character\":3}},\"severity\":2,\"message\":\"m\",\"source\":\"s\"}"
    );
}

#[test]
fn edits_do_not_move_one_another() {
    let mut lines = vec!["abc".to_string(), "def".to_string()];
    apply_text_edits(
        &mut lines,
        vec![edit(pos(0, 0), pos(0, 1), "X\nY"), edit(pos(1, 1), pos(1, 2), ""), edit(pos(0, 3), pos(1, 0), "-")],
    );
    assert_eq!(lines, vec!["X", "Ybc-df"]);
}

#[test]
fn an_empty_edit_changes_nothing() {
    let mut lines = vec!["abc".to_string()];
    apply_text_edits(&mut lines, vec![edit(pos(0, 2), pos(0, 2), "")]);
    assert_eq!(lines, vec!["abc"]);
    assert_eq!(edit_text("a\nb", vec![edit(pos(5, 0), pos(9, 9), "!")]), "a\nb!");
}

#[test]
fn what_several_servers_offer_is_shown_once() {
    let v = dedup_completion(vec![item("a", None), item("a", Some("a")), item("a", Some("b")), item("a", None)]);
    let texts: Vec<String> = v.iter().map(|i| i.insertion()).collect();
    assert_eq!(texts, vec!["a", "b"]);
}

#[test]
fn an_edit_of_several_documents_is_split() {
    let e = WorkspaceEdit {
        changes: vec![
            ("file:///a".to_string(), vec![edit(pos(0, 0), pos(0, 0), "1")]),
            ("file:///b".to_string(), vec![edit(pos(0, 0), pos(0, 0), "2"), edit(pos(1, 0), pos(1, 0), "3")]),
        ],
    };
    let r = plan_workspace_edit(e, Some("file:///b"));
    assert_eq!(r.current_buffer_edits.len(), 2);
    assert_eq!(r.other_edits.len(), 1);
    assert_eq!(r.other_edits[0].0, "file:///a");
    assert_eq!((r.files_touched, r.total_edits), (2, 3));
}

#[test]
fn the_first_edit_that_changes_anything_is_the_rename() {
    let mut c = two_servers();
    c.note_sent(
        vec![("ts::a".to_string(), 2), ("ts::b".to_string(), 2)],
        LspRequestKind::Rename,
        GroupAccum::Rename { new_name: "n".to_string(), edit: None },
    );
    let nothing = WorkspaceEdit { changes: vec![("file:///a".to_string(), Vec::new())] };
    assert!(matches!(c.handle_response("ts::a", 2, Some(Reply::Edit(Some(nothing)))), LspEventOutcome::Nothing));
    let e = WorkspaceEdit { changes: vec![("file:///b".to_string(), vec![edit(pos(0, 0), pos(0, 1), "n")])] };
    match c.handle_response("ts::b", 2, Some(Reply::Edit(Some(e)))) {
        LspEventOutcome::Rename { new_name, edit: Some(w) } => {
            assert_eq!(new_name, "n");
            assert_eq!(w.changes[0].0, "file:///b");
        }
        other => panic!("{other:?}"),
    }
    let one = GroupAccum::Rename {
        new_name: "n".to_string(),
        edit: Some(WorkspaceEdit { changes: vec![("file:///a".to_string(), vec![edit(pos(0, 0), pos(0, 1), "n")])] }),
    };
    c.note_sent(vec![("ts::a".to_string(), 3)], LspRequestKind::Rename, one);
    let e = WorkspaceEdit { changes: vec![("file:///b".to_string(), vec![edit(pos(0, 0), pos(0, 1), "n")])] };
    match c.handle_response("ts::a", 3, Some(Reply::Edit(Some(e)))) {
        LspEventOutcome::Rename { edit: Some(w), .. } => assert_eq!(w.changes[0].0, "file:///a"),
        other => panic!("{other:?}"),
    }
}

#[test]
fn actions_know_where_they_came_from() {
    let mut c = two_servers();
    c.note_sent(
        vec![("ts::b".to_string(), 4)],
        LspRequestKind::CodeAction,
        GroupAccum::CodeAction(Vec::new()),
    );
    let a = CodeAction { title: "t".to_string(), edit: None, raw: "{}".to_string(), source: String::new() };
    match c.handle_response("ts::b", 4, Some(Reply::Actions(vec![a]))) {
        LspEventOutcome::CodeActions(v) => assert_eq!(v[0].source, "ts::b"),
        other => panic!("{other:?}"),
    }
}

#[test]
fn paths_and_uris() {
    assert_eq!(path_to_uri("/a/b.rs"), "file:///a/b.rs");
    assert_eq!(uri_to_path("file:///a/b.rs").as_deref(), Some("/a/b.rs"));
    assert_eq!(uri_to_path("http://x"), None);
}
