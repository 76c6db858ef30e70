//! The editor around its buffers.
use vorto::action::{Ctx, DirectKind, Expr, PromptKind};
use vorto::app::buffers::{Deletion, Switch};
use vorto::app::input::insert::Ask;
use vorto::app::lsp_apply::{format_location_label, place_cursor, EditPurpose, LspStep};
use vorto::app::open::{ServerStep, StartError};
use vorto::app::runtime::{FormatPlan, SavePlan};
use vorto::app::status::Level;
use vorto::app::{App, MRU_CAP};
use vorto::buffer_ref::BufferRef;
use vorto::config::cursor::CursorShapes;
use vorto::config::editor::EditorConfig;
use vorto::config::keymap::Keymap;
use vorto::config::languages::LanguageRegistry;
use vorto::config::Config;
use vorto::editor::{Buffer, Cursor};
use vorto::effect::Cmd;
use vorto::finder::listing::Listing;
use vorto::keys::{KeyCode, KeyEvent, KeyModifiers};
use vorto::lsp::coordinator::{LspCoordinator, LspEvent};
use vorto::lsp::group::LspEventOutcome;
use vorto::lsp::{CodeAction, CompletionItem, Location, Position, Range, TextEdit, WorkspaceEdit};
use vorto::mode::Mode;
use vorto::prompt::{Prompt, PromptOutcome};
use vorto::strmap::StrMap;

fn config() -> Config {
    Config {
        keymap: Keymap::vim_default(),
        cursor: CursorShapes::default(),
        editor: EditorConfig::default(),
        languages: LanguageRegistry::build(StrMap::new(), StrMap::new()).unwrap(),
        grammar_dir: "/g".to_string(),
        query_dir: "/q".to_string(),
    }
}

fn app(text: &str) -> App {
    let mut a = App::new(config(), "/home/x".to_string());
    a.buffer.lines = text.split('\n').map(|l| l.to_string()).collect();
    a
}

fn key(c: char) -> KeyEvent {
    KeyEvent { code: KeyCode::Char(c), modifiers: KeyModifiers::none() }
}

fn code(code: KeyCode) -> KeyEvent {
    KeyEvent { code, modifiers: KeyModifiers::none() }
}

fn press(a: &mut App, keys: &str) -> Vec<Cmd> {
    let mut left = Vec::new();
    for c in keys.chars() {
        let k = if c == '\u{1b}' { code(KeyCode::Esc) } else { key(c) };
        let e = a.handle_key(k, false);
        let mut rest = a.run_cmds(e.cmds);
        while !rest.is_empty() {
            left.push(rest.remove(0));
            rest = a.run_cmds(rest);
        }
    }
    left
}

fn again(a: &mut App, count: u32) {
    let e = Expr::Direct { kind: DirectKind::RepeatLast, count };
    assert!(a.evaluate(e, Ctx { rest: "", count }).is_empty());
}

fn file(p: &str) -> BufferRef {
    BufferRef::File(p.to_string())
}

fn at(row: usize, col: usize) -> Cursor {
    Cursor { row, col }
}

#[test]
fn words_are_deleted_and_the_change_repeated() {
    let mut a = app("one two three four");
    press(&mut a, "dw");
    assert_eq!(a.buffer.lines, vec!["two three four"]);
    again(&mut a, 1);
    assert_eq!(a.buffer.lines, vec!["three four"]);
    press(&mut a, "u");
    assert_eq!(a.buffer.lines, vec!["two three four"]);
}

#[test]
fn typing_is_repeated_with_its_trigger() {
    let mut a = app("x\ny");
    press(&mut a, "ihi \u{1b}");
    assert_eq!(a.buffer.lines[0], "hi x");
    assert_eq!(a.mode, Mode::Normal);
    press(&mut a, "j0");
    again(&mut a, 1);
    assert_eq!(a.buffer.lines[1], "hi y");
}

#[test]
fn a_movement_drops_what_is_recorded() {
    let mut a = app("x\ny");
    press(&mut a, "iz\u{1b}");
    press(&mut a, "0iab");
    a.handle_key(code(KeyCode::Left), false);
    press(&mut a, "c\u{1b}");
    assert_eq!(a.buffer.lines[0], "acbzx");
    press(&mut a, "j0");
    again(&mut a, 1);
    assert_eq!(a.buffer.lines[1], "zy");
}

#[test]
fn commands_stop_at_the_first_from_outside() {
    let mut a = app("x");
    let rest = a.run_cmds(vec![
        Cmd::ToastInfo("one".to_string()),
        Cmd::OpenPath("/b".to_string()),
        Cmd::ToastInfo("two".to_string()),
        Cmd::Quit,
    ]);
    assert_eq!(a.status.text(), "one");
    assert!(!a.should_quit);
    assert!(matches!(&rest[..], [Cmd::OpenPath(p), Cmd::ToastInfo(t), Cmd::Quit] if p == "/b" && t == "two"));
}

#[test]
fn replacing_ends_on_the_last_replaced_character() {
    let mut a = app("ab");
    a.buffer.cursor = at(0, 1);
    let r = a.handle_direct(DirectKind::ReplaceChar { ch: 'x' }, 1, Ctx { rest: "", count: 1 });
    assert!(r.is_empty());
    assert_eq!(a.buffer.lines, vec!["ax"]);
    assert_eq!(a.buffer.cursor, at(0, 1));
    let mut b = app("abcd");
    b.handle_direct(DirectKind::ReplaceChar { ch: 'x' }, 3, Ctx { rest: "", count: 3 });
    assert_eq!(b.buffer.lines, vec!["xxxd"]);
    assert_eq!(b.buffer.cursor, at(0, 2));
}

#[test]
fn off_a_word_another_cursor_asks_for_visual_mode() {
    let mut a = app("  ");
    let r = a.handle_direct(DirectKind::MultiCursorAddNext, 1, Ctx { rest: "", count: 1 });
    assert!(matches!(&r[..], [Cmd::EnterMode(Mode::Visual)]));
    assert_eq!(a.mode, Mode::Normal);
    assert!(a.visual_anchor.is_none());
    a.run_cmds(r);
    assert_eq!(a.mode, Mode::Visual);
    assert_eq!(a.visual_anchor, Some(at(0, 0)));
}

#[test]
fn a_selection_is_deleted() {
    let mut a = app("abcdef");
    press(&mut a, "vlld");
    assert_eq!(a.buffer.lines, vec!["def"]);
    assert_eq!(a.buffer.yank, "");
    assert_eq!(a.mode, Mode::Normal);
    assert!(a.visual_anchor.is_none());
}

#[test]
fn swapping_the_ends_of_a_selection_twice() {
    let mut a = app("abcdef");
    press(&mut a, "vll");
    assert_eq!((a.visual_anchor, a.buffer.cursor), (Some(at(0, 0)), at(0, 2)));
    press(&mut a, "o");
    assert_eq!((a.visual_anchor, a.buffer.cursor), (Some(at(0, 2)), at(0, 0)));
    press(&mut a, "o");
    assert_eq!((a.visual_anchor, a.buffer.cursor), (Some(at(0, 0)), at(0, 2)));
}

#[test]
fn quitting_asks_about_unsaved_text() {
    let mut a = app("x");
    a.buffer.dirty = true;
    let cmds = a.execute_command("q");
    a.run_cmds(cmds);
    assert!(!a.should_quit);
    assert!(a.status.is_error());
    let cmds = a.execute_command("q!");
    a.run_cmds(cmds);
    assert!(a.should_quit);
}

#[test]
fn an_unknown_command_is_reported() {
    let mut a = app("x");
    let cmds = a.execute_command("frobnicate");
    a.run_cmds(cmds);
    assert!(a.status.text().contains("frobnicate"));
    assert_eq!(a.status.level(), Level::Error);
    assert!(a.status.shown_at() <= std::time::Instant::now());
}

#[test]
fn saving_is_planned_then_noted() {
    let mut a = app("a\nb");
    assert!(matches!(a.plan_save(&None), SavePlan::NoName));
    assert_eq!(a.status.text(), "no file name (use :w <path>)");
    let to = Some("/tmp/f.rs".to_string());
    match a.plan_save(&to) {
        SavePlan::Write { path, text } => assert_eq!((path.as_str(), text.as_str()), ("/tmp/f.rs", "a\nb")),
        other => panic!("{other:?}"),
    }
    a.note_saved(&to, true);
    assert_eq!(a.buffer.path.as_deref(), Some("/tmp/f.rs"));
    assert!(a.should_quit);
    assert!(matches!(a.plan_format(&to), FormatPlan::Nothing));
}

#[test]
fn a_buffer_sleeps_as_it_was_left() {
    let mut a = app("unsaved");
    a.buffer.dirty = true;
    a.buffer.cursor = at(0, 3);
    a.open_path_force(BufferRef::Scratch, file("/b"), "/b", Some("other".to_string()));
    assert_eq!(a.buffer.lines, vec!["other"]);
    assert_eq!(a.status.text(), "opened /b");
    assert_eq!(a.sleeping.len(), 1);
    assert!(matches!(a.switch_to_buffer(file("/b"), file("/b")), Switch::Stay));
    assert!(matches!(a.switch_to_buffer(file("/b"), file("/c")), Switch::Open(p) if p == "/c"));
    assert!(matches!(a.switch_to_buffer(file("/b"), BufferRef::Scratch), Switch::Done));
    assert!(matches!(a.switch_to_buffer(BufferRef::Scratch, BufferRef::Scratch), Switch::Stay));
    assert_eq!(a.buffer.lines, vec!["unsaved"]);
    assert!(a.buffer.dirty);
    assert_eq!(a.buffer.cursor, at(0, 3));
    assert!(a.open_path(BufferRef::Scratch, file("/b"), "/b"));
    assert_eq!(a.buffer.lines, vec!["other"]);
    assert!(!a.open_path(file("/b"), file("/none"), "/none"));
}

#[test]
fn the_list_of_buffers_stays_short() {
    let mut a = app("x");
    for i in 0..100 {
        a.record_opened(BufferRef::File(format!("/{i}")));
    }
    assert_eq!(a.opened_paths.len(), MRU_CAP);
    assert!(a.opened_paths[MRU_CAP - 1].same(&file("/99")));
    a.record_opened(file("/98"));
    assert_eq!(a.opened_paths.len(), MRU_CAP);
    assert!(a.opened_paths[MRU_CAP - 1].same(&file("/98")));
}

#[test]
fn buffers_are_cycled_and_deleted() {
    let mut a = app("x");
    assert!(a.buffer_cycle(&BufferRef::Scratch, true).is_none());
    a.open_path_force(BufferRef::Scratch, file("/b"), "/b", None);
    assert_eq!(a.buffer.lines, vec![""]);
    assert_eq!(a.status.text(), "/b [new file]");
    assert!(a.buffer_cycle(&file("/b"), true).unwrap().same(&BufferRef::Scratch));
    a.buffer.dirty = true;
    assert!(matches!(a.buffer_delete(file("/b"), false), Deletion::Refused));
    assert!(matches!(a.buffer_delete(file("/b"), true), Deletion::Done));
    assert_eq!(a.buffer.lines, vec!["x"]);
}

#[test]
fn a_deletion_may_have_to_read_a_file() {
    let mut a = app("x");
    a.opened_paths = vec![file("/b"), BufferRef::Scratch];
    match a.buffer_delete(BufferRef::Scratch, true) {
        Deletion::Load(p) => {
            assert_eq!(p, "/b");
            a.finish_delete(p, Err("no such file".to_string()));
            assert_eq!(a.status.text(), "deleted; failed to open /b: no such file — using scratch");
        }
        other => panic!("{other:?}"),
    }
}

#[test]
fn prompts_close_with_what_was_typed() {
    let a = app("foo\nbar");
    let mut p = Prompt::open(PromptKind::Command, &a.buffer.lines, Vec::new(), &Listing { found: Vec::new(), from_vcs: false });
    p.handle_key(key('w'));
    p.handle_key(key('q'));
    p.handle_key(code(KeyCode::Backspace));
    match p.handle_key(code(KeyCode::Enter)) {
        PromptOutcome::RunCommand(s) => assert_eq!(s, "w"),
        other => panic!("{other:?}"),
    }
    assert!(!p.is_open());
}

#[test]
fn servers_are_started_or_told() {
    let mut a = app("fn main() {}");
    a.buffer.path = Some("/x/main.rs".to_string());
    let mut lsp = LspCoordinator::new("/home/x".to_string());
    match &a.plan_servers(&lsp)[..] {
        [ServerStep::Start { key, server: 0 }] => assert_eq!(key, "rust::rust-analyzer"),
        other => panic!("{other:?}"),
    }
    let gen = a.open_gen;
    assert!(!a.handle_lsp_ready(&mut lsp, gen + 1, "rust::rust-analyzer", "rust", Ok(Vec::new())));
    assert!(a.handle_lsp_ready(&mut lsp, gen, "rust::rust-analyzer", "rust", Ok(Vec::new())));
    assert!(!a.handle_lsp_ready(&mut lsp, gen, "rust::rust-analyzer", "rust", Ok(Vec::new())));
    assert!(matches!(&a.plan_servers(&lsp)[..], [ServerStep::Open(k)] if k == "rust::rust-analyzer"));
    assert!(!a.handle_lsp_ready(&mut lsp, gen, "k", "rust", Err(StartError::NotFound)));
    assert!(!a.status.is_error());
    assert!(!a.handle_lsp_ready(&mut lsp, gen, "k", "rust", Err(StartError::Failed("boom".to_string()))));
    assert_eq!(a.status.text(), "lsp (rust): boom");
}

fn place(uri: &str, line: u32) -> Location {
    let p = Position { line, character: 4 };
    Location { uri: uri.to_string(), range: Range { start: p, end: p } }
}

#[test]
fn answers_become_steps() {
    let mut a = app("x");
    let none = None;
    let jump = |locations| LspEventOutcome::Jump { label: "definition".to_string(), locations };
    assert!(matches!(a.handle_lsp_outcome(jump(Vec::new()), &none), LspStep::Done));
    assert_eq!(a.status.text(), "no definition");
    assert!(matches!(a.handle_lsp_outcome(jump(vec![place("u", 1)]), &none), LspStep::Goto(l) if l.uri == "u"));
    assert!(matches!(
        a.handle_lsp_outcome(LspEventOutcome::References(vec![place("u", 1), place("v", 2)]), &none),
        LspStep::PickLocation(v) if v.len() == 2
    ));
    a.handle_lsp_outcome(LspEventOutcome::Hover(None), &none);
    assert_eq!(a.status.text(), "no hover info");
    a.handle_lsp_outcome(LspEventOutcome::CodeActions(Vec::new()), &none);
    assert_eq!(a.status.text(), "no code actions");
    a.handle_lsp_outcome(LspEventOutcome::CodeActionResolved(None), &none);
    assert_eq!(a.status.text(), "code action: server returned no action");
    a.handle_lsp_outcome(LspEventOutcome::Rename { new_name: "n".to_string(), edit: None }, &none);
    assert_eq!(a.status.text(), "rename: nothing to change");
}

#[test]
fn an_edit_of_the_open_document_is_carried_out() {
    let mut a = app("foo foo");
    a.buffer.cursor = at(0, 6);
    a.visual_anchor = Some(at(0, 7));
    let r = |x: u32, y: u32| Range { start: Position { line: 0, character: x }, end: Position { line: 0, character: y } };
    let edits = vec![
        TextEdit { range: r(0, 3), new_text: "b".to_string() },
        TextEdit { range: r(4, 7), new_text: "b".to_string() },
    ];
    let uri = Some("file:///x".to_string());
    let outcome = LspEventOutcome::Rename {
        new_name: "b".to_string(),
        edit: Some(WorkspaceEdit { changes: vec![("file:///x".to_string(), edits)] }),
    };
    match a.handle_lsp_outcome(outcome, &uri) {
        LspStep::Edit(purpose, plan) => {
            assert!(matches!(&purpose, EditPurpose::Rename(n) if n == "b"));
            a.finish_workspace_edit(purpose, plan);
        }
        other => panic!("{other:?}"),
    }
    assert_eq!(a.buffer.lines, vec!["b b"]);
    assert_eq!((a.buffer.cursor, a.visual_anchor), (at(0, 6), Some(at(0, 7))));
    a.settle();
    assert_eq!((a.buffer.cursor, a.visual_anchor), (at(0, 3), Some(at(0, 3))));
    assert_eq!(a.status.text(), "renamed to b (2 occurrences in 1 files)");
    assert!(a.buffer.undo());
    assert_eq!(a.buffer.lines, vec!["foo foo"]);
}

#[test]
fn a_character_is_typed_at_every_cursor() {
    let mut a = app("ab\ncd\nx");
    a.mode = Mode::Insert;
    a.buffer.cursor = at(0, 1);
    a.buffer.extra_cursors = vec![at(1, 2), at(0, 2), at(2, 4)];
    press(&mut a, "z");
    assert_eq!(a.buffer.lines, vec!["azbz", "cdz", "xz"]);
    assert_eq!(a.buffer.cursor, at(0, 2));
    assert_eq!(a.buffer.extra_cursors, vec![at(1, 3), at(0, 4), at(2, 5)]);
    a.handle_key(code(KeyCode::Backspace), false);
    assert_eq!(a.buffer.lines, vec!["ab", "cd", "xz"]);
    assert_eq!(a.buffer.cursor, at(0, 1));
    a.buffer.extra_cursors.push(at(3, 0));
    assert!(!a.extra_rows_exist());
    a.handle_key(code(KeyCode::Left), false);
    assert_eq!(a.buffer.cursor, at(0, 0));
}

#[test]
fn late_edits_of_a_completion_move_the_row_alone() {
    let mut a = app("ab\ncdef");
    a.buffer.cursor = at(1, 4);
    let r = |l: u32, x: u32, y: u32| Range { start: Position { line: l, character: x }, end: Position { line: l, character: y } };
    let edits = vec![
        TextEdit { range: r(0, 0, 0), new_text: "use x;\n".to_string() },
        TextEdit { range: r(1, 1, 4), new_text: String::new() },
    ];
    a.apply_completion_resolved_outcome("file:///x", &Some("file:///x".to_string()), edits);
    assert_eq!(a.buffer.lines, vec!["use x;", "ab", "c"]);
    assert_eq!(a.buffer.cursor, at(2, 4));
    a.settle();
    assert_eq!(a.buffer.cursor, at(2, 1));
}

#[test]
fn the_last_extra_cursor_is_gone_back_to() {
    let mut a = app("ab");
    a.buffer.extra_cursors = vec![at(0, 1), at(4, 9)];
    assert!(a.pop_cursor().is_empty());
    assert_eq!(a.buffer.cursor, at(4, 9));
    a.settle();
    assert_eq!(a.buffer.cursor, at(0, 2));
    assert!(a.pop_cursor().is_empty());
    assert_eq!(a.buffer.cursor, at(0, 1));
    let none = a.pop_cursor();
    assert!(matches!(&none[0], Cmd::ToastInfo(s) if s == "no extra cursor to remove"));
}

#[test]
fn actions_without_an_edit_are_filled_in() {
    let action = || CodeAction { title: "fix".to_string(), edit: None, raw: "{}".to_string(), source: "s".to_string() };
    let mut a = app("x");
    assert!(matches!(a.submit_code_action(action(), None, true), LspStep::ResolveAction { .. }));
    assert!(matches!(a.submit_code_action(action(), None, false), LspStep::Done));
    assert_eq!(a.status.text(), "no LSP for this buffer");
    assert!(matches!(a.apply_code_action(action(), None), LspStep::Done));
    assert_eq!(a.status.text(), "code action: fix (no edit)");
    assert!(!a.submit_rename("", true));
    assert_eq!(a.status.text(), "rename: empty name");
    assert!(a.submit_rename("y", true));
}

#[test]
fn events_of_servers_reach_the_status_line() {
    let mut a = app("x");
    let mut lsp = LspCoordinator::new("/home/x".to_string());
    let step = a.handle_lsp_event(&mut lsp, LspEvent::Message { level: 1, text: "bad".to_string() });
    assert!(matches!(step, LspStep::Done));
    assert_eq!(a.status.text(), "bad");
    assert!(a.status.is_error());
}

#[test]
fn places_as_they_are_listed() {
    let l = place("file:///home/x/src/a.rs", 9);
    assert_eq!(format_location_label(&l, Some("/home/x/src/a.rs"), "/home/x"), "src/a.rs:10:5");
    assert_eq!(format_location_label(&l, None, "/home/x"), "file:///home/x/src/a.rs");
    let mut b = Buffer::load("/a", "ab\ncd");
    place_cursor(&mut b, Position { line: 9, character: 9 });
    assert_eq!(b.cursor, at(1, 1));
}

#[test]
fn text_is_sent_once_it_has_changed() {
    let mut lsp = LspCoordinator::new("/home/x".to_string());
    let mut b = Buffer::load("/a", "ab");
    assert!(lsp.sync_buffer_if_dirty(&b).is_none());
    b.insert_char('x');
    assert_eq!(lsp.sync_buffer_if_dirty(&b).as_deref(), Some("xab"));
    assert!(lsp.sync_buffer_if_dirty(&b).is_none());
}

#[test]
fn a_highlighter_for_another_buffer_is_dropped() {
    let mut a = app("x");
    let gen = a.open_gen;
    assert!(a.handle_highlighter_ready(gen + 1, Err("late".to_string())).is_none());
    assert!(!a.status.is_error());
    assert!(a.handle_highlighter_ready(gen, Err("no grammar".to_string())).is_none());
    assert_eq!(a.status.text(), "highlight: no grammar");
}

fn item(label: &str) -> CompletionItem {
    CompletionItem {
        label: label.to_string(),
        kind: 0,
        text_edit: None,
        insert_text: None,
        filter_text: None,
        sort_text: None,
        detail: None,
        additional_text_edits: Vec::new(),
        raw: "{}".to_string(),
        source: "s".to_string(),
    }
}

#[test]
fn a_completion_is_taken_over_and_filled_in() {
    let mut a = app("pri");
    a.mode = Mode::Insert;
    a.buffer.cursor = at(0, 3);
    match a.lsp_completion(true) {
        Ask::Completion { cursor, prefix_start } => assert_eq!((cursor, prefix_start), (at(0, 3), at(0, 0))),
        other => panic!("{other:?}"),
    }
    a.apply_completion_outcome(at(0, 0), vec![item("print"), item("other")]);
    let mut filled = item("print");
    filled.detail = Some("fn".to_string());
    let outcome = LspEventOutcome::CompletionResolved { uri: String::new(), item_index: Some(0), item: Some(filled) };
    a.handle_lsp_outcome(outcome, &None);
    assert_eq!(a.completion.as_ref().unwrap().items[0].detail.as_deref(), Some("fn"));
    assert!(a.accept_completion().is_some());
    assert_eq!(a.buffer.lines, vec!["print"]);
    assert_eq!(a.buffer.cursor, at(0, 5));
}
