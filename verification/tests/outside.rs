//! Settings that cannot be used, programs around the editor, and numbers.
use vorto::config::cursor::{resolve_cursor_shapes, CursorConfig};
use vorto::config::keymap::Keymap;
use vorto::config::keys::{parse_sequence, BindError};
use vorto::config::command::{command_binds, CommandBind};
use vorto::config::languages::{
    builtin_languages, builtin_lsp, resolve, resolve_lsp_table, FormatterToml, LanguageConfig, LanguageError,
    LanguageRegistry, LspToml,
};
use vorto::config::{apply, default_path, install_binding, Binding, Dirs};
use vorto::copilot::{handle_copilot_event, initialize_params, reader_failed, CopilotEvent, Heard, HeardStep};
use vorto::finder::{Finder, IgnoreOpts};
use vorto::finder::listing::{Found, Listing};
use vorto::finder::score::fuzzy_match;
use vorto::format::{timed_out, FormatterRun};
use vorto::grammar::cli::{
    choose_recipes, finish, parse_command, plan_run, query_status, ChoiceError, GrammarCommand, GrammarPlan,
};
use vorto::grammar::{clone_args, is_fully_installed, library_files};
use vorto::highlight::{byte_to_char_col, captures_in_rows, char_to_byte_col, find_text_object, Predicate, PredicateArg, RawCapture, RawMatch};
use vorto::app::completion::CompletionState;
use vorto::editor::Cursor;
use vorto::lsp::{CompletionItem, Signature, SignatureHelp};
use vorto::app::signature::SignatureState;
use vorto::number::{parse_usize, to_decimal};
use vorto::path::{extension, file_name, file_stem, join};
use vorto::strmap::StrMap;
use vorto::syntax::{query_file, symbol_name, SyntaxError};

#[test]
fn bindings_that_cannot_be_used() {
    let mut km = Keymap::vim_default();
    assert!(matches!(parse_sequence("<C-s"), Err(BindError::Unterminated(_))));
    assert!(matches!(parse_sequence(""), Err(BindError::EmptySequence)));
    assert!(matches!(parse_sequence("<Q-s>"), Err(BindError::UnknownModifier(_))));
    assert!(matches!(parse_sequence("<wat>"), Err(BindError::UnknownKey(_))));
    assert!(matches!(install_binding(&mut km, "x", "wat"), Err(BindError::UnknownAction(_))));
    assert!(matches!(install_binding(&mut km, "xy", "save"), Err(BindError::OnlyLeaderPairs(_))));
    assert!(matches!(install_binding(&mut km, "xyz", "save"), Err(BindError::TooLong(_))));
    let binds = vec![
        Binding { keys: "<C-s>".to_string(), action: "save".to_string() },
        Binding { keys: "x".to_string(), action: "wat".to_string() },
    ];
    let e = apply(&binds, &mut km).unwrap_err();
    assert_eq!(e.index, 1);
    assert!(e.cause.message().contains("wat"));
}

#[test]
fn languages_that_cannot_be_used() {
    let mut servers: StrMap<LspToml> = StrMap::new();
    servers.insert("s".into(), LspToml::default());
    assert!(matches!(resolve_lsp_table(servers), Err(LanguageError::MissingCommand { .. })));
    let table = resolve_lsp_table(StrMap::new()).unwrap();
    let mut a: StrMap<LanguageConfig> = StrMap::new();
    a.insert("x".into(), LanguageConfig { lsp: Some(vec!["nope".into()]), ..Default::default() });
    assert!(matches!(resolve(a, &table), Err(LanguageError::UnknownServer { .. })));
    let mut b: StrMap<LanguageConfig> = StrMap::new();
    b.insert(
        "x".into(),
        LanguageConfig { formatter: Some(FormatterToml { command: None, args: None }), ..Default::default() },
    );
    assert!(matches!(resolve(b, &table), Err(LanguageError::FormatterWithoutCommand { .. })));
}

#[test]
fn an_unknown_cursor_shape_is_named() {
    let cfg = CursorConfig { insert: Some("diamond".to_string()), ..Default::default() };
    let e = resolve_cursor_shapes(&cfg).unwrap_err();
    assert_eq!(e.message(), "cursor.insert: unknown cursor shape `diamond` (expected block|bar|underbar)");
}

fn ran(success: bool, stdout: Option<&str>, stderr: &str) -> FormatterRun {
    FormatterRun {
        command: "fmt".to_string(),
        success,
        status: "exit status: 1".to_string(),
        stdout: stdout.map(str::to_string),
        stderr: stderr.to_string(),
    }
}

#[test]
fn what_comes_of_a_formatter() {
    assert_eq!(ran(true, Some("x\n"), "").text(), Ok("x\n".to_string()));
    assert_eq!(ran(false, None, "\u{3000} boom \n").text(), Err("formatter `fmt`: boom".to_string()));
    assert_eq!(ran(false, Some("x"), " \n").text(), Err("formatter `fmt` exited with exit status: 1".to_string()));
    assert_eq!(ran(true, None, "").text(), Err("formatter `fmt` produced non-UTF-8 output".to_string()));
    assert_eq!(timed_out("fmt"), "formatter `fmt` timed out after 5s");
}

fn words(v: &[&str]) -> Vec<String> {
    v.iter().map(|s| s.to_string()).collect()
}

#[test]
fn grammar_commands() {
    assert!(matches!(parse_command(&words(&[])), GrammarCommand::Help));
    assert!(matches!(parse_command(&words(&["ls"])), GrammarCommand::List));
    assert!(matches!(parse_command(&words(&["add", "rust"])), GrammarCommand::Install));
    assert!(matches!(parse_command(&words(&["refresh-queries"])), GrammarCommand::InstallQueries));
    assert!(matches!(parse_command(&words(&["rm"])), GrammarCommand::Remove));
    assert!(matches!(parse_command(&words(&["wat"])), GrammarCommand::Unknown(w) if w == "wat"));
}

#[test]
fn grammars_are_chosen_by_name() {
    let names = words(&["rust", "go"]);
    assert_eq!(choose_recipes(&names, &words(&["go", "rust"]), "install").unwrap(), vec![1, 0]);
    assert_eq!(choose_recipes(&names, &words(&["--all"]), "install").unwrap(), vec![0, 1]);
    let e = choose_recipes(&names, &words(&[]), "install").unwrap_err();
    assert!(matches!(e, ChoiceError::NoName(_)));
    assert_eq!(e.message(), "install: need at least one grammar name (or `--all`)");
    let e = choose_recipes(&names, &words(&["rust", "wat"]), "install").unwrap_err();
    assert!(matches!(e, ChoiceError::Unknown(_)));
    assert_eq!(e.message(), "unknown grammar `wat`. Try `vorto grammar list` to see built-ins.");
    assert_eq!(finish("install", &Vec::new()), Ok(()));
    assert_eq!(finish("install", &words(&["a", "b"])), Err("failed to install: a, b".to_string()));
}

#[test]
fn command_lines_for_grammars() {
    let names = words(&["rust", "go"]);
    let plan = |a: &[&str]| plan_run(&names, &words(a));
    assert!(matches!(plan(&[]), Ok(GrammarPlan::Help)));
    assert!(matches!(plan(&["help"]), Ok(GrammarPlan::Help)));
    assert!(matches!(plan(&["list"]), Ok(GrammarPlan::List)));
    assert!(matches!(plan(&["install", "go"]), Ok(GrammarPlan::Install(p)) if p == vec![1]));
    assert!(matches!(plan(&["install-queries", "--all"]), Ok(GrammarPlan::InstallQueries(p)) if p == vec![0, 1]));
    assert!(matches!(plan(&["rm", "x", "y"]), Ok(GrammarPlan::Remove(n)) if n == words(&["x", "y"])));
    assert!(matches!(plan(&["install"]), Err(ChoiceError::NoName(_))));
    assert!(matches!(plan(&["install", "go", "wat"]), Err(ChoiceError::Unknown(n)) if n == "wat"));
    assert_eq!(plan(&["remove"]).unwrap_err().message(), "remove: need at least one grammar name");
    assert_eq!(plan(&["wat"]).unwrap_err().message(), "unknown grammar subcommand: `wat`");
}

#[test]
fn where_the_settings_are() {
    let dirs = |xdg: Option<&str>, home: Option<&str>| Dirs { xdg: xdg.map(str::to_string), home: home.map(str::to_string) };
    assert_eq!(default_path(&dirs(Some("/no/such"), Some("/h"))).as_deref(), Some("/no/such/vorto/config.toml"));
    assert_eq!(default_path(&dirs(None, Some("/h"))).as_deref(), Some("/h/.config/vorto/config.toml"));
    assert_eq!(default_path(&dirs(None, None)), None);
}

#[test]
fn tables_that_come_with_the_editor() {
    let reg = LanguageRegistry::build(StrMap::new(), StrMap::new()).unwrap();
    assert_eq!(reg.by_extension("rs").unwrap().name, "rust");
    assert_eq!(reg.by_extension("py").unwrap().name, "python");
    assert!(reg.by_extension("no-such").is_none());
    let servers = builtin_lsp();
    let mut seen: Vec<String> = Vec::new();
    for (_, l) in &builtin_languages().entries {
        for s in l.lsp.as_ref().unwrap() {
            assert!(servers.contains_key(s), "{s}");
        }
        for e in l.extensions.as_ref().unwrap() {
            assert!(!seen.contains(e), "{e}");
            seen.push(e.clone());
        }
    }
    for b in command_binds() {
        for n in b.all_names() {
            assert_eq!(CommandBind::find(n).unwrap().name, b.name);
        }
    }
}

#[test]
fn taking_back_what_was_typed_into_a_picker() {
    let mut f = Finder::lines(&words(&["alpha", "beta", "gamma"]));
    f.push('a');
    let before: Vec<(usize, i32, Vec<usize>)> = f.matches.iter().map(|m| (m.idx, m.score, m.positions.clone())).collect();
    f.next();
    f.push('l');
    f.pop();
    let after: Vec<(usize, i32, Vec<usize>)> = f.matches.iter().map(|m| (m.idx, m.score, m.positions.clone())).collect();
    assert_eq!((f.query.as_str(), f.selected), ("a", 0));
    assert_eq!(before, after);
    f.pop();
    f.pop();
    assert_eq!((f.query.as_str(), f.matches.len()), ("", 3));
}

#[test]
fn what_is_there_of_a_grammar() {
    assert!(is_fully_installed(true, &words(&["highlights"]), &words(&["textobjects", "highlights"])));
    assert!(!is_fully_installed(true, &words(&["highlights"]), &words(&[])));
    assert!(!is_fully_installed(false, &words(&[]), &words(&[])));
    assert!(is_fully_installed(true, &words(&[]), &words(&[])));
    assert_eq!(query_status(&words(&["a", "b"]), &words(&[])), "queries: a,b (installed)");
    assert_eq!(query_status(&words(&[]), &words(&["a"])), "queries: a (bundled, not installed)");
    assert_eq!(query_status(&words(&[]), &words(&[])), "queries: none bundled");
    assert_eq!(library_files("/g", "rust"), words(&["/g/rust.so", "/g/rust.dylib", "/g/rust.dll"]));
    assert_eq!(clone_args("r", "d", false), words(&["clone", "--depth", "1", "r", "d"]));
    assert_eq!(clone_args("r", "d", true), words(&["clone", "r", "d"]));
    assert_eq!(symbol_name("c-sharp"), "tree_sitter_c_sharp");
    assert_eq!(query_file("/q", "rust", "highlights"), "/q/rust/highlights.scm");
    assert_eq!(SyntaxError::Highlights.message(), "compiling highlights query");
}

fn heard(id: Option<u64>, method: Option<&str>, level: Option<u64>, text: Option<&str>) -> Heard {
    Heard {
        id,
        has_id: id.is_some(),
        has_method: method.is_some(),
        method: method.map(str::to_string),
        has_error: false,
        has_params: true,
        level,
        text: text.map(str::to_string),
    }
}

#[test]
fn what_is_done_about_a_message() {
    assert!(matches!(heard(Some(3), Some("x"), None, None).read(), HeardStep::Answer));
    assert!(matches!(heard(Some(3), None, None, None).read(), HeardStep::Ignore));
    assert!(matches!(heard(None, Some("$/progress"), None, None).read(), HeardStep::Ignore));
    match heard(None, Some("window/logMessage"), None, Some("hi")).read() {
        HeardStep::Emit(CopilotEvent::Message { level: 3, text }) => assert_eq!(text, "hi"),
        other => panic!("{other:?}"),
    }
    assert!(heard(Some(1), None, None, None).answers(1));
    assert!(!heard(Some(1), Some("x"), None, None).answers(1));
    let e = reader_failed("eof");
    assert!(matches!(&e, CopilotEvent::Error { message } if message == "copilot reader: eof"));
    assert!(!handle_copilot_event(&e, true));
    assert!(handle_copilot_event(&CopilotEvent::Message { level: 1, text: String::new() }, true));
}

#[test]
fn the_greeting_is_json() {
    let v: serde_json::Value = serde_json::from_str(&initialize_params(7, "file:///a\"b", "0.1")).unwrap();
    assert_eq!(v["processId"], 7);
    assert_eq!(v["rootUri"], "file:///a\"b");
    assert_eq!(v["initializationOptions"]["editorInfo"]["name"], "vorto");
    assert_eq!(v["clientInfo"]["version"], "0.1");
    assert!(v["capabilities"]["textDocument"]["inlineCompletion"].is_object());
}

#[test]
fn numbers_read_back() {
    assert_eq!(to_decimal(0), "0");
    assert_eq!(to_decimal(usize::MAX), usize::MAX.to_string());
    assert_eq!(parse_usize(&to_decimal(90210)), Some(90210));
    assert_eq!(parse_usize("+7"), Some(7));
    assert_eq!(parse_usize("7x"), None);
    assert_eq!(parse_usize("99999999999999999999999999"), None);
}

#[test]
fn parts_of_paths() {
    assert_eq!(file_name("/a/b.rs").as_deref(), Some("b.rs"));
    assert_eq!(file_stem("/a/b.tar.gz").as_deref(), Some("b.tar"));
    assert_eq!(file_stem("/a/.vimrc").as_deref(), Some(".vimrc"));
    assert_eq!(extension("/a/b.rs").as_deref(), Some("rs"));
    assert_eq!(extension("/a/.vimrc"), None);
    assert_eq!(join("/a", "b"), "/a/b");
    assert_eq!(join("/a", "/b"), "/b");
}

fn cap(index: u32, lo: usize, hi: usize) -> RawCapture {
    RawCapture { index, lo, hi, start: (0, lo), end: (0, hi) }
}

#[test]
fn the_smallest_text_object_wins() {
    let names = words(&["function.outer", "_s", "_e"]);
    let rule = Predicate {
        operator: "make-range!".to_string(),
        args: vec![PredicateArg::Text("function.inner".to_string()), PredicateArg::Capture(1), PredicateArg::Capture(2)],
    };
    let other = Predicate { operator: "lua-match?".to_string(), args: Vec::new() };
    let rules = vec![vec![other, rule]];
    let ms = vec![
        RawMatch { pattern: 0, captures: vec![cap(0, 0, 20), cap(1, 5, 8), cap(2, 10, 15)] },
        RawMatch { pattern: 9, captures: vec![cap(0, 4, 12)] },
    ];
    let src = "abcdefghijklmnopqrstuvwxyz";
    assert_eq!(find_text_object(src, &names, &rules, &ms, "function.outer", 0, 6), Some((0, 4, 0, 12)));
    assert_eq!(find_text_object(src, &names, &rules, &ms, "function.inner", 0, 6), Some((0, 5, 0, 15)));
    assert_eq!(find_text_object(src, &names, &rules, &ms, "function.inner", 0, 16), None);
    let caps = captures_in_rows(src, &names, &vec![cap(0, 7, 9), cap(9, 2, 3)], 0, 0);
    assert_eq!(caps.len(), 2);
    assert_eq!((caps[0].start_col, caps[0].name.as_str()), (2, ""));
    assert_eq!((caps[1].start_col, caps[1].name.as_str()), (7, "function.outer"));
}

#[test]
fn a_picker_ranks_what_it_finds() {
    let found = |path: &str, link| Found { path: path.to_string(), link };
    let listing = Listing {
        found: vec![
            found("src/b.rs", false),
            found("a.txt", false),
            found(".git/config", false),
            found("src/.hidden", false),
            found("link.rs", true),
            found("src/a.rs", false),
        ],
        from_vcs: true,
    };
    assert_eq!(Finder::files(&listing, IgnoreOpts { vcs: true, hidden: false }).items.len(), 5);
    let f = Finder::files(&listing, IgnoreOpts { vcs: true, hidden: true });
    assert_eq!(f.items, words(&["a.txt", "src/a.rs", "src/b.rs"]));
    let mut f = f;
    f.push('b');
    assert_eq!(f.matches.len(), 1);
    assert_eq!(f.selection().unwrap().idx, 2);
    f.pop();
    assert_eq!(f.matches.len(), 3);
    f.push('.');
    f.push('r');
    let scores: Vec<i32> = f.matches.iter().map(|m| m.score).collect();
    assert!(scores.windows(2).all(|w| w[0] >= w[1]));
}

#[test]
fn the_parameter_that_is_typed() {
    let sig = |p| Signature { label: "f(a, b)".to_string(), parameters: words(&["a", "b"]), active_parameter: p };
    let mut s = SignatureState {
        help: SignatureHelp { signatures: vec![sig(None), sig(Some(0))], active_signature: 0, active_parameter: Some(1) },
    };
    assert_eq!(s.active_parameter(), Some(1));
    s.help.active_signature = 1;
    assert_eq!(s.active_parameter(), Some(0));
    s.help.active_signature = 2;
    assert!(s.current().is_none());
    assert_eq!(s.active_parameter(), None);
}

#[test]
fn columns_in_characters_and_in_bytes() {
    let source = "abc\né→x\n";
    assert_eq!(char_to_byte_col(source, 1, 2), 5);
    for col in 0..9 {
        assert_eq!(byte_to_char_col(source, 1, char_to_byte_col(source, 1, col)), col.min(3));
    }
}

#[test]
fn the_best_placing_of_a_needle_is_found() {
    let (score, at) = fuzzy_match("a-foo/foo", "foo").unwrap();
    assert_eq!(at.len(), 3);
    assert!(score >= fuzzy_match("axfoo", "foo").unwrap().0);
    assert!(fuzzy_match("fo", "foo").is_none());
    assert_eq!(fuzzy_match("anything", "").unwrap(), (0, Vec::new()));
}

#[test]
fn completions_are_offered_whatever_their_case() {
    let mut s = CompletionState::new(Cursor { row: 0, col: 0 }, vec![offer("ÉTÉ"), offer("Print")], "é");
    assert_eq!(s.current().unwrap().label, "ÉTÉ");
    s.refilter("pR");
    assert_eq!(s.current().unwrap().label, "Print");
    s.refilter("zz");
    assert!(s.is_empty());
}

fn offer(label: &str) -> CompletionItem {
    CompletionItem {
        label: label.to_string(),
        kind: 0,
        text_edit: None,
        insert_text: None,
        filter_text: None,
        sort_text: None,
        detail: None,
        additional_text_edits: Vec::new(),
        raw: String::new(),
        source: String::new(),
    }
}
