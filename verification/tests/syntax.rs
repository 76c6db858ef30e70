//! Columns, queries and grammars.
use vorto::grammar::{bundled_query_names, dylib_ext, files_for, installed_path};
use vorto::highlight::{byte_to_char_col, char_to_byte_col};
use vorto::syntax::{library_candidates, library_path};

#[test]
fn byte_to_char_handles_ascii() {
    let src = "let x = 1\nprintln!(\"hi\")";
    assert_eq!(byte_to_char_col(src, 0, 0), 0);
    assert_eq!(byte_to_char_col(src, 0, 4), 4);
    assert_eq!(byte_to_char_col(src, 1, 9), 9);
}

#[test]
fn byte_to_char_handles_multibyte() {
    let src = "あ x";
    assert_eq!(byte_to_char_col(src, 0, 3), 1);
    assert_eq!(byte_to_char_col(src, 0, 5), 3);
}

#[test]
fn library_path_reports_missing() {
    let names = library_candidates("definitely-not-a-real-grammar");
    let exists = vec![false; names.len()];
    assert!(library_path(&exists).is_none());
}

#[test]
fn dylib_ext_is_platform_native() {
    for os in ["linux", "macos", "windows"] {
        let ext = dylib_ext(os);
        assert!(matches!(ext, "so" | "dylib" | "dll"));
    }
    assert_eq!(dylib_ext("linux"), "so");
    assert_eq!(dylib_ext("macos"), "dylib");
    assert_eq!(dylib_ext("windows"), "dll");
}

#[test]
fn installed_path_returns_none_for_missing() {
    let files = vec!["rust.so".to_string(), "zig.dll".to_string(), "zig.dylib".to_string()];
    assert!(installed_path("vorto-test-no-such-grammar-xyz", "/tmp", &files).is_none());
    assert!(installed_path("vorto-test-no-such-grammar-xyz", "/tmp", &Vec::new()).is_none());
    assert_eq!(installed_path("rust", "/g", &files).as_deref(), Some("/g/rust.so"));
    assert_eq!(installed_path("zig", "/g", &files).as_deref(), Some("/g/zig.dylib"));
}

fn bundle() -> Vec<String> {
    let files = [
        "rust/textobjects.scm",
        "rust/README.md",
        "rust/highlights.scm",
        "rust/old/highlights.scm",
        "rustic/highlights.scm",
        "go/locals.scm",
    ];
    files.iter().map(|f| f.to_string()).collect()
}

#[test]
fn rust_has_bundled_highlights() {
    let names = bundled_query_names("rust", &bundle());
    assert!(names.iter().any(|n| n == "highlights"), "expected highlights.scm in bundled rust queries, got {:?}", names);
    assert_eq!(names, vec!["highlights", "textobjects"]);
}

#[test]
fn unknown_language_returns_empty() {
    assert!(files_for("definitely-no-such-language", &bundle()).is_empty());
    assert!(bundled_query_names("definitely-no-such-language", &bundle()).is_empty());
    assert_eq!(files_for("rust", &bundle()), vec!["rust/textobjects.scm", "rust/highlights.scm"]);
}

#[test]
fn columns_go_there_and_back() {
    let src = "aあb\r\nx";
    assert_eq!(char_to_byte_col(src, 0, 2), 4);
    assert_eq!(byte_to_char_col(src, 0, 4), 2);
    assert_eq!(char_to_byte_col(src, 0, 9), 5);
    assert_eq!(char_to_byte_col(src, 7, 3), 0);
}
