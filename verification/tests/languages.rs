//! Languages and their servers.
use vorto::config::languages::{
    build_extension_index, builtin_languages, builtin_lsp, resolve, resolve_lsp_table, LanguageConfig, LspConfig,
    LspToml,
};
use vorto::strmap::StrMap;

fn empty_lsp() -> StrMap<LspConfig> {
    resolve_lsp_table(StrMap::new()).unwrap()
}

#[test]
fn builtins_include_rust() {
    let m = builtin_languages();
    assert!(m.contains_key("rust"));
    assert_eq!(m.get("rust").unwrap().extensions.as_deref(), Some(&["rs".to_string()][..]));
}

#[test]
fn builtin_lsp_includes_vtsls_and_tsserver() {
    let m = builtin_lsp();
    assert!(m.contains_key("vtsls"));
    assert!(m.contains_key("typescript-language-server"));
}

#[test]
fn languages_overlay_replaces_only_provided_fields() {
    let mut base = LanguageConfig {
        extensions: Some(vec!["rs".into()]),
        grammar: Some("rust".into()),
        ..Default::default()
    };
    let user = LanguageConfig { grammar: Some("rust-tree-sitter".into()), ..Default::default() };
    base.overlay(user);
    assert_eq!(base.grammar.as_deref(), Some("rust-tree-sitter"));
    assert_eq!(base.extensions.as_deref(), Some(&["rs".to_string()][..]));
}

#[test]
fn resolve_adds_user_only_language() {
    let mut user = StrMap::new();
    user.insert("fish".into(), LanguageConfig { extensions: Some(vec!["fish".into()]), ..Default::default() });
    let langs = resolve(user, &empty_lsp()).unwrap();
    assert!(langs.contains_key("fish"));
    assert_eq!(langs.get("fish").unwrap().grammar, "fish");
    assert!(langs.get("fish").unwrap().lsp.is_empty());
}

#[test]
fn resolve_falls_back_to_default_when_user_omits_field() {
    let mut user = StrMap::new();
    user.insert("rust".into(), LanguageConfig { grammar: Some("rust-custom".into()), ..Default::default() });
    let langs = resolve(user, &empty_lsp()).unwrap();
    let rust = langs.get("rust").unwrap();
    assert_eq!(rust.grammar, "rust-custom");
    assert_eq!(rust.extensions, vec!["rs"]);
    assert_eq!(rust.lsp.len(), 1);
    assert_eq!(rust.lsp[0].name, "rust-analyzer");
}

#[test]
fn extension_index_routes_to_language_name() {
    let langs = resolve(StrMap::new(), &empty_lsp()).unwrap();
    let idx = build_extension_index(&langs);
    assert_eq!(idx.get("rs"), Some(&"rust".to_string()));
    assert_eq!(idx.get("py"), Some(&"python".to_string()));
}

#[test]
fn typescript_resolves_to_two_servers() {
    let langs = resolve(StrMap::new(), &empty_lsp()).unwrap();
    let ts = langs.get("typescript").unwrap();
    let names: Vec<&str> = ts.lsp.iter().map(|c| c.name.as_str()).collect();
    assert_eq!(names, vec!["vtsls", "typescript-language-server"]);
}

#[test]
fn user_lsp_overlay_replaces_only_provided_fields() {
    let mut user_lsp: StrMap<LspToml> = StrMap::new();
    user_lsp.insert("vtsls".into(), LspToml { args: Some(vec!["--my-flag".into()]), ..Default::default() });
    let table = resolve_lsp_table(user_lsp).unwrap();
    let entry = table.get("vtsls").unwrap();
    assert_eq!(entry.command, "vtsls");
    assert_eq!(entry.args, vec!["--my-flag"]);
}

#[test]
fn user_lsp_new_entry_requires_command() {
    let mut user_lsp: StrMap<LspToml> = StrMap::new();
    user_lsp.insert("my-server".into(), LspToml { args: Some(vec!["--stdio".into()]), ..Default::default() });
    assert!(resolve_lsp_table(user_lsp).is_err());
}

#[test]
fn user_lsp_new_entry_with_command_succeeds() {
    let mut user_lsp: StrMap<LspToml> = StrMap::new();
    user_lsp.insert(
        "my-server".into(),
        LspToml { command: Some("my-bin".into()), args: Some(vec!["--stdio".into()]), ..Default::default() },
    );
    let table = resolve_lsp_table(user_lsp).unwrap();
    assert_eq!(table.get("my-server").unwrap().command, "my-bin");
}

#[test]
fn language_ref_to_unknown_server_errors() {
    let mut user_langs: StrMap<LanguageConfig> = StrMap::new();
    user_langs.insert("rust".into(), LanguageConfig { lsp: Some(vec!["nonexistent".into()]), ..Default::default() });
    let err = resolve(user_langs, &empty_lsp()).unwrap_err();
    assert!(err.message().contains("nonexistent"));
}

#[test]
fn user_can_pick_subset_of_servers() {
    let mut user_langs: StrMap<LanguageConfig> = StrMap::new();
    user_langs.insert(
        "typescript".into(),
        LanguageConfig { lsp: Some(vec!["typescript-language-server".into()]), ..Default::default() },
    );
    let langs = resolve(user_langs, &empty_lsp()).unwrap();
    let ts = langs.get("typescript").unwrap();
    assert_eq!(ts.lsp.len(), 1);
    assert_eq!(ts.lsp[0].name, "typescript-language-server");
}
