//! Settings.
use vorto::action::{DirectKind, Token};
use vorto::config::cursor::{resolve_cursor_shapes, CursorConfig, CursorShape};
use vorto::config::editor::{EditorConfig, EditorToml, IndentGuideStyle};
use vorto::config::install_binding;
use vorto::config::keymap::{KeySig, Keymap};
use vorto::config::keys::parse_sequence;
use vorto::keys::{KeyCode, KeyModifiers};

#[test]
fn single_char() {
    let sig = parse_sequence("a").unwrap();
    assert_eq!(sig.len(), 1);
    assert_eq!(sig[0].code, KeyCode::Char('a'));
}

#[test]
fn ctrl_modified() {
    let sig = parse_sequence("<C-s>").unwrap();
    assert_eq!(sig[0].code, KeyCode::Char('s'));
    assert!(sig[0].modifiers.control);
}

#[test]
fn space_leader_seq() {
    let sig = parse_sequence("<space>w").unwrap();
    assert_eq!(sig.len(), 2);
    assert_eq!(sig[0].code, KeyCode::Char(' '));
    assert_eq!(sig[1].code, KeyCode::Char('w'));
}

#[test]
fn unknown_key() {
    assert!(parse_sequence("<wat>").is_err());
}

#[test]
fn defaults_when_user_omits_fields() {
    let eff = EditorConfig::default().overlay(&EditorToml::default());
    assert_eq!(eff.indent_width, 2);
    assert_eq!(eff.tab_width, 4);
}

#[test]
fn editor_overlay_replaces_only_provided_fields() {
    let base = EditorConfig {
        indent_width: 4,
        tab_width: 4,
        use_tabs: false,
        show_whitespace: false,
        format_on_save: true,
        indent_guides: true,
        indent_guides_skip_levels: 1,
        indent_guide_style: IndentGuideStyle::Line,
    };
    let eff = base.overlay(&EditorToml { tab_width: Some(8), ..Default::default() });
    assert_eq!(eff.indent_width, 4);
    assert_eq!(eff.tab_width, 8);
}

#[test]
fn config_install_leader_binding() {
    let mut km = Keymap::vim_default();
    install_binding(&mut km, "<space>w", "save").unwrap();
    let sig = KeySig::new(KeyCode::Char('w'), KeyModifiers::none());
    assert_eq!(km.leader.get(sig), Some(Token::Direct(DirectKind::Save)));
}

#[test]
fn config_install_overrides_existing() {
    let mut km = Keymap::vim_default();
    install_binding(&mut km, "u", "quit").unwrap();
    let sig = KeySig::new(KeyCode::Char('u'), KeyModifiers::none());
    assert_eq!(km.initial.get(sig), Some(Token::Direct(DirectKind::Quit)));
}

#[test]
fn config_cursor_defaults_when_unset() {
    let shapes = resolve_cursor_shapes(&CursorConfig::default()).unwrap();
    assert!(matches!(shapes.normal, CursorShape::Block));
    assert!(matches!(shapes.insert, CursorShape::Bar));
    assert!(matches!(shapes.visual, CursorShape::Underbar));
}

#[test]
fn config_cursor_overrides() {
    let cfg = CursorConfig {
        normal: Some("bar".to_string()),
        insert: Some("underbar".to_string()),
        visual: Some("block".to_string()),
        ..Default::default()
    };
    let shapes = resolve_cursor_shapes(&cfg).unwrap();
    assert!(matches!(shapes.normal, CursorShape::Bar));
    assert!(matches!(shapes.insert, CursorShape::Underbar));
    assert!(matches!(shapes.visual, CursorShape::Block));
}

#[test]
fn config_cursor_unknown_shape() {
    let cfg = CursorConfig { normal: Some("diamond".to_string()), ..Default::default() };
    assert!(resolve_cursor_shapes(&cfg).is_err());
}

#[test]
fn mod_install_leader_binding() {
    let mut km = Keymap::vim_default();
    install_binding(&mut km, "<space>w", "save").unwrap();
    let sig = KeySig::new(KeyCode::Char('w'), KeyModifiers::none());
    assert_eq!(km.leader.get(sig), Some(Token::Direct(DirectKind::Save)));
}

#[test]
fn mod_install_overrides_existing() {
    let mut km = Keymap::vim_default();
    install_binding(&mut km, "u", "quit").unwrap();
    let sig = KeySig::new(KeyCode::Char('u'), KeyModifiers::none());
    assert_eq!(km.initial.get(sig), Some(Token::Direct(DirectKind::Quit)));
}

#[test]
fn mod_cursor_defaults_when_unset() {
    let shapes = resolve_cursor_shapes(&CursorConfig::default()).unwrap();
    assert!(matches!(shapes.normal, CursorShape::Block));
    assert!(matches!(shapes.insert, CursorShape::Bar));
    assert!(matches!(shapes.visual, CursorShape::Underbar));
}

#[test]
fn mod_cursor_overrides() {
    let cfg = CursorConfig {
        normal: Some("bar".to_string()),
        insert: Some("underbar".to_string()),
        visual: Some("block".to_string()),
        ..Default::default()
    };
    let shapes = resolve_cursor_shapes(&cfg).unwrap();
    assert!(matches!(shapes.normal, CursorShape::Bar));
    assert!(matches!(shapes.insert, CursorShape::Underbar));
    assert!(matches!(shapes.visual, CursorShape::Block));
}

#[test]
fn mod_cursor_unknown_shape() {
    let cfg = CursorConfig { normal: Some("diamond".to_string()), ..Default::default() };
    assert!(resolve_cursor_shapes(&cfg).is_err());
}
