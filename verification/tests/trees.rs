//! Highlighting with a grammar.
use vorto::syntax::{Highlighter, SyntaxError};

const PATTERNS: &str = "(pair key: (_) @key value: (_) @value) (number) @number";

const OBJECTS: &str = "(pair value: (array . \"[\" . (_) @_first (_)? @_last . \"]\" \
                       (#make-range! \"function.inner\" @_first @_last))) @function.outer";

fn json(patterns: &str, objects: Option<&str>) -> Result<Highlighter, SyntaxError> {
    let language: tree_sitter::Language = tree_sitter_json::LANGUAGE.into();
    Highlighter::new(&language, patterns, objects)
}

#[test]
fn patterns_that_do_not_compile() {
    assert!(matches!(json("(no_such_node) @x", None), Err(SyntaxError::Highlights)));
    assert!(matches!(json(PATTERNS, Some("(pair")), Err(SyntaxError::TextObjects)));
    assert_eq!(SyntaxError::TextObjects.message(), "compiling textobjects query");
    assert_eq!(SyntaxError::Language.message(), "setting parser language (ABI mismatch?)");
}

#[test]
fn captures_follow_the_text() {
    let mut h = json(PATTERNS, None).ok().unwrap();
    assert_eq!(h.names, vec!["key", "value", "number"]);
    assert!(h.captures_in_rows(0, 9).is_empty());
    h.refresh("{\n  \"é\": 12,\n  \"b\": true\n}", 1);
    let found: Vec<(usize, usize, usize, String)> =
        h.captures_in_rows(1, 1).into_iter().map(|c| (c.start_row, c.start_col, c.end_col, c.name)).collect();
    assert_eq!(
        found,
        vec![
            (1, 2, 5, "key".to_string()),
            (1, 7, 9, "value".to_string()),
            (1, 7, 9, "number".to_string()),
        ]
    );
    assert_eq!(h.captures_in_rows(0, 9).len(), 5);
    h.refresh("[]", 1);
    assert_eq!(h.captures_in_rows(0, 9).len(), 5);
    h.refresh("[7]", 2);
    let now = h.captures_in_rows(0, 9);
    assert_eq!(now.len(), 1);
    assert_eq!((now[0].start_col, now[0].end_col, now[0].name.as_str()), (1, 2, "number"));
    assert_eq!(h.find_text_object("function.outer", 0, 1), None);
}

#[test]
fn text_objects_come_from_the_tree() {
    let mut h = json(PATTERNS, Some(OBJECTS)).ok().unwrap();
    assert_eq!(h.textobject_rules.len(), 1);
    assert_eq!(h.textobject_rules[0][0].operator, "make-range!");
    assert_eq!(h.find_text_object("function.outer", 0, 8), None);
    h.refresh("{\"k\": [1]}", 1);
    assert_eq!(h.find_text_object("function.outer", 0, 7), Some((0, 1, 0, 9)));
    assert_eq!(h.find_text_object("class.outer", 0, 7), None);
    h.refresh("{\"k\": [1, 22]}", 2);
    assert_eq!(h.find_text_object("function.inner", 0, 8), Some((0, 7, 0, 12)));
}
