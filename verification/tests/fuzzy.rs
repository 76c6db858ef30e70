//! Fuzzy matching.
use vorto::finder::score::fuzzy_match;

fn matched(haystack: &str, needle: &str) -> Option<String> {
    let (_score, positions) = fuzzy_match(haystack, needle)?;
    let hay: Vec<char> = haystack.chars().collect();
    Some(positions.iter().map(|&i| hay[i]).collect())
}

#[test]
fn skips_dot_separator() {
    let (_score, positions) = fuzzy_match("xx.go", "xxgo").expect("should match");
    assert_eq!(positions, vec![0, 1, 3, 4]);
}

#[test]
fn skips_underscore_and_slash() {
    assert_eq!(matched("foo_bar", "foobar").as_deref(), Some("foobar"));
    assert_eq!(matched("src/foo.rs", "foors").as_deref(), Some("foors"));
    assert_eq!(matched("foo bar", "foobar").as_deref(), Some("foobar"));
}

#[test]
fn case_insensitive() {
    let (_s, pos) = fuzzy_match("README.md", "readme").unwrap();
    assert_eq!(pos, vec![0, 1, 2, 3, 4, 5]);
}

#[test]
fn camel_case_boundary_preferred() {
    let (camel, _) = fuzzy_match("fooBar", "foob").unwrap();
    let (flat, _) = fuzzy_match("flooba", "foob").unwrap();
    assert!(camel > flat, "camelCase {camel} should outrank flat {flat}");
}

#[test]
fn word_boundary_outranks_mid_word() {
    let (boundary, _) = fuzzy_match("src/foo", "foo").unwrap();
    let (mid, _) = fuzzy_match("srcafoo", "foo").unwrap();
    assert!(boundary > mid, "boundary {boundary} should outrank mid-word {mid}");
}

#[test]
fn subsequence_with_long_gap() {
    let (_score, positions) = fuzzy_match("alphabet_soup", "asp").unwrap();
    assert_eq!(positions.len(), 3);
    assert!(positions.windows(2).all(|w| w[0] < w[1]));
}

#[test]
fn rejects_when_letters_missing() {
    assert!(fuzzy_match("xx.go", "xxrs").is_none());
    assert!(fuzzy_match("abc", "abcd").is_none());
    assert!(fuzzy_match("src/foo", "srcz").is_none());
}
