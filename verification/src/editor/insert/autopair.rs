//! Which characters come in pairs, and when typing the first one also
//! inserts the second.
use vstd::prelude::*;
use crate::text::alphanumeric;

verus! {

/// The second half of a pair that starts with `c`.
pub open spec fn closer_of(c: char) -> Option<char> {
    if c == '(' {
        Some(')')
    } else if c == '[' {
        Some(']')
    } else if c == '{' {
        Some('}')
    } else if c == '"' || c == '\'' || c == '`' {
        Some(c)
    } else {
        None
    }
}

/// Quotes close with the character that opens them.
pub open spec fn quote(c: char) -> bool {
    c == '"' || c == '\'' || c == '`'
}

pub open spec fn word_char(c: char) -> bool {
    alphanumeric(c) || c == '_'
}

/// Whether the pair of `opener` is inserted between these neighbours.
pub open spec fn pairs_between(opener: char, prev: Option<char>, next: Option<char>) -> bool {
    &&& !(next matches Some(n) && word_char(n))
    &&& !(quote(opener) && (prev matches Some(p) && (word_char(p) || p == opener)))
}

/// The character that closes what `c` opens, if `c` opens a pair.
pub fn auto_pair_closer(c: char) -> (r: Option<char>)
    ensures
        r == closer_of(c),
{
    match c {
        '(' => Some(')'),
        '[' => Some(']'),
        '{' => Some('}'),
        '"' => Some('"'),
        '\'' => Some('\''),
        '`' => Some('`'),
        _ => None,
    }
}

/// Whether `c` closes a pair, so that typing it before itself only moves on.
pub fn is_auto_pair_closer(c: char) -> (r: bool)
    ensures
        r == (exists|o: char| closer_of(o) == Some(c)),
{
    let r = matches!(c, ')' | ']' | '}' | '"' | '\'' | '`');
    proof {
        if r {
            let o = if c == ')' {
                '('
            } else if c == ']' {
                '['
            } else if c == '}' {
                '{'
            } else {
                c
            };
            assert(closer_of(o) == Some(c));
        }
    }
    r
}

/// Whether typing `opener` also inserts its closer, given the characters on
/// both sides of the cursor. A pair never swallows a word on its right; a
/// quote also keeps clear of words and of itself on its left.
pub fn should_auto_pair(opener: char, prev: Option<char>, next: Option<char>) -> (r: bool)
    ensures
        r == pairs_between(opener, prev, next),
{
    if let Some(n) = next {
        if n.is_alphanumeric() || n == '_' {
            return false;
        }
    }
    if matches!(opener, '"' | '\'' | '`') {
        if let Some(p) = prev {
            if p.is_alphanumeric() || p == '_' || p == opener {
                return false;
            }
        }
    }
    true
}

} // verus!
