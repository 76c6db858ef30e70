//! Going from a bracket to its partner.
use vstd::prelude::*;
use crate::editor::{in_text, Cursor};
use crate::text::{chars_of, text_of};

verus! {

/// The pair a bracket belongs to, and whether it is the opening half.
pub open spec fn pair_of(c: char) -> Option<(char, char, bool)> {
    if c == '(' {
        Some(('(', ')', true))
    } else if c == '[' {
        Some(('[', ']', true))
    } else if c == '{' {
        Some(('{', '}', true))
    } else if c == ')' {
        Some(('(', ')', false))
    } else if c == ']' {
        Some(('[', ']', false))
    } else if c == '}' {
        Some(('{', '}', false))
    } else {
        None
    }
}

/// The pair a bracket belongs to, and whether it is the opening half.
pub fn bracket_pair(c: char) -> (r: Option<(char, char, bool)>)
    ensures
        r == pair_of(c),
{
    match c {
        '(' => Some(('(', ')', true)),
        '[' => Some(('[', ']', true)),
        '{' => Some(('{', '}', true)),
        ')' => Some(('(', ')', false)),
        ']' => Some(('[', ']', false)),
        '}' => Some(('{', '}', false)),
        _ => None,
    }
}

/// Where the innermost of `d` brackets that are open at `(r, c)` and
/// everything inside them is closed: the first `close` from there on that
/// leaves none of the `d` open.
pub open spec fn close_of(text: Seq<Seq<char>>, open: char, close: char, r: int, c: int, d: int) -> Option<(
    int,
    int,
)>
    decreases text.len() - r, text[r].len() - c,
{
    if r < 0 || r >= text.len() {
        None
    } else if c >= text[r].len() {
        close_of(text, open, close, r + 1, 0, d)
    } else if text[r][c] == open {
        close_of(text, open, close, r, c + 1, d + 1)
    } else if text[r][c] == close {
        if d == 1 {
            Some((r, c))
        } else {
            close_of(text, open, close, r, c + 1, d - 1)
        }
    } else {
        close_of(text, open, close, r, c + 1, d)
    }
}

/// The mirror image: the last `open` at or before `(r, c)` that leaves none
/// of the `d` brackets that are closed there unmatched.
pub open spec fn open_of(text: Seq<Seq<char>>, open: char, close: char, r: int, c: int, d: int) -> Option<(
    int,
    int,
)>
    decreases r, c + 1,
{
    if r < 0 || r >= text.len() {
        None
    } else if c < 0 {
        if r == 0 {
            None
        } else {
            open_of(text, open, close, r - 1, text[r - 1].len() - 1, d)
        }
    } else if text[r][c] == close {
        open_of(text, open, close, r, c - 1, d + 1)
    } else if text[r][c] == open {
        if d == 1 {
            Some((r, c))
        } else {
            open_of(text, open, close, r, c - 1, d - 1)
        }
    } else {
        open_of(text, open, close, r, c - 1, d)
    }
}

/// The first bracket of a line at or after `i`.
pub open spec fn first_bracket(line: Seq<char>, i: int) -> Option<int>
    decreases line.len() - i,
{
    if i < 0 || i >= line.len() {
        None
    } else if pair_of(line[i]) is Some {
        Some(i)
    } else {
        first_bracket(line, i + 1)
    }
}

/// The partner of the bracket at `(r, c)`.
pub open spec fn partner(text: Seq<Seq<char>>, r: int, c: int) -> Option<(int, int)> {
    match pair_of(text[r][c]) {
        Some((open, close, forward)) => if forward {
            close_of(text, open, close, r, c + 1, 1)
        } else {
            open_of(text, open, close, r, c - 1, 1)
        },
        None => None,
    }
}

/// The partner of the first bracket in the line at or after `from`.
pub open spec fn bracket_target(text: Seq<Seq<char>>, from: Cursor) -> Option<Cursor> {
    match first_bracket(text[from.row as int], from.col as int) {
        None => None,
        Some(c) => match partner(text, from.row as int, c) {
            None => None,
            Some((r, k)) => Some(Cursor { row: r as usize, col: k as usize }),
        },
    }
}

/// Goes from the first bracket in the line, at or after the cursor, to its
/// partner, wherever in the text that is; nested pairs are passed over.
pub fn bracket_match(lines: &Vec<String>, from: Cursor) -> (r: Option<Cursor>)
    requires
        from.row < lines.len(),
    ensures
        r == bracket_target(text_of(lines@), from),
        r matches Some(c) ==> in_text(text_of(lines@), c),
{
    let ghost text = text_of(lines@);
    let cs = chars_of(lines[from.row].as_str());
    let mut i: usize = from.col;
    while i < cs.len()
        invariant
            cs@ == text[from.row as int],
            from.row < lines.len(),
            text == text_of(lines@),
            first_bracket(cs@, from.col as int) == first_bracket(cs@, i as int),
        decreases cs.len() - i,
    {
        match bracket_pair(cs[i]) {
            Some((open, close, forward)) => {
                return if forward {
                    scan_forward(lines, from.row, i, open, close)
                } else {
                    scan_back(lines, from.row, i, open, close)
                };
            },
            None => {},
        }
        i = i + 1;
    }
    None
}

/// The `close` that belongs to the `open` at the given place.
fn scan_forward(lines: &Vec<String>, row: usize, col: usize, open: char, close: char) -> (r: Option<Cursor>)
    requires
        row < lines.len(),
        col < text_of(lines@)[row as int].len(),
        text_of(lines@)[row as int][col as int] == open,
        open != close,
    ensures
        match (r, close_of(text_of(lines@), open, close, row as int, col + 1, 1)) {
            (Some(c), Some((a, b))) => c.row == a && c.col == b && in_text(text_of(lines@), c),
            (None, None) => true,
            _ => false,
        },
{
    let ghost text = text_of(lines@);
    let ghost goal = close_of(text, open, close, row as int, col + 1, 1);
    let first = chars_of(lines[row].as_str());
    proof {
        assert(col < first.len());
    }
    let mut depth: u128 = 1;
    let mut r: usize = row;
    let mut c: usize = col + 1;
    while r < lines.len()
        invariant
            row <= r <= lines.len(),
            text == text_of(lines@),
            open != close,
            1 <= depth <= 1 + (r - row) * 0xffff_ffff_ffff_ffff + c,
            r < lines.len() ==> c <= text[r as int].len(),
            goal == close_of(text, open, close, row as int, col + 1, 1),
            goal == close_of(text, open, close, r as int, c as int, depth as int),
        decreases lines.len() - r,
    {
        let cs = chars_of(lines[r].as_str());
        while c < cs.len()
            invariant
                row <= r < lines.len(),
                text == text_of(lines@),
                cs@ == text[r as int],
                c <= cs.len(),
                open != close,
                1 <= depth <= 1 + (r - row) * 0xffff_ffff_ffff_ffff + c,
                goal == close_of(text, open, close, row as int, col + 1, 1),
                goal == close_of(text, open, close, r as int, c as int, depth as int),
            decreases cs.len() - c,
        {
            if cs[c] == open {
                depth = depth + 1;
            } else if cs[c] == close {
                if depth == 1 {
                    return Some(Cursor { row: r, col: c });
                }
                depth = depth - 1;
            }
            c = c + 1;
        }
        r = r + 1;
        c = 0;
    }
    None
}

/// The `open` that belongs to the `close` at the given place.
fn scan_back(lines: &Vec<String>, row: usize, col: usize, open: char, close: char) -> (r: Option<Cursor>)
    requires
        row < lines.len(),
        col < text_of(lines@)[row as int].len(),
        text_of(lines@)[row as int][col as int] == close,
        open != close,
    ensures
        match (r, open_of(text_of(lines@), open, close, row as int, col - 1, 1)) {
            (Some(c), Some((a, b))) => c.row == a && c.col == b && in_text(text_of(lines@), c),
            (None, None) => true,
            _ => false,
        },
{
    let ghost text = text_of(lines@);
    let ghost goal = open_of(text, open, close, row as int, col - 1, 1);
    let mut depth: u128 = 1;
    let mut r: usize = row;
    let mut c: usize = col;
    loop
        invariant
            r <= row < lines.len(),
            text == text_of(lines@),
            open != close,
            1 <= depth <= 1 + (row - r + 1) * 0xffff_ffff_ffff_ffff - c,
            c <= text[r as int].len(),
            goal == open_of(text, open, close, row as int, col - 1, 1),
            goal == open_of(text, open, close, r as int, c - 1, depth as int),
        decreases r,
    {
        let cs = chars_of(lines[r].as_str());
        while c > 0
            invariant
                r <= row < lines.len(),
                text == text_of(lines@),
                cs@ == text[r as int],
                c <= cs.len(),
                open != close,
                1 <= depth <= 1 + (row - r + 1) * 0xffff_ffff_ffff_ffff - c,
                goal == open_of(text, open, close, row as int, col - 1, 1),
                goal == open_of(text, open, close, r as int, c - 1, depth as int),
            decreases c,
        {
            let k = c - 1;
            if cs[k] == close {
                depth = depth + 1;
            } else if cs[k] == open {
                if depth == 1 {
                    return Some(Cursor { row: r, col: k });
                }
                depth = depth - 1;
            }
            c = k;
        }
        if r == 0 {
            return None;
        }
        r = r - 1;
        let above = chars_of(lines[r].as_str());
        c = above.len();
        proof {
            assert(above@ == text[r as int]);
        }
    }
}

/// Scanning forward to a closing bracket and back again passes the same
/// brackets.
proof fn lemma_there_and_back(text: Seq<Seq<char>>, open: char, close: char, r: int, c: int, d: int)
    requires
        open != close,
        0 <= r < text.len(),
        0 <= c <= text[r].len(),
        d >= 1,
        close_of(text, open, close, r, c, d) is Some,
    ensures
        ({
            let q = close_of(text, open, close, r, c, d)->0;
            &&& 0 <= q.0 < text.len() && 0 <= q.1 < text[q.0].len()
            &&& text[q.0][q.1] == close
            &&& open_of(text, open, close, q.0, q.1 - 1, 1) == open_of(text, open, close, r, c - 1, d)
        }),
    decreases text.len() - r, text[r].len() - c,
{
    if c >= text[r].len() {
        assert(close_of(text, open, close, r, c, d) == close_of(text, open, close, r + 1, 0, d));
        lemma_there_and_back(text, open, close, r + 1, 0, d);
    } else if text[r][c] == open {
        lemma_there_and_back(text, open, close, r, c + 1, d + 1);
    } else if text[r][c] == close {
        if d > 1 {
            lemma_there_and_back(text, open, close, r, c + 1, d - 1);
        }
    } else {
        lemma_there_and_back(text, open, close, r, c + 1, d);
    }
}

/// Scanning back to an opening bracket and forward again passes the same
/// brackets.
proof fn lemma_back_and_there(text: Seq<Seq<char>>, open: char, close: char, r: int, c: int, d: int)
    requires
        open != close,
        0 <= r < text.len(),
        -1 <= c < text[r].len(),
        d >= 1,
        open_of(text, open, close, r, c, d) is Some,
    ensures
        ({
            let q = open_of(text, open, close, r, c, d)->0;
            &&& 0 <= q.0 < text.len() && 0 <= q.1 < text[q.0].len()
            &&& text[q.0][q.1] == open
            &&& close_of(text, open, close, q.0, q.1 + 1, 1) == close_of(text, open, close, r, c + 1, d)
        }),
    decreases r, c + 1,
{
    if c < 0 {
        if r > 0 {
            lemma_back_and_there(text, open, close, r - 1, text[r - 1].len() - 1, d);
        }
    } else if text[r][c] == close {
        lemma_back_and_there(text, open, close, r, c - 1, d + 1);
    } else if text[r][c] == open {
        if d > 1 {
            lemma_back_and_there(text, open, close, r, c - 1, d - 1);
        }
    } else {
        lemma_back_and_there(text, open, close, r, c - 1, d);
    }
}

/// The partner of a bracket's partner is the bracket itself.
pub proof fn law_partner_symmetric(text: Seq<Seq<char>>, r: int, c: int)
    requires
        0 <= r < text.len(),
        0 <= c < text[r].len(),
    ensures
        partner(text, r, c) matches Some((r2, c2)) ==> 0 <= r2 < text.len() && 0 <= c2 < text[r2].len() && partner(
            text,
            r2,
            c2,
        ) == Some((r, c)),
{
    match pair_of(text[r][c]) {
        Some((open, close, forward)) => {
            if partner(text, r, c) is Some {
                if forward {
                    lemma_there_and_back(text, open, close, r, c + 1, 1);
                } else {
                    lemma_back_and_there(text, open, close, r, c - 1, 1);
                }
            }
        },
        None => {},
    }
}

/// The target of the motion lies in the text.
pub proof fn lemma_bracket_in_text(text: Seq<Seq<char>>, from: Cursor)
    requires
        from.row < text.len(),
        text.len() <= usize::MAX,
        forall|r: int| 0 <= r < text.len() ==> (#[trigger] text[r]).len() <= usize::MAX,
    ensures
        bracket_target(text, from) matches Some(c) ==> in_text(text, c),
{
    let line = text[from.row as int];
    lemma_first_bracket(line, from.col as int);
    if let Some(c) = first_bracket(line, from.col as int) {
        law_partner_symmetric(text, from.row as int, c);
        if let Some((r, k)) = partner(text, from.row as int, c) {
            let l = text[r];
        }
    }
}

proof fn lemma_first_bracket(line: Seq<char>, i: int)
    requires
        0 <= i,
    ensures
        first_bracket(line, i) matches Some(k) ==> i <= k < line.len() && pair_of(line[k]) is Some,
    decreases line.len() - i,
{
    if i < line.len() && pair_of(line[i]) is None {
        lemma_first_bracket(line, i + 1);
    }
}

} // verus!
