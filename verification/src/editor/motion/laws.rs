//! Where the motions lead, told by the text around the two places.
use vstd::prelude::*;
use crate::action::MotionKind;
use crate::editor::laws::wordy;
use crate::editor::motion::bracket::{bracket_target, close_of, first_bracket, open_of, pair_of, partner};
use crate::editor::motion::find::{find_target, law_first_at, law_last_before};
use crate::editor::motion::word::{
    law_seek, law_seek_back, next_word, next_word_end, prev_word, prev_word_end, start_at_or_before, word_end, word_start, Mark,
};
use crate::editor::motion::{blank, next_row, paragraph_end, paragraph_start, prev_row, token_after, token_before};
use crate::editor::{in_text, Cursor, Doc};
use crate::text::white_space;

verus! {

/// Whether two neighbours belong to one word: neither is white space, and
/// both are word characters or both are not; for big words the latter does not
/// matter.
pub open spec fn one_word(a: char, b: char, big: bool) -> bool {
    !white_space(a) && !white_space(b) && (big || wordy(a) == wordy(b))
}

/// Whether a word starts at a column: there is a character that is no white
/// space, and the one before it belongs to no word with it.
pub open spec fn begins(line: Seq<char>, i: int, big: bool) -> bool {
    0 <= i < line.len() && !white_space(line[i]) && (i == 0 || !one_word(line[i - 1], line[i], big))
}

/// Whether a word ends at a column.
pub open spec fn ends(line: Seq<char>, i: int, big: bool) -> bool {
    0 <= i < line.len() && !white_space(line[i]) && (i + 1 == line.len() || !one_word(line[i], line[i + 1], big))
}

/// The marks that the word motions look for are the starts and ends of words.
pub proof fn law_word_marks(line: Seq<char>, i: int, big: bool)
    ensures
        word_start(line, i, big) <==> begins(line, i, big),
        word_end(line, i, big) <==> ends(line, i, big),
{
}

/// Whether a word motion forward stops at a place: where a word starts, and on
/// an empty line.
pub open spec fn stops(text: Seq<Seq<char>>, r: int, c: int, big: bool) -> bool {
    0 <= r < text.len() && (begins(text[r], c, big) || (c == 0 && text[r].len() == 0))
}

/// A place behind another one.
pub open spec fn behind(r: int, c: int, from: Cursor) -> bool {
    r > from.row || (r == from.row && c > from.col)
}

/// Going on by a word leads to the next start of a word or empty line, and
/// passes none. Where there is none, to the last character of the line.
pub proof fn law_next_word_is_the_nearest(text: Seq<Seq<char>>, from: Cursor, big: bool)
    requires
        from.row < text.len() <= usize::MAX,
        forall|r: int| 0 <= r < text.len() ==> (#[trigger] text[r]).len() <= usize::MAX,
    ensures
        ({
            let t = next_word(text, from, big);
            ||| {
                &&& stops(text, t.row as int, t.col as int, big)
                &&& behind(t.row as int, t.col as int, from)
                &&& forall|r: int, c: int|
                    #[trigger] stops(text, r, c, big) && behind(r, c, from) ==> t.row < r || (t.row == r && t.col <= c)
            }
            ||| {
                &&& forall|r: int, c: int| #[trigger] stops(text, r, c, big) ==> !behind(r, c, from)
                &&& t.row == from.row
                &&& t.col == if text[from.row as int].len() == 0 {
                    0
                } else {
                    text[from.row as int].len() - 1
                }
            }
        }),
{
    let m = Mark::Start { big };
    law_seek(text, m, from.row as int, from.col + 1);
    assert forall|r: int, c: int| #[trigger] stops(text, r, c, big) implies crate::editor::motion::word::marked(
        text,
        m,
        r,
        c,
    ) && 0 <= c <= text[r].len() by {
        law_word_marks(text[r], c, big);
    }
    if let Some((r, c)) = crate::editor::motion::word::seek(text, m, from.row as int, from.col + 1) {
        law_word_marks(text[r], c, big);
        assert(stops(text, r, c, big));
    }
}

/// Going to the end of a word leads to the next end of one, and passes none.
/// Where there is none, to the last character of the text.
pub proof fn law_next_word_end_is_the_nearest(text: Seq<Seq<char>>, from: Cursor, big: bool)
    requires
        from.row < text.len() <= usize::MAX,
        forall|r: int| 0 <= r < text.len() ==> (#[trigger] text[r]).len() <= usize::MAX,
    ensures
        ({
            let t = next_word_end(text, from, big);
            ||| {
                &&& t.row < text.len()
                &&& ends(text[t.row as int], t.col as int, big)
                &&& behind(t.row as int, t.col as int, from)
                &&& forall|r: int, c: int|
                    0 <= r < text.len() && #[trigger] ends(text[r], c, big) && behind(r, c, from) ==> t.row < r || (t.row
                        == r && t.col <= c)
            }
            ||| {
                &&& forall|r: int, c: int|
                    0 <= r < text.len() && #[trigger] ends(text[r], c, big) ==> !behind(r, c, from)
                &&& t.row == text.len() - 1
                &&& t.col == if text.last().len() == 0 {
                    0
                } else {
                    text.last().len() - 1
                }
            }
        }),
{
    let m = Mark::End { big };
    law_seek(text, m, from.row as int, from.col + 1);
    assert forall|r: int, c: int|
        0 <= r < text.len() && #[trigger] ends(text[r], c, big) implies crate::editor::motion::word::marked(
        text,
        m,
        r,
        c,
    ) by {
        law_word_marks(text[r], c, big);
    }
    if let Some((r, c)) = crate::editor::motion::word::seek(text, m, from.row as int, from.col + 1) {
        law_word_marks(text[r], c, big);
        assert(ends(text[r], c, big));
    }
}

/// Going back to the end of a word leads to the nearest end of one before the
/// cursor. Where there is none, to the start of the text.
pub proof fn law_prev_word_end_is_the_nearest(text: Seq<Seq<char>>, from: Cursor, big: bool)
    requires
        from.row < text.len() <= usize::MAX,
        forall|r: int| 0 <= r < text.len() ==> (#[trigger] text[r]).len() <= usize::MAX,
    ensures
        ({
            let t = prev_word_end(text, from, big);
            ||| {
                &&& t.row < text.len()
                &&& ends(text[t.row as int], t.col as int, big)
                &&& t.row < from.row || (t.row == from.row && t.col < from.col)
                &&& forall|r: int, c: int|
                    0 <= r < text.len() && #[trigger] ends(text[r], c, big) && (r < from.row || (r == from.row && c
                        < from.col)) ==> r < t.row || (r == t.row && c <= t.col)
            }
            ||| {
                &&& forall|r: int, c: int|
                    0 <= r < text.len() && #[trigger] ends(text[r], c, big) ==> r > from.row || (r == from.row && c
                        >= from.col)
                &&& t == (Cursor { row: 0, col: 0 })
            }
        }),
{
    let m = Mark::End { big };
    law_seek_back(text, m, from.row as int, from.col - 1);
    assert forall|r: int, c: int|
        0 <= r < text.len() && #[trigger] ends(text[r], c, big) implies crate::editor::motion::word::marked(
        text,
        m,
        r,
        c,
    ) && 0 <= c <= text[r].len() by {
        law_word_marks(text[r], c, big);
    }
    if let Some((r, c)) = crate::editor::motion::word::seek_back(text, m, from.row as int, from.col - 1) {
        law_word_marks(text[r], c, big);
        assert(ends(text[r], c, big));
    }
}

/// Going back by a word leads to the nearest start of one before the cursor in
/// its line, or to the start of the line. From the start of a line it leads to
/// the last character of the line above.
pub proof fn law_prev_word_is_the_nearest(text: Seq<Seq<char>>, from: Cursor, big: bool)
    requires
        in_text(text, from),
        forall|r: int| 0 <= r < text.len() ==> (#[trigger] text[r]).len() <= usize::MAX,
    ensures
        ({
            let t = prev_word(text, from, big);
            let line = text[from.row as int];
            if from.col > 0 {
                &&& t.row == from.row
                &&& t.col < from.col
                &&& t.col == 0 || begins(line, t.col as int, big)
                &&& forall|c: int| t.col < c < from.col ==> !#[trigger] begins(line, c, big)
            } else if from.row > 0 {
                &&& t.row == from.row - 1
                &&& t.col == if text[from.row - 1].len() == 0 {
                    0
                } else {
                    text[from.row - 1].len() - 1
                }
            } else {
                t == from
            }
        }),
{
    if from.col > 0 {
        lemma_start_before(text[from.row as int], from.col - 1, big);
    }
}

proof fn lemma_start_before(line: Seq<char>, i: int, big: bool)
    requires
        0 <= i < line.len(),
    ensures
        ({
            let k = start_at_or_before(line, i, big);
            &&& 0 <= k <= i
            &&& k == 0 || begins(line, k, big)
            &&& forall|c: int| k < c <= i ==> !#[trigger] begins(line, c, big)
        }),
    decreases i,
{
    law_word_marks(line, i, big);
    if i > 0 && !word_start(line, i, big) {
        lemma_start_before(line, i - 1, big);
    }
}

/// Looking for a character forward leads to the nearest one behind the cursor
/// in its line, or to the place before it. Where there is none the cursor
/// stays.
pub proof fn law_find_forward_is_the_nearest(line: Seq<char>, from: Cursor, ch: char, till: bool)
    requires
        line.len() <= usize::MAX,
    ensures
        ({
            let t = find_target(line, from, ch, true, till);
            let hit = if till {
                t.col + 1
            } else {
                t.col as int
            };
            &&& t.row == from.row
            &&& if exists|c: int| from.col < c < line.len() && #[trigger] line[c] == ch {
                &&& from.col < hit < line.len()
                &&& line[hit] == ch
                &&& forall|c: int| from.col < c < hit ==> #[trigger] line[c] != ch
            } else {
                t == from
            }
        }),
{
    law_first_at(line, ch, from.col + 1);
}

/// Looking for a character backward leads to the nearest one before the cursor
/// in its line, or to the place behind it. Where there is none the cursor
/// stays.
pub proof fn law_find_backward_is_the_nearest(line: Seq<char>, from: Cursor, ch: char, till: bool)
    requires
        from.col <= line.len() <= usize::MAX,
    ensures
        ({
            let t = find_target(line, from, ch, false, till);
            &&& t.row == from.row
            &&& if exists|c: int| 0 <= c < from.col && #[trigger] line[c] == ch {
                exists|hit: int|
                    0 <= hit < from.col && #[trigger] line[hit] == ch && (forall|c: int|
                        hit < c < from.col ==> #[trigger] line[c] != ch) && t.col == if till && hit + 1 < line.len() {
                        hit + 1
                    } else {
                        hit
                    }
            } else {
                t == from
            }
        }),
{
    law_last_before(line, ch, from.col as int);
}

/// How many more of one character than of another stand from one place on up
/// to another, which is left out.
pub open spec fn depth(text: Seq<Seq<char>>, open: char, close: char, r: int, c: int, tr: int, tc: int) -> int
    decreases text.len() - r, text[r].len() - c,
{
    if r < 0 || r >= text.len() || r > tr || (r == tr && c >= tc) {
        0
    } else if c >= text[r].len() {
        depth(text, open, close, r + 1, 0, tr, tc)
    } else {
        depth(text, open, close, r, c + 1, tr, tc) + if text[r][c] == open {
            1
        } else if text[r][c] == close {
            -1
        } else {
            0int
        }
    }
}

/// Whether a place comes before another.
pub open spec fn earlier(r: int, c: int, r2: int, c2: int) -> bool {
    r < r2 || (r == r2 && c < c2)
}

proof fn lemma_close(text: Seq<Seq<char>>, open: char, close: char, r: int, c: int, d: int)
    requires
        open != close,
        0 <= r < text.len(),
        0 <= c <= text[r].len(),
        d >= 1,
    ensures
        match close_of(text, open, close, r, c, d) {
            Some((a, b)) => {
                &&& 0 <= a < text.len()
                &&& 0 <= b < text[a].len()
                &&& !earlier(a, b, r, c)
                &&& text[a][b] == close
                &&& depth(text, open, close, r, c, a, b) == 1 - d
                &&& forall|x: int, y: int|
                    0 <= x < text.len() && 0 <= y <= text[x].len() && !earlier(x, y, r, c) && !earlier(a, b, x, y)
                        ==> d + #[trigger] depth(text, open, close, r, c, x, y) >= 1
            },
            None => forall|x: int, y: int|
                0 <= x < text.len() && 0 <= y <= text[x].len() && !earlier(x, y, r, c) ==> d + #[trigger] depth(
                    text,
                    open,
                    close,
                    r,
                    c,
                    x,
                    y,
                ) >= 1,
        },
    decreases text.len() - r, text[r].len() - c,
{
    if c >= text[r].len() {
        if r + 1 < text.len() {
            lemma_close(text, open, close, r + 1, 0, d);
            assert forall|x: int, y: int|
                0 <= x < text.len() && 0 <= y <= text[x].len() && !earlier(x, y, r, c) && !(x == r && y
                    == c) implies #[trigger] depth(text, open, close, r, c, x, y) == depth(
                text,
                open,
                close,
                r + 1,
                0,
                x,
                y,
            ) by {}
        } else {
            assert(close_of(text, open, close, r, c, d) == close_of(text, open, close, r + 1, 0, d));
            assert(close_of(text, open, close, r + 1, 0, d) is None);
        }
    } else {
        let e = if text[r][c] == open {
            d + 1
        } else if text[r][c] == close {
            d - 1
        } else {
            d
        };
        assert forall|x: int, y: int| earlier(r, c, x, y) implies #[trigger] depth(text, open, close, r, c, x, y)
            == depth(text, open, close, r, c + 1, x, y) + (e - d) by {}
        if e >= 1 {
            lemma_close(text, open, close, r, c + 1, e);
            assert(close_of(text, open, close, r, c, d) == close_of(text, open, close, r, c + 1, e));
            assert forall|x: int, y: int|
                0 <= x < text.len() && 0 <= y <= text[x].len() && !earlier(x, y, r, c) && match close_of(
                    text,
                    open,
                    close,
                    r,
                    c,
                    d,
                ) {
                    Some((a, b)) => !earlier(a, b, x, y),
                    None => true,
                } implies d + #[trigger] depth(text, open, close, r, c, x, y) >= 1 by {
                if !(x == r && y == c) {
                    assert(e + depth(text, open, close, r, c + 1, x, y) >= 1);
                }
            }
        }
    }
}

/// From an opening bracket the partner is the first place behind it at which
/// as many brackets of its kind have been closed as were opened. Where that
/// never happens, there is no partner.
pub proof fn law_partner_closes(text: Seq<Seq<char>>, r: int, c: int)
    requires
        0 <= r < text.len(),
        0 <= c < text[r].len(),
        text[r][c] == '(' || text[r][c] == '[' || text[r][c] == '{',
    ensures
        ({
            let open = text[r][c];
            let close = if open == '(' {
                ')'
            } else if open == '[' {
                ']'
            } else {
                '}'
            };
            match partner(text, r, c) {
                Some((a, b)) => {
                    &&& 0 <= a < text.len()
                    &&& 0 <= b < text[a].len()
                    &&& earlier(r, c, a, b)
                    &&& text[a][b] == close
                    &&& depth(text, open, close, r, c, a, b) == 1
                    &&& forall|x: int, y: int|
                        0 <= x < text.len() && 0 <= y <= text[x].len() && earlier(r, c, x, y) && !earlier(a, b, x, y)
                            ==> #[trigger] depth(text, open, close, r, c, x, y) >= 1
                },
                None => forall|x: int, y: int|
                    0 <= x < text.len() && 0 <= y <= text[x].len() && earlier(r, c, x, y) ==> #[trigger] depth(
                        text,
                        open,
                        close,
                        r,
                        c,
                        x,
                        y,
                    ) >= 1,
            }
        }),
{
    let open = text[r][c];
    let close = if open == '(' {
        ')'
    } else if open == '[' {
        ']'
    } else {
        '}'
    };
    lemma_close(text, open, close, r, c + 1, 1);
    assert forall|x: int, y: int| earlier(r, c, x, y) implies #[trigger] depth(text, open, close, r, c, x, y) == 1
        + depth(text, open, close, r, c + 1, x, y) by {}
    assert(partner(text, r, c) == close_of(text, open, close, r, c + 1, 1));
}

/// From a closing bracket the partner is an opening one of its kind before it,
/// whose own partner is that closing bracket. Where no opening bracket has it
/// as its partner, there is none.
pub proof fn law_partner_opens(text: Seq<Seq<char>>, r: int, c: int)
    requires
        0 <= r < text.len(),
        0 <= c < text[r].len(),
        text[r][c] == ')' || text[r][c] == ']' || text[r][c] == '}',
    ensures
        ({
            let open = if text[r][c] == ')' {
                '('
            } else if text[r][c] == ']' {
                '['
            } else {
                '{'
            };
            match partner(text, r, c) {
                Some((a, b)) => {
                    &&& 0 <= a < text.len()
                    &&& 0 <= b < text[a].len()
                    &&& text[a][b] == open
                    &&& partner(text, a, b) == Some((r, c))
                },
                None => forall|a: int, b: int|
                    0 <= a < text.len() && 0 <= b < text[a].len() && text[a][b] == open ==> #[trigger] partner(text, a, b)
                        != Some((r, c)),
            }
        }),
{
    let close = text[r][c];
    let open = if close == ')' {
        '('
    } else if close == ']' {
        '['
    } else {
        '{'
    };
    crate::editor::motion::bracket::law_partner_symmetric(text, r, c);
    if let Some((a, b)) = partner(text, r, c) {
        lemma_open(text, open, close, r, c - 1, 1);
    }
    assert forall|a: int, b: int|
        partner(text, r, c) is None && 0 <= a < text.len() && 0 <= b < text[a].len() && text[a][b]
            == open implies #[trigger] partner(text, a, b) != Some((r, c)) by {
        crate::editor::motion::bracket::law_partner_symmetric(text, a, b);
    }
}

proof fn lemma_open(text: Seq<Seq<char>>, open: char, close: char, r: int, c: int, d: int)
    requires
        0 <= r < text.len(),
        -1 <= c < text[r].len(),
    ensures
        open_of(text, open, close, r, c, d) matches Some((a, b)) ==> 0 <= a < text.len() && 0 <= b < text[a].len()
            && text[a][b] == open,
    decreases r, c + 1,
{
    if c < 0 {
        if r > 0 {
            lemma_open(text, open, close, r - 1, text[r - 1].len() - 1, d);
        }
    } else if text[r][c] == close {
        lemma_open(text, open, close, r, c - 1, d + 1);
    } else if text[r][c] == open {
        if d != 1 {
            lemma_open(text, open, close, r, c - 1, d - 1);
        }
    } else {
        lemma_open(text, open, close, r, c - 1, d);
    }
}

/// A bracket of any kind.
pub open spec fn bracket(c: char) -> bool {
    c == '(' || c == ')' || c == '[' || c == ']' || c == '{' || c == '}'
}

/// Going to the matching bracket starts from the first bracket at or behind
/// the cursor in its line and leads to that one's partner. Without a bracket,
/// or without a partner, it leads nowhere.
pub proof fn law_bracket_motion(text: Seq<Seq<char>>, from: Cursor)
    requires
        from.row < text.len() <= usize::MAX,
        forall|r: int| 0 <= r < text.len() ==> (#[trigger] text[r]).len() <= usize::MAX,
    ensures
        ({
            let line = text[from.row as int];
            ||| {
                &&& bracket_target(text, from) is None
                &&& forall|k: int| from.col <= k < line.len() ==> !bracket(#[trigger] line[k])
            }
            ||| exists|c: int|
                from.col <= c < line.len() && bracket(#[trigger] line[c]) && (forall|k: int|
                    from.col <= k < c ==> !bracket(#[trigger] line[k])) && match partner(text, from.row as int, c) {
                    Some((a, b)) => bracket_target(text, from) matches Some(t) && t.row == a && t.col == b,
                    None => bracket_target(text, from) is None,
                }
        }),
{
    let line = text[from.row as int];
    lemma_first_bracket(line, from.col as int);
    crate::editor::motion::bracket::lemma_bracket_in_text(text, from);
    if let Some(c) = first_bracket(line, from.col as int) {
        assert(bracket(line[c]));
        crate::editor::motion::bracket::law_partner_symmetric(text, from.row as int, c);
        if let Some((a, b)) = partner(text, from.row as int, c) {
            let l = text[a];
        }
    }
}

proof fn lemma_first_bracket(line: Seq<char>, i: int)
    requires
        0 <= i,
    ensures
        match first_bracket(line, i) {
            Some(c) => i <= c < line.len() && bracket(line[c]) && forall|k: int|
                i <= k < c ==> !bracket(#[trigger] line[k]),
            None => forall|k: int| i <= k < line.len() ==> !bracket(#[trigger] line[k]),
        },
    decreases line.len() - i,
{
    if i < line.len() && pair_of(line[i]) is None {
        lemma_first_bracket(line, i + 1);
    }
}

/// Whether a line holds nothing but white space.
pub open spec fn bare(line: Seq<char>) -> bool {
    forall|i: int| 0 <= i < line.len() ==> white_space(#[trigger] line[i])
}

/// Going on by a paragraph leads to the first bare line behind the text that
/// the cursor stands in, or that follows it where it stands on a bare line.
/// Where there is none, to the last line.
pub proof fn law_paragraph_forward(text: Seq<Seq<char>>, from: int)
    requires
        0 <= from < text.len(),
    ensures
        ({
            let t = paragraph_end(text, from);
            &&& from <= t < text.len()
            &&& from + 1 < text.len() ==> from < t
            &&& exists|s: int| #[trigger]
                inked(text, from, s) && from <= s <= text.len() && (forall|k: int|
                    s <= k < t ==> !bare(#[trigger] text[k])) && (if s == text.len() {
                    t == text.len() - 1
                } else {
                    s < t || t == text.len() - 1
                }) && (t < text.len() - 1 ==> bare(text[t]))
        }),
{
    assert forall|l: Seq<char>| #[trigger] blank(l) == bare(l) by {}
    let b = blank(text[from]);
    lemma_next(text, from + 1, false);
    let s = if b {
        next_row(text, from + 1, false)
    } else {
        from
    };
    let start = if b {
        s
    } else {
        from + 1
    };
    lemma_next(text, start, true);
    assert(inked(text, from, s));
}

/// Where the text of a paragraph starts: at the row itself, or else at the
/// first row below it that is not bare.
pub open spec fn inked(text: Seq<Seq<char>>, from: int, s: int) -> bool {
    if bare(text[from]) {
        &&& from < s
        &&& forall|k: int| from <= k < s && k < text.len() ==> bare(#[trigger] text[k])
        &&& s < text.len() ==> !bare(text[s])
    } else {
        s == from
    }
}

proof fn lemma_next(text: Seq<Seq<char>>, r: int, want: bool)
    requires
        0 <= r <= text.len(),
    ensures
        ({
            let t = next_row(text, r, want);
            &&& r <= t <= text.len()
            &&& forall|k: int| r <= k < t ==> blank(#[trigger] text[k]) != want
            &&& t < text.len() ==> blank(text[t]) == want
        }),
    decreases text.len() - r,
{
    if r < text.len() && blank(text[r]) != want {
        lemma_next(text, r + 1, want);
    }
}

/// Going back by a paragraph is the same the other way round: to the first
/// bare line before the text that the cursor stands in, or that precedes it.
/// Where there is none, to the first line.
pub proof fn law_paragraph_back(text: Seq<Seq<char>>, from: int)
    requires
        0 <= from < text.len(),
    ensures
        ({
            let t = paragraph_start(text, from);
            &&& 0 <= t <= from
            &&& from > 0 ==> t < from
            &&& exists|s: int| #[trigger]
                inked_back(text, from, s) && 0 <= s <= from && (forall|k: int|
                    t < k <= s ==> !bare(#[trigger] text[k]) || k == 0) && (t < s || t == 0) && (t > 0 ==> bare(text[t]))
        }),
{
    assert forall|l: Seq<char>| #[trigger] blank(l) == bare(l) by {}
    if from == 0 {
        assert(inked_back(text, from, 0));
    } else {
        let b = blank(text[from]);
        lemma_prev(text, from - 1, false);
        let s = if b {
            prev_row(text, from - 1, false)
        } else {
            from
        };
        let start = if b {
            s
        } else {
            from - 1
        };
        lemma_prev(text, start, true);
        assert(inked_back(text, from, s));
    }
}

/// Where the text of a paragraph ends: at the row itself, or else at the first
/// row above it that is not bare, or at the first row of all.
pub open spec fn inked_back(text: Seq<Seq<char>>, from: int, s: int) -> bool {
    if bare(text[from]) {
        &&& s < from || s == 0
        &&& forall|k: int| s < k <= from ==> bare(#[trigger] text[k])
        &&& s > 0 ==> !bare(text[s])
    } else {
        s == from
    }
}

proof fn lemma_prev(text: Seq<Seq<char>>, r: int, want: bool)
    requires
        0 <= r < text.len(),
    ensures
        ({
            let t = prev_row(text, r, want);
            &&& 0 <= t <= r
            &&& forall|k: int| t < k <= r ==> blank(#[trigger] text[k]) != want
            &&& t > 0 ==> blank(text[t]) == want
        }),
    decreases r,
{
    if r > 0 && blank(text[r]) != want {
        lemma_prev(text, r - 1, want);
    }
}

/// The last column of a line that the cursor can stand on.
pub open spec fn final_col(line: Seq<char>) -> int {
    if line.len() == 0 {
        0
    } else {
        line.len() - 1
    }
}

/// The column is kept as far as the row has it.
pub open spec fn col_kept(d: Doc, from: Cursor, t: Cursor) -> bool {
    &&& t.row < d.text.len()
    &&& t.col == if from.col <= final_col(d.text[t.row as int]) {
        from.col as int
    } else {
        final_col(d.text[t.row as int])
    }
}

/// The motions by characters and lines: one column to the left or right and
/// one row up or down, as far as the text goes; the start and the end of the
/// line; the first and the last character of it that is no white space; the
/// start and the end of the text.
pub proof fn law_plain_motions(d: Doc, from: Cursor)
    requires
        in_text(d.text, from),
        d.countable(),
    ensures
        ({
            let line = d.text[from.row as int];
            let left = d.step(from, MotionKind::Left);
            let right = d.step(from, MotionKind::Right);
            let up = d.step(from, MotionKind::Up);
            let down = d.step(from, MotionKind::Down);
            &&& left.row == from.row
            &&& left.col == if from.col > 0 {
                from.col - 1
            } else {
                0
            }
            &&& right.row == from.row
            &&& right.col == if from.col < final_col(line) {
                from.col + 1
            } else {
                final_col(line)
            }
            &&& up.row == if from.row > 0 {
                from.row - 1
            } else {
                0
            }
            &&& col_kept(d, from, up)
            &&& down.row == if from.row + 1 < d.text.len() {
                from.row + 1
            } else {
                from.row as int
            }
            &&& col_kept(d, from, down)
            &&& d.step(from, MotionKind::LineStart) == (Cursor { row: from.row, col: 0 })
            &&& d.step(from, MotionKind::LineEnd).row == from.row
            &&& d.step(from, MotionKind::LineEnd).col == final_col(line)
            &&& d.step(from, MotionKind::FileStart) == (Cursor { row: 0, col: 0 })
            &&& d.step(from, MotionKind::FileEnd).row == d.text.len() - 1
            &&& d.step(from, MotionKind::FileEnd).col == final_col(d.text.last())
        }),
        ({
            let line = d.text[from.row as int];
            let first = d.step(from, MotionKind::LineFirstNonBlank);
            let last = d.step(from, MotionKind::LineLastNonBlank);
            &&& first.row == from.row
            &&& last.row == from.row
            &&& if bare(line) {
                first.col == 0 && last.col == 0
            } else {
                &&& first.col < line.len()
                &&& !white_space(line[first.col as int])
                &&& forall|k: int| 0 <= k < first.col ==> white_space(#[trigger] line[k])
                &&& last.col < line.len()
                &&& !white_space(line[last.col as int])
                &&& forall|k: int| last.col < k < line.len() ==> white_space(#[trigger] line[k])
            }
        }),
{
    let line = d.text[from.row as int];
    crate::editor::laws::lemma_skipped(line, 0);
    if line.len() > 0 {
        lemma_last_ink(line, line.len() - 1);
    }
    let n = crate::editor::skip_space(line, 0);
    if n < line.len() {
        assert(!white_space(line[n]));
    }
}

proof fn lemma_last_ink(line: Seq<char>, i: int)
    requires
        0 <= i < line.len(),
    ensures
        ({
            let k = crate::editor::motion::last_ink(line, i);
            &&& 0 <= k <= i
            &&& forall|j: int| k < j <= i ==> white_space(#[trigger] line[j])
            &&& k > 0 ==> !white_space(line[k])
        }),
    decreases i,
{
    if i > 0 && white_space(line[i]) {
        lemma_last_ink(line, i - 1);
    }
}

/// What the other motions lead to: the words, brackets, characters and
/// paragraphs; each by its own rule.
pub proof fn law_motions_by_their_rule(d: Doc, from: Cursor, ch: char, forward: bool, till: bool)
    requires
        in_text(d.text, from),
        d.countable(),
    ensures
        d.step(from, MotionKind::WordEnd) == next_word_end(d.text, from, false),
        d.step(from, MotionKind::BigWordEnd) == next_word_end(d.text, from, true),
        d.step(from, MotionKind::BigWordForward) == next_word(d.text, from, true),
        d.step(from, MotionKind::BigWordBack) == prev_word(d.text, from, true),
        d.step(from, MotionKind::WordEndBack) == prev_word_end(d.text, from, false),
        d.step(from, MotionKind::BigWordEndBack) == prev_word_end(d.text, from, true),
        d.tokens.len() == 0 ==> d.step(from, MotionKind::WordForward) == next_word(d.text, from, false),
        d.tokens.len() == 0 ==> d.step(from, MotionKind::WordBack) == prev_word(d.text, from, false),
        d.step(from, MotionKind::BracketMatch) == match bracket_target(d.text, from) {
            Some(c) => c,
            None => from,
        },
        d.step(from, (MotionKind::FindChar { ch, forward, till })) == find_target(
            d.text[from.row as int],
            from,
            ch,
            forward,
            till,
        ),
        d.step(from, MotionKind::ParagraphForward).row == paragraph_end(d.text, from.row as int),
        d.step(from, MotionKind::ParagraphForward).col == 0,
        d.step(from, MotionKind::ParagraphBack).row == paragraph_start(d.text, from.row as int),
        d.step(from, MotionKind::ParagraphBack).col == 0,
{
    law_paragraph_forward(d.text, from.row as int);
    law_paragraph_back(d.text, from.row as int);
}

/// With a syntax tree at hand, going on by a word leads to the first token
/// that starts behind the cursor, and going back to the last that starts
/// before it.
pub proof fn law_word_motions_by_tokens(d: Doc, from: Cursor)
    requires
        in_text(d.text, from),
        forall|i: int, j: int| 0 <= i < j < d.tokens.len() ==> (#[trigger] d.tokens[i]).before(#[trigger] d.tokens[j]),
        forall|i: int| 0 <= i < d.tokens.len() ==> in_text(d.text, #[trigger] d.tokens[i]),
    ensures
        ({
            let t = d.step(from, MotionKind::WordForward);
            (exists|i: int| 0 <= i < d.tokens.len() && behind(d.tokens[i].row as int, d.tokens[i].col as int, from))
                ==> {
                &&& d.tokens.contains(t)
                &&& behind(t.row as int, t.col as int, from)
                &&& forall|i: int|
                    0 <= i < d.tokens.len() && behind(
                        (#[trigger] d.tokens[i]).row as int,
                        d.tokens[i].col as int,
                        from,
                    ) ==> !earlier(d.tokens[i].row as int, d.tokens[i].col as int, t.row as int, t.col as int)
            }
        }),
        ({
            let t = d.step(from, MotionKind::WordBack);
            (exists|i: int|
                0 <= i < d.tokens.len() && earlier(
                    d.tokens[i].row as int,
                    d.tokens[i].col as int,
                    from.row as int,
                    from.col as int,
                )) ==> {
                &&& d.tokens.contains(t)
                &&& earlier(t.row as int, t.col as int, from.row as int, from.col as int)
                &&& forall|i: int|
                    0 <= i < d.tokens.len() && earlier(
                        (#[trigger] d.tokens[i]).row as int,
                        d.tokens[i].col as int,
                        from.row as int,
                        from.col as int,
                    ) ==> !earlier(t.row as int, t.col as int, d.tokens[i].row as int, d.tokens[i].col as int)
            }
        }),
{
    lemma_token_after(d, from, 0);
    lemma_token_before(d, from, d.tokens.len() as int);
}

proof fn lemma_token_after(d: Doc, from: Cursor, k: int)
    requires
        0 <= k <= d.tokens.len(),
        forall|i: int| 0 <= i < d.tokens.len() ==> in_text(d.text, #[trigger] d.tokens[i]),
    ensures
        match token_after(d.text, d.tokens, from, k) {
            Some(t) => exists|j: int|
                k <= j < d.tokens.len() && #[trigger] d.tokens[j] == t && behind(t.row as int, t.col as int, from)
                    && forall|i: int|
                    k <= i < j ==> !behind((#[trigger] d.tokens[i]).row as int, d.tokens[i].col as int, from),
            None => forall|i: int|
                k <= i < d.tokens.len() ==> !behind((#[trigger] d.tokens[i]).row as int, d.tokens[i].col as int, from),
        },
    decreases d.tokens.len() - k,
{
    if k < d.tokens.len() {
        assert(in_text(d.text, d.tokens[k]));
        if !from.before(d.tokens[k]) {
            lemma_token_after(d, from, k + 1);
        }
    }
}

proof fn lemma_token_before(d: Doc, from: Cursor, k: int)
    requires
        0 <= k <= d.tokens.len(),
        forall|i: int| 0 <= i < d.tokens.len() ==> in_text(d.text, #[trigger] d.tokens[i]),
    ensures
        match token_before(d.text, d.tokens, from, k) {
            Some(t) => exists|j: int|
                0 <= j < k && #[trigger] d.tokens[j] == t && earlier(
                    t.row as int,
                    t.col as int,
                    from.row as int,
                    from.col as int,
                ) && forall|i: int|
                    j < i < k ==> !earlier(
                        (#[trigger] d.tokens[i]).row as int,
                        d.tokens[i].col as int,
                        from.row as int,
                        from.col as int,
                    ),
            None => forall|i: int|
                0 <= i < k ==> !earlier(
                    (#[trigger] d.tokens[i]).row as int,
                    d.tokens[i].col as int,
                    from.row as int,
                    from.col as int,
                ),
        },
    decreases k,
{
    if k > 0 {
        assert(in_text(d.text, d.tokens[k - 1]));
        if !d.tokens[k - 1].before(from) {
            lemma_token_before(d, from, k - 1);
        }
    }
}

/// The motions by the viewport: its top row, its bottom row, as far as the
/// text fills it, and the row halfway between the two. Before it is drawn the
/// cursor stays.
pub proof fn law_viewport_motions(d: Doc, from: Cursor)
    requires
        in_text(d.text, from),
        d.countable(),
    ensures
        ({
            let top = d.step(from, MotionKind::ViewportTop);
            let mid = d.step(from, MotionKind::ViewportMiddle);
            let low = d.step(from, MotionKind::ViewportBottom);
            if d.height == 0 {
                top == from && mid == from && low == from
            } else {
                &&& col_kept(d, from, top)
                &&& col_kept(d, from, mid)
                &&& col_kept(d, from, low)
                &&& d.scroll < d.text.len() ==> top.row == d.scroll
                &&& d.scroll >= d.text.len() ==> top.row == d.text.len() - 1 && mid.row == d.text.len() - 1
                &&& d.scroll + d.height <= d.text.len() ==> low.row == d.scroll + d.height - 1
                &&& d.scroll + d.height > d.text.len() ==> low.row == d.text.len() - 1
                &&& d.scroll < d.text.len() ==> top.row <= mid.row <= low.row && 0 <= (low.row - mid.row) - (mid.row
                    - top.row) <= 1
            }
        }),
{
}

/// The motions by pages: down or up by as many rows as the viewport has, or by
/// half of them, but by at least one, as far as the text goes.
pub proof fn law_page_motions(d: Doc, from: Cursor)
    requires
        in_text(d.text, from),
        d.countable(),
    ensures
        ({
            let page: int = if d.height == 0 {
                1
            } else {
                d.height as int
            };
            let half: int = if page < 2 {
                1
            } else {
                page / 2
            };
            let last = d.text.len() - 1;
            let down = d.step(from, MotionKind::PageDown);
            let up = d.step(from, MotionKind::PageUp);
            let half_down = d.step(from, MotionKind::HalfPageDown);
            let half_up = d.step(from, MotionKind::HalfPageUp);
            &&& col_kept(d, from, down)
            &&& col_kept(d, from, up)
            &&& col_kept(d, from, half_down)
            &&& col_kept(d, from, half_up)
            &&& down.row == if from.row + page <= last {
                from.row + page
            } else {
                last
            }
            &&& half_down.row == if from.row + half <= last {
                from.row + half
            } else {
                last
            }
            &&& up.row == if from.row >= page {
                from.row - page
            } else {
                0
            }
            &&& half_up.row == if from.row >= half {
                from.row - half
            } else {
                0
            }
        }),
{
}

/// A count repeats a motion: one after the other from where the one before
/// led. No count is a count of one.
pub proof fn law_motion_counts(d: Doc, from: Cursor, motion: MotionKind, n: u32)
    requires
        1 <= n < u32::MAX,
    ensures
        d.target(from, motion, 0) == d.step(from, motion),
        d.target(from, motion, 1) == d.step(from, motion),
        d.target(from, motion, (n + 1) as u32) == d.step(d.target(from, motion, n), motion),
{
    reveal_with_fuel(Doc::steps, 2);
}

} // verus!
