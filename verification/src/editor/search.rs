//! Searching a pattern in the text.
use vstd::prelude::*;
use crate::editor::{in_text, Buffer, Cursor};
use crate::text::chars_of;

verus! {

/// Whether the pattern stands at this place of a line.
pub open spec fn occurs(line: Seq<char>, pat: Seq<char>, c: int) -> bool {
    pat.len() > 0 && 0 <= c && c + pat.len() <= line.len() && line.subrange(c, c + pat.len()) == pat
}

/// The first occurrence at or after `(r, c)`.
pub open spec fn match_from(text: Seq<Seq<char>>, pat: Seq<char>, r: int, c: int) -> Option<(int, int)>
    decreases text.len() - r, text[r].len() + 1 - c,
{
    if r < 0 || r >= text.len() {
        None
    } else if c > text[r].len() {
        match_from(text, pat, r + 1, 0)
    } else if occurs(text[r], pat, c) {
        Some((r, c))
    } else {
        match_from(text, pat, r, c + 1)
    }
}

/// The last occurrence at or before `(r, c)`.
pub open spec fn match_back(text: Seq<Seq<char>>, pat: Seq<char>, r: int, c: int) -> Option<(int, int)>
    decreases r, c + 1,
{
    if r < 0 || r >= text.len() {
        None
    } else if c < 0 {
        if r == 0 {
            None
        } else {
            match_back(text, pat, r - 1, text[r - 1].len() as int)
        }
    } else if occurs(text[r], pat, c) {
        Some((r, c))
    } else {
        match_back(text, pat, r, c - 1)
    }
}

/// The next occurrence after the cursor, or at it where `here` is set; past
/// the end of the text the search goes on at its start.
pub open spec fn match_after(text: Seq<Seq<char>>, pat: Seq<char>, at: Cursor, here: bool) -> Option<(int, int)> {
    match match_from(
        text,
        pat,
        at.row as int,
        if here {
            at.col as int
        } else {
            at.col + 1
        },
    ) {
        Some(p) => Some(p),
        None => match_from(text, pat, 0, 0),
    }
}

/// The previous occurrence, in the same way.
pub open spec fn match_before(text: Seq<Seq<char>>, pat: Seq<char>, at: Cursor, here: bool) -> Option<(int, int)> {
    match match_back(
        text,
        pat,
        at.row as int,
        if here {
            at.col as int
        } else {
            at.col - 1
        },
    ) {
        Some(p) => Some(p),
        None => match_back(text, pat, text.len() - 1, text.last().len() as int),
    }
}

pub open spec fn match_near(text: Seq<Seq<char>>, pat: Seq<char>, at: Cursor, forward: bool, here: bool) -> Option<
    (int, int),
> {
    if forward {
        match_after(text, pat, at, here)
    } else {
        match_before(text, pat, at, here)
    }
}

/// A found position is an occurrence and lies in the text.
pub proof fn law_match_from(text: Seq<Seq<char>>, pat: Seq<char>, r: int, c: int)
    requires
        0 <= r,
        0 <= c,
    ensures
        match match_from(text, pat, r, c) {
            Some((a, b)) => 0 <= a < text.len() && occurs(text[a], pat, b),
            None => forall|a: int, b: int|
                (r < a < text.len() || (r == a && a < text.len() && c <= b)) ==> !#[trigger] occurs(
                    text[a],
                    pat,
                    b,
                ),
        },
    decreases text.len() - r, text[r].len() + 1 - c,
{
    if r < text.len() {
        if c > text[r].len() {
            law_match_from(text, pat, r + 1, 0);
        } else if !occurs(text[r], pat, c) {
            law_match_from(text, pat, r, c + 1);
        }
    }
}

/// The active search.
#[derive(Debug)]
pub struct SearchState {
    pub query: String,
    pub last_forward: bool,
}

impl Default for SearchState {
    fn default() -> (r: SearchState)
        ensures
            r.query@.len() == 0,
            r.last_forward,
    {
        SearchState { query: String::new(), last_forward: true }
    }
}

fn occurs_at(line: &Vec<char>, pat: &Vec<char>, c: usize) -> (r: bool)
    ensures
        r == occurs(line@, pat@, c as int),
{
    if pat.len() == 0 || c > line.len() || pat.len() > line.len() - c {
        return false;
    }
    let mut i: usize = 0;
    while i < pat.len()
        invariant
            i <= pat.len(),
            c + pat.len() <= line.len(),
            pat.len() > 0,
            forall|k: int| 0 <= k < i ==> line@[c + k] == pat@[k],
        decreases pat.len() - i,
    {
        if line[c + i] != pat[i] {
            proof {
                assert(line@.subrange(c as int, c + pat@.len())[i as int] != pat@[i as int]);
            }
            return false;
        }
        i = i + 1;
    }
    proof {
        assert(line@.subrange(c as int, c + pat@.len()) =~= pat@);
    }
    true
}

/// Past the end of a line the pattern does not occur in it.
proof fn lemma_row_end(text: Seq<Seq<char>>, pat: Seq<char>, r: int, c: int)
    requires
        0 <= r < text.len(),
        c >= text[r].len(),
    ensures
        match_from(text, pat, r, c) == match_from(text, pat, r + 1, 0),
{
    if c == text[r].len() {
        assert(!occurs(text[r], pat, c));
        assert(match_from(text, pat, r, c) == match_from(text, pat, r, c + 1));
    }
}

/// The first occurrence at or after a place; `skip` leaves the place itself
/// out.
fn scan_from(buf: &Buffer, pat: &Vec<char>, at: Cursor, skip: bool) -> (r: Option<Cursor>)
    ensures
        match (
            r,
            match_from(
                buf@.text,
                pat@,
                at.row as int,
                if skip {
                    at.col + 1
                } else {
                    at.col as int
                },
            ),
        ) {
            (Some(p), Some((a, b))) => p.row == a && p.col == b && in_text(buf@.text, p) && p.col + pat@.len()
                <= buf@.text[a].len(),
            (None, None) => true,
            _ => false,
        },
{
    let ghost text = buf@.text;
    let ghost start = if skip {
        at.col + 1
    } else {
        at.col as int
    };
    let ghost goal = match_from(text, pat@, at.row as int, start);
    let mut r: usize = at.row;
    let mut first = true;
    while r < buf.lines.len()
        invariant
            text == buf@.text,
            start == if skip {
                at.col + 1
            } else {
                at.col as int
            },
            goal == match_from(text, pat@, at.row as int, start),
            goal == match_from(
                text,
                pat@,
                r as int,
                if first {
                    start
                } else {
                    0
                },
            ),
            first ==> r == at.row,
        decreases buf.lines.len() - r,
    {
        let line = buf.line_chars(r);
        let n = line.len();
        let mut c: usize = if !first {
            0
        } else if at.col >= n {
            n
        } else if skip {
            at.col + 1
        } else {
            at.col
        };
        proof {
            if first && at.col >= n {
                lemma_row_end(text, pat@, r as int, start);
                lemma_row_end(text, pat@, r as int, n as int);
            }
        }
        while c < n
            invariant
                c <= n,
                n == line.len(),
                r < buf.lines.len(),
                text == buf@.text,
                line@ == text[r as int],
                goal == match_from(text, pat@, at.row as int, start),
                start == if skip {
                    at.col + 1
                } else {
                    at.col as int
                },
                goal == match_from(text, pat@, r as int, c as int),
            decreases n - c,
        {
            if occurs_at(&line, pat, c) {
                return Some(Cursor { row: r, col: c });
            }
            c = c + 1;
        }
        proof {
            lemma_row_end(text, pat@, r as int, c as int);
        }
        r = r + 1;
        first = false;
    }
    None
}

/// The last occurrence in a line below column `below`, or in a line above.
fn scan_back(buf: &Buffer, pat: &Vec<char>, row: usize, below: usize) -> (r: Option<Cursor>)
    requires
        row < buf.lines.len(),
    ensures
        match (r, match_back(buf@.text, pat@, row as int, below - 1)) {
            (Some(p), Some((a, b))) => p.row == a && p.col == b && in_text(buf@.text, p) && p.col + pat@.len()
                <= buf@.text[a].len(),
            (None, None) => true,
            _ => false,
        },
{
    let ghost text = buf@.text;
    let ghost goal = match_back(text, pat@, row as int, below - 1);
    let mut r: usize = row;
    let mut c: usize = below;
    loop
        invariant
            r < buf.lines.len(),
            text == buf@.text,
            goal == match_back(text, pat@, row as int, below - 1),
            goal == match_back(text, pat@, r as int, c - 1),
        decreases r,
    {
        let line = buf.line_chars(r);
        while c > 0
            invariant
                r < buf.lines.len(),
                text == buf@.text,
                line@ == text[r as int],
                goal == match_back(text, pat@, row as int, below - 1),
                goal == match_back(text, pat@, r as int, c - 1),
            decreases c,
        {
            if occurs_at(&line, pat, c - 1) {
                return Some(Cursor { row: r, col: c - 1 });
            }
            c = c - 1;
        }
        if r == 0 {
            return None;
        }
        r = r - 1;
        let above = buf.line_chars(r);
        c = above.len();
        proof {
            assert(!occurs(text[r as int], pat@, c as int));
            assert(match_back(text, pat@, r + 1, -1) == match_back(text, pat@, r as int, c as int));
        }
    }
}

impl SearchState {
    /// Starts a new search.
    pub fn set(&mut self, pattern: String, forward: bool)
        ensures
            final(self).query@ == pattern@,
            final(self).last_forward == forward,
    {
        self.query = pattern;
        self.last_forward = forward;
    }

    fn near(&self, buf: &Buffer, forward: bool, here: bool) -> (r: Option<Cursor>)
        requires
            in_text(buf@.text, buf@.cursor),
        ensures
            match (r, match_near(buf@.text, self.query@, buf@.cursor, forward, here)) {
                (Some(p), Some((a, b))) => p.row == a && p.col == b && in_text(buf@.text, p) && p.col
                    + self.query@.len() <= buf@.text[a].len(),
                (None, None) => true,
                _ => false,
            },
    {
        let pat = chars_of(self.query.as_str());
        let at = buf.cursor;
        if forward {
            match scan_from(buf, &pat, at, !here) {
                Some(c) => Some(c),
                None => scan_from(buf, &pat, Cursor { row: 0, col: 0 }, false),
            }
        } else {
            let line = buf.line_chars(at.row);
            let first = if here && at.col < line.len() {
                scan_back(buf, &pat, at.row, at.col + 1)
            } else {
                proof {
                    if here {
                        assert(!occurs(buf@.text[at.row as int], pat@, at.col as int));
                    }
                }
                scan_back(buf, &pat, at.row, at.col)
            };
            match first {
                Some(c) => Some(c),
                None => {
                    let last = buf.lines.len() - 1;
                    let end = buf.line_chars(last);
                    proof {
                        assert(!occurs(buf@.text[last as int], pat@, end@.len() as int));
                    }
                    scan_back(buf, &pat, last, end.len())
                },
            }
        }
    }

    /// The next match in the given direction. The search goes round the ends
    /// of the text, so that the match under the cursor comes last.
    pub fn find_next(&self, buf: &Buffer, forward: bool) -> (r: Option<Cursor>)
        requires
            in_text(buf@.text, buf@.cursor),
        ensures
            match (r, match_near(buf@.text, self.query@, buf@.cursor, forward, false)) {
                (Some(p), Some((a, b))) => p.row == a && p.col == b && in_text(buf@.text, p),
                (None, None) => true,
                _ => false,
            },
    {
        self.near(buf, forward, false)
    }

    /// The ends of the match at the cursor or next to it in the given
    /// direction; both ends belong to the match.
    pub fn find_match_range(&self, buf: &Buffer, forward: bool) -> (r: Option<(Cursor, Cursor)>)
        requires
            in_text(buf@.text, buf@.cursor),
        ensures
            match (r, match_near(buf@.text, self.query@, buf@.cursor, forward, true)) {
                (Some((p, e)), Some((a, b))) => p.row == a && p.col == b && e.row == a && e.col == b
                    + self.query@.len() - 1 && in_text(buf@.text, p) && in_text(buf@.text, e),
                (None, None) => true,
                _ => false,
            },
    {
        proof {
            law_match_from(buf@.text, self.query@, buf@.cursor.row as int, buf@.cursor.col as int);
            law_match_from(buf@.text, self.query@, 0, 0);
            lemma_match_back(buf@.text, self.query@, buf@.cursor.row as int, buf@.cursor.col as int);
            lemma_match_back(
                buf@.text,
                self.query@,
                buf@.text.len() - 1,
                buf@.text.last().len() as int,
            );
        }
        match self.near(buf, forward, true) {
            None => None,
            Some(p) => {
                let n = chars_of(self.query.as_str()).len();
                let line = buf.line_chars(p.row);
                proof {
                    assert(n > 0);
                    assert(p.col + n <= line.len());
                }
                Some((p, Cursor { row: p.row, col: p.col + (n - 1) }))
            },
        }
    }
}

/// What `match_back` finds is an occurrence.
proof fn lemma_match_back(text: Seq<Seq<char>>, pat: Seq<char>, r: int, c: int)
    ensures
        match_back(text, pat, r, c) matches Some((a, b)) ==> 0 <= a < text.len() && occurs(text[a], pat, b),
    decreases r, c + 1,
{
    if 0 <= r < text.len() {
        if c < 0 {
            if r > 0 {
                lemma_match_back(text, pat, r - 1, text[r - 1].len() as int);
            }
        } else if !occurs(text[r], pat, c) {
            lemma_match_back(text, pat, r, c - 1);
        }
    }
}

/// A pattern occurs at a place exactly where its characters stand there, one
/// after the other. An empty pattern occurs nowhere.
pub proof fn law_occurrence(line: Seq<char>, pat: Seq<char>, c: int)
    ensures
        occurs(line, pat, c) <==> pat.len() > 0 && 0 <= c && c + pat.len() <= line.len() && forall|i: int|
            0 <= i < pat.len() ==> line[c + i] == #[trigger] pat[i],
{
    if pat.len() > 0 && 0 <= c && c + pat.len() <= line.len() {
        let s = line.subrange(c, c + pat.len());
        if forall|i: int| 0 <= i < pat.len() ==> line[c + i] == #[trigger] pat[i] {
            assert(s =~= pat);
        }
        if s == pat {
            assert forall|i: int| 0 <= i < pat.len() implies line[c + i] == #[trigger] pat[i] by {
                assert(s[i] == line[c + i]);
            }
        }
    }
}

/// Whether one place comes before another.
spec fn earlier(r: int, c: int, r2: int, c2: int) -> bool {
    r < r2 || (r == r2 && c < c2)
}

proof fn lemma_first_match(text: Seq<Seq<char>>, pat: Seq<char>, r: int, c: int)
    requires
        0 <= r,
        0 <= c,
    ensures
        match match_from(text, pat, r, c) {
            Some((a, b)) => {
                &&& 0 <= a < text.len()
                &&& occurs(text[a], pat, b)
                &&& !earlier(a, b, r, c)
                &&& forall|x: int, y: int|
                    0 <= x < text.len() && #[trigger] occurs(text[x], pat, y) && !earlier(x, y, r, c) ==> !earlier(
                        x,
                        y,
                        a,
                        b,
                    )
            },
            None => forall|x: int, y: int|
                0 <= x < text.len() && #[trigger] occurs(text[x], pat, y) ==> earlier(x, y, r, c),
        },
    decreases text.len() - r, text[r].len() + 1 - c,
{
    if r < text.len() {
        if c > text[r].len() {
            lemma_first_match(text, pat, r + 1, 0);
        } else if !occurs(text[r], pat, c) {
            lemma_first_match(text, pat, r, c + 1);
        }
    }
}

proof fn lemma_last_match(text: Seq<Seq<char>>, pat: Seq<char>, r: int, c: int)
    requires
        0 <= r < text.len(),
        -1 <= c,
    ensures
        match match_back(text, pat, r, c) {
            Some((a, b)) => {
                &&& 0 <= a < text.len()
                &&& occurs(text[a], pat, b)
                &&& !earlier(r, c, a, b)
                &&& forall|x: int, y: int|
                    0 <= x < text.len() && #[trigger] occurs(text[x], pat, y) && !earlier(r, c, x, y) ==> !earlier(
                        a,
                        b,
                        x,
                        y,
                    )
            },
            None => forall|x: int, y: int|
                0 <= x < text.len() && #[trigger] occurs(text[x], pat, y) ==> earlier(r, c, x, y),
        },
    decreases r, c + 1,
{
    if c < 0 {
        if r > 0 {
            lemma_last_match(text, pat, r - 1, text[r - 1].len() as int);
        }
    } else if !occurs(text[r], pat, c) {
        lemma_last_match(text, pat, r, c - 1);
    }
}

/// A search forward finds the occurrence that is nearest behind the cursor. The
/// one under the cursor counts where `here` is set. Where there is none behind
/// it, the first one of the text is found; nothing is found only where the
/// pattern occurs nowhere.
pub proof fn law_search_forward_is_nearest(text: Seq<Seq<char>>, pat: Seq<char>, at: Cursor, here: bool)
    requires
        at.row < text.len(),
    ensures
        match match_near(text, pat, at, true, here) {
            Some((a, b)) => {
                &&& 0 <= a < text.len()
                &&& occurs(text[a], pat, b)
                &&& forall|x: int, y: int|
                    0 <= x < text.len() && #[trigger] occurs(text[x], pat, y) && (x > at.row || (x == at.row && (y > at.col
                        || (here && y == at.col)))) ==> {
                        &&& a > at.row || (a == at.row && (b > at.col || (here && b == at.col)))
                        &&& a < x || (a == x && b <= y)
                    }
                &&& a < at.row || (a == at.row && (b < at.col || (!here && b == at.col))) ==> forall|x: int, y: int|
                    0 <= x < text.len() && #[trigger] occurs(text[x], pat, y) ==> a < x || (a == x && b <= y)
            },
            None => forall|x: int, y: int| 0 <= x < text.len() ==> !#[trigger] occurs(text[x], pat, y),
        },
{
    let c = if here {
        at.col as int
    } else {
        at.col + 1
    };
    lemma_first_match(text, pat, at.row as int, c);
    lemma_first_match(text, pat, 0, 0);
}

/// A search backward finds the occurrence that is nearest before the cursor.
/// The one under the cursor counts where `here` is set. Where there is none
/// before it, the last one of the text is found; nothing is found only where
/// the pattern occurs nowhere.
pub proof fn law_search_backward_is_nearest(text: Seq<Seq<char>>, pat: Seq<char>, at: Cursor, here: bool)
    requires
        at.row < text.len(),
    ensures
        match match_near(text, pat, at, false, here) {
            Some((a, b)) => {
                &&& 0 <= a < text.len()
                &&& occurs(text[a], pat, b)
                &&& forall|x: int, y: int|
                    0 <= x < text.len() && #[trigger] occurs(text[x], pat, y) && (x < at.row || (x == at.row && (y < at.col
                        || (here && y == at.col)))) ==> {
                        &&& a < at.row || (a == at.row && (b < at.col || (here && b == at.col)))
                        &&& x < a || (x == a && y <= b)
                    }
                &&& a > at.row || (a == at.row && (b > at.col || (!here && b == at.col))) ==> forall|x: int, y: int|
                    0 <= x < text.len() && #[trigger] occurs(text[x], pat, y) ==> x < a || (x == a && y <= b)
            },
            None => forall|x: int, y: int| 0 <= x < text.len() ==> !#[trigger] occurs(text[x], pat, y),
        },
{
    let c = if here {
        at.col as int
    } else {
        at.col - 1
    };
    lemma_last_match(text, pat, at.row as int, c);
    lemma_last_match(text, pat, text.len() - 1, text.last().len() as int);
}

} // verus!
