//! Text objects in the line: what lies between delimiters around the cursor.
use vstd::prelude::*;
use crate::action::{Object, Scope};
use crate::editor::motion::find::{first_at, last_before};
use crate::editor::{in_text, least, Buffer, Cursor, Doc};

verus! {

/// The delimiters of an object. The objects that have none are found in
/// other ways, or not at all.
pub open spec fn delimiters(object: Object) -> Option<(char, char)> {
    match object {
        Object::DoubleQuote => Some(('"', '"')),
        Object::SingleQuote => Some(('\'', '\'')),
        Object::Paren => Some(('(', ')')),
        Object::Brace => Some(('{', '}')),
        Object::Bracket => Some(('[', ']')),
        Object::Word => Some(('\0', '\0')),
        Object::Paragraph => None,
        Object::Function => None,
        Object::Class => None,
        Object::Parameter => None,
    }
}

/// The delimiters of an object. A word has none of its own; it gets a pair
/// that does not occur in text.
pub fn delim(object: Object) -> (r: Option<(char, char)>)
    ensures
        r == delimiters(object),
{
    match object {
        Object::DoubleQuote => Some(('"', '"')),
        Object::SingleQuote => Some(('\'', '\'')),
        Object::Paren => Some(('(', ')')),
        Object::Brace => Some(('{', '}')),
        Object::Bracket => Some(('[', ']')),
        Object::Word => Some(('\0', '\0')),
        Object::Paragraph | Object::Function | Object::Class | Object::Parameter => None,
    }
}

/// The `open` at or before `i` that is not closed again, with `d` more closed
/// ones to pass.
pub open spec fn open_left(line: Seq<char>, i: int, open: char, close: char, d: int) -> Option<int>
    decreases i + 1,
{
    if i < 0 || i >= line.len() {
        None
    } else if line[i] == close {
        open_left(line, i - 1, open, close, d + 1)
    } else if line[i] == open {
        if d == 0 {
            Some(i)
        } else {
            open_left(line, i - 1, open, close, d - 1)
        }
    } else {
        open_left(line, i - 1, open, close, d)
    }
}

/// The `close` at or after `i` that closes what is open there, with `d` more
/// open ones to pass.
pub open spec fn close_right(line: Seq<char>, i: int, open: char, close: char, d: int) -> Option<int>
    decreases line.len() - i,
{
    if i < 0 || i >= line.len() {
        None
    } else if line[i] == open {
        close_right(line, i + 1, open, close, d + 1)
    } else if line[i] == close {
        if d == 0 {
            Some(i)
        } else {
            close_right(line, i + 1, open, close, d - 1)
        }
    } else {
        close_right(line, i + 1, open, close, d)
    }
}

/// The delimiter that closes the one at `a`.
pub open spec fn closed_by(line: Seq<char>, a: int, open: char, close: char) -> Option<int> {
    if open == close {
        first_at(line, open, a + 1)
    } else {
        close_right(line, a + 1, open, close, 0)
    }
}

/// The columns of the two delimiters that surround a column.
pub open spec fn surrounding(line: Seq<char>, col: int, open: char, close: char) -> Option<(int, int)> {
    let left = if open == close {
        last_before(line, open, least(col + 1, line.len() as int))
    } else {
        open_left(line, col, open, close, 0)
    };
    match left {
        None => None,
        Some(a) => match closed_by(line, a, open, close) {
            None => None,
            Some(b) => Some((a, b)),
        },
    }
}

/// The first pair of delimiters at or after `i`.
pub open spec fn first_pair(line: Seq<char>, i: int, open: char, close: char) -> Option<(int, int)>
    decreases line.len() - i,
{
    if i < 0 || i >= line.len() {
        None
    } else if line[i] == open && closed_by(line, i, open, close) is Some {
        Some((i, closed_by(line, i, open, close)->0))
    } else {
        first_pair(line, i + 1, open, close)
    }
}

/// The columns of the two delimiters around a column, or else of the first
/// pair to its right.
pub open spec fn delimited(line: Seq<char>, col: int, open: char, close: char) -> Option<(int, int)> {
    match surrounding(line, col, open, close) {
        Some(p) => Some(p),
        None => first_pair(line, col + 1, open, close),
    }
}

impl Doc {
    /// The range of a text object in the cursor's line, the one around the
    /// cursor or the first to its right: between the delimiters, or with
    /// them. The end is exclusive.
    pub open spec fn text_object(self, scope: Scope, object: Object) -> Option<(Cursor, Cursor)> {
        match delimiters(object) {
            None => None,
            Some((open, close)) => match delimited(self.line(), self.cursor.col as int, open, close) {
                None => None,
                Some((a, b)) => {
                    let row = self.cursor.row;
                    match scope {
                        Scope::Inner => Some(
                            (Cursor { row, col: (a + 1) as usize }, Cursor { row, col: b as usize }),
                        ),
                        Scope::Around => Some(
                            (Cursor { row, col: a as usize }, Cursor { row, col: (b + 1) as usize }),
                        ),
                    }
                },
            },
        }
    }
}

/// The unmatched `open` at or left of `from`.
pub fn find_open_left(cs: &Vec<char>, from: usize, open: char, close: char) -> (r: Option<usize>)
    ensures
        match (r, open_left(cs@, from as int, open, close, 0)) {
            (Some(a), Some(b)) => a == b && a < cs.len(),
            (None, None) => true,
            _ => false,
        },
{
    if from >= cs.len() {
        return None;
    }
    let mut depth: usize = 0;
    let mut i: usize = from;
    loop
        invariant
            i <= from < cs.len(),
            depth <= from - i,
            open_left(cs@, from as int, open, close, 0) == open_left(cs@, i as int, open, close, depth as int),
        decreases i,
    {
        let c = cs[i];
        if c == close {
            depth = depth + 1;
        } else if c == open {
            if depth == 0 {
                return Some(i);
            }
            depth = depth - 1;
        }
        if i == 0 {
            proof {
                assert(open_left(cs@, -1, open, close, depth as int) is None);
            }
            return None;
        }
        i = i - 1;
    }
}

/// The `close` that belongs to the `open` at `open_pos`.
pub fn find_close_right(cs: &Vec<char>, open_pos: usize, open: char, close: char) -> (r: Option<usize>)
    requires
        open_pos < cs.len(),
    ensures
        match (r, close_right(cs@, open_pos + 1, open, close, 0)) {
            (Some(a), Some(b)) => a == b && open_pos < a < cs.len(),
            (None, None) => true,
            _ => false,
        },
{
    let mut depth: usize = 0;
    let mut i: usize = open_pos + 1;
    while i < cs.len()
        invariant
            open_pos < i <= cs.len(),
            depth <= i - open_pos - 1,
            close_right(cs@, open_pos + 1, open, close, 0) == close_right(
                cs@,
                i as int,
                open,
                close,
                depth as int,
            ),
        decreases cs.len() - i,
    {
        let c = cs[i];
        if c == open {
            depth = depth + 1;
        } else if c == close {
            if depth == 0 {
                return Some(i);
            }
            depth = depth - 1;
        }
        i = i + 1;
    }
    None
}

/// The last `q` at or left of `col`.
fn quote_left(cs: &Vec<char>, col: usize, q: char) -> (r: Option<usize>)
    ensures
        match (r, last_before(cs@, q, least(col + 1, cs@.len() as int))) {
            (Some(a), Some(b)) => a == b && a < cs.len(),
            (None, None) => true,
            _ => false,
        },
{
    let mut i: usize = if col < cs.len() { col + 1 } else { cs.len() };
    let ghost top = i;
    while i > 0
        invariant
            i <= top <= cs.len(),
            top == least(col + 1, cs@.len() as int),
            last_before(cs@, q, top as int) == last_before(cs@, q, i as int),
        decreases i,
    {
        if cs[i - 1] == q {
            return Some(i - 1);
        }
        i = i - 1;
    }
    None
}

/// The first `q` right of `left`.
fn quote_right(cs: &Vec<char>, left: usize, q: char) -> (r: Option<usize>)
    requires
        left < cs.len(),
    ensures
        match (r, first_at(cs@, q, left + 1)) {
            (Some(a), Some(b)) => a == b && left < a < cs.len(),
            (None, None) => true,
            _ => false,
        },
{
    let mut i: usize = left + 1;
    while i < cs.len()
        invariant
            left < i <= cs.len(),
            first_at(cs@, q, left + 1) == first_at(cs@, q, i as int),
        decreases cs.len() - i,
    {
        if cs[i] == q {
            return Some(i);
        }
        i = i + 1;
    }
    None
}

/// The delimiter that closes the one at `a`.
fn find_close(cs: &Vec<char>, a: usize, open: char, close: char) -> (r: Option<usize>)
    requires
        a < cs.len(),
    ensures
        match (r, closed_by(cs@, a as int, open, close)) {
            (Some(b), Some(c)) => b == c && a < b < cs.len(),
            (None, None) => true,
            _ => false,
        },
{
    if open == close {
        quote_right(cs, a, open)
    } else {
        find_close_right(cs, a, open, close)
    }
}

/// The pair of delimiters that surrounds a column.
fn find_surrounding(cs: &Vec<char>, col: usize, open: char, close: char) -> (r: Option<(usize, usize)>)
    ensures
        match (r, surrounding(cs@, col as int, open, close)) {
            (Some(p), Some(q)) => p.0 == q.0 && p.1 == q.1 && p.0 < p.1 < cs.len(),
            (None, None) => true,
            _ => false,
        },
{
    let left = if open == close {
        quote_left(cs, col, open)
    } else {
        find_open_left(cs, col, open, close)
    };
    match left {
        Some(a) => match find_close(cs, a, open, close) {
            Some(b) => Some((a, b)),
            None => None,
        },
        None => None,
    }
}

/// The first pair of delimiters right of a column.
fn find_pair_right(cs: &Vec<char>, col: usize, open: char, close: char) -> (r: Option<(usize, usize)>)
    ensures
        match (r, first_pair(cs@, col + 1, open, close)) {
            (Some(p), Some(q)) => p.0 == q.0 && p.1 == q.1 && p.0 < p.1 < cs.len(),
            (None, None) => true,
            _ => false,
        },
{
    if col >= cs.len() {
        return None;
    }
    let mut i: usize = col + 1;
    while i < cs.len()
        invariant
            col < i <= cs.len(),
            first_pair(cs@, col + 1, open, close) == first_pair(cs@, i as int, open, close),
        decreases cs.len() - i,
    {
        if cs[i] == open {
            if let Some(b) = find_close(cs, i, open, close) {
                return Some((i, b));
            }
        }
        i = i + 1;
    }
    None
}

impl Buffer {
    /// The range of a text object within the cursor's line. `None` where no
    /// object surrounds the cursor and none lies to its right.
    pub fn text_object_range(&self, scope: Scope, object: Object) -> (r: Option<(Cursor, Cursor)>)
        requires
            self.cursor.row < self.lines.len(),
        ensures
            r == self@.text_object(scope, object),
            r matches Some((a, b)) ==> in_text(self@.text, a) && in_text(self@.text, b),
    {
        let row = self.cursor.row;
        let col = self.cursor.col;
        let cs = self.line_chars(row);
        let (open, close) = match delim(object) {
            Some(p) => p,
            None => return None,
        };
        let pair = match find_surrounding(&cs, col, open, close) {
            Some(p) => Some(p),
            None => find_pair_right(&cs, col, open, close),
        };
        let (a, b) = match pair {
            Some(p) => p,
            None => return None,
        };
        match scope {
            Scope::Inner => Some((Cursor { row, col: a + 1 }, Cursor { row, col: b })),
            Scope::Around => Some((Cursor { row, col: a }, Cursor { row, col: b + 1 })),
        }
    }
}

/// What lies inside a text object is what lies around it, without one
/// character at each end.
pub proof fn law_inner_within_around(d: Doc, object: Object)
    requires
        in_text(d.text, d.cursor),
        d.line().len() < usize::MAX,
    ensures
        match (d.text_object(Scope::Inner, object), d.text_object(Scope::Around, object)) {
            (Some((a, b)), Some((c, e))) => a.row == c.row && a.col == c.col + 1 && b.row == e.row && e.col == b.col
                + 1 && a.col <= b.col,
            (None, None) => true,
            _ => false,
        },
{
    if let Some((open, close)) = delimiters(object) {
        lemma_surrounding(d.line(), d.cursor.col as int, open, close);
        lemma_first_pair(d.line(), d.cursor.col + 1, open, close);
    }
}

/// A text object is missing only where none surrounds the cursor and no pair
/// of delimiters lies to its right.
pub proof fn law_no_object(d: Doc, scope: Scope, object: Object)
    requires
        in_text(d.text, d.cursor),
        d.text_object(scope, object) is None,
    ensures
        delimiters(object) matches Some((open, close)) ==> {
            &&& surrounding(d.line(), d.cursor.col as int, open, close) is None
            &&& forall|i: int|
                d.cursor.col < i < d.line().len() && #[trigger] d.line()[i] == open ==> closed_by(
                    d.line(),
                    i,
                    open,
                    close,
                ) is None
        },
{
    if let Some((open, close)) = delimiters(object) {
        lemma_first_pair(d.line(), d.cursor.col + 1, open, close);
    }
}

proof fn lemma_closed_by(line: Seq<char>, a: int, open: char, close: char)
    requires
        0 <= a,
    ensures
        closed_by(line, a, open, close) matches Some(b) ==> a < b < line.len(),
{
    crate::editor::motion::find::law_first_at(line, open, a + 1);
    lemma_close_right(line, a + 1, open, close, 0);
}

proof fn lemma_surrounding(line: Seq<char>, col: int, open: char, close: char)
    requires
        0 <= col,
    ensures
        surrounding(line, col, open, close) matches Some((a, b)) ==> 0 <= a < b < line.len(),
{
    crate::editor::motion::find::law_last_before(line, open, least(col + 1, line.len() as int));
    lemma_open_left(line, col, open, close, 0);
    let left = if open == close {
        last_before(line, open, least(col + 1, line.len() as int))
    } else {
        open_left(line, col, open, close, 0)
    };
    if let Some(a) = left {
        lemma_closed_by(line, a, open, close);
    }
}

/// The first pair lies in the line; where there is none, nothing that opens
/// is closed.
proof fn lemma_first_pair(line: Seq<char>, i: int, open: char, close: char)
    requires
        0 <= i,
    ensures
        match first_pair(line, i, open, close) {
            Some((a, b)) => i <= a < b < line.len(),
            None => forall|k: int|
                i <= k < line.len() && #[trigger] line[k] == open ==> closed_by(line, k, open, close) is None,
        },
    decreases line.len() - i,
{
    if i < line.len() {
        lemma_closed_by(line, i, open, close);
        lemma_first_pair(line, i + 1, open, close);
    }
}

proof fn lemma_open_left(line: Seq<char>, i: int, open: char, close: char, d: int)
    ensures
        open_left(line, i, open, close, d) matches Some(a) ==> 0 <= a <= i && a < line.len(),
    decreases i + 1,
{
    if 0 <= i < line.len() {
        lemma_open_left(line, i - 1, open, close, d + 1);
        lemma_open_left(line, i - 1, open, close, d - 1);
        lemma_open_left(line, i - 1, open, close, d);
    }
}

proof fn lemma_close_right(line: Seq<char>, i: int, open: char, close: char, d: int)
    ensures
        close_right(line, i, open, close, d) matches Some(a) ==> i <= a < line.len(),
    decreases line.len() - i,
{
    if 0 <= i < line.len() {
        lemma_close_right(line, i + 1, open, close, d + 1);
        lemma_close_right(line, i + 1, open, close, d - 1);
        lemma_close_right(line, i + 1, open, close, d);
    }
}

} // verus!
