//! Typing.
use vstd::prelude::*;
use crate::editor::{in_text, least, Buffer, Doc};
use crate::text::{push_slice, slice_chars};

pub mod autopair;

use autopair::{auto_pair_closer, is_auto_pair_closer, should_auto_pair};

verus! {

impl Doc {
    /// A typed character. A column behind the end of the line counts as its
    /// end.
    pub open spec fn insert_char(self, c: char) -> Doc {
        let col = self.cursor.col as int;
        self.with_line(self.line().insert(least(col, self.line().len() as int), c)).at(
            self.cursor.row as int,
            least(col + 1, usize::MAX as int),
        ).touched()
    }

    pub open spec fn insert_newline(self) -> Doc {
        let row = self.cursor.row as int;
        let col = self.cursor.col as int;
        Doc {
            text: self.text.update(row, self.line().take(col)).insert(row + 1, self.line().skip(col)),
            ..self
        }.at(row + 1, 0).touched()
    }

    pub open spec fn open_below(self) -> Doc {
        let row = self.cursor.row as int;
        Doc { text: self.text.insert(row + 1, Seq::empty()), ..self }.at(row + 1, 0).touched()
    }

    pub open spec fn open_above(self) -> Doc {
        let row = self.cursor.row as int;
        Doc { text: self.text.insert(row, Seq::empty()), ..self }.at(row, 0).touched()
    }

    pub open spec fn char_before(self) -> Option<char> {
        if 0 < self.cursor.col <= self.line().len() {
            Some(self.line()[self.cursor.col - 1])
        } else {
            None
        }
    }

    pub open spec fn char_here(self) -> Option<char> {
        if self.cursor.col < self.line().len() {
            Some(self.line()[self.cursor.col as int])
        } else {
            None
        }
    }

    /// Typing with paired delimiters: a closer in front of itself is stepped
    /// over, and an opener brings its closer along where that is wanted.
    pub open spec fn insert_smart(self, c: char) -> Doc {
        if self.char_here() == Some(c) && exists|o: char| autopair::closer_of(o) == Some(c) {
            self.at(self.cursor.row as int, self.cursor.col + 1)
        } else {
            match autopair::closer_of(c) {
                Some(close) => if autopair::pairs_between(c, self.char_before(), self.char_here()) {
                    self.insert_char(c).insert_char(close).left()
                } else {
                    self.insert_char(c)
                },
                None => self.insert_char(c),
            }
        }
    }

    /// Whether the cursor stands between an opener and its closer.
    pub open spec fn in_pair(self) -> bool {
        match (self.char_before(), self.char_here()) {
            (Some(o), Some(c)) => autopair::closer_of(o) == Some(c),
            _ => false,
        }
    }

    /// Backspace with paired delimiters: between an opener and its closer
    /// both go.
    pub open spec fn delete_before_smart(self) -> Doc {
        if self.in_pair() {
            let col = self.cursor.col as int;
            self.with_line(self.line().take(col - 1) + self.line().skip(col + 1)).at(
                self.cursor.row as int,
                col - 1,
            ).touched()
        } else {
            self.delete_before()
        }
    }
}

impl Buffer {
    /// Types a character at the cursor.
    pub fn insert_char(&mut self, c: char)
        requires
            old(self).cursor.row < old(self).lines.len(),
        ensures
            old(self)@.wf() ==> final(self)@.wf(),
            final(self)@ == old(self)@.insert_char(c),
            in_text(old(self)@.text, old(self)@.cursor) ==> {
                &&& in_text(final(self)@.text, final(self)@.cursor)
                &&& final(self)@.cursor.col == old(self)@.cursor.col + 1
            },
    {
        let row = self.cursor.row;
        let col = self.cursor.col;
        let mut cs = self.line_chars(row);
        let place = if col < cs.len() { col } else { cs.len() };
        cs.insert(place, c);
        self.set_line(row, &cs);
        proof {
            assert(place + 1 <= cs.len());
        }
        self.cursor.col = col.saturating_add(1);
        self.touch();
    }

    /// Splits the line at the cursor.
    pub fn insert_newline(&mut self)
        requires
            in_text(old(self)@.text, old(self)@.cursor),
        ensures
            old(self)@.wf() ==> final(self)@.wf(),
            final(self)@ == old(self)@.insert_newline(),
            in_text(final(self)@.text, final(self)@.cursor),
    {
        let row = self.cursor.row;
        let col = self.cursor.col;
        let ghost d = self@;
        let cs = self.line_chars(row);
        let head = slice_chars(&cs, 0, col);
        let tail = slice_chars(&cs, col, cs.len());
        self.set_line(row, &head);
        self.insert_line(row + 1, &tail);
        self.cursor.row = row + 1;
        self.cursor.col = 0;
        self.touch();
        proof {
            assert(head@ =~= d.line().take(col as int));
            assert(tail@ =~= d.line().skip(col as int));
            assert(self@ =~= d.insert_newline());
        }
    }

    /// Opens an empty line below the cursor.
    pub fn insert_line_below(&mut self)
        requires
            old(self).cursor.row < old(self).lines.len(),
        ensures
            old(self)@.wf() ==> final(self)@.wf(),
            final(self)@ == old(self)@.open_below(),
            in_text(final(self)@.text, final(self)@.cursor),
    {
        let row = self.cursor.row;
        let empty: Vec<char> = Vec::new();
        self.insert_line(row + 1, &empty);
        self.cursor.row = row + 1;
        self.cursor.col = 0;
        self.touch();
    }

    /// Opens an empty line above the cursor.
    pub fn insert_line_above(&mut self)
        requires
            old(self).cursor.row < old(self).lines.len(),
        ensures
            old(self)@.wf() ==> final(self)@.wf(),
            final(self)@ == old(self)@.open_above(),
            in_text(final(self)@.text, final(self)@.cursor),
    {
        let row = self.cursor.row;
        let empty: Vec<char> = Vec::new();
        self.insert_line(row, &empty);
        self.cursor.col = 0;
        self.touch();
    }

    /// Types a character with paired delimiters.
    pub fn insert_char_smart(&mut self, c: char)
        requires
            in_text(old(self)@.text, old(self)@.cursor),
        ensures
            old(self)@.wf() ==> final(self)@.wf(),
            final(self)@ == old(self)@.insert_smart(c),
            in_text(final(self)@.text, final(self)@.cursor),
    {
        let cs = self.line_chars(self.cursor.row);
        let col = self.cursor.col;
        let here: Option<char> = if col < cs.len() { Some(cs[col]) } else { None };
        let prev: Option<char> = if col > 0 { Some(cs[col - 1]) } else { None };
        if is_auto_pair_closer(c) && col < cs.len() && cs[col] == c {
            self.cursor.col = col + 1;
            return;
        }
        match auto_pair_closer(c) {
            Some(close) => {
                if should_auto_pair(c, prev, here) {
                    self.insert_char(c);
                    self.insert_char(close);
                    self.move_left();
                } else {
                    self.insert_char(c);
                }
            },
            None => self.insert_char(c),
        }
    }

    /// Deletes the character before the cursor, and between an opener and its
    /// closer the closer too.
    pub fn delete_char_before_smart(&mut self)
        requires
            in_text(old(self)@.text, old(self)@.cursor),
        ensures
            old(self)@.wf() ==> final(self)@.wf(),
            final(self)@ == old(self)@.delete_before_smart(),
    {
        let row = self.cursor.row;
        let col = self.cursor.col;
        let ghost d = self@;
        let cs = self.line_chars(row);
        if col == 0 || col >= cs.len() {
            self.delete_char_before();
            return;
        }
        let pair = match auto_pair_closer(cs[col - 1]) {
            Some(c) => c == cs[col],
            None => false,
        };
        if !pair {
            self.delete_char_before();
            return;
        }
        let mut out = slice_chars(&cs, 0, col - 1);
        push_slice(&mut out, &cs, col + 1, cs.len());
        self.set_line(row, &out);
        self.cursor.col = col - 1;
        self.touch();
        proof {
            assert(out@ =~= d.line().take(col - 1) + d.line().skip(col + 1));
            assert(self@ =~= d.delete_before_smart());
        }
    }
}

/// Backspace takes a typed character back: the text and the cursor are what
/// they were.
pub proof fn law_backspace_undoes_typing(d: Doc, c: char)
    requires
        in_text(d.text, d.cursor),
        d.cursor.col < usize::MAX,
    ensures
        d.insert_char(c).delete_before().text == d.text,
        d.insert_char(c).delete_before().cursor == d.cursor,
{
    let e = d.insert_char(c);
    assert(e.line() == d.line().insert(d.cursor.col as int, c));
    assert(e.line().remove(d.cursor.col as int) =~= d.line());
    assert(e.delete_before().text =~= d.text);
}

/// Backspace at the start of a line takes a newline back.
pub proof fn law_backspace_undoes_newline(d: Doc)
    requires
        in_text(d.text, d.cursor),
        d.text.len() < usize::MAX,
    ensures
        d.insert_newline().delete_before().text == d.text,
        d.insert_newline().delete_before().cursor == d.cursor,
{
    let e = d.insert_newline();
    let row = d.cursor.row as int;
    assert(e.text[row] == d.line().take(d.cursor.col as int));
    assert(e.text[row + 1] == d.line().skip(d.cursor.col as int));
    assert(d.line().take(d.cursor.col as int) + d.line().skip(d.cursor.col as int) =~= d.line());
    assert(e.delete_before().text =~= d.text);
}

/// Backspace takes back what typing a character put in, also where the
/// character brought its closer along. A closer that was stepped over put
/// nothing in. That no word starts with the closer is a fact of the character
/// classes.
pub proof fn law_backspace_undoes_smart_typing(d: Doc, c: char)
    requires
        in_text(d.text, d.cursor),
        d.cursor.col + 1 < usize::MAX,
        !(d.char_here() == Some(c) && exists|o: char| autopair::closer_of(o) == Some(c)),
        autopair::closer_of(c) matches Some(close) ==> !autopair::word_char(close),
    ensures
        d.insert_smart(c).delete_before_smart().text == d.text,
        d.insert_smart(c).delete_before_smart().cursor == d.cursor,
{
    let col = d.cursor.col as int;
    let row = d.cursor.row as int;
    let one = d.insert_char(c);
    assert(one.line() =~= d.line().insert(col, c));
    if autopair::closer_of(c) is Some && autopair::pairs_between(c, d.char_before(), d.char_here()) {
        let close = autopair::closer_of(c)->Some_0;
        let e = d.insert_smart(c);
        assert(one.insert_char(close).line() =~= d.line().insert(col, c).insert(col + 1, close));
        assert(e.line() =~= d.line().insert(col, c).insert(col + 1, close));
        assert(e.cursor.col == col + 1);
        assert(e.char_before() == Some(c));
        assert(e.char_here() == Some(close));
        assert(e.line().take(col) + e.line().skip(col + 2) =~= d.line());
        assert(e.delete_before_smart().text =~= d.text);
    } else {
        assert(one.char_before() == Some(c));
        assert(one.char_here() == d.char_here());
        if one.in_pair() {
            let close = autopair::closer_of(c)->Some_0;
            if autopair::quote(c) {
                assert(d.char_here() == Some(c));
                assert(autopair::closer_of(c) == Some(c));
            }
            assert(d.char_here() == Some(close));
            assert(false);
        }
        law_backspace_undoes_typing(d, c);
    }
}

} // verus!
