//! The document: lines of text, a cursor, a yank register and the undo
//! history, with the edits on single characters and lines.
use vstd::prelude::*;
use crate::text::{
    chars_of, copy_str, lower_mapping, lowercase, opt_str, push_slice, same_chars, slice_chars, string_of,
    string_slice, text_of, to_lower, to_upper, upper_mapping, uppercase, white_space,
};

pub mod case;
pub mod history;
pub mod inline_suggestion;
pub mod insert;
pub mod laws;
pub mod motion;
pub mod ops;
pub mod region_laws;
pub mod repeat;
pub mod search;
pub mod substitute;
pub mod text_object;

verus! {

/// A position in the text: a line and a character within it.
#[derive(Debug, Clone, Copy, PartialEq, Eq, Structural)]
pub struct Cursor {
    pub row: usize,
    pub col: usize,
}

impl Default for Cursor {
    fn default() -> (r: Cursor)
        ensures
            r == (Cursor { row: 0, col: 0 }),
    {
        Cursor { row: 0, col: 0 }
    }
}

impl Cursor {
    /// Document order.
    pub open spec fn before(self, other: Cursor) -> bool {
        self.row < other.row || (self.row == other.row && self.col < other.col)
    }

    /// Whether this position comes before the other one in the document.
    pub fn is_before(self, other: Cursor) -> (r: bool)
        ensures
            r == self.before(other),
    {
        self.row < other.row || (self.row == other.row && self.col < other.col)
    }
}

/// How a new line is indented: by `width` spaces, or by a tab.
#[derive(Debug, Clone, Copy, PartialEq, Eq, Structural)]
pub struct IndentSettings {
    pub width: usize,
    pub use_tabs: bool,
}

impl Default for IndentSettings {
    fn default() -> (r: IndentSettings)
        ensures
            r == (IndentSettings { width: 4, use_tabs: false }),
    {
        IndentSettings { width: 4, use_tabs: false }
    }
}

/// A state that undo or redo goes back to.
#[derive(Debug)]
pub struct Snapshot {
    pub lines: Vec<String>,
    pub cursor: Cursor,
    pub extra_cursors: Vec<Cursor>,
    pub dirty: bool,
}

/// The content of a snapshot.
#[verifier::ext_equal]
pub struct Shot {
    pub text: Seq<Seq<char>>,
    pub cursor: Cursor,
    pub extra: Seq<Cursor>,
    pub dirty: bool,
}

impl View for Snapshot {
    type V = Shot;

    open spec fn view(&self) -> Shot {
        Shot {
            text: text_of(self.lines@),
            cursor: self.cursor,
            extra: self.extra_cursors@,
            dirty: self.dirty,
        }
    }
}

/// The contents of a history stack.
pub open spec fn shots_of(s: Seq<Snapshot>) -> Seq<Shot> {
    Seq::new(s.len(), |i: int| s[i]@)
}

#[derive(Debug)]
pub struct Buffer {
    pub lines: Vec<String>,
    pub cursor: Cursor,
    /// The cursors beside the primary one, in the order they were added.
    pub extra_cursors: Vec<Cursor>,
    pub path: Option<String>,
    pub dirty: bool,
    pub yank: String,
    /// Changes with every edit.
    pub version: u64,
    /// The topmost line of the viewport.
    pub scroll: usize,
    /// The number of rows of the viewport; zero until it is first drawn.
    pub viewport_height: usize,
    /// The row of the viewport in which the cursor was last drawn.
    pub cursor_visual_y: u16,
    pub undo_stack: Vec<Snapshot>,
    pub redo_stack: Vec<Snapshot>,
    /// Where the tokens of the syntax tree start, in document order. Empty
    /// where no grammar is attached.
    pub token_starts: Vec<Cursor>,
}

/// The content of a buffer.
#[verifier::ext_equal]
pub struct Doc {
    pub text: Seq<Seq<char>>,
    pub cursor: Cursor,
    pub extra: Seq<Cursor>,
    pub path: Option<Seq<char>>,
    pub dirty: bool,
    pub yank: Seq<char>,
    pub version: u64,
    pub scroll: usize,
    pub height: usize,
    pub visual_y: u16,
    pub undo: Seq<Shot>,
    pub redo: Seq<Shot>,
    pub tokens: Seq<Cursor>,
}

impl View for Buffer {
    type V = Doc;

    open spec fn view(&self) -> Doc {
        Doc {
            text: text_of(self.lines@),
            cursor: self.cursor,
            extra: self.extra_cursors@,
            path: opt_str(self.path),
            dirty: self.dirty,
            yank: self.yank@,
            version: self.version,
            scroll: self.scroll,
            height: self.viewport_height,
            visual_y: self.cursor_visual_y,
            undo: shots_of(self.undo_stack@),
            redo: shots_of(self.redo_stack@),
            tokens: self.token_starts@,
        }
    }
}

/// Whether a position lies in the text. The place after the last character of
/// a line belongs to it.
pub open spec fn in_text(text: Seq<Seq<char>>, c: Cursor) -> bool {
    c.row < text.len() && c.col <= text[c.row as int].len()
}

/// The last column of a line that a block cursor can stand on.
pub open spec fn last_col(line: Seq<char>) -> int {
    if line.len() == 0 {
        0
    } else {
        line.len() - 1
    }
}

/// The smaller of two numbers.
pub open spec fn least(a: int, b: int) -> int {
    if a <= b {
        a
    } else {
        b
    }
}

/// The larger of two numbers.
pub open spec fn most(a: int, b: int) -> int {
    if a <= b {
        b
    } else {
        a
    }
}

/// The first place at or after `i` that holds no white space, or the end.
pub open spec fn skip_space(line: Seq<char>, i: int) -> int
    decreases line.len() - i,
{
    if 0 <= i < line.len() && white_space(line[i]) {
        skip_space(line, i + 1)
    } else {
        i
    }
}

/// The column of the first character that is no white space; zero in a line
/// that has none.
pub open spec fn first_non_blank_col(line: Seq<char>) -> int {
    if skip_space(line, 0) >= line.len() {
        0
    } else {
        skip_space(line, 0)
    }
}

impl Shot {
    pub open spec fn wf(self) -> bool {
        self.text.len() >= 1 && in_text(self.text, self.cursor)
    }
}

pub open spec fn shots_wf(s: Seq<Shot>) -> bool {
    forall|i: int| 0 <= i < s.len() ==> (#[trigger] s[i]).wf()
}

impl Doc {
    /// There is at least one line, and in every state of the history the
    /// cursor is in the text.
    pub open spec fn sound(self) -> bool {
        &&& self.text.len() >= 1
        &&& shots_wf(self.undo)
        &&& shots_wf(self.redo)
    }

    /// The cursor is in the text too.
    pub open spec fn wf(self) -> bool {
        self.sound() && in_text(self.text, self.cursor)
    }

    /// The line the cursor is on.
    pub open spec fn line(self) -> Seq<char> {
        self.text[self.cursor.row as int]
    }

    pub open spec fn at(self, row: int, col: int) -> Doc {
        Doc { cursor: Cursor { row: row as usize, col: col as usize }, ..self }
    }

    pub open spec fn with_line(self, line: Seq<char>) -> Doc {
        Doc { text: self.text.update(self.cursor.row as int, line), ..self }
    }

    /// Marks an edit.
    pub open spec fn touched(self) -> Doc {
        Doc { dirty: true, version: self.version.wrapping_add(1), ..self }
    }

    /// The rightmost column the cursor may take in its line.
    pub open spec fn col_limit(self, allow_after_end: bool) -> int {
        if allow_after_end {
            self.line().len() as int
        } else {
            last_col(self.line())
        }
    }

    pub open spec fn clamped(self, allow_after_end: bool) -> Doc {
        self.at(self.cursor.row as int, least(self.cursor.col as int, self.col_limit(allow_after_end)))
    }

    pub open spec fn left(self) -> Doc {
        if self.cursor.col > 0 {
            self.at(self.cursor.row as int, self.cursor.col - 1)
        } else {
            self
        }
    }

    pub open spec fn right(self, allow_after_end: bool) -> Doc {
        if self.cursor.col < self.col_limit(allow_after_end) {
            self.at(self.cursor.row as int, self.cursor.col + 1)
        } else {
            self
        }
    }

    pub open spec fn up(self) -> Doc {
        if self.cursor.row > 0 {
            self.at(self.cursor.row - 1, self.cursor.col as int).clamped(false)
        } else {
            self
        }
    }

    pub open spec fn down(self) -> Doc {
        if self.cursor.row + 1 < self.text.len() {
            self.at(self.cursor.row + 1, self.cursor.col as int).clamped(false)
        } else {
            self
        }
    }

    pub open spec fn line_start(self) -> Doc {
        self.at(self.cursor.row as int, 0)
    }

    pub open spec fn line_end(self) -> Doc {
        self.at(self.cursor.row as int, last_col(self.line()))
    }

    pub open spec fn file_start(self) -> Doc {
        self.at(0, 0)
    }

    pub open spec fn file_end(self) -> Doc {
        self.at(self.text.len() - 1, 0)
    }

    /// The cursor at the start of line `n`, counted from one; at most the
    /// last line.
    pub open spec fn goto_line(self, n: int) -> Doc {
        self.at(least(if n > 0 { n - 1 } else { 0 }, self.text.len() - 1), 0)
    }

    pub open spec fn first_non_blank(self) -> Doc {
        self.at(self.cursor.row as int, first_non_blank_col(self.line()))
    }

    /// What joins two lines: a space, unless the first is empty or ends in
    /// white space, or nothing follows.
    pub open spec fn join_gap(a: Seq<char>, b: Seq<char>) -> Seq<char> {
        if a.len() > 0 && !white_space(a.last()) && b.len() > 0 {
            seq![' ']
        } else {
            Seq::empty()
        }
    }

    pub open spec fn join_next(self) -> Doc {
        let row = self.cursor.row as int;
        if row + 1 >= self.text.len() {
            self
        } else {
            let a = self.text[row];
            let b = self.text[row + 1].skip(skip_space(self.text[row + 1], 0));
            Doc {
                text: self.text.remove(row + 1).update(row, a + Doc::join_gap(a, b) + b),
                ..self
            }.at(row, a.len() as int).touched()
        }
    }

    /// The other case of a character, where it has one.
    pub open spec fn other_case(c: char) -> Option<Seq<char>> {
        if uppercase(c) {
            Some(lower_mapping(c))
        } else if lowercase(c) {
            Some(upper_mapping(c))
        } else {
            None
        }
    }

    pub open spec fn toggle_case(self) -> Doc {
        let col = self.cursor.col as int;
        if col >= self.line().len() {
            self
        } else {
            match Doc::other_case(self.line()[col]) {
                None => self,
                Some(r) => {
                    let d = self.with_line(self.line().take(col) + r + self.line().skip(col + 1)).touched();
                    if col < last_col(d.line()) {
                        d.at(self.cursor.row as int, col + 1)
                    } else {
                        d
                    }
                },
            }
        }
    }

    pub open spec fn delete_to_eol(self) -> Doc {
        let col = least(self.cursor.col as int, self.line().len() as int);
        Doc {
            yank: self.line().skip(col),
            ..self.with_line(self.line().take(col))
        }.touched().clamped(false)
    }

    pub open spec fn clear_line(self) -> Doc {
        Doc { yank: self.line(), ..self.with_line(Seq::empty()) }.line_start().touched()
    }

    pub open spec fn delete_char(self) -> Doc {
        if self.cursor.col < self.line().len() {
            self.with_line(self.line().remove(self.cursor.col as int)).touched().clamped(false)
        } else {
            self
        }
    }

    pub open spec fn delete_before(self) -> Doc {
        let row = self.cursor.row as int;
        let col = self.cursor.col as int;
        if col > 0 {
            self.with_line(self.line().remove(col - 1)).at(row, col - 1).touched()
        } else if row > 0 {
            let above = self.text[row - 1];
            Doc {
                text: self.text.remove(row).update(row - 1, above + self.line()),
                ..self
            }.at(row - 1, above.len() as int).touched()
        } else {
            self
        }
    }

    pub open spec fn toggle_comment(self, token: Seq<char>) -> Doc {
        let row = self.cursor.row as int;
        let col = self.cursor.col as int;
        let line = self.line();
        let at = skip_space(line, 0);
        let rest = line.skip(at);
        if rest.len() == 0 {
            self
        } else if token.is_prefix_of(rest) {
            let cut = if token.len() < rest.len() && rest[token.len() as int] == ' ' {
                token.len() as int + 1
            } else {
                token.len() as int
            };
            let new = line.take(at) + rest.skip(cut);
            let shifted = if col <= at {
                col
            } else if col >= cut {
                col - cut
            } else {
                0
            };
            self.with_line(new).at(row, least(shifted, last_col(new))).touched()
        } else {
            let new = line.take(at) + token.push(' ') + rest;
            let shifted = if col >= at {
                col + token.len() + 1
            } else {
                col
            };
            self.with_line(new).at(row, least(shifted, last_col(new))).touched()
        }
    }

    /// The position after `c`: the next character of the line, else the
    /// start of the next line, else `c` itself.
    pub open spec fn next_pos(self, c: Cursor) -> Cursor {
        if c.col < self.text[c.row as int].len() {
            Cursor { row: c.row, col: (c.col + 1) as usize }
        } else if c.row + 1 < self.text.len() {
            Cursor { row: (c.row + 1) as usize, col: 0 }
        } else {
            c
        }
    }

    pub open spec fn replace_char(self, ch: char) -> Doc {
        if self.cursor.col < self.line().len() {
            self.with_line(self.line().update(self.cursor.col as int, ch)).touched()
        } else {
            self
        }
    }
}

/// The index of the first character at or after `i` that is no white space.
pub fn skip_blanks(cs: &Vec<char>, i: usize) -> (r: usize)
    requires
        i <= cs.len(),
    ensures
        r == skip_space(cs@, i as int),
        i <= r <= cs.len(),
        r < cs.len() ==> !white_space(cs@[r as int]),
        forall|k: int| i <= k < r ==> white_space(#[trigger] cs@[k]),
{
    let mut k: usize = i;
    while k < cs.len() && cs[k].is_whitespace()
        invariant
            i <= k <= cs.len(),
            skip_space(cs@, i as int) == skip_space(cs@, k as int),
            forall|q: int| i <= q < k ==> white_space(#[trigger] cs@[q]),
        decreases cs.len() - k,
    {
        k = k + 1;
    }
    k
}

impl Buffer {
    /// An unnamed buffer with one empty line.
    pub fn new() -> (r: Buffer)
        ensures
            r@.wf(),
            r@ == (Doc {
                text: seq![Seq::empty()],
                cursor: Cursor { row: 0, col: 0 },
                extra: Seq::empty(),
                path: None,
                dirty: false,
                yank: Seq::empty(),
                version: 0,
                scroll: 0,
                height: 0,
                visual_y: 0,
                undo: Seq::empty(),
                redo: Seq::empty(),
                tokens: Seq::empty(),
            }),
    {
        let mut lines: Vec<String> = Vec::new();
        lines.push(String::new());
        let b = Buffer::with_lines(lines, None);
        proof {
            assert(b@.text =~= seq![Seq::<char>::empty()]);
        }
        b
    }

    /// A clean buffer over the given lines.
    fn with_lines(lines: Vec<String>, path: Option<String>) -> (r: Buffer)
        ensures
            r.lines == lines,
            r@ == (Doc {
                text: text_of(lines@),
                cursor: Cursor { row: 0, col: 0 },
                extra: Seq::empty(),
                path: opt_str(path),
                dirty: false,
                yank: Seq::empty(),
                version: 0,
                scroll: 0,
                height: 0,
                visual_y: 0,
                undo: Seq::empty(),
                redo: Seq::empty(),
                tokens: Seq::empty(),
            }),
    {
        let b = Buffer {
            lines,
            cursor: Cursor { row: 0, col: 0 },
            extra_cursors: Vec::new(),
            path,
            dirty: false,
            yank: String::new(),
            version: 0,
            scroll: 0,
            viewport_height: 0,
            cursor_visual_y: 0,
            undo_stack: Vec::new(),
            redo_stack: Vec::new(),
            token_starts: Vec::new(),
        };
        proof {
            assert(b@.undo =~= Seq::<Shot>::empty());
            assert(b@.redo =~= Seq::<Shot>::empty());
        }
        b
    }

    /// The buffer for a file that holds `content`.
    pub fn load(path: &str, content: &str) -> (r: Buffer)
        ensures
            r@.wf(),
            r@ == (Doc {
                text: crate::text::split(content@),
                cursor: Cursor { row: 0, col: 0 },
                extra: Seq::empty(),
                path: Some(path@),
                dirty: false,
                yank: Seq::empty(),
                version: 0,
                scroll: 0,
                height: 0,
                visual_y: 0,
                undo: Seq::empty(),
                redo: Seq::empty(),
                tokens: Seq::empty(),
            }),
    {
        let lines = crate::text::split_lines(content);
        Buffer::with_lines(lines, Some(copy_str(path)))
    }

    /// The text that a file for this buffer holds.
    pub fn contents(&self) -> (r: String)
        ensures
            r@ == crate::text::join(self@.text, 0, self@.text.len() as int),
    {
        crate::text::join_lines(&self.lines, 0, self.lines.len())
    }

    /// What saving writes: the path and the text, or `None` for a buffer
    /// without a path. To be followed by `mark_saved` once it is written.
    pub fn save(&self) -> (r: Option<(String, String)>)
        ensures
            match (r, self@.path) {
                (Some((p, t)), Some(q)) => p@ == q && t@ == crate::text::join(
                    self@.text,
                    0,
                    self@.text.len() as int,
                ),
                (None, None) => true,
                _ => false,
            },
    {
        match &self.path {
            Some(p) => Some((p.clone(), self.contents())),
            None => None,
        }
    }

    /// Records that the buffer has been written to its path.
    pub fn mark_saved(&mut self)
        ensures
            old(self)@.wf() ==> final(self)@.wf(),
            final(self)@ == (Doc { dirty: false, ..old(self)@ }),
    {
        self.dirty = false;
    }

    /// Records that the buffer has been written to `path`, which becomes its
    /// own.
    pub fn save_as(&mut self, path: &str)
        ensures
            old(self)@.wf() ==> final(self)@.wf(),
            final(self)@ == (Doc { path: Some(path@), dirty: false, ..old(self)@ }),
    {
        self.path = Some(copy_str(path));
        self.dirty = false;
    }

    /// Replaces a line.
    pub(crate) fn set_line(&mut self, row: usize, cs: &Vec<char>)
        requires
            row < old(self).lines.len(),
        ensures
            final(self)@ == (Doc { text: old(self)@.text.update(row as int, cs@), ..old(self)@ }),
            final(self).lines.len() == old(self).lines.len(),
    {
        let s = string_of(cs);
        self.lines.set(row, s);
        proof {
            assert(self@.text =~= old(self)@.text.update(row as int, cs@));
        }
    }

    /// Inserts a line.
    pub(crate) fn insert_line(&mut self, row: usize, cs: &Vec<char>)
        requires
            row <= old(self).lines.len(),
        ensures
            final(self)@ == (Doc { text: old(self)@.text.insert(row as int, cs@), ..old(self)@ }),
            final(self).lines.len() == old(self).lines.len() + 1,
    {
        let s = string_of(cs);
        self.lines.insert(row, s);
        proof {
            assert(self@.text =~= old(self)@.text.insert(row as int, cs@));
        }
    }

    /// Removes a line and returns its characters.
    pub(crate) fn take_line(&mut self, row: usize) -> (r: Vec<char>)
        requires
            row < old(self).lines.len(),
        ensures
            r@ == old(self)@.text[row as int],
            final(self)@ == (Doc { text: old(self)@.text.remove(row as int), ..old(self)@ }),
            final(self).lines.len() == old(self).lines.len() - 1,
    {
        let s = self.lines.remove(row);
        proof {
            assert(self@.text =~= old(self)@.text.remove(row as int));
        }
        chars_of(s.as_str())
    }

    /// The characters of a line.
    pub fn line_chars(&self, row: usize) -> (r: Vec<char>)
        requires
            row < self.lines.len(),
        ensures
            r@ == self@.text[row as int],
    {
        chars_of(self.lines[row].as_str())
    }

    pub(crate) fn touch(&mut self)
        ensures
            final(self)@ == old(self)@.touched(),
            final(self).lines == old(self).lines,
    {
        self.dirty = true;
        self.version = self.version.wrapping_add(1);
    }

    /// Changes the version without marking an edit.
    pub fn bump_version(&mut self)
        ensures
            final(self)@ == (Doc { version: old(self)@.version.wrapping_add(1), ..old(self)@ }),
    {
        self.version = self.version.wrapping_add(1);
    }

    pub fn current_line(&self) -> (r: &str)
        requires
            self.cursor.row < self.lines.len(),
        ensures
            r@ == self@.line(),
    {
        self.lines[self.cursor.row].as_str()
    }

    pub fn current_line_len(&self) -> (r: usize)
        requires
            self.cursor.row < self.lines.len(),
        ensures
            r == self@.line().len(),
    {
        self.line_chars(self.cursor.row).len()
    }

    fn limit(&self, allow_after_end: bool) -> (r: usize)
        requires
            self.cursor.row < self.lines.len(),
        ensures
            r == self@.col_limit(allow_after_end),
    {
        let max = self.current_line_len();
        if allow_after_end {
            max
        } else {
            max.saturating_sub(1)
        }
    }

    /// Moves the cursor back into its line.
    pub fn clamp_col(&mut self, allow_after_end: bool)
        requires
            old(self).cursor.row < old(self).lines.len(),
        ensures
            old(self)@.wf() ==> final(self)@.wf(),
            final(self)@ == old(self)@.clamped(allow_after_end),
    {
        let limit = self.limit(allow_after_end);
        if self.cursor.col > limit {
            self.cursor.col = limit;
        }
    }

    pub fn move_left(&mut self)
        ensures
            old(self)@.wf() ==> final(self)@.wf(),
            final(self)@ == old(self)@.left(),
    {
        if self.cursor.col > 0 {
            self.cursor.col = self.cursor.col - 1;
        }
    }

    pub fn move_right(&mut self, allow_after_end: bool)
        requires
            old(self).cursor.row < old(self).lines.len(),
        ensures
            old(self)@.wf() ==> final(self)@.wf(),
            final(self)@ == old(self)@.right(allow_after_end),
    {
        let limit = self.limit(allow_after_end);
        if self.cursor.col < limit {
            self.cursor.col = self.cursor.col + 1;
        }
    }

    pub fn move_up(&mut self)
        requires
            old(self).cursor.row < old(self).lines.len(),
        ensures
            old(self)@.wf() ==> final(self)@.wf(),
            final(self)@ == old(self)@.up(),
    {
        if self.cursor.row > 0 {
            self.cursor.row = self.cursor.row - 1;
            self.clamp_col(false);
        }
    }

    pub fn move_down(&mut self)
        requires
            old(self).cursor.row < old(self).lines.len(),
        ensures
            old(self)@.wf() ==> final(self)@.wf(),
            final(self)@ == old(self)@.down(),
    {
        if self.cursor.row + 1 < self.lines.len() {
            self.cursor.row = self.cursor.row + 1;
            self.clamp_col(false);
        }
    }

    pub fn move_line_start(&mut self)
        ensures
            old(self)@.wf() ==> final(self)@.wf(),
            final(self)@ == old(self)@.line_start(),
    {
        self.cursor.col = 0;
    }

    pub fn move_line_end(&mut self)
        requires
            old(self).cursor.row < old(self).lines.len(),
        ensures
            old(self)@.wf() ==> final(self)@.wf(),
            final(self)@ == old(self)@.line_end(),
    {
        self.cursor.col = self.limit(false);
    }

    pub fn move_file_start(&mut self)
        ensures
            old(self)@.wf() ==> final(self)@.wf(),
            final(self)@ == old(self)@.file_start(),
    {
        self.cursor.row = 0;
        self.cursor.col = 0;
    }

    pub fn move_file_end(&mut self)
        requires
            old(self).lines.len() >= 1,
        ensures
            old(self)@.wf() ==> final(self)@.wf(),
            final(self)@ == old(self)@.file_end(),
    {
        self.cursor.row = self.lines.len() - 1;
        self.cursor.col = 0;
        self.clamp_col(false);
    }

    /// Goes to the start of line `n`, counted from one.
    pub fn goto_line_n(&mut self, n: usize)
        requires
            old(self).lines.len() >= 1,
        ensures
            old(self)@.wf() ==> final(self)@.wf(),
            final(self)@ == old(self)@.goto_line(n as int),
    {
        let last = self.lines.len() - 1;
        let row = n.saturating_sub(1);
        self.cursor.row = if row < last { row } else { last };
        self.cursor.col = 0;
        self.clamp_col(false);
    }

    /// Goes to the first character of the line that is no white space.
    pub fn move_first_non_blank(&mut self)
        requires
            old(self).cursor.row < old(self).lines.len(),
        ensures
            old(self)@.wf() ==> final(self)@.wf(),
            final(self)@ == old(self)@.first_non_blank(),
    {
        let cs = self.line_chars(self.cursor.row);
        let k = skip_blanks(&cs, 0);
        self.cursor.col = if k >= cs.len() { 0 } else { k };
    }

    /// Joins the next line to the current one, with a single space between
    /// the two where one is needed and without the next line's indentation.
    /// The cursor lands on the seam.
    pub fn join_next_line(&mut self)
        requires
            old(self).cursor.row < old(self).lines.len(),
        ensures
            old(self)@.wf() ==> final(self)@.wf(),
            final(self)@ == old(self)@.join_next(),
    {
        let row = self.cursor.row;
        if row + 1 >= self.lines.len() {
            return;
        }
        let ghost d = self@;
        let next = self.take_line(row + 1);
        let from = skip_blanks(&next, 0);
        let cur = self.line_chars(row);
        let col = cur.len();
        let mut out = slice_chars(&cur, 0, col);
        if col > 0 && !cur[col - 1].is_whitespace() && from < next.len() {
            out.push(' ');
        }
        push_slice(&mut out, &next, from, next.len());
        self.set_line(row, &out);
        self.cursor.col = col;
        self.touch();
        proof {
            let a = d.text[row as int];
            let b = d.text[row + 1].skip(from as int);
            assert(next@.subrange(from as int, next@.len() as int) =~= b);
            assert(out@ =~= a + Doc::join_gap(a, b) + b);
            assert(self@ =~= d.join_next());
        }
    }

    /// Swaps the case of the character under the cursor and steps right.
    /// Nothing happens on a character that has no case.
    pub fn toggle_case_under_cursor(&mut self)
        requires
            old(self).cursor.row < old(self).lines.len(),
        ensures
            old(self)@.wf() ==> final(self)@.wf(),
            final(self)@ == old(self)@.toggle_case(),
    {
        let row = self.cursor.row;
        let col = self.cursor.col;
        let ghost d = self@;
        let cs = self.line_chars(row);
        if col >= cs.len() {
            return;
        }
        let ch = cs[col];
        let other = if ch.is_uppercase() {
            to_lower(ch)
        } else if ch.is_lowercase() {
            to_upper(ch)
        } else {
            return;
        };
        let mut out = slice_chars(&cs, 0, col);
        push_slice(&mut out, &other, 0, other.len());
        push_slice(&mut out, &cs, col + 1, cs.len());
        self.set_line(row, &out);
        self.touch();
        proof {
            assert(out@ =~= d.line().take(col as int) + other@ + d.line().skip(col + 1));
        }
        let max = self.limit(false);
        if self.cursor.col < max {
            self.cursor.col = self.cursor.col + 1;
        }
    }

    /// Deletes from the cursor to the end of the line, into the yank register.
    pub fn delete_to_eol(&mut self)
        requires
            old(self).cursor.row < old(self).lines.len(),
        ensures
            old(self)@.wf() ==> final(self)@.wf(),
            final(self)@ == old(self)@.delete_to_eol(),
    {
        let row = self.cursor.row;
        let cs = self.line_chars(row);
        let ghost d = self@;
        let col = if self.cursor.col < cs.len() { self.cursor.col } else { cs.len() };
        self.yank = string_slice(&cs, col, cs.len());
        let head = slice_chars(&cs, 0, col);
        self.set_line(row, &head);
        self.touch();
        proof {
            assert(cs@.subrange(0, col as int) =~= d.line().take(col as int));
            assert(cs@.subrange(col as int, cs@.len() as int) =~= d.line().skip(col as int));
        }
        self.clamp_col(false);
    }

    /// Empties the current line, into the yank register.
    pub fn clear_current_line(&mut self)
        requires
            old(self).cursor.row < old(self).lines.len(),
        ensures
            old(self)@.wf() ==> final(self)@.wf(),
            final(self)@ == old(self)@.clear_line(),
    {
        let row = self.cursor.row;
        self.yank = self.lines[row].clone();
        let empty: Vec<char> = Vec::new();
        self.set_line(row, &empty);
        self.cursor.col = 0;
        self.touch();
    }

    pub fn delete_char_under_cursor(&mut self)
        requires
            old(self).cursor.row < old(self).lines.len(),
        ensures
            old(self)@.wf() ==> final(self)@.wf(),
            final(self)@ == old(self)@.delete_char(),
    {
        let row = self.cursor.row;
        let col = self.cursor.col;
        let mut cs = self.line_chars(row);
        if col < cs.len() {
            cs.remove(col);
            self.set_line(row, &cs);
            self.touch();
            self.clamp_col(false);
        }
    }

    /// Deletes the character before the cursor; at the start of a line, joins
    /// it to the line above.
    pub fn delete_char_before(&mut self)
        requires
            in_text(old(self)@.text, old(self)@.cursor),
        ensures
            old(self)@.wf() ==> final(self)@.wf(),
            final(self)@ == old(self)@.delete_before(),
    {
        let row = self.cursor.row;
        let col = self.cursor.col;
        let ghost d = self@;
        if col > 0 {
            let mut cs = self.line_chars(row);
            cs.remove(col - 1);
            self.set_line(row, &cs);
            self.cursor.col = col - 1;
            self.touch();
        } else if row > 0 {
            let line = self.take_line(row);
            let mut above = self.line_chars(row - 1);
            let n = above.len();
            push_slice(&mut above, &line, 0, line.len());
            self.set_line(row - 1, &above);
            self.cursor.row = row - 1;
            self.cursor.col = n;
            self.touch();
            proof {
                assert(line@.subrange(0, line@.len() as int) =~= line@);
                assert(self@ =~= d.delete_before());
            }
        }
    }

    /// Puts a line in place of the current one, and the cursor at a column of
    /// it or at its last one.
    fn rewrite_line(&mut self, line: &Vec<char>, col: usize)
        requires
            old(self).cursor.row < old(self).lines.len(),
        ensures
            old(self)@.wf() ==> final(self)@.wf(),
            final(self)@ == old(self)@.with_line(line@).at(
                old(self).cursor.row as int,
                least(col as int, last_col(line@)),
            ).touched(),
    {
        let row = self.cursor.row;
        self.set_line(row, line);
        self.cursor.col = col;
        self.clamp_col(false);
        assert(in_text(self@.text, self@.cursor));
        self.touch();
    }

    /// Comments the current line out, or in again. A blank line stays as it
    /// is.
    pub fn toggle_line_comment(&mut self, token: &str)
        requires
            old(self).cursor.row < old(self).lines.len(),
        ensures
            old(self)@.wf() ==> final(self)@.wf(),
            final(self)@ == old(self)@.toggle_comment(token@),
    {
        let row = self.cursor.row;
        let col = self.cursor.col;
        let ghost d = self@;
        let cs = self.line_chars(row);
        let tok = chars_of(token);
        let at = skip_blanks(&cs, 0);
        if at >= cs.len() {
            return;
        }
        let ghost rest = d.line().skip(at as int);
        let n = tok.len();
        let starts = if n <= cs.len() - at {
            let head = slice_chars(&cs, at, at + n);
            proof {
                assert(head@ =~= rest.subrange(0, n as int));
            }
            same_chars(&head, &tok)
        } else {
            false
        };
        proof {
            assert(starts == token@.is_prefix_of(rest));
        }
        let mut out = slice_chars(&cs, 0, at);
        if starts {
            let cut = if at + n < cs.len() && cs[at + n] == ' ' { n + 1 } else { n };
            push_slice(&mut out, &cs, at + cut, cs.len());
            proof {
                assert(out@ =~= d.line().take(at as int) + rest.skip(cut as int));
            }
            self.rewrite_line(&out, if col > at { col.saturating_sub(cut) } else { col });
        } else {
            push_slice(&mut out, &tok, 0, n);
            out.push(' ');
            push_slice(&mut out, &cs, at, cs.len());
            proof {
                assert(out@ =~= d.line().take(at as int) + token@.push(' ') + rest);
            }
            self.rewrite_line(&out, if col >= at { col.saturating_add(out.len() - cs.len()) } else { col });
        }
    }

    /// The position after `c`: the next character of the line, else the
    /// start of the next line, else `c` itself.
    pub fn advance_one(&self, c: Cursor) -> (r: Cursor)
        requires
            c.row < self.lines.len(),
        ensures
            r == self@.next_pos(c),
    {
        let len = self.line_chars(c.row).len();
        if c.col < len {
            Cursor { row: c.row, col: c.col + 1 }
        } else if c.row + 1 < self.lines.len() {
            Cursor { row: c.row + 1, col: 0 }
        } else {
            c
        }
    }

    /// Puts `ch` in place of the character under the cursor.
    pub fn replace_char(&mut self, ch: char)
        requires
            old(self).cursor.row < old(self).lines.len(),
        ensures
            old(self)@.wf() ==> final(self)@.wf(),
            final(self)@ == old(self)@.replace_char(ch),
    {
        let row = self.cursor.row;
        let col = self.cursor.col;
        let mut cs = self.line_chars(row);
        if col < cs.len() {
            cs.set(col, ch);
            self.set_line(row, &cs);
            self.touch();
        }
    }
}

proof fn lemma_skip_space(line: Seq<char>, i: int)
    requires
        0 <= i <= line.len(),
    ensures
        i <= skip_space(line, i) <= line.len(),
        forall|k: int| i <= k < skip_space(line, i) ==> white_space(#[trigger] line[k]),
        skip_space(line, i) < line.len() ==> !white_space(line[skip_space(line, i)]),
    decreases line.len() - i,
{
    if i < line.len() && white_space(line[i]) {
        lemma_skip_space(line, i + 1);
    }
}

proof fn lemma_skip_to(line: Seq<char>, i: int, at: int)
    requires
        0 <= i <= at < line.len(),
        forall|k: int| i <= k < at ==> white_space(#[trigger] line[k]),
        !white_space(line[at]),
    ensures
        skip_space(line, i) == at,
    decreases at - i,
{
    if i < at {
        lemma_skip_to(line, i + 1, at);
    }
}

/// A line that is made a comment and then text again is what it was, whatever
/// starts a comment, so long as that is no white space.
pub proof fn law_comment_twice(d: Doc, token: Seq<char>)
    requires
        d.cursor.row < d.text.len(),
        d.countable(),
        token.len() > 0,
        !white_space(token[0]),
        !token.is_prefix_of(d.line().skip(skip_space(d.line(), 0))),
    ensures
        d.toggle_comment(token).toggle_comment(token).text == d.text,
{
    let line = d.line();
    let row = d.cursor.row as int;
    let at = skip_space(line, 0);
    let rest = line.skip(at);
    lemma_skip_space(line, 0);
    if rest.len() > 0 {
        let e = d.toggle_comment(token);
        let new = line.take(at) + token.push(' ') + rest;
        assert(e.line() == new);
        assert forall|k: int| 0 <= k < at implies white_space(#[trigger] new[k]) by {
            assert(new[k] == line[k]);
        }
        assert(new[at] == token[0]);
        lemma_skip_to(new, 0, at);
        let r = new.skip(at);
        assert(r =~= token.push(' ') + rest);
        assert(token.is_prefix_of(r));
        assert(r[token.len() as int] == ' ');
        assert(new.take(at) + r.skip(token.len() as int + 1) =~= line);
        assert(e.toggle_comment(token).text =~= d.text);
    }
}

} // verus!
