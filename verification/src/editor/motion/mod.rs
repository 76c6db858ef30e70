//! Where motions lead.
use vstd::prelude::*;
use crate::action::MotionKind;
use crate::editor::{first_non_blank_col, in_text, last_col, least, skip_blanks, skip_space, Buffer, Cursor, Doc};
use crate::text::{chars_of, text_of, white_space};

pub mod bracket;
pub mod find;
pub mod laws;
pub mod viewport;
pub mod word;

use bracket::{bracket_match, bracket_target};
use find::{find_char, find_target};
use viewport::{page_target, viewport_target};
use word::{
    big_word_back, big_word_forward, next_word, next_word_end, prev_word, prev_word_end, word_back_char_class, word_end_back,
    word_end_char_class, word_forward_char_class,
};

verus! {

/// Whether a line holds nothing but white space.
pub open spec fn blank(line: Seq<char>) -> bool {
    forall|i: int| 0 <= i < line.len() ==> white_space(#[trigger] line[i])
}

pub fn is_blank_line(line: &str) -> (r: bool)
    ensures
        r == blank(line@),
{
    let cs = chars_of(line);
    let k = skip_blanks(&cs, 0);
    proof {
        if k < cs.len() {
            assert(!white_space(line@[k as int]));
        }
    }
    k >= cs.len()
}

/// The column of the last character at or before `i` that is no white space,
/// else zero.
pub open spec fn last_ink(line: Seq<char>, i: int) -> int
    decreases i,
{
    if i <= 0 || i >= line.len() || !white_space(line[i]) {
        if i < 0 {
            0
        } else {
            i
        }
    } else {
        last_ink(line, i - 1)
    }
}

/// The column of the last character that is no white space; zero in a line
/// without one.
pub open spec fn last_non_blank_col(line: Seq<char>) -> int {
    last_ink(line, line.len() - 1)
}

pub fn first_non_blank(line: &str) -> (r: usize)
    ensures
        r == first_non_blank_col(line@),
        r <= line@.len(),
{
    let cs = chars_of(line);
    let k = skip_blanks(&cs, 0);
    if k >= cs.len() {
        0
    } else {
        k
    }
}

pub fn last_non_blank(line: &str) -> (r: usize)
    ensures
        r == last_non_blank_col(line@),
        r <= line@.len(),
{
    let cs = chars_of(line);
    if cs.len() == 0 {
        return 0;
    }
    let mut i: usize = cs.len() - 1;
    while i > 0 && cs[i].is_whitespace()
        invariant
            i < cs.len(),
            cs@ == line@,
            last_ink(line@, line@.len() - 1) == last_ink(line@, i as int),
        decreases i,
    {
        i = i - 1;
    }
    i
}

/// The first row at or after `r` that is blank, or is not, as asked.
pub open spec fn next_row(text: Seq<Seq<char>>, r: int, want_blank: bool) -> int
    decreases text.len() - r,
{
    if 0 <= r < text.len() && blank(text[r]) != want_blank {
        next_row(text, r + 1, want_blank)
    } else {
        r
    }
}

/// The last row at or before `r` that is blank, or is not, as asked; the
/// first row where there is none.
pub open spec fn prev_row(text: Seq<Seq<char>>, r: int, want_blank: bool) -> int
    decreases r,
{
    if 0 < r < text.len() && blank(text[r]) != want_blank {
        prev_row(text, r - 1, want_blank)
    } else {
        r
    }
}

/// The blank line that ends the paragraph: from within one, the next blank
/// line; from a blank line, the one after the next paragraph. Else the last
/// line.
pub open spec fn paragraph_end(text: Seq<Seq<char>>, from: int) -> int {
    let start = if blank(text[from]) {
        next_row(text, from + 1, false)
    } else {
        from + 1
    };
    least(next_row(text, start, true), text.len() - 1)
}

/// The blank line before the paragraph, in the same way. Else the first
/// line.
pub open spec fn paragraph_start(text: Seq<Seq<char>>, from: int) -> int {
    if from == 0 {
        0
    } else {
        let start = if blank(text[from]) {
            prev_row(text, from - 1, false)
        } else {
            from - 1
        };
        prev_row(text, start, true)
    }
}

pub fn paragraph_forward_row(lines: &Vec<String>, from: usize) -> (r: usize)
    requires
        from < lines.len(),
    ensures
        r == paragraph_end(text_of(lines@), from as int),
        r < lines.len(),
{
    let ghost text = text_of(lines@);
    let n = lines.len();
    let mut row: usize = from + 1;
    if is_blank_line(lines[from].as_str()) {
        while row < n && is_blank_line(lines[row].as_str())
            invariant
                from < row <= n,
                n == lines.len(),
                text == text_of(lines@),
                next_row(text, from + 1, false) == next_row(text, row as int, false),
            decreases n - row,
        {
            row = row + 1;
        }
    }
    let ghost start = row;
    while row < n && !is_blank_line(lines[row].as_str())
        invariant
            from < row <= n,
            n == lines.len(),
            text == text_of(lines@),
            next_row(text, start as int, true) == next_row(text, row as int, true),
        decreases n - row,
    {
        row = row + 1;
    }
    if row < n - 1 {
        row
    } else {
        n - 1
    }
}

pub fn paragraph_back_row(lines: &Vec<String>, from: usize) -> (r: usize)
    requires
        from < lines.len(),
    ensures
        r == paragraph_start(text_of(lines@), from as int),
        r < lines.len(),
{
    let ghost text = text_of(lines@);
    if from == 0 {
        return 0;
    }
    let mut row: usize = from - 1;
    if is_blank_line(lines[from].as_str()) {
        while row > 0 && is_blank_line(lines[row].as_str())
            invariant
                row < from < lines.len(),
                text == text_of(lines@),
                prev_row(text, from - 1, false) == prev_row(text, row as int, false),
            decreases row,
        {
            row = row - 1;
        }
    }
    let ghost start = row;
    while row > 0 && !is_blank_line(lines[row].as_str())
        invariant
            row < from < lines.len(),
            text == text_of(lines@),
            prev_row(text, start as int, true) == prev_row(text, row as int, true),
        decreases row,
    {
        row = row - 1;
    }
    row
}

/// The first token from index `k` on that starts after `from`, among those in
/// the text.
pub open spec fn token_after(text: Seq<Seq<char>>, tokens: Seq<Cursor>, from: Cursor, k: int) -> Option<Cursor>
    decreases tokens.len() - k,
{
    if k < 0 || k >= tokens.len() {
        None
    } else if from.before(tokens[k]) && in_text(text, tokens[k]) {
        Some(tokens[k])
    } else {
        token_after(text, tokens, from, k + 1)
    }
}

/// The last token below index `k` that starts before `from`, among those in
/// the text.
pub open spec fn token_before(text: Seq<Seq<char>>, tokens: Seq<Cursor>, from: Cursor, k: int) -> Option<Cursor>
    decreases k,
{
    if k <= 0 || k > tokens.len() {
        None
    } else if tokens[k - 1].before(from) && in_text(text, tokens[k - 1]) {
        Some(tokens[k - 1])
    } else {
        token_before(text, tokens, from, k - 1)
    }
}

/// Motions that walk back along the line from the cursor.
pub open spec fn walks_back(motion: MotionKind) -> bool {
    match motion {
        MotionKind::WordBack => true,
        MotionKind::BigWordBack => true,
        MotionKind::FindChar { ch, forward, till } => !forward,
        _ => false,
    }
}

impl Doc {
    pub open spec fn word_forward(self, from: Cursor) -> Cursor {
        match token_after(self.text, self.tokens, from, 0) {
            Some(c) => c,
            None => next_word(self.text, from, false),
        }
    }

    pub open spec fn word_back(self, from: Cursor) -> Cursor {
        match token_before(self.text, self.tokens, from, self.tokens.len() as int) {
            Some(c) => c,
            None => prev_word(self.text, from, false),
        }
    }

    /// Where one step of a motion leads. Motions that need the search state
    /// stay where they are.
    pub open spec fn step(self, from: Cursor, motion: MotionKind) -> Cursor {
        let row = from.row as int;
        let col = from.col as int;
        let last = self.text.len() - 1;
        match motion {
            MotionKind::Left => Cursor {
                row: from.row,
                col: if col > 0 {
                    (col - 1) as usize
                } else {
                    0
                },
            },
            MotionKind::Right => Cursor { row: from.row, col: least(col + 1, last_col(self.text[row])) as usize },
            MotionKind::Up => self.keep_col(
                from,
                if row > 0 {
                    row - 1
                } else {
                    0
                },
            ),
            MotionKind::Down => self.keep_col(from, least(row + 1, last)),
            MotionKind::LineStart => Cursor { row: from.row, col: 0 },
            MotionKind::LineEnd => Cursor { row: from.row, col: last_col(self.text[row]) as usize },
            MotionKind::LineFirstNonBlank => Cursor {
                row: from.row,
                col: first_non_blank_col(self.text[row]) as usize,
            },
            MotionKind::LineLastNonBlank => Cursor {
                row: from.row,
                col: last_non_blank_col(self.text[row]) as usize,
            },
            MotionKind::WordForward => self.word_forward(from),
            MotionKind::WordBack => self.word_back(from),
            MotionKind::WordEnd => next_word_end(self.text, from, false),
            MotionKind::BigWordForward => next_word(self.text, from, true),
            MotionKind::BigWordBack => prev_word(self.text, from, true),
            MotionKind::BigWordEnd => next_word_end(self.text, from, true),
            MotionKind::WordEndBack => prev_word_end(self.text, from, false),
            MotionKind::BigWordEndBack => prev_word_end(self.text, from, true),
            MotionKind::BracketMatch => match bracket_target(self.text, from) {
                Some(c) => c,
                None => from,
            },
            MotionKind::FindChar { ch, forward, till } => find_target(self.text[row], from, ch, forward, till),
            MotionKind::FileStart => Cursor { row: 0, col: 0 },
            MotionKind::FileEnd => Cursor { row: last as usize, col: last_col(self.text[last]) as usize },
            MotionKind::ParagraphForward => Cursor { row: paragraph_end(self.text, row) as usize, col: 0 },
            MotionKind::ParagraphBack => Cursor { row: paragraph_start(self.text, row) as usize, col: 0 },
            MotionKind::ViewportTop => self.viewport_target(from, motion),
            MotionKind::ViewportMiddle => self.viewport_target(from, motion),
            MotionKind::ViewportBottom => self.viewport_target(from, motion),
            MotionKind::HalfPageDown => self.page_target(from, motion),
            MotionKind::HalfPageUp => self.page_target(from, motion),
            MotionKind::PageDown => self.page_target(from, motion),
            MotionKind::PageUp => self.page_target(from, motion),
            MotionKind::SearchWordForward => from,
            MotionKind::SearchWordBack => from,
            MotionKind::RepeatFind { reverse } => from,
            MotionKind::SearchNext => from,
            MotionKind::SearchPrev => from,
        }
    }

    /// Where `n` steps of a motion lead.
    pub open spec fn steps(self, from: Cursor, motion: MotionKind, n: int) -> Cursor
        decreases n,
    {
        if n <= 0 {
            from
        } else {
            self.step(self.steps(from, motion, n - 1), motion)
        }
    }

    /// Where a motion with a count leads. A count of zero counts as one.
    pub open spec fn target(self, from: Cursor, motion: MotionKind, count: u32) -> Cursor {
        self.steps(
            from,
            motion,
            if count == 0 {
                1
            } else {
                count as int
            },
        )
    }

    /// Lines and characters can be counted by machine integers.
    pub open spec fn countable(self) -> bool {
        self.text.len() <= usize::MAX && forall|r: int|
            0 <= r < self.text.len() ==> (#[trigger] self.text[r]).len() <= usize::MAX
    }
}

proof fn lemma_skip_space_range(line: Seq<char>, i: int)
    requires
        0 <= i <= line.len(),
    ensures
        i <= skip_space(line, i) <= line.len(),
    decreases line.len() - i,
{
    if i < line.len() && white_space(line[i]) {
        lemma_skip_space_range(line, i + 1);
    }
}

proof fn lemma_last_ink_range(line: Seq<char>, i: int)
    requires
        i < line.len(),
    ensures
        0 <= last_ink(line, i) <= line.len(),
    decreases i,
{
    if i > 0 && white_space(line[i]) {
        lemma_last_ink_range(line, i - 1);
    }
}

proof fn lemma_next_row_range(text: Seq<Seq<char>>, r: int, b: bool)
    requires
        0 <= r <= text.len(),
    ensures
        r <= next_row(text, r, b) <= text.len(),
    decreases text.len() - r,
{
    if r < text.len() && blank(text[r]) != b {
        lemma_next_row_range(text, r + 1, b);
    }
}

proof fn lemma_prev_row_range(text: Seq<Seq<char>>, r: int, b: bool)
    requires
        0 <= r < text.len(),
    ensures
        0 <= prev_row(text, r, b) <= r,
    decreases r,
{
    if 0 < r && blank(text[r]) != b {
        lemma_prev_row_range(text, r - 1, b);
    }
}

proof fn lemma_token_after(text: Seq<Seq<char>>, tokens: Seq<Cursor>, from: Cursor, k: int)
    ensures
        token_after(text, tokens, from, k) matches Some(c) ==> in_text(text, c),
    decreases tokens.len() - k,
{
    if 0 <= k < tokens.len() && !(from.before(tokens[k]) && in_text(text, tokens[k])) {
        lemma_token_after(text, tokens, from, k + 1);
    }
}

proof fn lemma_token_before(text: Seq<Seq<char>>, tokens: Seq<Cursor>, from: Cursor, k: int)
    ensures
        token_before(text, tokens, from, k) matches Some(c) ==> in_text(text, c),
    decreases k,
{
    if 0 < k <= tokens.len() && !(tokens[k - 1].before(from) && in_text(text, tokens[k - 1])) {
        lemma_token_before(text, tokens, from, k - 1);
    }
}

/// A motion that starts in the text ends in the text. From any column of an
/// existing line it ends in an existing line.
#[verifier::rlimit(50)]
pub proof fn law_step_in_text(d: Doc, from: Cursor, motion: MotionKind)
    requires
        d.countable(),
        from.row < d.text.len(),
        walks_back(motion) ==> in_text(d.text, from),
    ensures
        d.step(from, motion).row < d.text.len(),
        walks_back(motion) ==> in_text(d.text, d.step(from, motion)),
        in_text(d.text, from) ==> in_text(d.text, d.step(from, motion)),
{
    let row = from.row as int;
    let line = d.text[row];
    let end = d.text[d.text.len() - 1];
    lemma_skip_space_range(line, 0);
    lemma_last_ink_range(line, line.len() - 1);
    lemma_token_after(d.text, d.tokens, from, 0);
    lemma_token_before(d.text, d.tokens, from, d.tokens.len() as int);
    match motion {
        MotionKind::WordForward | MotionKind::WordEnd | MotionKind::BigWordForward | MotionKind::BigWordEnd
        | MotionKind::WordEndBack | MotionKind::BigWordEndBack => {
            word::law_seek(d.text, word::Mark::Start { big: false }, row, from.col + 1);
            word::law_seek(d.text, word::Mark::Start { big: true }, row, from.col + 1);
            word::law_seek(d.text, word::Mark::End { big: false }, row, from.col + 1);
            word::law_seek(d.text, word::Mark::End { big: true }, row, from.col + 1);
            word::law_seek_back(d.text, word::Mark::End { big: false }, row, from.col - 1);
            word::law_seek_back(d.text, word::Mark::End { big: true }, row, from.col - 1);
        },
        MotionKind::WordBack => {
            word::law_word_motions_in_text(d.text, from, false);
        },
        MotionKind::BigWordBack => {
            word::law_word_motions_in_text(d.text, from, true);
        },
        MotionKind::BracketMatch => {
            bracket::lemma_bracket_in_text(d.text, from);
        },
        MotionKind::FindChar { ch, forward, till } => {
            find::law_first_at(line, ch, from.col + 1);
            if !forward {
                find::law_last_before(line, ch, from.col as int);
            }
        },
        MotionKind::ParagraphForward => {
            lemma_next_row_range(d.text, row + 1, false);
            lemma_next_row_range(d.text, row + 1, true);
            lemma_next_row_range(d.text, next_row(d.text, row + 1, false), true);
        },
        MotionKind::ParagraphBack => {
            if row > 0 {
                lemma_prev_row_range(d.text, row - 1, false);
                lemma_prev_row_range(d.text, row - 1, true);
                lemma_prev_row_range(d.text, prev_row(d.text, row - 1, false), true);
            }
        },
        _ => {},
    }
}

/// Any number of steps from within the text stays in the text.
pub proof fn law_steps_in_text(d: Doc, from: Cursor, motion: MotionKind, n: int)
    requires
        d.countable(),
        from.row < d.text.len(),
        walks_back(motion) ==> in_text(d.text, from),
    ensures
        d.steps(from, motion, n).row < d.text.len(),
        walks_back(motion) ==> in_text(d.text, d.steps(from, motion, n)),
        in_text(d.text, from) ==> in_text(d.text, d.steps(from, motion, n)),
    decreases n,
{
    if n > 0 {
        law_steps_in_text(d, from, motion, n - 1);
        law_step_in_text(d, d.steps(from, motion, n - 1), motion);
    }
}

impl Buffer {
    /// Where a motion with a count leads from `from`.
    pub fn motion_target(&self, from: Cursor, motion: MotionKind, count: u32) -> (r: Cursor)
        requires
            from.row < self.lines.len(),
            walks_back(motion) ==> in_text(self@.text, from),
        ensures
            r == self@.target(from, motion, count),
            r.row < self.lines.len(),
            in_text(self@.text, from) ==> in_text(self@.text, r),
    {
        let n: u32 = if count == 0 { 1 } else { count };
        let mut c = from;
        let mut i: u32 = 0;
        while i < n
            invariant
                i <= n,
                from.row < self.lines.len(),
                c == self@.steps(from, motion, i as int),
                c.row < self.lines.len(),
                walks_back(motion) ==> in_text(self@.text, c),
                in_text(self@.text, from) ==> in_text(self@.text, c),
            decreases n - i,
        {
            c = self.motion_step(c, motion);
            i = i + 1;
        }
        c
    }

    /// Where one step of a motion leads from `from`.
    pub fn motion_step(&self, from: Cursor, motion: MotionKind) -> (r: Cursor)
        requires
            from.row < self.lines.len(),
            walks_back(motion) ==> in_text(self@.text, from),
        ensures
            r == self@.step(from, motion),
            r.row < self.lines.len(),
            walks_back(motion) ==> in_text(self@.text, r),
            in_text(self@.text, from) ==> in_text(self@.text, r),
    {
        let last = self.lines.len() - 1;
        let max = self.line_chars(from.row).len().saturating_sub(1);
        match motion {
            MotionKind::Left => Cursor { row: from.row, col: from.col.saturating_sub(1) },
            MotionKind::Right => Cursor { row: from.row, col: if from.col < max { from.col + 1 } else { max } },
            MotionKind::Up => viewport::keep_col(self, from, from.row.saturating_sub(1)),
            MotionKind::Down => viewport::keep_col(
                self,
                from,
                if from.row < last { from.row + 1 } else { last },
            ),
            MotionKind::LineStart => Cursor { row: from.row, col: 0 },
            MotionKind::LineEnd => Cursor { row: from.row, col: max },
            MotionKind::LineFirstNonBlank => Cursor {
                row: from.row,
                col: first_non_blank(self.lines[from.row].as_str()),
            },
            MotionKind::LineLastNonBlank => Cursor {
                row: from.row,
                col: last_non_blank(self.lines[from.row].as_str()),
            },
            MotionKind::WordForward => self.peek_word_forward(from),
            MotionKind::WordBack => self.peek_word_back(from),
            MotionKind::WordEnd => word_end_char_class(&self.lines, from, false),
            MotionKind::BigWordForward => big_word_forward(&self.lines, from),
            MotionKind::BigWordBack => big_word_back(&self.lines, from),
            MotionKind::BigWordEnd => word_end_char_class(&self.lines, from, true),
            MotionKind::WordEndBack => word_end_back(&self.lines, from, false),
            MotionKind::BigWordEndBack => word_end_back(&self.lines, from, true),
            MotionKind::BracketMatch => match bracket_match(&self.lines, from) {
                Some(c) => c,
                None => from,
            },
            MotionKind::FindChar { ch, forward, till } => find_char(
                self.lines[from.row].as_str(),
                from,
                ch,
                forward,
                till,
            ),
            MotionKind::FileStart => Cursor { row: 0, col: 0 },
            MotionKind::FileEnd => Cursor {
                row: last,
                col: self.line_chars(last).len().saturating_sub(1),
            },
            MotionKind::ParagraphForward => Cursor {
                row: paragraph_forward_row(&self.lines, from.row),
                col: 0,
            },
            MotionKind::ParagraphBack => Cursor { row: paragraph_back_row(&self.lines, from.row), col: 0 },
            MotionKind::ViewportTop | MotionKind::ViewportMiddle | MotionKind::ViewportBottom => viewport_target(
                self,
                from,
                motion,
            ),
            MotionKind::HalfPageDown | MotionKind::HalfPageUp | MotionKind::PageDown | MotionKind::PageUp => page_target(
                self,
                from,
                motion,
            ),
            MotionKind::SearchWordForward | MotionKind::SearchWordBack | MotionKind::RepeatFind { .. }
            | MotionKind::SearchNext | MotionKind::SearchPrev => from,
        }
    }

    /// The next word: the next token of the syntax tree where there is one,
    /// else the next word by character class.
    fn peek_word_forward(&self, from: Cursor) -> (r: Cursor)
        requires
            from.row < self.lines.len(),
        ensures
            r == self@.word_forward(from),
            in_text(self@.text, r),
    {
        let mut k: usize = 0;
        while k < self.token_starts.len()
            invariant
                k <= self.token_starts.len(),
                token_after(self@.text, self@.tokens, from, 0) == token_after(
                    self@.text,
                    self@.tokens,
                    from,
                    k as int,
                ),
            decreases self.token_starts.len() - k,
        {
            let t = self.token_starts[k];
            if from.is_before(t) && self.holds(t) {
                return t;
            }
            k = k + 1;
        }
        word_forward_char_class(&self.lines, from)
    }

    /// The previous word, in the same way.
    fn peek_word_back(&self, from: Cursor) -> (r: Cursor)
        requires
            in_text(self@.text, from),
        ensures
            r == self@.word_back(from),
            in_text(self@.text, r),
    {
        let mut k: usize = self.token_starts.len();
        while k > 0
            invariant
                k <= self.token_starts.len(),
                token_before(self@.text, self@.tokens, from, self@.tokens.len() as int) == token_before(
                    self@.text,
                    self@.tokens,
                    from,
                    k as int,
                ),
            decreases k,
        {
            let t = self.token_starts[k - 1];
            if t.is_before(from) && self.holds(t) {
                return t;
            }
            k = k - 1;
        }
        word_back_char_class(&self.lines, from)
    }

    /// Whether a position lies in the text.
    pub fn holds(&self, c: Cursor) -> (r: bool)
        ensures
            r == in_text(self@.text, c),
    {
        c.row < self.lines.len() && c.col <= self.line_chars(c.row).len()
    }

    pub fn move_word_forward(&mut self)
        requires
            old(self).cursor.row < old(self).lines.len(),
        ensures
            old(self)@.wf() ==> final(self)@.wf(),
            final(self)@ == (Doc { cursor: old(self)@.word_forward(old(self)@.cursor), ..old(self)@ }),
            in_text(final(self)@.text, final(self)@.cursor),
    {
        self.cursor = self.peek_word_forward(self.cursor);
    }

    pub fn move_word_backward(&mut self)
        requires
            in_text(old(self)@.text, old(self)@.cursor),
        ensures
            old(self)@.wf() ==> final(self)@.wf(),
            final(self)@ == (Doc { cursor: old(self)@.word_back(old(self)@.cursor), ..old(self)@ }),
            in_text(final(self)@.text, final(self)@.cursor),
    {
        self.cursor = self.peek_word_back(self.cursor);
    }

    pub fn move_paragraph_forward(&mut self)
        requires
            old(self).cursor.row < old(self).lines.len(),
        ensures
            old(self)@.wf() ==> final(self)@.wf(),
            final(self)@ == old(self)@.at(paragraph_end(old(self)@.text, old(self)@.cursor.row as int), 0),
            in_text(final(self)@.text, final(self)@.cursor),
    {
        self.cursor.row = paragraph_forward_row(&self.lines, self.cursor.row);
        self.cursor.col = 0;
    }

    pub fn move_paragraph_backward(&mut self)
        requires
            old(self).cursor.row < old(self).lines.len(),
        ensures
            old(self)@.wf() ==> final(self)@.wf(),
            final(self)@ == old(self)@.at(paragraph_start(old(self)@.text, old(self)@.cursor.row as int), 0),
            in_text(final(self)@.text, final(self)@.cursor),
    {
        self.cursor.row = paragraph_back_row(&self.lines, self.cursor.row);
        self.cursor.col = 0;
    }
}

} // verus!
