//! Edits and movements that a count repeats.
use vstd::prelude::*;
use crate::editor::motion::{paragraph_end, paragraph_start};
use crate::editor::{Buffer, Doc};

verus! {

/// One step of a command that a count repeats.
#[derive(Debug, Clone, Copy, PartialEq, Eq, Structural)]
pub enum Step {
    Left,
    Right { past_end: bool },
    Up,
    Down,
    WordForward,
    WordBack,
    ParagraphForward,
    ParagraphBack,
    YankLine,
    DeleteLine,
    JoinNext,
    ToggleCase,
    DeleteChar,
    /// Replace a character and go on to the next one.
    Replace { ch: char },
    Paste,
}

impl Doc {
    pub open spec fn stepped(self, s: Step) -> Doc {
        match s {
            Step::Left => self.left(),
            Step::Right { past_end } => self.right(past_end),
            Step::Up => self.up(),
            Step::Down => self.down(),
            Step::WordForward => Doc { cursor: self.word_forward(self.cursor), ..self },
            Step::WordBack => Doc { cursor: self.word_back(self.cursor), ..self },
            Step::ParagraphForward => self.at(paragraph_end(self.text, self.cursor.row as int), 0),
            Step::ParagraphBack => self.at(paragraph_start(self.text, self.cursor.row as int), 0),
            Step::YankLine => self.yank_line(),
            Step::DeleteLine => self.delete_line(),
            Step::JoinNext => self.join_next(),
            Step::ToggleCase => self.toggle_case(),
            Step::DeleteChar => self.delete_char(),
            Step::Replace { ch } => self.replace_char(ch).right(false),
            Step::Paste => self.paste_after(),
        }
    }

    /// Puts `ch` in place of `n` characters, the one under the cursor first.
    /// The cursor ends on the last one that was replaced.
    pub open spec fn replaced(self, ch: char, n: int) -> Doc {
        if n <= 0 {
            self.left()
        } else {
            self.repeated((Step::Replace { ch }), n - 1).replace_char(ch)
        }
    }

    /// The document after `n` such steps.
    pub open spec fn repeated(self, s: Step, n: int) -> Doc
        decreases n,
    {
        if n <= 0 {
            self
        } else {
            self.repeated(s, n - 1).stepped(s)
        }
    }
}

impl Buffer {
    pub fn step(&mut self, s: Step)
        requires
            old(self)@.wf(),
        ensures
            final(self)@ == old(self)@.stepped(s),
            final(self)@.wf(),
    {
        match s {
            Step::Left => self.move_left(),
            Step::Right { past_end } => self.move_right(past_end),
            Step::Up => self.move_up(),
            Step::Down => self.move_down(),
            Step::WordForward => self.move_word_forward(),
            Step::WordBack => self.move_word_backward(),
            Step::ParagraphForward => self.move_paragraph_forward(),
            Step::ParagraphBack => self.move_paragraph_backward(),
            Step::YankLine => self.yank_line(),
            Step::DeleteLine => self.delete_line(),
            Step::JoinNext => self.join_next_line(),
            Step::ToggleCase => self.toggle_case_under_cursor(),
            Step::DeleteChar => self.delete_char_under_cursor(),
            Step::Replace { ch } => {
                self.replace_char(ch);
                self.move_right(false);
            },
            Step::Paste => self.paste_after(),
        }
    }

    /// Puts `ch` in place of as many characters as the count says.
    pub fn replace_chars(&mut self, ch: char, n: u32)
        requires
            old(self)@.wf(),
        ensures
            final(self)@ == old(self)@.replaced(ch, n as int),
            final(self)@.wf(),
    {
        if n == 0 {
            self.move_left();
        } else {
            self.repeat(Step::Replace { ch }, n - 1);
            self.replace_char(ch);
        }
    }

    /// Repeats a step.
    pub fn repeat(&mut self, s: Step, n: u32)
        requires
            old(self)@.wf(),
        ensures
            final(self)@ == old(self)@.repeated(s, n as int),
            final(self)@.wf(),
    {
        let ghost d = self@;
        let mut i: u32 = 0;
        while i < n
            invariant
                i <= n,
                self@ == d.repeated(s, i as int),
                self@.wf(),
            decreases n - i,
        {
            self.step(s);
            i = i + 1;
        }
    }
}

} // verus!
