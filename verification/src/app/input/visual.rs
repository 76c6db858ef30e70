//! Keys in the visual modes.
use vstd::prelude::*;
use crate::action::{MotionKind, Operator};
use crate::app::status::Level;
use crate::app::types::Selection;
use crate::app::{App, Desk};
use crate::editor::case::Span;
use crate::editor::repeat::Step;
use crate::editor::{Buffer, Cursor, Doc};
use crate::keys::{KeyCode, KeyEvent};
use crate::mode::Mode;

verus! {

/// The motion of a key in a visual mode.
pub open spec fn visual_motion(key: KeyEvent) -> Option<MotionKind> {
    if key.modifiers.control {
        match key.code {
            KeyCode::Char(c) => if c == 'd' {
                Some(MotionKind::HalfPageDown)
            } else if c == 'u' {
                Some(MotionKind::HalfPageUp)
            } else if c == 'f' {
                Some(MotionKind::PageDown)
            } else if c == 'b' {
                Some(MotionKind::PageUp)
            } else {
                None
            },
            _ => None,
        }
    } else {
        match key.code {
            KeyCode::End => Some(MotionKind::LineEnd),
            KeyCode::Char(c) => match c {
                'w' => Some(MotionKind::WordForward),
                'b' => Some(MotionKind::WordBack),
                'e' => Some(MotionKind::WordEnd),
                'W' => Some(MotionKind::BigWordForward),
                'B' => Some(MotionKind::BigWordBack),
                'E' => Some(MotionKind::BigWordEnd),
                '^' => Some(MotionKind::LineFirstNonBlank),
                '$' => Some(MotionKind::LineEnd),
                '%' => Some(MotionKind::BracketMatch),
                'H' => Some(MotionKind::ViewportTop),
                'M' => Some(MotionKind::ViewportMiddle),
                'L' => Some(MotionKind::ViewportBottom),
                '{' => Some(MotionKind::ParagraphBack),
                '}' => Some(MotionKind::ParagraphForward),
                _ => None,
            },
            _ => None,
        }
    }
}

/// The motion of a key in a visual mode. Keys that need handling of their
/// own have none.
pub fn visual_motion_for(key: KeyEvent) -> (r: Option<MotionKind>)
    ensures
        r == visual_motion(key),
{
    if key.modifiers.control {
        return match key.code {
            KeyCode::Char('d') => Some(MotionKind::HalfPageDown),
            KeyCode::Char('u') => Some(MotionKind::HalfPageUp),
            KeyCode::Char('f') => Some(MotionKind::PageDown),
            KeyCode::Char('b') => Some(MotionKind::PageUp),
            _ => None,
        };
    }
    match key.code {
        KeyCode::Char('w') => Some(MotionKind::WordForward),
        KeyCode::Char('b') => Some(MotionKind::WordBack),
        KeyCode::Char('e') => Some(MotionKind::WordEnd),
        KeyCode::Char('W') => Some(MotionKind::BigWordForward),
        KeyCode::Char('B') => Some(MotionKind::BigWordBack),
        KeyCode::Char('E') => Some(MotionKind::BigWordEnd),
        KeyCode::Char('^') => Some(MotionKind::LineFirstNonBlank),
        KeyCode::Char('$') | KeyCode::End => Some(MotionKind::LineEnd),
        KeyCode::Char('%') => Some(MotionKind::BracketMatch),
        KeyCode::Char('H') => Some(MotionKind::ViewportTop),
        KeyCode::Char('M') => Some(MotionKind::ViewportMiddle),
        KeyCode::Char('L') => Some(MotionKind::ViewportBottom),
        KeyCode::Char('{') => Some(MotionKind::ParagraphBack),
        KeyCode::Char('}') => Some(MotionKind::ParagraphForward),
        _ => None,
    }
}

impl Doc {
    /// What is selected, copied into the yank register. The cursor goes to
    /// its start.
    #[verifier::opaque]
    pub open spec fn yank_selection(self, sel: Selection) -> Doc {
        match sel {
            Selection::Char { from, to } => Doc { cursor: from, ..self.yank_range(from, self.next_pos(to)) },
            Selection::Line { from_row, to_row } => self.yank_lines(from_row as int, to_row as int).at(
                from_row as int,
                0,
            ),
            Selection::Block { r0, c0, r1, c1 } => self.yank_block(r0 as int, c0 as int, r1 as int, c1 as int).at(
                r0 as int,
                c0 as int,
            ),
        }
    }

    /// What is selected, deleted.
    #[verifier::opaque]
    pub open spec fn delete_selection(self, sel: Selection) -> Doc {
        match sel {
            Selection::Char { from, to } => self.delete_range(from, self.next_pos(to)),
            Selection::Line { from_row, to_row } => self.delete_lines(from_row as int, to_row as int),
            Selection::Block { r0, c0, r1, c1 } => self.delete_block(r0 as int, c0 as int, r1 as int, c1 as int),
        }
    }

    /// What is selected, in its other case.
    #[verifier::opaque]
    pub open spec fn flip_selection(self, sel: Selection) -> Doc {
        match sel {
            Selection::Char { from, to } => self.flip_span(Span::Range { from, to: self.next_pos(to) }),
            Selection::Line { from_row, to_row } => self.flip_span(Span::Lines { from_row, to_row }),
            Selection::Block { r0, c0, r1, c1 } => self.flip_span(Span::Block { r0, c0, r1, c1 }),
        }
    }

    /// The lines `a..=b` joined into the first.
    #[verifier::opaque]
    pub open spec fn join_rows(self, a: int, b: int) -> Doc {
        self.at(a, 0).repeated(Step::JoinNext, b - a)
    }
}

/// The rows of a selection.
pub open spec fn selected_rows(sel: Selection) -> (int, int) {
    match sel {
        Selection::Char { from, to } => (from.row as int, to.row as int),
        Selection::Line { from_row, to_row } => (from_row as int, to_row as int),
        Selection::Block { r0, c0, r1, c1 } => (r0 as int, r1 as int),
    }
}

/// Whether a selection lies in the text.
pub open spec fn lies_in(d: Doc, sel: Selection) -> bool {
    let (a, b) = selected_rows(sel);
    &&& a <= b < d.text.len()
    &&& (sel matches Selection::Char { from, to } ==> crate::editor::in_text(d.text, from))
    &&& (sel matches Selection::Block { r0, c0, r1, c1 } ==> c0 <= d.text[r0 as int].len())
}

fn yank_selection(buf: &mut Buffer, sel: Selection)
    requires
        old(buf)@.wf(),
        lies_in(old(buf)@, sel),
    ensures
        final(buf)@ == old(buf)@.yank_selection(sel),
        final(buf)@.wf(),
        final(buf)@.text == old(buf)@.text,
{
    reveal(Doc::yank_selection);
    assert(buf@.text.len() == buf.lines@.len());
    match sel {
        Selection::Char { from, to } => {
            let end = buf.advance_one(to);
            buf.yank_range(from, end);
            buf.cursor = from;
        },
        Selection::Line { from_row, to_row } => {
            buf.yank_lines(from_row, to_row);
            buf.cursor = Cursor { row: from_row, col: 0 };
        },
        Selection::Block { r0, c0, r1, c1 } => {
            buf.yank_block(r0, c0, r1, c1);
            buf.cursor = Cursor { row: r0, col: c0 };
        },
    }
}

fn delete_selection(buf: &mut Buffer, sel: Selection)
    requires
        old(buf)@.wf(),
        lies_in(old(buf)@, sel),
    ensures
        final(buf)@ == old(buf)@.delete_selection(sel),
        final(buf)@.wf(),
{
    reveal(Doc::delete_selection);
    assert(buf@.text.len() == buf.lines@.len());
    match sel {
        Selection::Char { from, to } => {
            let end = buf.advance_one(to);
            buf.delete_range(from, end);
        },
        Selection::Line { from_row, to_row } => buf.delete_lines(from_row, to_row),
        Selection::Block { r0, c0, r1, c1 } => buf.delete_block(r0, c0, r1, c1),
    }
}

fn flip_selection(buf: &mut Buffer, sel: Selection)
    requires
        old(buf)@.wf(),
        lies_in(old(buf)@, sel),
    ensures
        final(buf)@ == old(buf)@.flip_selection(sel),
        final(buf).lines.len() == old(buf).lines.len(),
        final(buf)@.text.len() == old(buf)@.text.len(),
        final(buf)@.cursor == old(buf)@.cursor,
        final(buf)@.undo == old(buf)@.undo,
        final(buf)@.redo == old(buf)@.redo,
{
    reveal(Doc::flip_selection);
    assert(buf@.text.len() == buf.lines@.len());
    match sel {
        Selection::Char { from, to } => {
            let end = buf.advance_one(to);
            buf.toggle_case_range(from, end);
        },
        Selection::Line { from_row, to_row } => buf.toggle_case_lines(from_row, to_row),
        Selection::Block { r0, c0, r1, c1 } => buf.toggle_case_block(r0, c0, r1, c1),
    }
}

fn join_rows(buf: &mut Buffer, a: usize, b: usize)
    requires
        old(buf)@.wf(),
        a <= b,
        a < old(buf)@.text.len(),
    ensures
        final(buf)@ == old(buf)@.join_rows(a as int, b as int),
        final(buf)@.wf(),
{
    reveal(Doc::join_rows);
    buf.cursor = Cursor { row: a, col: 0 };
    let ghost d = buf@;
    let n = b - a;
    let mut i: usize = 0;
    while i < n
        invariant
            i <= n,
            buf@ == d.repeated(Step::JoinNext, i as int),
            buf@.wf(),
        decreases n - i,
    {
        buf.step(Step::JoinNext);
        i = i + 1;
    }
}

impl Desk {
    /// Takes the cursor along a motion. The selection follows, since its
    /// anchor stays.
    #[verifier::opaque]
    pub open spec fn visual_move(self, motion: MotionKind) -> Desk {
        self.with_doc(Doc { cursor: self.doc.target(self.doc.cursor, motion, 1), ..self.doc })
    }

    /// The anchor and the cursor change places.
    pub open spec fn swapped(self) -> Desk {
        match self.anchor {
            Some(a) => Desk { anchor: Some(self.doc.cursor), doc: Doc { cursor: a, ..self.doc }, ..self },
            None => self,
        }
    }

    /// Goes over to another visual mode, or out of the one that is on.
    pub open spec fn visual_toggled(self, mode: Mode) -> Desk {
        if self.mode == mode {
            self.entered(Mode::Normal)
        } else {
            Desk { mode, ..self }
        }
    }

    /// Copies what is selected and ends the selection.
    #[verifier::opaque]
    pub open spec fn visual_yank(self) -> Desk {
        match self.selection() {
            Some(s) => self.with_doc(self.doc.yank_selection(s)).saying(Level::Info, "yanked"@).entered(Mode::Normal),
            None => self.entered(Mode::Normal),
        }
    }

    /// Deletes what is selected and ends the selection.
    #[verifier::opaque]
    pub open spec fn visual_delete(self) -> Desk {
        let d = self.with_doc(self.doc.snapshot());
        match self.selection() {
            Some(s) => d.with_doc(d.doc.delete_selection(s)).entered(Mode::Normal),
            None => d.entered(Mode::Normal),
        }
    }

    /// Deletes what is selected and goes on in insert mode.
    #[verifier::opaque]
    pub open spec fn visual_change(self) -> Desk {
        let d = self.with_doc(self.doc.snapshot());
        match self.selection() {
            Some(s) => d.with_doc(d.doc.delete_selection(s)).entered(Mode::Insert),
            None => d,
        }
    }

    /// Swaps the case of what is selected and ends the selection.
    #[verifier::opaque]
    pub open spec fn visual_flip(self) -> Desk {
        match self.selection() {
            Some(s) => self.with_doc(self.doc.snapshot().flip_selection(s)).entered(Mode::Normal),
            None => self,
        }
    }

    /// Joins the selected lines and ends the selection. A single line stays
    /// as it is, and selected.
    #[verifier::opaque]
    pub open spec fn visual_join(self) -> Desk {
        match self.selection() {
            Some(s) => {
                let (a, b) = selected_rows(s);
                if a == b {
                    self
                } else {
                    self.with_doc(self.doc.snapshot().join_rows(a, b)).entered(Mode::Normal)
                }
            },
            None => self,
        }
    }

    /// The second key after `g`.
    pub open spec fn visual_g_key(self, code: KeyCode) -> Desk {
        match code {
            KeyCode::Char(c) => match c {
                'g' => self.with_doc(self.doc.file_start()),
                'e' => self.visual_move(MotionKind::WordEndBack),
                'E' => self.visual_move(MotionKind::BigWordEndBack),
                '_' => self.visual_move(MotionKind::LineLastNonBlank),
                's' => self.visual_move(MotionKind::LineFirstNonBlank),
                'l' => self.visual_move(MotionKind::LineEnd),
                'c' => self.visual_move(MotionKind::ViewportMiddle),
                'b' => self.visual_move(MotionKind::ViewportBottom),
                'n' => self.search_select(self.forward),
                'N' => self.search_select(!self.forward),
                _ => self,
            },
            _ => self,
        }
    }

    /// A key by itself that is no motion.
    pub open spec fn visual_plain_key(self, key: KeyEvent) -> Desk {
        let d = self.doc;
        let ctrl = key.modifiers.control;
        match key.code {
            KeyCode::Esc => self.entered(Mode::Normal),
            KeyCode::Left => self.with_doc(d.left()),
            KeyCode::Right => self.with_doc(d.right(false)),
            KeyCode::Down => self.with_doc(d.down()),
            KeyCode::Up => self.with_doc(d.up()),
            KeyCode::Home => self.with_doc(d.line_start()),
            KeyCode::Char(c) => match c {
                'h' => self.with_doc(d.left()),
                'l' => self.with_doc(d.right(false)),
                'j' => self.with_doc(d.down()),
                'k' => self.with_doc(d.up()),
                '0' => self.with_doc(d.line_start()),
                'G' => self.with_doc(d.file_end()),
                'g' => Desk { g_pending: true, ..self },
                '*' => self.search_word(true),
                '#' => self.search_word(false),
                'o' => self.swapped(),
                'v' => self.visual_toggled(
                    if ctrl {
                        Mode::VisualBlock
                    } else {
                        Mode::Visual
                    },
                ),
                'V' => self.visual_toggled(Mode::VisualLine),
                'y' => self.visual_yank(),
                'd' => self.visual_delete(),
                'x' => self.visual_delete(),
                'c' => self.visual_change(),
                's' => self.visual_change(),
                '~' => self.visual_flip(),
                'J' => self.visual_join(),
                _ => self,
            },
            _ => self,
        }
    }

    /// A key in a visual mode.
    pub open spec fn visual_key(self, key: KeyEvent) -> Desk {
        if self.g_pending {
            Desk { g_pending: false, ..self }.visual_g_key(key.code)
        } else {
            match visual_motion(key) {
                Some(m) => self.visual_move(m),
                None => self.visual_plain_key(key),
            }
        }
    }
}

proof fn lemma_selection_lies_in(desk: Desk)
    requires
        desk.wf(),
    ensures
        desk.selection() matches Some(s) ==> lies_in(desk.doc, s) && lies_in(desk.doc.snapshot(), s),
{
}

impl App {
    fn apply_visual_motion(&mut self, motion: MotionKind)
        requires
            old(self).wf(),
        ensures
            final(self)@ == old(self)@.visual_move(motion),
            final(self).wf(),
    {
        reveal(Desk::visual_move);
        let target = self.buffer.motion_target(self.buffer.cursor, motion, 1);
        self.buffer.cursor = target;
    }

    /// The anchor and the cursor change places.
    pub fn swap_visual_endpoints(&mut self)
        requires
            old(self).wf(),
        ensures
            final(self)@ == old(self)@.swapped(),
            final(self).wf(),
    {
        if let Some(a) = self.visual_anchor {
            let c = self.buffer.cursor;
            self.buffer.cursor = a;
            self.visual_anchor = Some(c);
        }
    }

    /// Goes over to another visual mode, or out of the one that is on.
    pub fn toggle_visual(&mut self, target: Mode)
        requires
            old(self).wf(),
        ensures
            final(self)@ == old(self)@.visual_toggled(target),
            final(self).wf(),
    {
        if self.mode == target {
            self.enter_mode(Mode::Normal);
        } else {
            self.mode = target;
        }
    }

    fn leave_visual(&mut self, mode: Mode)
        requires
            old(self).buffer@.wf(),
            (Desk { anchor: None, ..old(self)@ }).wf(),
            mode is Normal || mode is Insert,
        ensures
            final(self)@ == old(self)@.entered(mode),
            final(self).wf(),
    {
        self.visual_anchor = None;
        self.enter_mode(mode);
    }

    /// Applies an operator to what is selected: copying, deleting, or
    /// deleting and going on in insert mode.
    pub fn apply_visual_op(&mut self, op: Operator)
        requires
            old(self).wf(),
            op is Yank || op is Delete || op is Change,
        ensures
            final(self)@ == match op {
                Operator::Yank => old(self)@.visual_yank(),
                Operator::Delete => old(self)@.visual_delete(),
                _ => old(self)@.visual_change(),
            },
            final(self).wf(),
    {
        reveal(Desk::visual_yank);
        reveal(Desk::visual_delete);
        reveal(Desk::visual_change);
        proof {
            lemma_selection_lies_in(self@);
        }
        let sel = self.selection();
        match op {
            Operator::Yank => {
                if let Some(s) = sel {
                    yank_selection(&mut self.buffer, s);
                    self.say(Level::Info, "yanked");
                }
                self.leave_visual(Mode::Normal);
            },
            Operator::Delete => {
                self.buffer.snapshot();
                if let Some(s) = sel {
                    delete_selection(&mut self.buffer, s);
                }
                self.leave_visual(Mode::Normal);
            },
            _ => {
                self.buffer.snapshot();
                if let Some(s) = sel {
                    delete_selection(&mut self.buffer, s);
                    self.leave_visual(Mode::Insert);
                }
            },
        }
    }

    /// Swaps the case of what is selected.
    pub fn toggle_case_selection(&mut self)
        requires
            old(self).wf(),
        ensures
            final(self)@ == old(self)@.visual_flip(),
            final(self).wf(),
    {
        reveal(Desk::visual_flip);
        proof {
            lemma_selection_lies_in(self@);
        }
        let s = match self.selection() {
            Some(s) => s,
            None => return,
        };
        self.buffer.snapshot();
        flip_selection(&mut self.buffer, s);
        self.visual_anchor = None;
        self.buffer.clamp_col(false);
        self.mode = Mode::Normal;
    }

    /// Joins the selected lines.
    pub fn join_selection_lines(&mut self)
        requires
            old(self).wf(),
        ensures
            final(self)@ == old(self)@.visual_join(),
            final(self).wf(),
    {
        reveal(Desk::visual_join);
        proof {
            lemma_selection_lies_in(self@);
        }
        let s = match self.selection() {
            Some(s) => s,
            None => return,
        };
        let (a, b) = match s {
            Selection::Char { from, to } => (from.row, to.row),
            Selection::Line { from_row, to_row } => (from_row, to_row),
            Selection::Block { r0, r1, .. } => (r0, r1),
        };
        if a == b {
            return;
        }
        self.buffer.snapshot();
        join_rows(&mut self.buffer, a, b);
        self.leave_visual(Mode::Normal);
    }

    fn visual_g_key(&mut self, code: KeyCode)
        requires
            old(self).wf(),
        ensures
            final(self)@ == old(self)@.visual_g_key(code),
            final(self).wf(),
    {
        match code {
            KeyCode::Char('g') => self.buffer.move_file_start(),
            KeyCode::Char('e') => self.apply_visual_motion(MotionKind::WordEndBack),
            KeyCode::Char('E') => self.apply_visual_motion(MotionKind::BigWordEndBack),
            KeyCode::Char('_') => self.apply_visual_motion(MotionKind::LineLastNonBlank),
            KeyCode::Char('s') => self.apply_visual_motion(MotionKind::LineFirstNonBlank),
            KeyCode::Char('l') => self.apply_visual_motion(MotionKind::LineEnd),
            KeyCode::Char('c') => self.apply_visual_motion(MotionKind::ViewportMiddle),
            KeyCode::Char('b') => self.apply_visual_motion(MotionKind::ViewportBottom),
            KeyCode::Char('n') => self.run_search_select(self.search.last_forward),
            KeyCode::Char('N') => self.run_search_select(!self.search.last_forward),
            _ => {},
        }
    }

    fn visual_plain_key(&mut self, key: KeyEvent)
        requires
            old(self).wf(),
        ensures
            final(self)@ == old(self)@.visual_plain_key(key),
            final(self).wf(),
    {
        let ctrl = key.modifiers.control;
        match key.code {
            KeyCode::Esc => self.enter_mode(Mode::Normal),
            KeyCode::Char('h') | KeyCode::Left => self.buffer.move_left(),
            KeyCode::Char('l') | KeyCode::Right => self.buffer.move_right(false),
            KeyCode::Char('j') | KeyCode::Down => self.buffer.move_down(),
            KeyCode::Char('k') | KeyCode::Up => self.buffer.move_up(),
            KeyCode::Char('0') | KeyCode::Home => self.buffer.move_line_start(),
            KeyCode::Char('G') => self.buffer.move_file_end(),
            KeyCode::Char('g') => {
                self.visual_g_pending = true;
            },
            KeyCode::Char('*') => self.search_word_under_cursor(true),
            KeyCode::Char('#') => self.search_word_under_cursor(false),
            KeyCode::Char('o') => self.swap_visual_endpoints(),
            KeyCode::Char('v') => self.toggle_visual(if ctrl { Mode::VisualBlock } else { Mode::Visual }),
            KeyCode::Char('V') => self.toggle_visual(Mode::VisualLine),
            KeyCode::Char('y') => self.apply_visual_op(Operator::Yank),
            KeyCode::Char('d') | KeyCode::Char('x') => self.apply_visual_op(Operator::Delete),
            KeyCode::Char('c') | KeyCode::Char('s') => self.apply_visual_op(Operator::Change),
            KeyCode::Char('~') => self.toggle_case_selection(),
            KeyCode::Char('J') => self.join_selection_lines(),
            _ => {},
        }
    }

    /// Takes a key in a visual mode.
    pub fn handle_visual_key(&mut self, key: KeyEvent)
        requires
            old(self).wf(),
        ensures
            final(self)@ == old(self)@.visual_key(key),
            final(self).wf(),
    {
        if self.visual_g_pending {
            self.visual_g_pending = false;
            self.visual_g_key(key.code);
            return;
        }
        match visual_motion_for(key) {
            Some(m) => self.apply_visual_motion(m),
            None => self.visual_plain_key(key),
        }
    }
}

/// To swap the ends of a selection twice changes nothing.
pub proof fn law_swapped_twice(d: Desk)
    ensures
        d.swapped().swapped() == d,
{
}

} // verus!
