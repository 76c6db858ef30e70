//! Movements of the cursor.
use vstd::prelude::*;
use crate::action::{MotionExpr, MotionKind};
use crate::app::eval::handle::{
    append, error, none, push_word_search, remember, remembered, resolve_motion_pure, resolved, word_search, Cmds,
};
use crate::app::{App, Desk};
use crate::editor::repeat::Step;
use crate::editor::{Buffer, Doc};
use crate::effect::{cmds_of, push_cmd, Cmd};
use crate::mode::Mode;
use crate::text::copy_str;

verus! {

/// As many steps through the matches of a search as the count says.
pub open spec fn jumps(reverse: bool, n: int) -> Cmds
    decreases n,
{
    if n <= 0 {
        Seq::empty()
    } else {
        jumps(reverse, n - 1).push(Cmd::JumpSearch { reverse })
    }
}

fn jump_cmds(reverse: bool, n: u32) -> (r: Vec<Cmd>)
    ensures
        cmds_of(r@) == jumps(reverse, n as int),
{
    let mut cmds = none();
    let mut i: u32 = 0;
    while i < n
        invariant
            i <= n,
            cmds_of(cmds@) == jumps(reverse, i as int),
        decreases n - i,
    {
        push_cmd(&mut cmds, Cmd::JumpSearch { reverse });
        i = i + 1;
    }
    cmds
}

impl Doc {
    /// Where a motion takes the cursor. A count at the start or the end of
    /// the file names a line. The motions of a search leave the cursor to the
    /// commands they ask for.
    #[verifier::opaque]
    pub open spec fn moved(self, motion: MotionKind, count: u32, past_end: bool) -> Doc {
        let n = count as int;
        match motion {
            MotionKind::Left => self.repeated(Step::Left, n),
            MotionKind::Right => self.repeated((Step::Right { past_end }), n),
            MotionKind::Up => self.repeated(Step::Up, n),
            MotionKind::Down => self.repeated(Step::Down, n),
            MotionKind::LineStart => self.line_start(),
            MotionKind::LineEnd => self.line_end(),
            MotionKind::WordForward => self.repeated(Step::WordForward, n),
            MotionKind::WordBack => self.repeated(Step::WordBack, n),
            MotionKind::FileStart => if n > 1 {
                self.goto_line(n)
            } else {
                self.file_start()
            },
            MotionKind::FileEnd => if n > 1 {
                self.goto_line(n)
            } else {
                self.file_end()
            },
            MotionKind::ParagraphForward => self.repeated(Step::ParagraphForward, n),
            MotionKind::ParagraphBack => self.repeated(Step::ParagraphBack, n),
            MotionKind::SearchWordForward => self,
            MotionKind::SearchWordBack => self,
            MotionKind::SearchNext => self,
            MotionKind::SearchPrev => self,
            MotionKind::RepeatFind { reverse } => self,
            _ => Doc { cursor: self.target(self.cursor, motion, count), ..self },
        }
    }
}

/// What a motion asks for.
pub open spec fn motion_cmds(d: Doc, motion: MotionKind, count: u32) -> Cmds {
    match motion {
        MotionKind::SearchWordForward => word_search(d, true, true),
        MotionKind::SearchWordBack => word_search(d, false, true),
        MotionKind::SearchNext => jumps(false, count as int),
        MotionKind::SearchPrev => jumps(true, count as int),
        _ => Seq::empty(),
    }
}

/// Takes the cursor along a motion.
#[verifier::rlimit(30)]
pub fn move_cursor(buf: &mut Buffer, motion: MotionKind, n: u32, past_end: bool)
    requires
        old(buf)@.wf(),
    ensures
        final(buf)@ == old(buf)@.moved(motion, n, past_end),
        final(buf)@.wf(),
        final(buf)@.text == old(buf)@.text,
{
    reveal(Doc::moved);
    let ghost d = buf@;
    match motion {
        MotionKind::Left => buf.repeat(Step::Left, n),
        MotionKind::Right => buf.repeat(Step::Right { past_end }, n),
        MotionKind::Up => buf.repeat(Step::Up, n),
        MotionKind::Down => buf.repeat(Step::Down, n),
        MotionKind::LineStart => buf.move_line_start(),
        MotionKind::LineEnd => buf.move_line_end(),
        MotionKind::WordForward => buf.repeat(Step::WordForward, n),
        MotionKind::WordBack => buf.repeat(Step::WordBack, n),
        MotionKind::FileStart => {
            if n > 1 {
                buf.goto_line_n(n as usize);
            } else {
                buf.move_file_start();
            }
        },
        MotionKind::FileEnd => {
            if n > 1 {
                buf.goto_line_n(n as usize);
            } else {
                buf.move_file_end();
            }
        },
        MotionKind::ParagraphForward => buf.repeat(Step::ParagraphForward, n),
        MotionKind::ParagraphBack => buf.repeat(Step::ParagraphBack, n),
        MotionKind::SearchWordForward
        | MotionKind::SearchWordBack
        | MotionKind::SearchNext
        | MotionKind::SearchPrev
        | MotionKind::RepeatFind { .. } => {},
        _ => {
            let target = buf.motion_target(buf.cursor, motion, n);
            buf.cursor = target;
        },
    }
    proof {
        lemma_moves_keep_text(d, Step::Left, n as int);
        lemma_moves_keep_text(d, Step::Right { past_end }, n as int);
        lemma_moves_keep_text(d, Step::Up, n as int);
        lemma_moves_keep_text(d, Step::Down, n as int);
        lemma_moves_keep_text(d, Step::WordForward, n as int);
        lemma_moves_keep_text(d, Step::WordBack, n as int);
        lemma_moves_keep_text(d, Step::ParagraphForward, n as int);
        lemma_moves_keep_text(d, Step::ParagraphBack, n as int);
    }
}

proof fn lemma_moves_keep_text(d: Doc, s: Step, n: int)
    requires
        s is Left || s is Right || s is Up || s is Down || s is WordForward || s is WordBack || s is ParagraphForward
            || s is ParagraphBack,
    ensures
        d.repeated(s, n).text == d.text,
    decreases n,
{
    if n > 0 {
        lemma_moves_keep_text(d, s, n - 1);
    }
}

impl Desk {
    /// A movement of the cursor: what becomes of the buffer, and what it asks
    /// for.
    pub open spec fn motion(self, m: MotionExpr) -> (Desk, Cmds) {
        let (meant, found) = resolved(m.motion, self.last_find);
        match meant {
            None => (self, remember(found).push(error("no previous find"@))),
            Some(motion) => (
                self.with_doc(self.doc.moved(motion, m.count, self.mode is Insert)),
                remember(found) + motion_cmds(self.doc, motion, m.count),
            ),
        }
    }
}

impl App {
    /// Moves the cursor.
    pub fn handle_motion(&mut self, m: MotionExpr) -> (r: Vec<Cmd>)
        requires
            old(self).wf(),
        ensures
            (final(self)@, cmds_of(r@)) == old(self)@.motion(m),
            final(self)@ == old(self)@.with_doc(final(self)@.doc),
            final(self).wf(),
    {
        let (meant, found) = resolve_motion_pure(m.motion, self.last_find);
        let mut cmds = remembered(found);
        let motion = match meant {
            Some(k) => k,
            None => {
                push_cmd(&mut cmds, Cmd::ToastError(copy_str("no previous find")));
                return cmds;
            },
        };
        let more = match motion {
            MotionKind::SearchWordForward => push_word_search(&self.buffer, true, true),
            MotionKind::SearchWordBack => push_word_search(&self.buffer, false, true),
            MotionKind::SearchNext => jump_cmds(false, m.count),
            MotionKind::SearchPrev => jump_cmds(true, m.count),
            _ => none(),
        };
        append(&mut cmds, more);
        let past_end = self.mode == Mode::Insert;
        move_cursor(&mut self.buffer, motion, m.count, past_end);
        cmds
    }
}

} // verus!
