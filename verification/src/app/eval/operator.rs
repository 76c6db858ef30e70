//! Operators: what is done to the text that a target covers.
use vstd::prelude::*;
use crate::action::{MotionKind, Object, Operator, Scope, Target};
use crate::app::eval::handle::{append, error, info, insert_mode, none, two, Cmds};
use crate::app::eval::{inclusive, is_inclusive_motion};
use crate::editor::repeat::Step;
use crate::editor::search::{match_near, SearchState};
use crate::editor::{Buffer, Cursor, Doc, IndentSettings};
use crate::effect::{cmds_of, push_cmd, Cmd};
use crate::mode::Mode;
use crate::text::copy_str;

verus! {

/// The lines from `lo` up to `k`, indented or dedented by one step.
pub open spec fn shifted(d: Doc, op: Operator, s: IndentSettings, lo: int, k: int) -> Doc
    decreases k - lo,
{
    if k <= lo {
        d
    } else {
        let e = shifted(d, op, s, lo, k - 1);
        if op is Indent {
            e.indent_line(k - 1, s)
        } else {
            e.dedent_line(k - 1, s)
        }
    }
}

impl Doc {
    /// Indents or dedents the lines `lo..=hi` and goes to the first of them.
    #[verifier::opaque]
    pub open spec fn shift_lines(self, op: Operator, s: IndentSettings, lo: int, hi: int) -> Doc {
        shifted(self, op, s, lo, hi + 1).at(lo, 0).first_non_blank()
    }

    /// What an operator does to the text from `a` up to `b`, and what it asks
    /// for. Indenting takes the whole lines.
    #[verifier::opaque]
    pub open spec fn op_range(self, op: Operator, a: Cursor, b: Cursor, s: IndentSettings) -> (Doc, Cmds) {
        match op {
            Operator::Delete => (self.delete_range(a, b), Seq::empty()),
            Operator::Yank => (self.yank_range(a, b), seq![Cmd::SyncYank, info("yanked"@)]),
            Operator::Change => (self.delete_range(a, b), seq![Cmd::EnterMode(Mode::Insert)]),
            _ => if b.before(a) {
                (self.shift_lines(op, s, b.row as int, a.row as int), Seq::empty())
            } else {
                (self.shift_lines(op, s, a.row as int, b.row as int), Seq::empty())
            },
        }
    }

    /// An operator on what a motion covers, `n` times.
    pub open spec fn op_motion(self, op: Operator, motion: MotionKind, count: u32, s: IndentSettings, n: int) -> (
        Doc,
        Cmds,
    )
        decreases n,
    {
        if n <= 0 {
            (self, Seq::empty())
        } else {
            let (d, c) = self.op_motion(op, motion, count, s, n - 1);
            let (e, more) = d.op_range(op, d.cursor, d.op_end(motion, count), s);
            (e, c + more)
        }
    }

    /// Where what a motion covers ends.
    #[verifier::opaque]
    pub open spec fn op_end(self, motion: MotionKind, count: u32) -> Cursor {
        let to = self.target(self.cursor, motion, count);
        if inclusive(motion) {
            self.next_pos(to)
        } else {
            to
        }
    }

    /// The next match of a search: where it starts and the place after it.
    #[verifier::opaque]
    pub open spec fn match_span(self, query: Seq<char>, forward: bool) -> Option<(Cursor, Cursor)> {
        match match_near(self.text, query, self.cursor, forward, true) {
            None => None,
            Some((r, k)) => Some(
                (
                    Cursor { row: r as usize, col: k as usize },
                    self.next_pos(Cursor { row: r as usize, col: (k + query.len() - 1) as usize }),
                ),
            ),
        }
    }

    /// An operator on matches of a search, one after the other, up to `n` of
    /// them; the third part says whether a match was missing.
    pub open spec fn op_matches(self, op: Operator, query: Seq<char>, forward: bool, s: IndentSettings, n: int) -> (
        Doc,
        Cmds,
        bool,
    )
        decreases n,
    {
        if n <= 0 {
            (self, Seq::empty(), false)
        } else {
            let (d, c, stopped) = self.op_matches(op, query, forward, s, n - 1);
            if stopped {
                (d, c, true)
            } else {
                match d.match_span(query, forward) {
                    None => (d, c.push(error("pattern not found"@)), true),
                    Some((a, b)) => {
                        let (e, more) = d.op_range(op, a, b, s);
                        (e, c + more, false)
                    },
                }
            }
        }
    }

    /// An operator on text objects, one after the other, up to `n` of them;
    /// the third part says whether there was none.
    pub open spec fn op_objects(self, op: Operator, scope: Scope, object: Object, s: IndentSettings, n: int) -> (
        Doc,
        Cmds,
        bool,
    )
        decreases n,
    {
        if n <= 0 {
            (self, Seq::empty(), false)
        } else {
            let (d, c, stopped) = self.op_objects(op, scope, object, s, n - 1);
            if stopped {
                (d, c, true)
            } else {
                match d.text_object(scope, object) {
                    None => (d, c.push(error("no matching object"@)), true),
                    Some((a, b)) => {
                        let (e, more) = d.op_range(op, a, b, s);
                        (e, c + more, false)
                    },
                }
            }
        }
    }

    /// An operator on `n` whole lines.
    #[verifier::opaque]
    pub open spec fn op_lines(self, op: Operator, s: IndentSettings, n: int) -> (Doc, Cmds) {
        match op {
            Operator::Delete => (self.repeated(Step::DeleteLine, n), Seq::empty()),
            Operator::Yank => (self.repeated(Step::YankLine, n), yanks(n)),
            Operator::Change => (self, refusals(n)),
            _ => (self.shift_lines(op, s, self.cursor.row as int, self.last_of(n)), Seq::empty()),
        }
    }

    /// An operator on its target, for a motion that is clear. `query` and
    /// `forward` are what was last searched for and in which direction.
    #[verifier::opaque]
    pub open spec fn op_target(
        self,
        op: Operator,
        target: Target,
        query: Seq<char>,
        forward: bool,
        s: IndentSettings,
        n: int,
    ) -> (Doc, Cmds) {
        match target {
            Target::LineWise => self.op_lines(op, s, n),
            Target::Motion(m) => self.op_motion(op, m.motion, m.count, s, n),
            Target::SearchMatch { reverse } => {
                let (d, c, stopped) = self.op_matches(op, query, forward != reverse, s, n);
                (d, c)
            },
            Target::TextObject { scope, object } => {
                let (d, c, stopped) = self.op_objects(op, scope, object, s, n);
                (d, c)
            },
        }
    }

    /// The last of `n` lines that start at the cursor's.
    pub open spec fn last_of(self, n: int) -> int {
        let span = if n > 1 {
            n - 1
        } else {
            0
        };
        if self.cursor.row + span < self.text.len() {
            self.cursor.row + span
        } else {
            self.text.len() - 1
        }
    }
}

/// What yanking `n` lines one after the other asks for.
pub open spec fn yanks(n: int) -> Cmds
    decreases n,
{
    if n <= 0 {
        Seq::empty()
    } else {
        yanks(n - 1).push(Cmd::SyncYank).push(info("yanked"@))
    }
}

/// What changing `n` lines answers.
pub open spec fn refusals(n: int) -> Cmds
    decreases n,
{
    if n <= 0 {
        Seq::empty()
    } else {
        refusals(n - 1).push(error("change not implemented yet"@))
    }
}

fn shift_lines(buf: &mut Buffer, op: Operator, s: IndentSettings, lo: usize, hi: usize)
    requires
        old(buf)@.wf(),
        lo <= hi < old(buf).lines.len(),
        op is Indent || op is Dedent,
    ensures
        final(buf)@ == old(buf)@.shift_lines(op, s, lo as int, hi as int),
        final(buf)@.wf(),
        final(buf)@.path == old(buf)@.path,
{
    reveal(Doc::shift_lines);
    let ghost d = buf@;
    let mut r: usize = lo;
    while r <= hi
        invariant
            lo <= r <= hi + 1 <= buf.lines.len(),
            buf.lines.len() == buf@.text.len(),
            buf@ == shifted(d, op, s, lo as int, r as int),
            buf@.undo == d.undo,
            buf@.redo == d.redo,
            buf@.path == d.path,
            d.wf(),
        decreases hi + 1 - r,
    {
        if op == Operator::Indent {
            buf.indent_line(r, s);
        } else {
            buf.dedent_line(r, s);
        }
        assert(buf@.text.len() == buf.lines@.len());
        r = r + 1;
    }
    buf.cursor = Cursor { row: lo, col: 0 };
    buf.move_first_non_blank();
}

/// Applies an operator to the text from `start` up to `end`.
pub fn apply_op_range(buf: &mut Buffer, op: Operator, start: Cursor, end: Cursor, s: IndentSettings) -> (r: Vec<Cmd>)
    requires
        old(buf)@.wf(),
        start.row < old(buf).lines.len(),
        end.row < old(buf).lines.len(),
    ensures
        (final(buf)@, cmds_of(r@)) == old(buf)@.op_range(op, start, end, s),
        final(buf)@.wf(),
        final(buf)@.path == old(buf)@.path,
{
    reveal(Doc::op_range);
    match op {
        Operator::Delete => {
            buf.delete_range(start, end);
            none()
        },
        Operator::Yank => {
            buf.yank_range(start, end);
            two(Cmd::SyncYank, Cmd::ToastInfo(copy_str("yanked")))
        },
        Operator::Change => {
            buf.delete_range(start, end);
            insert_mode()
        },
        Operator::Indent | Operator::Dedent => {
            if end.is_before(start) {
                shift_lines(buf, op, s, end.row, start.row);
            } else {
                shift_lines(buf, op, s, start.row, end.row);
            }
            none()
        },
    }
}

/// Applies an operator to `n` whole lines.
pub fn op_lines(buf: &mut Buffer, op: Operator, s: IndentSettings, n: u32) -> (r: Vec<Cmd>)
    requires
        old(buf)@.wf(),
    ensures
        (final(buf)@, cmds_of(r@)) == old(buf)@.op_lines(op, s, n as int),
        final(buf)@.wf(),
{
    reveal(Doc::op_lines);
    let mut cmds = none();
    match op {
        Operator::Delete => buf.repeat(Step::DeleteLine, n),
        Operator::Yank => {
            buf.repeat(Step::YankLine, n);
            let mut i: u32 = 0;
            while i < n
                invariant
                    i <= n,
                    cmds_of(cmds@) == yanks(i as int),
                decreases n - i,
            {
                push_cmd(&mut cmds, Cmd::SyncYank);
                push_cmd(&mut cmds, Cmd::ToastInfo(copy_str("yanked")));
                i = i + 1;
            }
        },
        Operator::Change => {
            let mut i: u32 = 0;
            while i < n
                invariant
                    i <= n,
                    cmds_of(cmds@) == refusals(i as int),
                decreases n - i,
            {
                push_cmd(&mut cmds, Cmd::ToastError(copy_str("change not implemented yet")));
                i = i + 1;
            }
        },
        Operator::Indent | Operator::Dedent => {
            let row = buf.cursor.row;
            assert(buf@.text.len() == buf.lines@.len());
            let last = buf.lines.len() - 1;
            let span: usize = if n > 1 { n as usize - 1 } else { 0 };
            let hi = if span < last - row { row + span } else { last };
            shift_lines(buf, op, s, row, hi);
        },
    }
    cmds
}

fn find_op_end(buf: &Buffer, motion: MotionKind, count: u32) -> (r: Cursor)
    requires
        buf@.wf(),
    ensures
        r == buf@.op_end(motion, count),
        r.row < buf.lines.len(),
{
    reveal(Doc::op_end);
    let target = buf.motion_target(buf.cursor, motion, count);
    if is_inclusive_motion(motion) {
        buf.advance_one(target)
    } else {
        target
    }
}

/// Applies an operator to what a motion covers, `n` times.
pub fn op_motion(buf: &mut Buffer, op: Operator, motion: MotionKind, count: u32, s: IndentSettings, n: u32) -> (r: Vec<
    Cmd,
>)
    requires
        old(buf)@.wf(),
    ensures
        (final(buf)@, cmds_of(r@)) == old(buf)@.op_motion(op, motion, count, s, n as int),
        final(buf)@.wf(),
{
    let ghost d = buf@;
    let mut cmds = none();
    let mut i: u32 = 0;
    while i < n
        invariant
            i <= n,
            buf@.wf(),
            (buf@, cmds_of(cmds@)) == d.op_motion(op, motion, count, s, i as int),
        decreases n - i,
    {
        let start = buf.cursor;
        let end = find_op_end(buf, motion, count);
        let more = apply_op_range(buf, op, start, end, s);
        append(&mut cmds, more);
        i = i + 1;
    }
    cmds
}

fn find_span(buf: &Buffer, search: &SearchState, forward: bool) -> (r: Option<(Cursor, Cursor)>)
    requires
        buf@.wf(),
    ensures
        r == buf@.match_span(search.query@, forward),
        r matches Some((a, b)) ==> a.row < buf.lines.len() && b.row < buf.lines.len(),
{
    reveal(Doc::match_span);
    match search.find_match_range(buf, forward) {
        Some((start, last)) => Some((start, buf.advance_one(last))),
        None => None,
    }
}

/// Applies an operator to matches of a search, up to `n` of them.
pub fn op_matches(buf: &mut Buffer, op: Operator, search: &SearchState, forward: bool, s: IndentSettings, n: u32) -> (r:
    Vec<Cmd>)
    requires
        old(buf)@.wf(),
    ensures
        ({
            let (d, c, stopped) = old(buf)@.op_matches(op, search.query@, forward, s, n as int);
            final(buf)@ == d && cmds_of(r@) == c
        }),
        final(buf)@.wf(),
{
    let ghost d = buf@;
    let mut cmds = none();
    let mut i: u32 = 0;
    while i < n
        invariant
            i <= n,
            buf@.wf(),
            d == old(buf)@,
            (buf@, cmds_of(cmds@), false) == d.op_matches(op, search.query@, forward, s, i as int),
        decreases n - i,
    {
        match find_span(buf, search, forward) {
            None => {
                push_cmd(&mut cmds, Cmd::ToastError(copy_str("pattern not found")));
                proof {
                    lemma_matches_stop(d, op, search.query@, forward, s, i + 1, n as int);
                }
                return cmds;
            },
            Some((start, end)) => {
                let more = apply_op_range(buf, op, start, end, s);
                append(&mut cmds, more);
            },
        }
        i = i + 1;
    }
    cmds
}

/// Applies an operator to text objects, up to `n` of them.
pub fn op_objects(buf: &mut Buffer, op: Operator, scope: Scope, object: Object, s: IndentSettings, n: u32) -> (r: Vec<
    Cmd,
>)
    requires
        old(buf)@.wf(),
    ensures
        ({
            let (d, c, stopped) = old(buf)@.op_objects(op, scope, object, s, n as int);
            final(buf)@ == d && cmds_of(r@) == c
        }),
        final(buf)@.wf(),
{
    let ghost d = buf@;
    let mut cmds = none();
    let mut i: u32 = 0;
    while i < n
        invariant
            i <= n,
            buf@.wf(),
            d == old(buf)@,
            (buf@, cmds_of(cmds@), false) == d.op_objects(op, scope, object, s, i as int),
        decreases n - i,
    {
        match buf.text_object_range(scope, object) {
            None => {
                push_cmd(&mut cmds, Cmd::ToastError(copy_str("no matching object")));
                proof {
                    lemma_objects_stop(d, op, scope, object, s, i + 1, n as int);
                }
                return cmds;
            },
            Some((start, end)) => {
                let more = apply_op_range(buf, op, start, end, s);
                append(&mut cmds, more);
            },
        }
        i = i + 1;
    }
    cmds
}

/// Applies an operator to its target, for a motion that is clear.
pub fn op_target(buf: &mut Buffer, op: Operator, target: Target, search: &SearchState, s: IndentSettings, n: u32) -> (r:
    Vec<Cmd>)
    requires
        old(buf)@.wf(),
    ensures
        (final(buf)@, cmds_of(r@)) == old(buf)@.op_target(
            op,
            target,
            search.query@,
            search.last_forward,
            s,
            n as int,
        ),
        final(buf)@.wf(),
{
    reveal(Doc::op_target);
    match target {
        Target::LineWise => op_lines(buf, op, s, n),
        Target::Motion(m) => op_motion(buf, op, m.motion, m.count, s, n),
        Target::SearchMatch { reverse } => op_matches(buf, op, search, search.last_forward != reverse, s, n),
        Target::TextObject { scope, object } => op_objects(buf, op, scope, object, s, n),
    }
}

proof fn lemma_matches_stop(d: Doc, op: Operator, query: Seq<char>, forward: bool, s: IndentSettings, i: int, n: int)
    requires
        0 < i <= n,
        d.op_matches(op, query, forward, s, i).2,
    ensures
        d.op_matches(op, query, forward, s, n) == d.op_matches(op, query, forward, s, i),
    decreases n - i,
{
    if i < n {
        lemma_matches_stop(d, op, query, forward, s, i, n - 1);
    }
}

proof fn lemma_objects_stop(d: Doc, op: Operator, scope: Scope, object: Object, s: IndentSettings, i: int, n: int)
    requires
        0 < i <= n,
        d.op_objects(op, scope, object, s, i).2,
    ensures
        d.op_objects(op, scope, object, s, n) == d.op_objects(op, scope, object, s, i),
    decreases n - i,
{
    if i < n {
        lemma_objects_stop(d, op, scope, object, s, i, n - 1);
    }
}

} // verus!
