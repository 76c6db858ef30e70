//! From an expression to edits of the buffer and commands for the rest.
use vstd::prelude::*;
use crate::action::{Ctx, DirectKind, Expr, LastFind, MotionExpr, MotionKind, Operator, Target};
use crate::app::eval::operator::op_target;
use crate::app::eval::{dirty_list, format_dirty_list, word_under_cursor};
use crate::app::{refs_of, App, Desk};
use crate::buffer_ref::BufferRef;
use crate::editor::search::{match_near, SearchState};
use crate::editor::substitute::{hits_in, lines_hit, parse_substitute, rows_of, substitution, SubsArgs};
use crate::editor::{Buffer, Cursor, Doc};
use crate::effect::{cmds_of, push_cmd, Cmd};
use crate::mode::Mode;
use crate::number::{decimal, sum_to_decimal, to_decimal};
use crate::text::{copy_str, push_str, same_str};

verus! {

/// Whether an expression can change the text.
pub open spec fn expr_edits(e: Expr) -> bool {
    match e {
        Expr::Direct { kind, count } => match kind {
            DirectKind::OpenLineBelow => true,
            DirectKind::OpenLineAbove => true,
            DirectKind::Paste => true,
            DirectKind::DeleteCharUnderCursor => true,
            DirectKind::EnterMode(m) => m is Insert,
            DirectKind::AppendAfterCursor => true,
            DirectKind::AppendAtLineEnd => true,
            DirectKind::InsertAtLineStart => true,
            DirectKind::ChangeToEol => true,
            DirectKind::DeleteToEol => true,
            DirectKind::JoinLines => true,
            DirectKind::ToggleCase => true,
            DirectKind::SubstituteChar => true,
            DirectKind::SubstituteLine => true,
            DirectKind::ReplaceChar { ch } => true,
            DirectKind::ToggleComment => true,
            DirectKind::Substitute => true,
            _ => false,
        },
        Expr::Motion(_) => false,
        Expr::Op { op, target, outer_count } => !(op is Yank),
    }
}

/// Whether an expression can change the text.
pub fn expr_modifies_buffer(expr: &Expr) -> (r: bool)
    ensures
        r == expr_edits(*expr),
{
    match expr {
        Expr::Direct { kind, .. } => matches!(
            kind,
            DirectKind::OpenLineBelow
                | DirectKind::OpenLineAbove
                | DirectKind::Paste
                | DirectKind::DeleteCharUnderCursor
                | DirectKind::EnterMode(Mode::Insert)
                | DirectKind::AppendAfterCursor
                | DirectKind::AppendAtLineEnd
                | DirectKind::InsertAtLineStart
                | DirectKind::ChangeToEol
                | DirectKind::DeleteToEol
                | DirectKind::JoinLines
                | DirectKind::ToggleCase
                | DirectKind::SubstituteChar
                | DirectKind::SubstituteLine
                | DirectKind::ReplaceChar { .. }
                | DirectKind::ToggleComment
                | DirectKind::Substitute
        ),
        Expr::Motion(_) => false,
        Expr::Op { op, .. } => !matches!(op, Operator::Yank),
    }
}

/// The contents of a list of commands.
pub type Cmds = Seq<Cmd<Seq<char>>>;

pub open spec fn error(s: Seq<char>) -> Cmd<Seq<char>> {
    Cmd::ToastError(s)
}

pub open spec fn info(s: Seq<char>) -> Cmd<Seq<char>> {
    Cmd::ToastInfo(s)
}

pub(crate) fn one(c: Cmd) -> (r: Vec<Cmd>)
    ensures
        cmds_of(r@) == seq![c@],
{
    let mut v: Vec<Cmd> = Vec::new();
    v.push(c);
    proof {
        assert(cmds_of(v@) =~= seq![c@]);
    }
    v
}

pub(crate) fn two(a: Cmd, b: Cmd) -> (r: Vec<Cmd>)
    ensures
        cmds_of(r@) == seq![a@, b@],
{
    let mut v: Vec<Cmd> = Vec::new();
    v.push(a);
    v.push(b);
    proof {
        assert(cmds_of(v@) =~= seq![a@, b@]);
    }
    v
}

pub(crate) fn none() -> (r: Vec<Cmd>)
    ensures
        cmds_of(r@) == Cmds::empty(),
{
    let v: Vec<Cmd> = Vec::new();
    proof {
        assert(cmds_of(v@) =~= Cmds::empty());
    }
    v
}

pub(crate) fn toast_error(s: &str) -> (r: Vec<Cmd>)
    ensures
        cmds_of(r@) == seq![error(s@)],
{
    one(Cmd::ToastError(copy_str(s)))
}

pub(crate) fn toast_info(s: &str) -> (r: Vec<Cmd>)
    ensures
        cmds_of(r@) == seq![info(s@)],
{
    one(Cmd::ToastInfo(copy_str(s)))
}

pub(crate) fn insert_mode() -> (r: Vec<Cmd>)
    ensures
        cmds_of(r@) == seq![Cmd::<Seq<char>>::EnterMode(Mode::Insert)],
{
    one(Cmd::EnterMode(Mode::Insert))
}

/// The path that a save goes to; none means the buffer's own.
pub open spec fn save_path(rest: Seq<char>) -> Option<Seq<char>> {
    if rest.len() == 0 {
        None
    } else {
        Some(rest)
    }
}

/// The path that a save goes to.
pub fn parse_save_path(rest: &str) -> (r: Option<String>)
    ensures
        crate::text::opt_str(r) == save_path(rest@),
{
    if is_empty(rest) {
        None
    } else {
        Some(copy_str(rest))
    }
}

pub(crate) fn is_empty(s: &str) -> (r: bool)
    ensures
        r == (s@.len() == 0),
{
    proof {
        reveal_strlit("");
        assert(s@.len() == 0 ==> s@ =~= ""@);
    }
    same_str(s, "")
}

/// The motion that is meant, and the search for a character to remember. A
/// repetition stands for the last search, in its own direction or the other
/// one; without a last search it stands for nothing.
pub open spec fn resolved(motion: MotionKind, last: Option<LastFind>) -> (Option<MotionKind>, Option<LastFind>) {
    match motion {
        MotionKind::RepeatFind { reverse } => match last {
            None => (None, None),
            Some(f) => (
                Some(
                    MotionKind::FindChar {
                        ch: f.ch,
                        forward: if reverse {
                            !f.forward
                        } else {
                            f.forward
                        },
                        till: f.till,
                    },
                ),
                None,
            ),
        },
        MotionKind::FindChar { ch, forward, till } => (Some(motion), Some(LastFind { ch, forward, till })),
        _ => (Some(motion), None),
    }
}

/// The motion that is meant, and the search for a character to remember.
pub fn resolve_motion_pure(motion: MotionKind, last_find: Option<LastFind>) -> (r: (Option<MotionKind>, Option<LastFind>))
    ensures
        r == resolved(motion, last_find),
{
    match motion {
        MotionKind::RepeatFind { reverse } => match last_find {
            None => (None, None),
            Some(f) => (
                Some(
                    MotionKind::FindChar { ch: f.ch, forward: if reverse { !f.forward } else { f.forward }, till: f.till },
                ),
                None,
            ),
        },
        MotionKind::FindChar { ch, forward, till } => (Some(motion), Some(LastFind { ch, forward, till })),
        _ => (Some(motion), None),
    }
}

/// The target that is meant, and the search for a character to remember.
pub open spec fn meant_target(target: Target, last: Option<LastFind>) -> (Option<Target>, Option<LastFind>) {
    match target {
        Target::Motion(m) => {
            let (meant, found) = resolved(m.motion, last);
            match meant {
                Some(motion) => (Some(Target::Motion(MotionExpr { motion, count: m.count })), found),
                None => (None, found),
            }
        },
        _ => (Some(target), None),
    }
}

/// The target that is meant, and the search for a character to remember.
pub fn resolve_target(target: Target, last_find: Option<LastFind>) -> (r: (Option<Target>, Option<LastFind>))
    ensures
        r == meant_target(target, last_find),
{
    match target {
        Target::Motion(m) => {
            let (meant, found) = resolve_motion_pure(m.motion, last_find);
            match meant {
                Some(motion) => (Some(Target::Motion(MotionExpr { motion, count: m.count })), found),
                None => (None, found),
            }
        },
        _ => (Some(target), None),
    }
}

/// The command to remember a search for a character, where there is one.
pub open spec fn remember(f: Option<LastFind>) -> Cmds {
    match f {
        Some(lf) => seq![Cmd::SetLastFind(lf)],
        None => Seq::empty(),
    }
}

/// Searching for the word under the cursor, and going there where `jump` is
/// set.
pub open spec fn word_search(d: Doc, forward: bool, jump: bool) -> Cmds {
    match d.word_under() {
        Some(word) => if jump {
            seq![Cmd::SetSearch { pattern: word, forward }, Cmd::JumpSearch { reverse: false }]
        } else {
            seq![Cmd::SetSearch { pattern: word, forward }]
        },
        None => seq![error("no word under cursor"@)],
    }
}

pub(crate) fn push_word_search(buf: &Buffer, forward: bool, jump: bool) -> (r: Vec<Cmd>)
    requires
        buf.cursor.row < buf.lines.len(),
    ensures
        cmds_of(r@) == word_search(buf@, forward, jump),
{
    match word_under_cursor(buf) {
        Some(word) => {
            let c = Cmd::SetSearch { pattern: word, forward };
            if jump {
                two(c, Cmd::JumpSearch { reverse: false })
            } else {
                one(c)
            }
        },
        None => toast_error("no word under cursor"),
    }
}

/// The sleeping buffers among the first `k` that hold unsaved changes.
pub open spec fn unsaved(s: Seq<(BufferRef<Seq<char>>, Doc)>, k: int) -> Seq<BufferRef<Seq<char>>>
    decreases k,
{
    if k <= 0 {
        Seq::empty()
    } else if s[k - 1].1.dirty {
        unsaved(s, k - 1).push(s[k - 1].0)
    } else {
        unsaved(s, k - 1)
    }
}

impl Desk {
    /// What a plain quit answers: it is refused while anything is unsaved.
    pub open spec fn quit_plan(self) -> Cmd<Seq<char>> {
        let u = unsaved(self.sleeping, self.sleeping.len() as int);
        if self.doc.dirty {
            error("unsaved changes (use :q!)"@)
        } else if u.len() > 0 {
            error("unsaved changes in "@ + dirty_list(u) + " (use :q!)"@)
        } else {
            Cmd::Quit
        }
    }
}

impl App {
    /// What a plain quit answers.
    pub fn plan_quit(&self) -> (r: Cmd)
        ensures
            r@ == self@.quit_plan(),
    {
        if self.buffer.dirty {
            return Cmd::ToastError(copy_str("unsaved changes (use :q!)"));
        }
        let ghost s = self@.sleeping;
        let mut refs: Vec<BufferRef> = Vec::new();
        let mut i: usize = 0;
        proof {
            assert(refs_of(refs@) =~= unsaved(s, 0));
        }
        while i < self.sleeping.len()
            invariant
                i <= self.sleeping.len(),
                s == self@.sleeping,
                refs_of(refs@) == unsaved(s, i as int),
            decreases self.sleeping.len() - i,
        {
            proof {
                assert(s[i as int] == (self.sleeping@[i as int].0@, self.sleeping@[i as int].1@));
            }
            if self.sleeping[i].1.dirty {
                let c = self.sleeping[i].0.copy();
                let ghost before = refs@;
                refs.push(c);
                proof {
                    assert(refs_of(refs@) =~= refs_of(before).push(c@));
                }
            }
            i = i + 1;
        }
        proof {
            assert(refs_of(refs@).len() == refs@.len());
        }
        if refs.len() > 0 {
            let mut m = copy_str("unsaved changes in ");
            push_str(&mut m, format_dirty_list(&refs).as_str());
            push_str(&mut m, " (use :q!)");
            return Cmd::ToastError(m);
        }
        Cmd::Quit
    }
}

impl Desk {
    /// Adds a cursor at the next occurrence of the word under the cursor.
    /// Off a word it asks for visual mode instead.
    pub open spec fn add_next_cursor(self) -> (Desk, Cmds) {
        match self.doc.word_under() {
            None => (self, seq![Cmd::EnterMode(Mode::Visual)]),
            Some(word) => match match_near(self.doc.text, word, self.doc.cursor, true, false) {
                None => (self, seq![error("no further match"@)]),
                Some((r, c)) => {
                    let next = Cursor { row: r as usize, col: c as usize };
                    if next == self.doc.cursor || self.doc.extra.contains(next) {
                        (self, seq![info("no further match"@)])
                    } else {
                        (
                            self.with_doc(
                                Doc { cursor: next, extra: self.doc.extra.push(self.doc.cursor), ..self.doc },
                            ),
                            seq![
                                Cmd::SetSearch { pattern: word, forward: true },
                                info(decimal(self.doc.extra.len() as int + 2) + " cursors"@),
                            ],
                        )
                    }
                },
            },
        }
    }
}

fn has_cursor(v: &Vec<Cursor>, c: Cursor) -> (r: bool)
    ensures
        r == v@.contains(c),
{
    let mut i: usize = 0;
    while i < v.len()
        invariant
            i <= v.len(),
            forall|k: int| 0 <= k < i ==> v@[k] != c,
        decreases v.len() - i,
    {
        if v[i] == c {
            return true;
        }
        i = i + 1;
    }
    false
}

impl App {
    /// Adds a cursor at the next occurrence of the word under the cursor.
    pub fn add_next_cursor(&mut self) -> (r: Vec<Cmd>)
        requires
            old(self).wf(),
        ensures
            (final(self)@, cmds_of(r@)) == old(self)@.add_next_cursor(),
            final(self).wf(),
    {
        let word = match word_under_cursor(&self.buffer) {
            Some(w) => w,
            None => {
                return one(Cmd::EnterMode(Mode::Visual));
            },
        };
        let state = SearchState { query: word, last_forward: true };
        let next = match state.find_next(&self.buffer, true) {
            Some(c) => c,
            None => return toast_error("no further match"),
        };
        let primary = self.buffer.cursor;
        if next == primary || has_cursor(&self.buffer.extra_cursors, next) {
            return toast_info("no further match");
        }
        let n = self.buffer.extra_cursors.len();
        self.buffer.extra_cursors.push(primary);
        self.buffer.cursor = next;
        let mut m = sum_to_decimal(n, 2);
        push_str(&mut m, " cursors");
        two(Cmd::SetSearch { pattern: state.query, forward: true }, Cmd::ToastInfo(m))
    }
}

/// What a substitution says of what it did.
pub open spec fn substitution_report(matches: int, lines: int) -> Seq<char> {
    decimal(matches) + " substitution"@ + plural(matches) + " on "@ + decimal(lines) + " line"@ + plural(lines)
}

pub open spec fn plural(n: int) -> Seq<char> {
    if n == 1 {
        Seq::empty()
    } else {
        "s"@
    }
}

fn report_substitution(matches: usize, lines: usize) -> (r: String)
    ensures
        r@ == substitution_report(matches as int, lines as int),
{
    let mut m = to_decimal(matches);
    push_str(&mut m, " substitution");
    let ghost a = m@;
    if matches != 1 {
        push_str(&mut m, "s");
    }
    assert(m@ =~= a + plural(matches as int));
    push_str(&mut m, " on ");
    push_str(&mut m, to_decimal(lines).as_str());
    push_str(&mut m, " line");
    let ghost b = m@;
    if lines != 1 {
        push_str(&mut m, "s");
    }
    assert(m@ =~= b + plural(lines as int));
    m
}

impl Desk {
    /// A substitution. An empty pattern stands for the last search.
    pub open spec fn run_substitute(self, raw: Seq<char>) -> (Desk, Cmds) {
        match substitution(raw) {
            None => (self, seq![error("usage: :s/pat/repl/[g]"@)]),
            Some(args) => if args.pattern.len() == 0 && self.query.len() == 0 {
                (self, seq![error("no previous search pattern"@)])
            } else {
                let pattern = if args.pattern.len() == 0 {
                    self.query
                } else {
                    args.pattern
                };
                let s = SubsArgs { pattern, ..args };
                let (a, b) = rows_of(self.doc, s.range);
                let n = hits_in(self.doc.text, s, a, b);
                let count = if n > usize::MAX {
                    usize::MAX as int
                } else {
                    n
                };
                if n == 0 {
                    (self, seq![error("pattern not found: "@ + pattern)])
                } else {
                    (
                        self.with_doc(self.doc.substitute(s)),
                        seq![
                            Cmd::SetSearch { pattern, forward: true },
                            info(substitution_report(count, lines_hit(self.doc.text, s, a, b))),
                        ],
                    )
                }
            },
        }
    }
}

impl App {
    /// A substitution.
    pub fn run_substitute(&mut self, raw: &str) -> (r: Vec<Cmd>)
        requires
            old(self).wf(),
            old(self)@.anchor is None,
        ensures
            (final(self)@, cmds_of(r@)) == old(self)@.run_substitute(raw@),
            final(self).wf(),
    {
        let args = match parse_substitute(raw) {
            Some(a) => a,
            None => return toast_error("usage: :s/pat/repl/[g]"),
        };
        let ghost given = args@;
        let pattern = if is_empty(args.pattern.as_str()) {
            if is_empty(self.search.query.as_str()) {
                return toast_error("no previous search pattern");
            }
            self.search.query.clone()
        } else {
            args.pattern
        };
        let s = SubsArgs { range: args.range, pattern, replacement: args.replacement, global: args.global };
        let ghost d = self@.doc;
        let ghost desk = self@;
        let outcome = self.buffer.substitute(&s);
        proof {
            assert(s@ == SubsArgs { pattern: s.pattern@, ..given });
        }
        if outcome.matches == 0 {
            let mut m = copy_str("pattern not found: ");
            push_str(&mut m, s.pattern.as_str());
            proof {
                let (a, b) = rows_of(d, s.range);
                assert(hits_in(d.text, s@, a, b) == 0) by {
                    crate::editor::substitute::lemma_hits_in(d.text, s@, a, b);
                }
                assert(self@ =~= desk);
            }
            return one(Cmd::ToastError(m));
        }
        proof {
            let (a, b) = rows_of(d, s.range);
            assert(hits_in(d.text, s@, a, b) != 0);
        }
        two(
            Cmd::SetSearch { pattern: s.pattern, forward: true },
            Cmd::ToastInfo(report_substitution(outcome.matches, outcome.lines_changed)),
        )
    }
}

/// The document after commenting `n` lines out or in, from the cursor's row
/// downwards; `i` of them are done. The last row is taken again where the
/// text ends too early.
pub open spec fn commented(d: Doc, token: Seq<char>, i: int, n: int) -> Doc
    decreases n - i,
{
    if i >= n {
        d
    } else {
        let e = d.toggle_comment(token);
        let f = if i + 1 < n && e.cursor.row + 1 < e.text.len() {
            e.at(e.cursor.row + 1, e.cursor.col as int)
        } else {
            e
        };
        commented(f, token, i + 1, n)
    }
}

impl Doc {
    /// Comments `n` lines out or in and returns to where the cursor was.
    #[verifier::opaque]
    pub open spec fn comment_lines(self, token: Seq<char>, n: int) -> Doc {
        commented(self, token, 0, n).at(self.cursor.row as int, self.cursor.col as int).clamped(false)
    }
}

pub(crate) fn comment_lines(buf: &mut Buffer, token: &str, count: u32)
    requires
        old(buf)@.wf(),
    ensures
        final(buf)@ == old(buf)@.comment_lines(token@, count as int),
        final(buf)@.wf(),
{
    reveal(Doc::comment_lines);
    let ghost d = buf@;
    let start = buf.cursor;
    let mut i: u32 = 0;
    while i < count
        invariant
            i <= count,
            buf.lines.len() == d.text.len(),
            buf.cursor.row < buf.lines.len(),
            buf@.undo == d.undo,
            buf@.redo == d.redo,
            d.wf(),
            commented(d, token@, 0, count as int) == commented(buf@, token@, i as int, count as int),
        decreases count - i,
    {
        buf.toggle_line_comment(token);
        assert(buf@.text.len() == buf.lines@.len());
        if i + 1 < count && buf.cursor.row + 1 < buf.lines.len() {
            buf.cursor.row = buf.cursor.row + 1;
        }
        i = i + 1;
    }
    buf.cursor = start;
    buf.clamp_col(false);
}

pub(crate) fn remembered(f: Option<LastFind>) -> (r: Vec<Cmd>)
    ensures
        cmds_of(r@) == remember(f),
{
    match f {
        Some(lf) => one(Cmd::SetLastFind(lf)),
        None => none(),
    }
}

pub(crate) fn append(cmds: &mut Vec<Cmd>, mut more: Vec<Cmd>)
    ensures
        cmds_of(final(cmds)@) == cmds_of(old(cmds)@) + cmds_of(more@),
{
    let ghost a = cmds@;
    let ghost b = more@;
    cmds.append(&mut more);
    proof {
        assert(cmds@ =~= a + b);
        assert(cmds_of(cmds@) =~= cmds_of(a) + cmds_of(b));
    }
}

impl Desk {
    /// An operator on its target.
    pub open spec fn operate(self, op: Operator, target: Target, n: u32) -> (Desk, Cmds) {
        let (meant, found) = meant_target(target, self.last_find);
        match meant {
            None => (self, remember(found).push(error("no previous find"@))),
            Some(t) => {
                let (d, c) = self.doc.op_target(op, t, self.query, self.forward, self.indent(), n as int);
                (self.with_doc(d), remember(found) + c)
            },
        }
    }

    /// An expression, without a step of the undo history.
    pub open spec fn run_expr(self, e: Expr, rest: Seq<char>) -> (Desk, Cmds) {
        match e {
            Expr::Direct { kind, count } => self.direct(kind, count, rest),
            Expr::Motion(m) => self.motion(m),
            Expr::Op { op, target, outer_count } => self.operate(op, target, outer_count),
        }
    }

    /// An expression. One that can change the text can be undone.
    #[verifier::opaque]
    pub open spec fn expr(self, e: Expr, rest: Seq<char>) -> (Desk, Cmds) {
        if expr_edits(e) {
            self.with_doc(self.doc.snapshot()).run_expr(e, rest)
        } else {
            self.run_expr(e, rest)
        }
    }
}

/// Whether an expression can be evaluated: one that repeats the last change
/// is taken care of before.
pub open spec fn runnable(e: Expr) -> bool {
    match e {
        Expr::Direct { kind, count } => !(kind is RepeatLast),
        _ => true,
    }
}

/// Whether an expression leaves the cursor in the text. Going back to an
/// extra cursor does where that one is in it.
pub open spec fn stays_placed(desk: Desk, e: Expr) -> bool {
    match e {
        Expr::Direct { kind, count } => kind is MultiCursorPop ==> desk.last_extra_holds(),
        _ => true,
    }
}

impl App {
    /// Applies an operator to its target.
    pub fn handle_op(&mut self, op: Operator, target: Target, outer_count: u32) -> (r: Vec<Cmd>)
        requires
            old(self).wf(),
            old(self)@.anchor is None,
        ensures
            (final(self)@, cmds_of(r@)) == old(self)@.operate(op, target, outer_count),
            final(self)@ == old(self)@.with_doc(final(self)@.doc),
            final(self).wf(),
    {
        let s = self.indent_settings();
        let (meant, found) = resolve_target(target, self.last_find);
        let mut cmds = remembered(found);
        match meant {
            None => push_cmd(&mut cmds, Cmd::ToastError(copy_str("no previous find"))),
            Some(t) => {
                let more = op_target(&mut self.buffer, op, t, &self.search, s, outer_count);
                append(&mut cmds, more);
            },
        }
        cmds
    }

    /// Evaluates an expression without a step of the undo history, for the
    /// caller to take one for several.
    pub fn handle_expr_no_snapshot(&mut self, expr: Expr, ctx: Ctx) -> (r: Vec<Cmd>)
        requires
            old(self).wf(),
            old(self)@.anchor is None,
            runnable(expr),
        ensures
            (final(self)@, cmds_of(r@)) == old(self)@.run_expr(expr, ctx.rest@),
            final(self)@ == old(self)@.with_doc(final(self)@.doc),
            final(self).sound(),
            stays_placed(old(self)@, expr) || r@.len() > 0 ==> final(self).wf(),
    {
        match expr {
            Expr::Direct { kind, count } => self.handle_direct(kind, count, ctx),
            Expr::Motion(m) => self.handle_motion(m),
            Expr::Op { op, target, outer_count } => self.handle_op(op, target, outer_count),
        }
    }

    /// Evaluates an expression.
    pub fn handle_expr(&mut self, expr: Expr, ctx: Ctx) -> (r: Vec<Cmd>)
        requires
            old(self).wf(),
            old(self)@.anchor is None,
            runnable(expr),
        ensures
            (final(self)@, cmds_of(r@)) == old(self)@.expr(expr, ctx.rest@),
            final(self)@ == old(self)@.with_doc(final(self)@.doc),
            final(self).sound(),
            stays_placed(old(self)@, expr) || r@.len() > 0 ==> final(self).wf(),
    {
        reveal(Desk::expr);
        if expr_modifies_buffer(&expr) {
            self.buffer.snapshot();
        }
        self.handle_expr_no_snapshot(expr, ctx)
    }
}

} // verus!
