//! What operators, motions and single commands promise: how the text, the
//! register and the cursor after a command relate to those before it, and what
//! undoing and repeating do with it.
use vstd::prelude::*;
use crate::action::{DirectKind, Expr, MotionExpr, MotionKind, Object, Operator, Scope, Target};
use crate::app::eval::handle::expr_edits;
use crate::app::Desk;
use crate::editor::laws::{
    law_delete_line_takes_it,
    law_delete_range_either_way,
    law_delete_range_keeps_the_rest,
    law_yank_range_copies,
    surroundings_kept,
};
use crate::editor::repeat::Step;
use crate::editor::search::{law_search_backward_is_nearest, law_search_forward_is_nearest, match_near, occurs};
use crate::editor::{in_text, Cursor, Doc, IndentSettings};
use crate::effect::Cmd;
use crate::mode::Mode;

verus! {

/// No line and no text is longer than an index can say.
pub open spec fn fits(d: Doc) -> bool {
    &&& d.text.len() <= usize::MAX
    &&& forall|k: int| 0 <= k < d.text.len() ==> (#[trigger] d.text[k]).len() <= usize::MAX
}

/// The motions that land on a character which belongs to what they cover: the
/// ends of words, a found character, the end of a line or of the text, and the
/// partner of a bracket. The other motions stop before the character on which
/// they land.
pub open spec fn lands_inside(m: MotionKind) -> bool {
    ||| m is WordEnd
    ||| m is BigWordEnd
    ||| m is WordEndBack
    ||| m is BigWordEndBack
    ||| m is FindChar
    ||| m is LineEnd
    ||| m is LineLastNonBlank
    ||| m is FileEnd
    ||| m is BracketMatch
}

/// What an operator takes when a motion lands further right in the cursor's
/// line: everything from the cursor up to the character on which it lands, and
/// that character too where the motion lands inside. Deleting closes the gap,
/// copying puts the piece into the register, and changing deletes and starts
/// typing there.
#[verifier::rlimit(60)]
pub proof fn law_operator_takes_what_the_motion_covers(d: Doc, motion: MotionKind, count: u32, s: IndentSettings)
    requires
        d.wf(),
        fits(d),
        ({
            let t = d.target(d.cursor, motion, count);
            t.row == d.cursor.row && d.cursor.col <= t.col < d.text[t.row as int].len()
        }),
    ensures
        ({
            let t = d.target(d.cursor, motion, count);
            let r = d.cursor.row as int;
            let line = d.text[r];
            let end: int = if lands_inside(motion) {
                t.col + 1
            } else {
                t.col as int
            };
            let (e, asked) = d.op_motion(Operator::Delete, motion, count, s, 1);
            let (y, copied) = d.op_motion(Operator::Yank, motion, count, s, 1);
            let (c, typing) = d.op_motion(Operator::Change, motion, count, s, 1);
            &&& e.text.len() == d.text.len()
            &&& e.text[r] == line.take(d.cursor.col as int) + line.skip(end)
            &&& forall|k: int| 0 <= k < d.text.len() && k != r ==> (#[trigger] e.text[k]) == d.text[k]
            &&& e.cursor.row == r
            &&& d.cursor.col < e.text[r].len() ==> e.cursor.col == d.cursor.col
            &&& e.yank == d.yank
            &&& asked.len() == 0
            &&& c == e
            &&& typing == seq![Cmd::<Seq<char>>::EnterMode(Mode::Insert)]
            &&& y == (Doc { yank: line.subrange(d.cursor.col as int, end), ..d })
            &&& copied == seq![Cmd::<Seq<char>>::SyncYank, Cmd::ToastInfo("yanked"@)]
        }),
{
    reveal_with_fuel(Doc::op_motion, 2);
    reveal(Doc::op_end);
    reveal(Doc::op_range);
    let t = d.target(d.cursor, motion, count);
    let r = d.cursor.row as int;
    let line = d.text[r];
    let end = d.op_end(motion, count);
    assert(line.len() <= usize::MAX);
    assert(end.row == d.cursor.row);
    assert(end.col == if lands_inside(motion) {
        t.col + 1
    } else {
        t.col as int
    });
    if end == d.cursor {
        law_delete_range_either_way(d, end, end);
        assert(line.take(d.cursor.col as int) + line.skip(end.col as int) =~= line);
    } else {
        law_delete_range_keeps_the_rest(d, d.cursor, end);
    }
    law_yank_range_copies(d, d.cursor, end);
    let none = Seq::<Cmd<Seq<char>>>::empty();
    assert(none + none =~= none);
    let typing = seq![Cmd::<Seq<char>>::EnterMode(Mode::Insert)];
    assert(none + typing =~= typing);
    let copied = seq![Cmd::<Seq<char>>::SyncYank, Cmd::ToastInfo("yanked"@)];
    assert(none + copied =~= copied);
}

/// What an operator takes when a motion lands further left in the cursor's
/// line: everything from there up to the cursor, but for the character on which
/// a motion that lands inside came down.
#[verifier::rlimit(60)]
pub proof fn law_operator_takes_what_lies_behind(d: Doc, motion: MotionKind, count: u32, s: IndentSettings)
    requires
        d.wf(),
        fits(d),
        ({
            let t = d.target(d.cursor, motion, count);
            t.row == d.cursor.row && t.col < d.cursor.col
        }),
    ensures
        ({
            let t = d.target(d.cursor, motion, count);
            let r = d.cursor.row as int;
            let line = d.text[r];
            let start: int = if lands_inside(motion) {
                t.col + 1
            } else {
                t.col as int
            };
            let e = d.op_motion(Operator::Delete, motion, count, s, 1).0;
            let y = d.op_motion(Operator::Yank, motion, count, s, 1).0;
            &&& e.text.len() == d.text.len()
            &&& e.text[r] == line.take(start) + line.skip(d.cursor.col as int)
            &&& forall|k: int| 0 <= k < d.text.len() && k != r ==> (#[trigger] e.text[k]) == d.text[k]
            &&& d.cursor.col < line.len() ==> e.cursor == (Cursor { row: d.cursor.row, col: start as usize })
            &&& d.op_motion(Operator::Change, motion, count, s, 1).0 == e
            &&& y == (Doc { yank: line.subrange(start, d.cursor.col as int), ..d })
        }),
{
    reveal_with_fuel(Doc::op_motion, 2);
    reveal(Doc::op_end);
    reveal(Doc::op_range);
    let t = d.target(d.cursor, motion, count);
    let r = d.cursor.row as int;
    let line = d.text[r];
    let end = d.op_end(motion, count);
    assert(line.len() <= usize::MAX);
    assert(end.row == d.cursor.row);
    law_delete_range_either_way(d, d.cursor, end);
    crate::editor::ops::law_range_order(d, d.cursor, end);
    if end == d.cursor {
        assert(line.take(d.cursor.col as int) + line.skip(d.cursor.col as int) =~= line);
    } else {
        law_delete_range_keeps_the_rest(d, end, d.cursor);
    }
    law_yank_range_copies(d, end, d.cursor);
}

/// The place behind a character: the next one in its line, or past the end of
/// a line the start of the line below. Behind the last there is none.
pub open spec fn behind(text: Seq<Seq<char>>, p: Cursor, q: Cursor) -> bool {
    if p.col < text[p.row as int].len() {
        q.row == p.row && q.col == p.col + 1
    } else if p.row + 1 < text.len() {
        q.row == p.row + 1 && q.col == 0
    } else {
        q == p
    }
}

/// Wherever a motion lands, an operator works on what lies between the cursor
/// and that place, and a motion that lands inside puts the end behind it.
pub proof fn law_operator_works_up_to_the_target(
    d: Doc,
    op: Operator,
    motion: MotionKind,
    count: u32,
    s: IndentSettings,
    end: Cursor,
)
    requires
        d.wf(),
        fits(d),
        in_text(d.text, d.target(d.cursor, motion, count)),
        ({
            let t = d.target(d.cursor, motion, count);
            if lands_inside(motion) {
                behind(d.text, t, end)
            } else {
                end == t
            }
        }),
    ensures
        d.op_motion(op, motion, count, s, 1).0 == match op {
            Operator::Delete => d.delete_range(d.cursor, end),
            Operator::Change => d.delete_range(d.cursor, end),
            Operator::Yank => d.yank_range(d.cursor, end),
            _ => if end.row < d.cursor.row {
                d.shift_lines(op, s, end.row as int, d.cursor.row as int)
            } else {
                d.shift_lines(op, s, d.cursor.row as int, end.row as int)
            },
        },
{
    reveal_with_fuel(Doc::op_motion, 2);
    reveal(Doc::op_end);
    reveal(Doc::op_range);
    let t = d.target(d.cursor, motion, count);
    assert(d.text[t.row as int].len() <= usize::MAX);
    assert(d.op_end(motion, count) == end);
}

/// An operator that is told to work several times works as often, each time
/// from where the time before left off.
pub proof fn law_operator_counts_add_up(
    d: Doc,
    op: Operator,
    motion: MotionKind,
    count: u32,
    s: IndentSettings,
    a: int,
    b: int,
)
    requires
        0 <= a,
        0 <= b,
    ensures
        d.op_motion(op, motion, count, s, 0).0 == d,
        d.op_motion(op, motion, count, s, a + b).0 == d.op_motion(op, motion, count, s, a).0.op_motion(
            op,
            motion,
            count,
            s,
            b,
        ).0,
        d.op_motion(op, motion, count, s, a + b).1 == d.op_motion(op, motion, count, s, a).1 + d.op_motion(
            op,
            motion,
            count,
            s,
            a,
        ).0.op_motion(op, motion, count, s, b).1,
    decreases b,
{
    let (e, c) = d.op_motion(op, motion, count, s, a);
    if b == 0 {
        assert(c + Seq::<Cmd<Seq<char>>>::empty() =~= c);
    } else {
        law_operator_counts_add_up(d, op, motion, count, s, a, b - 1);
        let (f, x) = e.op_motion(op, motion, count, s, b - 1);
        let more = f.op_range(op, f.cursor, f.op_end(motion, count), s).1;
        assert((c + x) + more =~= c + (x + more));
    }
}

/// Deleting whole lines takes as many as the count says, from the cursor's line
/// on; what stood below them moves up, and the last one taken is in the
/// register.
pub proof fn law_delete_takes_whole_lines(d: Doc, s: IndentSettings, n: int)
    requires
        d.wf(),
        fits(d),
        n >= 1,
        d.cursor.row + n < d.text.len(),
    ensures
        ({
            let (e, asked) = d.op_lines(Operator::Delete, s, n);
            let r = d.cursor.row as int;
            &&& e.text == d.text.take(r) + d.text.skip(r + n)
            &&& e.yank == d.text[r + n - 1]
            &&& e.cursor.row == r
            &&& in_text(e.text, e.cursor)
            &&& asked.len() == 0
            &&& surroundings_kept(d, e)
        }),
{
    reveal(Doc::op_lines);
    lemma_delete_lines(d, n);
}

proof fn lemma_delete_lines(d: Doc, n: int)
    requires
        d.wf(),
        fits(d),
        n >= 1,
        d.cursor.row + n < d.text.len(),
    ensures
        ({
            let e = d.repeated(Step::DeleteLine, n);
            let r = d.cursor.row as int;
            &&& e.text == d.text.take(r) + d.text.skip(r + n)
            &&& e.yank == d.text[r + n - 1]
            &&& e.cursor.row == r
            &&& in_text(e.text, e.cursor)
            &&& fits(e)
            &&& surroundings_kept(d, e)
        }),
    decreases n,
{
    let r = d.cursor.row as int;
    let f = d.repeated(Step::DeleteLine, n - 1);
    let e = d.repeated(Step::DeleteLine, n);
    if n == 1 {
        assert(f == d);
    } else {
        lemma_delete_lines(d, n - 1);
    }
    law_delete_line_takes_it(f);
    assert(e == f.delete_line());
    assert(e.text =~= d.text.take(r) + d.text.skip(r + n));
}

/// Deleting all lines from the cursor's on leaves those above it, or one empty
/// line where there are none.
pub proof fn law_delete_takes_the_last_lines(d: Doc, s: IndentSettings)
    requires
        d.wf(),
        fits(d),
    ensures
        ({
            let r = d.cursor.row as int;
            let e = d.op_lines(Operator::Delete, s, d.text.len() - r).0;
            if r == 0 {
                e.text.len() == 1 && e.text[0].len() == 0
            } else {
                e.text == d.text.take(r)
            }
        }),
{
    reveal(Doc::op_lines);
    let r = d.cursor.row as int;
    let n = d.text.len() - r;
    let f = d.repeated(Step::DeleteLine, n - 1);
    if n == 1 {
        assert(f == d);
    } else {
        lemma_delete_lines(d, n - 1);
    }
    law_delete_line_takes_it(f);
    assert(d.repeated(Step::DeleteLine, n) == f.delete_line());
    if r > 0 {
        assert(f.delete_line().text =~= d.text.take(r));
    }
}

/// Copying lines leaves the text and the cursor alone and the line in the
/// register. Changing whole lines is refused and leaves everything alone.
pub proof fn law_other_line_operators(d: Doc, s: IndentSettings, n: int)
    requires
        d.wf(),
        n >= 1,
    ensures
        d.op_lines(Operator::Yank, s, n).0 == (Doc { yank: d.text[d.cursor.row as int], ..d }),
        d.op_lines(Operator::Change, s, n).0 == d,
        forall|k: int|
            0 <= k < d.op_lines(Operator::Change, s, n).1.len() ==> (#[trigger] d.op_lines(
                Operator::Change,
                s,
                n,
            ).1[k]) is ToastError,
        d.op_lines(Operator::Change, s, n).1.len() == n,
        d.op_lines(Operator::Yank, s, n).1.contains(Cmd::SyncYank),
{
    reveal(Doc::op_lines);
    lemma_yank_lines(d, n);
    lemma_refusals(n);
    let y = crate::app::eval::operator::yanks(n);
    assert(y[y.len() - 2] is SyncYank);
}

proof fn lemma_yank_lines(d: Doc, n: int)
    requires
        d.wf(),
        n >= 1,
    ensures
        d.repeated(Step::YankLine, n) == (Doc { yank: d.text[d.cursor.row as int], ..d }),
    decreases n,
{
    reveal_with_fuel(Doc::repeated, 2);
    if n > 1 {
        lemma_yank_lines(d, n - 1);
    }
}

proof fn lemma_refusals(n: int)
    requires
        n >= 0,
    ensures
        crate::app::eval::operator::refusals(n).len() == n,
        forall|k: int| 0 <= k < n ==> (#[trigger] crate::app::eval::operator::refusals(n)[k]) is ToastError,
    decreases n,
{
    if n > 0 {
        lemma_refusals(n - 1);
    }
}

/// Indenting or dedenting lines does to each of them what it does to that line
/// alone, leaves the others as they are, and goes to the first of them.
pub proof fn law_shift_works_on_each_line(d: Doc, op: Operator, s: IndentSettings, lo: int, hi: int)
    requires
        d.wf(),
        fits(d),
        0 <= lo <= hi < d.text.len(),
        op is Indent || op is Dedent,
    ensures
        ({
            let e = d.shift_lines(op, s, lo, hi);
            &&& e.text.len() == d.text.len()
            &&& forall|k: int|
                0 <= k < d.text.len() ==> (#[trigger] e.text[k]) == if lo <= k <= hi {
                    if op is Indent {
                        d.indent_line(k, s).text[k]
                    } else {
                        d.dedent_line(k, s).text[k]
                    }
                } else {
                    d.text[k]
                }
            &&& e.cursor.row == lo
            &&& e.yank == d.yank
            &&& e.dirty
            &&& surroundings_kept(d, e)
        }),
{
    reveal(Doc::shift_lines);
    lemma_shifted(d, op, s, lo, hi + 1);
}

proof fn lemma_shifted(d: Doc, op: Operator, s: IndentSettings, lo: int, k: int)
    requires
        0 <= lo <= k <= d.text.len(),
        op is Indent || op is Dedent,
    ensures
        ({
            let e = crate::app::eval::operator::shifted(d, op, s, lo, k);
            &&& e.text.len() == d.text.len()
            &&& forall|j: int|
                0 <= j < d.text.len() ==> (#[trigger] e.text[j]) == if lo <= j < k {
                    if op is Indent {
                        d.indent_line(j, s).text[j]
                    } else {
                        d.dedent_line(j, s).text[j]
                    }
                } else {
                    d.text[j]
                }
            &&& e.yank == d.yank
            &&& k > lo ==> e.dirty
            &&& surroundings_kept(d, e)
        }),
    decreases k - lo,
{
    if k > lo {
        lemma_shifted(d, op, s, lo, k - 1);
    }
}

/// Indenting or dedenting by a count works on as many lines as it says, as far
/// as there are any.
pub proof fn law_shift_by_count(d: Doc, op: Operator, s: IndentSettings, n: int)
    requires
        d.wf(),
        n >= 1,
        op is Indent || op is Dedent,
    ensures
        ({
            let r = d.cursor.row as int;
            let last: int = if r + n <= d.text.len() {
                r + n - 1
            } else {
                d.text.len() - 1
            };
            d.op_lines(op, s, n) == (d.shift_lines(op, s, r, last), Seq::<Cmd<Seq<char>>>::empty())
        }),
{
    reveal(Doc::op_lines);
}

/// An operator on the next match of a search takes that match, its first
/// character to its last. Without a match it says so and does nothing.
#[verifier::rlimit(60)]
pub proof fn law_operator_takes_a_match(d: Doc, query: Seq<char>, forward: bool, s: IndentSettings, op: Operator)
    requires
        d.wf(),
        fits(d),
        query.len() > 0,
    ensures
        match match_near(d.text, query, d.cursor, forward, true) {
            None => d.op_matches(op, query, forward, s, 1).0 == d && d.op_matches(op, query, forward, s, 1).1.len() == 1
                && d.op_matches(op, query, forward, s, 1).1[0] is ToastError,
            Some((r, k)) => {
                let e = d.op_matches(Operator::Delete, query, forward, s, 1).0;
                let y = d.op_matches(Operator::Yank, query, forward, s, 1).0;
                &&& 0 <= r < d.text.len()
                &&& 0 <= k && k + query.len() <= d.text[r].len()
                &&& d.text[r].subrange(k, k + query.len()) == query
                &&& e.text.len() == d.text.len()
                &&& e.text[r] == d.text[r].take(k) + d.text[r].skip(k + query.len())
                &&& forall|j: int| 0 <= j < d.text.len() && j != r ==> (#[trigger] e.text[j]) == d.text[j]
                &&& d.op_matches(Operator::Change, query, forward, s, 1).0 == e
                &&& y == (Doc { yank: d.text[r].subrange(k, k + query.len()), ..d })
            },
        },
{
    reveal_with_fuel(Doc::op_matches, 2);
    reveal(Doc::match_span);
    reveal(Doc::op_range);
    match match_near(d.text, query, d.cursor, forward, true) {
        None => {},
        Some((r, k)) => {
            assert(0 <= r < d.text.len() && occurs(d.text[r], query, k)) by {
                if forward {
                    law_search_forward_is_nearest(d.text, query, d.cursor, true);
                } else {
                    law_search_backward_is_nearest(d.text, query, d.cursor, true);
                }
            }
            assert(d.text[r].len() <= usize::MAX);
            let a = Cursor { row: r as usize, col: k as usize };
            let b = Cursor { row: r as usize, col: (k + query.len()) as usize };
            assert(d.match_span(query, forward) == Some((a, b)));
            law_delete_range_keeps_the_rest(d, a, b);
            law_yank_range_copies(d, a, b);
        },
    }
}

/// An operator on a text object takes what the object covers. Where there is
/// no such object it says so and does nothing.
pub proof fn law_operator_takes_an_object(d: Doc, scope: Scope, object: Object, s: IndentSettings, op: Operator)
    ensures
        match d.text_object(scope, object) {
            None => d.op_objects(op, scope, object, s, 1).0 == d && d.op_objects(op, scope, object, s, 1).1.len() == 1
                && d.op_objects(op, scope, object, s, 1).1[0] is ToastError,
            Some((a, b)) => {
                &&& d.op_objects(Operator::Delete, scope, object, s, 1).0 == d.delete_range(a, b)
                &&& d.op_objects(Operator::Change, scope, object, s, 1).0 == d.delete_range(a, b)
                &&& d.op_objects(Operator::Change, scope, object, s, 1).1.contains(Cmd::EnterMode(Mode::Insert))
                &&& d.op_objects(Operator::Yank, scope, object, s, 1).0 == d.yank_range(a, b)
            },
        },
{
    reveal_with_fuel(Doc::op_objects, 2);
    reveal(Doc::op_range);
    let c = d.op_objects(Operator::Change, scope, object, s, 1).1;
    if d.text_object(scope, object) is Some {
        assert(c[0] == Cmd::<Seq<char>>::EnterMode(Mode::Insert));
    }
}

/// Which lines, motion, match or object an operator is given decides what it
/// works on. A target that names the last search works in its direction, and
/// against it when it says so.
pub proof fn law_operator_follows_its_target(
    d: Doc,
    op: Operator,
    m: MotionExpr,
    scope: Scope,
    object: Object,
    query: Seq<char>,
    forward: bool,
    s: IndentSettings,
    n: int,
)
    ensures
        d.op_target(op, Target::LineWise, query, forward, s, n) == d.op_lines(op, s, n),
        d.op_target(op, Target::Motion(m), query, forward, s, n) == d.op_motion(op, m.motion, m.count, s, n),
        d.op_target(op, (Target::SearchMatch { reverse: false }), query, forward, s, n).0 == d.op_matches(
            op,
            query,
            forward,
            s,
            n,
        ).0,
        d.op_target(op, (Target::SearchMatch { reverse: true }), query, forward, s, n).0 == d.op_matches(
            op,
            query,
            !forward,
            s,
            n,
        ).0,
        d.op_target(op, (Target::TextObject { scope, object }), query, forward, s, n).0 == d.op_objects(
            op,
            scope,
            object,
            s,
            n,
        ).0,
{
    reveal(Doc::op_target);
}

/// The history and the path stay as they are.
pub open spec fn history_kept(d: Doc, e: Doc) -> bool {
    e.undo == d.undo && e.redo == d.redo && e.path == d.path
}

proof fn lemma_repeated_history(d: Doc, s: Step, n: int)
    ensures
        history_kept(d, d.repeated(s, n)),
    decreases n,
{
    if n > 0 {
        lemma_repeated_history(d, s, n - 1);
    }
}

proof fn lemma_shifted_history(d: Doc, op: Operator, s: IndentSettings, lo: int, k: int)
    ensures
        history_kept(d, crate::app::eval::operator::shifted(d, op, s, lo, k)),
    decreases k - lo,
{
    if k > lo {
        lemma_shifted_history(d, op, s, lo, k - 1);
    }
}

proof fn lemma_range_history(d: Doc, op: Operator, a: Cursor, b: Cursor, s: IndentSettings)
    ensures
        history_kept(d, d.op_range(op, a, b, s).0),
        op is Yank ==> d.op_range(op, a, b, s).0 == (Doc { yank: d.op_range(op, a, b, s).0.yank, ..d }),
{
    reveal(Doc::op_range);
    reveal(Doc::shift_lines);
    lemma_shifted_history(d, op, s, b.row as int, a.row + 1);
    lemma_shifted_history(d, op, s, a.row as int, b.row + 1);
}

proof fn lemma_target_history(
    d: Doc,
    op: Operator,
    target: Target,
    query: Seq<char>,
    forward: bool,
    s: IndentSettings,
    n: int,
)
    ensures
        history_kept(d, d.op_target(op, target, query, forward, s, n).0),
        op is Yank ==> ({
            let e = d.op_target(op, target, query, forward, s, n).0;
            e == (Doc { yank: e.yank, ..d })
        }),
    decreases n,
{
    reveal(Doc::op_target);
    if target is LineWise {
        reveal(Doc::op_lines);
        reveal(Doc::shift_lines);
        lemma_repeated_history(d, Step::DeleteLine, n);
        lemma_repeated_yank(d, n);
        lemma_shifted_history(d, op, s, d.cursor.row as int, d.last_of(n) + 1);
    } else if n > 0 {
        lemma_target_history(d, op, target, query, forward, s, n - 1);
        match target {
            Target::Motion(m) => {
                let e = d.op_motion(op, m.motion, m.count, s, n - 1).0;
                lemma_range_history(e, op, e.cursor, e.op_end(m.motion, m.count), s);
            },
            Target::SearchMatch { reverse } => {
                let e = d.op_matches(op, query, forward != reverse, s, n - 1).0;
                if let Some((a, b)) = e.match_span(query, forward != reverse) {
                    lemma_range_history(e, op, a, b, s);
                }
            },
            Target::TextObject { scope, object } => {
                let e = d.op_objects(op, scope, object, s, n - 1).0;
                if let Some((a, b)) = e.text_object(scope, object) {
                    lemma_range_history(e, op, a, b, s);
                }
            },
            _ => {},
        }
    }
}

proof fn lemma_repeated_yank(d: Doc, n: int)
    ensures
        ({
            let e = d.repeated(Step::YankLine, n);
            e == (Doc { yank: e.yank, ..d })
        }),
    decreases n,
{
    if n > 0 {
        lemma_repeated_yank(d, n - 1);
    }
}

/// A movement that a count repeats moves the cursor and nothing else.
proof fn lemma_repeated_move(d: Doc, s: Step, n: int)
    requires
        s is Left || s is Right || s is Up || s is Down || s is WordForward || s is WordBack || s is ParagraphForward
            || s is ParagraphBack,
    ensures
        ({
            let e = d.repeated(s, n);
            e == (Doc { cursor: e.cursor, ..d })
        }),
    decreases n,
{
    if n > 0 {
        lemma_repeated_move(d, s, n - 1);
    }
}

proof fn lemma_commented_history(d: Doc, token: Seq<char>, i: int, n: int)
    ensures
        history_kept(d, crate::app::eval::handle::commented(d, token, i, n)),
    decreases n - i,
{
    if i < n {
        let e = d.toggle_comment(token);
        let f = if i + 1 < n && e.cursor.row + 1 < e.text.len() {
            e.at(e.cursor.row + 1, e.cursor.col as int)
        } else {
            e
        };
        assert(history_kept(d, f));
        lemma_commented_history(f, token, i + 1, n);
    }
}

/// A motion moves the cursor and changes nothing else of the document.
pub proof fn law_motion_only_moves(d: Doc, motion: MotionKind, count: u32, past_end: bool)
    ensures
        ({
            let e = d.moved(motion, count, past_end);
            e == (Doc { cursor: e.cursor, ..d })
        }),
{
    reveal(Doc::moved);
    let n = count as int;
    lemma_repeated_move(d, Step::Left, n);
    lemma_repeated_move(d, (Step::Right { past_end }), n);
    lemma_repeated_move(d, Step::Up, n);
    lemma_repeated_move(d, Step::Down, n);
    lemma_repeated_move(d, Step::WordForward, n);
    lemma_repeated_move(d, Step::WordBack, n);
    lemma_repeated_move(d, Step::ParagraphForward, n);
    lemma_repeated_move(d, Step::ParagraphBack, n);
}

proof fn lemma_edit_history(d: Doc, kind: DirectKind, n: int)
    ensures
        crate::app::eval::direct::edit_doc(d, kind, n).path == d.path,
        !(kind is Undo) && !(kind is Redo) ==> history_kept(d, crate::app::eval::direct::edit_doc(d, kind, n)),
{
    reveal(crate::app::eval::direct::edit_doc);
    lemma_repeated_history(d, Step::YankLine, n);
    lemma_repeated_history(d, Step::JoinNext, n);
    lemma_repeated_history(d, Step::ToggleCase, n);
    lemma_repeated_history(d, Step::DeleteChar, n);
    lemma_repeated_history(d, Step::Paste, n);
    if let DirectKind::ReplaceChar { ch } = kind {
        lemma_repeated_history(d, (Step::Replace { ch }), n - 1);
    }
}

proof fn lemma_direct_history(desk: Desk, kind: DirectKind, count: u32, rest: Seq<char>)
    ensures
        ({
            let x = desk.direct(kind, count, rest).0;
            &&& x == (Desk { doc: x.doc, ..desk })
            &&& x.doc.path == desk.doc.path
            &&& !(kind is Undo) && !(kind is Redo) ==> history_kept(desk.doc, x.doc)
        }),
{
    let d = desk.doc;
    lemma_edit_history(d, kind, count as int);
    reveal(Doc::comment_lines);
    if let Some(token) = desk.comment_token() {
        lemma_commented_history(d, token, 0, count as int);
    }
}

proof fn lemma_run_history(desk: Desk, e: Expr, rest: Seq<char>)
    ensures
        ({
            let x = desk.run_expr(e, rest).0;
            &&& x == (Desk { doc: x.doc, ..desk })
            &&& x.doc.path == desk.doc.path
            &&& (e matches Expr::Direct { kind, count } ==> !(kind is Undo) && !(kind is Redo)) ==> history_kept(
                desk.doc,
                x.doc,
            )
        }),
{
    let d = desk.doc;
    match e {
        Expr::Direct { kind, count } => {
            lemma_direct_history(desk, kind, count, rest);
        },
        Expr::Motion(m) => {
            if let Some(motion) = crate::app::eval::handle::resolved(m.motion, desk.last_find).0 {
                law_motion_only_moves(d, motion, m.count, desk.mode is Insert);
            }
        },
        Expr::Op { op, target, outer_count } => {
            if let Some(t) = crate::app::eval::handle::meant_target(target, desk.last_find).0 {
                lemma_target_history(d, op, t, desk.query, desk.forward, desk.indent(), outer_count as int);
            }
        },
    }
}

/// Whatever a command that edits has done to the text, one undo takes back: the
/// text, the cursors and whether there was anything to save are those from
/// before the command. What had been undone before it is gone.
pub proof fn law_one_undo_takes_a_command_back(desk: Desk, e: Expr, rest: Seq<char>)
    requires
        expr_edits(e),
    ensures
        ({
            let d = desk.doc;
            let x = desk.expr(e, rest).0.doc;
            &&& x.undo.len() > 0
            &&& x.redo.len() == 0
            &&& x.undone().text == d.text
            &&& x.undone().cursor == d.cursor
            &&& x.undone().extra == d.extra
            &&& x.undone().dirty == d.dirty
        }),
{
    reveal(Desk::expr);
    lemma_run_history(desk.with_doc(desk.doc.snapshot()), e, rest);
}

/// A command that is not taken for an edit leaves the text, its version and the
/// history alone; undo and redo are the two that do not.
#[verifier::rlimit(60)]
pub proof fn law_other_commands_keep_the_text(desk: Desk, e: Expr, rest: Seq<char>)
    requires
        !expr_edits(e),
        e matches Expr::Direct { kind, count } ==> !(kind is Undo) && !(kind is Redo),
    ensures
        ({
            let d = desk.doc;
            let x = desk.expr(e, rest).0.doc;
            &&& x.text == d.text
            &&& x.dirty == d.dirty
            &&& x.version == d.version
            &&& history_kept(d, x)
        }),
{
    reveal(Desk::expr);
    lemma_run_history(desk, e, rest);
    let d = desk.doc;
    match e {
        Expr::Direct { kind, count } => {
            reveal(crate::app::eval::direct::edit_doc);
            lemma_repeated_yank(d, count as int);
        },
        Expr::Motion(m) => {
            if let Some(motion) = crate::app::eval::handle::resolved(m.motion, desk.last_find).0 {
                law_motion_only_moves(d, motion, m.count, desk.mode is Insert);
            }
        },
        Expr::Op { op, target, outer_count } => {
            if let Some(t) = crate::app::eval::handle::meant_target(target, desk.last_find).0 {
                lemma_target_history(d, op, t, desk.query, desk.forward, desk.indent(), outer_count as int);
            }
        },
    }
}

/// A command reaches no further than the document: the mode, the search, the
/// other buffers and all else change only by what it asks for. The document
/// stays that of its file.
pub proof fn law_command_works_on_the_document(desk: Desk, e: Expr, rest: Seq<char>)
    ensures
        desk.expr(e, rest).0 == (Desk { doc: desk.expr(e, rest).0.doc, ..desk }),
        desk.expr(e, rest).0.doc.path == desk.doc.path,
{
    reveal(Desk::expr);
    lemma_run_history(desk.with_doc(desk.doc.snapshot()), e, rest);
    lemma_run_history(desk, e, rest);
}

/// An operator command works on its target in the document, with the last search
/// and the settings of the buffer, and changes nothing else. A find is kept to
/// be repeated.
pub proof fn law_operator_command(desk: Desk, op: Operator, target: Target, n: u32)
    requires
        target matches Target::Motion(m) ==> !(m.motion is RepeatFind),
    ensures
        ({
            let (e, c) = desk.operate(op, target, n);
            let (d, asked) = desk.doc.op_target(op, target, desk.query, desk.forward, desk.indent(), n as int);
            &&& e == (Desk { doc: d, ..desk })
            &&& match target {
                Target::Motion(m) => match m.motion {
                    MotionKind::FindChar { ch, forward, till } => c == seq![
                        Cmd::<Seq<char>>::SetLastFind(crate::action::LastFind { ch, forward, till }),
                    ] + asked,
                    _ => c == asked,
                },
                _ => c == asked,
            }
        }),
{
    let asked = desk.doc.op_target(op, target, desk.query, desk.forward, desk.indent(), n as int).1;
    assert(Seq::<Cmd<Seq<char>>>::empty() + asked =~= asked);
}

/// An operator on a repeated find works as it would on that find; where there
/// was none it says so and does nothing.
pub proof fn law_operator_on_a_repeat(desk: Desk, op: Operator, reverse: bool, count: u32, n: u32)
    ensures
        ({
            let target = Target::Motion(MotionExpr { motion: MotionKind::RepeatFind { reverse }, count });
            let (e, c) = desk.operate(op, target, n);
            match desk.last_find {
                None => e == desk && c.len() == 1 && c[0] is ToastError,
                Some(f) => e.doc == desk.doc.op_motion(
                    op,
                    (MotionKind::FindChar {
                        ch: f.ch,
                        forward: if reverse {
                            !f.forward
                        } else {
                            f.forward
                        },
                        till: f.till,
                    }),
                    count,
                    desk.indent(),
                    n as int,
                ).0,
            }
        }),
{
    reveal(Doc::op_target);
}

} // verus!
