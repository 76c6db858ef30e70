//! What the keys and commands of the editor promise: where a movement goes,
//! what a search finds, what a selection covers, what typing leaves behind and
//! what repeating it does.
use vstd::prelude::*;
use crate::action::{DirectKind, Expr, InsertKey, InsertRecording, LastChange, LastFind, MotionExpr, MotionKind, Target};
use crate::app::eval::handle::{expr_edits, meant_target};
use crate::app::eval::motions::motion_cmds;
use crate::app::eval::word_at;
use crate::app::types::Selection;
use crate::app::Desk;
use crate::editor::case::Span;
use crate::editor::repeat::Step;
use crate::editor::search::match_near;
use crate::editor::{in_text, Cursor, Doc};
use crate::effect::{Cmd, ScrollAnchor};
use crate::finder::Finder;
use crate::keys::{KeyCode, KeyEvent};
use crate::mode::Mode;
use crate::prompt::{Prompt, PromptOutcome};
use crate::text::alphanumeric;

verus! {

/// Left and right go as many columns as the count says and stay in the line.
pub proof fn law_left_and_right(d: Doc, n: u32, past_end: bool)
    requires
        in_text(d.text, d.cursor),
        d.text[d.cursor.row as int].len() <= usize::MAX,
    ensures
        ({
            let line = d.text[d.cursor.row as int];
            let col = d.cursor.col as int;
            let limit: int = if past_end {
                line.len() as int
            } else if line.len() > 0 {
                line.len() - 1
            } else {
                0
            };
            let l = d.moved(MotionKind::Left, n, past_end);
            let r = d.moved(MotionKind::Right, n, past_end);
            &&& l.cursor.row == d.cursor.row
            &&& l.cursor.col == if n <= col {
                col - n
            } else {
                0
            }
            &&& r.cursor.row == d.cursor.row
            &&& r.cursor.col == if col >= limit {
                col
            } else if col + n <= limit {
                col + n
            } else {
                limit
            }
        }),
{
    reveal(Doc::moved);
    lemma_lefts(d, n as int);
    lemma_rights(d, n as int, past_end);
}

proof fn lemma_lefts(d: Doc, n: int)
    requires
        n >= 0,
    ensures
        ({
            let e = d.repeated(Step::Left, n);
            &&& e == (Doc { cursor: e.cursor, ..d })
            &&& e.cursor.row == d.cursor.row
            &&& e.cursor.col == if n <= d.cursor.col {
                d.cursor.col - n
            } else {
                0
            }
        }),
    decreases n,
{
    if n > 0 {
        lemma_lefts(d, n - 1);
    }
}

proof fn lemma_rights(d: Doc, n: int, past_end: bool)
    requires
        n >= 0,
        in_text(d.text, d.cursor),
        d.text[d.cursor.row as int].len() <= usize::MAX,
    ensures
        ({
            let e = d.repeated((Step::Right { past_end }), n);
            let limit = d.col_limit(past_end);
            let col = d.cursor.col as int;
            &&& e == (Doc { cursor: e.cursor, ..d })
            &&& e.cursor.row == d.cursor.row
            &&& e.cursor.col == if col >= limit {
                col
            } else if col + n <= limit {
                col + n
            } else {
                limit
            }
        }),
    decreases n,
{
    if n > 0 {
        lemma_rights(d, n - 1, past_end);
    }
}

/// Up and down go as many rows as the count says, as far as there are rows, and
/// stay in the column where the line is long enough.
pub proof fn law_up_and_down(d: Doc, n: u32, past_end: bool)
    requires
        in_text(d.text, d.cursor),
        d.text.len() <= usize::MAX,
        forall|k: int| 0 <= k < d.text.len() ==> (#[trigger] d.text[k]).len() <= usize::MAX,
    ensures
        ({
            let row = d.cursor.row as int;
            let u = d.moved(MotionKind::Up, n, past_end);
            let w = d.moved(MotionKind::Down, n, past_end);
            &&& u.cursor.row == if n <= row {
                row - n
            } else {
                0
            }
            &&& w.cursor.row == if row + n < d.text.len() {
                row + n
            } else {
                d.text.len() - 1
            }
            &&& u.cursor.col <= d.cursor.col
            &&& w.cursor.col <= d.cursor.col
            &&& in_text(d.text, u.cursor)
            &&& in_text(d.text, w.cursor)
            &&& n == 1 && row > 0 ==> u.cursor.col == if d.cursor.col < d.text[row - 1].len() {
                d.cursor.col as int
            } else if d.text[row - 1].len() > 0 {
                d.text[row - 1].len() - 1
            } else {
                0
            }
            &&& n == 1 && row + 1 < d.text.len() ==> w.cursor.col == if d.cursor.col < d.text[row + 1].len() {
                d.cursor.col as int
            } else if d.text[row + 1].len() > 0 {
                d.text[row + 1].len() - 1
            } else {
                0
            }
        }),
{
    reveal(Doc::moved);
    reveal_with_fuel(Doc::repeated, 2);
    lemma_ups(d, n as int);
    lemma_downs(d, n as int);
}

proof fn lemma_ups(d: Doc, n: int)
    requires
        n >= 0,
        in_text(d.text, d.cursor),
        forall|k: int| 0 <= k < d.text.len() ==> (#[trigger] d.text[k]).len() <= usize::MAX,
    ensures
        ({
            let e = d.repeated(Step::Up, n);
            &&& e == (Doc { cursor: e.cursor, ..d })
            &&& e.cursor.row == if n <= d.cursor.row {
                d.cursor.row - n
            } else {
                0
            }
            &&& e.cursor.col <= d.cursor.col
            &&& in_text(d.text, e.cursor)
        }),
    decreases n,
{
    if n > 0 {
        lemma_ups(d, n - 1);
    }
}

proof fn lemma_downs(d: Doc, n: int)
    requires
        n >= 0,
        in_text(d.text, d.cursor),
        d.text.len() <= usize::MAX,
        forall|k: int| 0 <= k < d.text.len() ==> (#[trigger] d.text[k]).len() <= usize::MAX,
    ensures
        ({
            let e = d.repeated(Step::Down, n);
            &&& e == (Doc { cursor: e.cursor, ..d })
            &&& e.cursor.row == if d.cursor.row + n < d.text.len() {
                d.cursor.row + n
            } else {
                d.text.len() - 1
            }
            &&& e.cursor.col <= d.cursor.col
            &&& in_text(d.text, e.cursor)
        }),
    decreases n,
{
    if n > 0 {
        lemma_downs(d, n - 1);
    }
}

/// The movements to an end of the line or of the text. A count with a movement
/// to an end of the text names a line, counted from one, and at most the last.
pub proof fn law_movements_to_the_ends(d: Doc, n: u32, past_end: bool)
    requires
        in_text(d.text, d.cursor),
        d.text.len() <= usize::MAX,
        d.text[d.cursor.row as int].len() <= usize::MAX,
    ensures
        d.moved(MotionKind::LineStart, n, past_end).cursor == (Cursor { row: d.cursor.row, col: 0 }),
        d.moved(MotionKind::LineEnd, n, past_end).cursor.row == d.cursor.row,
        d.moved(MotionKind::LineEnd, n, past_end).cursor.col == if d.text[d.cursor.row as int].len() > 0 {
            d.text[d.cursor.row as int].len() - 1
        } else {
            0
        },
        n <= 1 ==> d.moved(MotionKind::FileStart, n, past_end).cursor == (Cursor { row: 0, col: 0 }),
        n <= 1 ==> d.moved(MotionKind::FileEnd, n, past_end).cursor == (Cursor {
            row: (d.text.len() - 1) as usize,
            col: 0,
        }),
        n > 1 ==> ({
            let e = d.moved(MotionKind::FileStart, n, past_end);
            &&& e.cursor.col == 0
            &&& e.cursor.row == if n <= d.text.len() {
                n - 1
            } else {
                d.text.len() - 1
            }
            &&& d.moved(MotionKind::FileEnd, n, past_end) == e
        }),
{
    reveal(Doc::moved);
}

/// The other movements go where the operators' motions lead: to what they
/// search for, so many times over. Words and paragraphs go step by step.
pub proof fn law_movement_goes_to_the_target(d: Doc, motion: MotionKind, n: u32, past_end: bool)
    requires
        motion is WordEnd || motion is BigWordForward || motion is BigWordBack || motion is BigWordEnd
            || motion is WordEndBack || motion is BigWordEndBack || motion is BracketMatch || motion is FindChar
            || motion is LineFirstNonBlank || motion is LineLastNonBlank || motion is ViewportTop
            || motion is ViewportMiddle || motion is ViewportBottom || motion is HalfPageDown || motion is HalfPageUp
            || motion is PageDown || motion is PageUp,
    ensures
        d.moved(motion, n, past_end).cursor == d.target(d.cursor, motion, n),
{
    reveal(Doc::moved);
}

/// Going over words and paragraphs: none for a count of none, and else one more
/// step of the motion from where the steps before lead.
pub proof fn law_word_movements(d: Doc, n: u32, past_end: bool)
    requires
        n < u32::MAX,
    ensures
        d.moved(MotionKind::WordForward, 0, past_end) == d,
        d.moved(MotionKind::WordBack, 0, past_end) == d,
        ({
            let e = d.moved(MotionKind::WordForward, n, past_end);
            d.moved(MotionKind::WordForward, (n + 1) as u32, past_end) == (Doc {
                cursor: e.word_forward(e.cursor),
                ..e
            })
        }),
        ({
            let e = d.moved(MotionKind::WordBack, n, past_end);
            d.moved(MotionKind::WordBack, (n + 1) as u32, past_end) == (Doc { cursor: e.word_back(e.cursor), ..e })
        }),
{
    reveal(Doc::moved);
}

/// A search for a character is kept, and repeating it searches for the same
/// character in the same direction, or in the other one. Where there was none
/// there is nothing to repeat.
pub proof fn law_find_is_repeated(desk: Desk, f: LastFind, count: u32)
    ensures
        ({
            let find = MotionKind::FindChar { ch: f.ch, forward: f.forward, till: f.till };
            let back = MotionKind::FindChar { ch: f.ch, forward: !f.forward, till: f.till };
            let again = MotionKind::RepeatFind { reverse: false };
            let reversed = MotionKind::RepeatFind { reverse: true };
            let kept = Desk { last_find: Some(f), ..desk };
            let none = Desk { last_find: None, ..desk };
            &&& desk.motion(MotionExpr { motion: find, count }).1 == seq![Cmd::<Seq<char>>::SetLastFind(f)]
            &&& desk.run_cmd(Cmd::SetLastFind(f)) == (kept, None::<Cmd<Seq<char>>>)
            &&& kept.motion(MotionExpr { motion: again, count }).0 == kept.motion(MotionExpr { motion: find, count }).0
            &&& kept.motion(MotionExpr { motion: reversed, count }).0 == kept.motion(
                MotionExpr { motion: back, count },
            ).0
            &&& kept.motion(MotionExpr { motion: reversed, count }).1.len() == 0
            &&& none.motion(MotionExpr { motion: again, count }).0 == none
            &&& none.motion(MotionExpr { motion: again, count }).1.len() == 1
            &&& none.motion(MotionExpr { motion: again, count }).1[0] is ToastError
        }),
{
    let find = MotionKind::FindChar { ch: f.ch, forward: f.forward, till: f.till };
    let one = seq![Cmd::<Seq<char>>::SetLastFind(f)];
    assert(one + Seq::<Cmd<Seq<char>>>::empty() =~= one);
    assert(desk.motion(MotionExpr { motion: find, count }).1 =~= one);
}

/// An operator on a repeated find works on what the find itself would cover.
pub proof fn law_operator_on_a_repeated_find(f: LastFind, count: u32)
    ensures
        meant_target(
            Target::Motion(MotionExpr { motion: MotionKind::RepeatFind { reverse: false }, count }),
            Some(f),
        ).0 == Some(
            Target::Motion(
                MotionExpr {
                    motion: MotionKind::FindChar { ch: f.ch, forward: f.forward, till: f.till },
                    count,
                },
            ),
        ),
        meant_target(
            Target::Motion(MotionExpr { motion: MotionKind::RepeatFind { reverse: true }, count }),
            Some(f),
        ).0 == Some(
            Target::Motion(
                MotionExpr {
                    motion: MotionKind::FindChar { ch: f.ch, forward: !f.forward, till: f.till },
                    count,
                },
            ),
        ),
{
}

/// A character of a word: a letter, a digit or an underscore.
pub open spec fn wordy(c: char) -> bool {
    alphanumeric(c) || c == '_'
}

/// The word under a column is the longest run of word characters around it.
/// Where the character there is none, there is no word.
pub proof fn law_word_under_a_column(line: Seq<char>, col: int, a: int, b: int)
    requires
        0 <= a <= col < b <= line.len(),
        forall|k: int| a <= k < b ==> wordy(#[trigger] line[k]),
        a > 0 ==> !wordy(line[a - 1]),
        b < line.len() ==> !wordy(line[b]),
    ensures
        word_at(line, col) == Some(line.subrange(a, b)),
{
    lemma_word_start(line, col, a);
    lemma_word_end(line, col, b);
    assert(wordy(line[col]));
}

proof fn lemma_word_start(line: Seq<char>, k: int, a: int)
    requires
        0 <= a <= k <= line.len(),
        forall|i: int| a <= i < k ==> wordy(#[trigger] line[i]),
        a > 0 ==> !wordy(line[a - 1]),
    ensures
        crate::app::completion::ident_start(line, k) == a,
    decreases k,
{
    if k > a {
        assert(wordy(line[k - 1]));
        lemma_word_start(line, k - 1, a);
    }
}

proof fn lemma_word_end(line: Seq<char>, k: int, b: int)
    requires
        0 <= k <= b <= line.len(),
        forall|i: int| k <= i < b ==> wordy(#[trigger] line[i]),
        b < line.len() ==> !wordy(line[b]),
    ensures
        crate::app::eval::ident_end(line, k) == b,
    decreases b - k,
{
    if k < b {
        assert(wordy(line[k]));
        lemma_word_end(line, k + 1, b);
    }
}

pub proof fn law_no_word_under_a_column(line: Seq<char>, col: int)
    requires
        0 <= col,
        col < line.len() ==> !wordy(line[col]),
    ensures
        word_at(line, col) is None,
{
}

/// Going to a match goes to the nearest one in the direction of the search,
/// other than where the cursor is. Without one the cursor stays, and an error
/// is shown.
pub proof fn law_search_goes_to_the_match(desk: Desk, forward: bool)
    ensures
        match match_near(desk.doc.text, desk.query, desk.doc.cursor, forward, false) {
            Some((r, c)) => desk.jump_search(forward) == (Desk {
                doc: Doc { cursor: Cursor { row: r as usize, col: c as usize }, ..desk.doc },
                ..desk
            }),
            None => desk.jump_search(forward) == (Desk { said: desk.jump_search(forward).said, ..desk })
                && desk.jump_search(forward).said.0 is Error,
        },
        desk.run_cmd(Cmd::JumpSearch { reverse: false }).0 == desk.jump_search(desk.forward),
        desk.run_cmd(Cmd::JumpSearch { reverse: true }).0 == desk.jump_search(!desk.forward),
{
    reveal(Desk::jump_search);
}

/// Searching for the word under the cursor makes it the pattern and goes to the
/// next or to the previous one.
pub proof fn law_word_search(desk: Desk, forward: bool)
    ensures
        match word_at(desk.doc.text[desk.doc.cursor.row as int], desk.doc.cursor.col as int) {
            Some(w) => desk.search_word(forward) == (Desk { query: w, forward, ..desk }).jump_search(forward),
            None => desk.search_word(forward).doc == desk.doc && desk.search_word(forward).said.0 is Error,
        },
{
    reveal(Desk::search_word);
}

/// Selecting a match selects its characters: from where it starts, unless there
/// is a selection already, to its last one.
pub proof fn law_select_a_match(desk: Desk, forward: bool, r: int, c: int)
    requires
        match_near(desk.doc.text, desk.query, desk.doc.cursor, forward, true) == Some((r, c)),
        desk.query.len() > 0,
        0 <= r < usize::MAX,
        0 <= c,
        c + desk.query.len() <= usize::MAX,
    ensures
        ({
            let e = desk.search_select(forward);
            &&& e.doc.cursor.row == r
            &&& e.doc.cursor.col == c + desk.query.len() - 1
            &&& e.doc == (Doc { cursor: e.doc.cursor, ..desk.doc })
            &&& desk.mode.visual() ==> e.mode == desk.mode && e.anchor == desk.anchor
            &&& !desk.mode.visual() ==> e.mode is Visual && e.anchor == Some(
                Cursor { row: r as usize, col: c as usize },
            )
        }),
{
    reveal(Desk::search_select);
}

/// Selecting the whole buffer selects its lines, the first to the last.
pub proof fn law_select_all(desk: Desk)
    requires
        1 <= desk.doc.text.len() <= usize::MAX,
    ensures
        desk.run_cmd(Cmd::SelectWholeBuffer).0.selection() == Some(
            Selection::Line { from_row: 0, to_row: (desk.doc.text.len() - 1) as usize },
        ),
        desk.run_cmd(Cmd::SelectWholeBuffer).0.doc.text == desk.doc.text,
{
    reveal(Desk::select_all);
}

/// Entering a mode. A selection starts at the cursor when a visual mode is
/// entered from another kind of mode, and is gone when the visual modes are
/// left. In the normal mode the cursor is on a character where there is one.
pub proof fn law_entering_a_mode(desk: Desk, mode: Mode)
    requires
        in_text(desk.doc.text, desk.doc.cursor),
        desk.doc.text[desk.doc.cursor.row as int].len() <= usize::MAX,
    ensures
        ({
            let e = desk.run_cmd(Cmd::EnterMode(mode)).0;
            let v = mode is Visual || mode is VisualLine || mode is VisualBlock;
            let was = desk.mode is Visual || desk.mode is VisualLine || desk.mode is VisualBlock;
            let n = desk.doc.text[desk.doc.cursor.row as int].len();
            &&& e.mode == mode
            &&& v && !was ==> e.anchor == Some(desk.doc.cursor)
            &&& v && was ==> e.anchor == desk.anchor
            &&& !v ==> e.anchor is None
            &&& e.doc == (Doc { cursor: e.doc.cursor, ..desk.doc })
            &&& e.doc.cursor.row == desk.doc.cursor.row
            &&& e.doc.cursor.col == if mode is Normal && desk.doc.cursor.col > 0 && desk.doc.cursor.col == n {
                desk.doc.cursor.col - 1
            } else {
                desk.doc.cursor.col as int
            }
            &&& e.query == desk.query
            &&& e.recording == desk.recording
            &&& e.last_change == desk.last_change
        }),
{
}

/// What is selected: the characters from one end to the other, whole lines, or
/// the rows and columns that the two ends span. Which end is the cursor's does
/// not matter.
pub proof fn law_selection_spans_both_ends(desk: Desk, a: Cursor)
    requires
        desk.anchor == Some(a),
    ensures
        ({
            let c = desk.doc.cursor;
            match desk.mode {
                Mode::Visual => desk.selection() == Some(
                    if c.row < a.row || (c.row == a.row && c.col < a.col) {
                        Selection::Char { from: c, to: a }
                    } else {
                        Selection::Char { from: a, to: c }
                    },
                ),
                Mode::VisualLine => desk.selection() matches Some(Selection::Line { from_row, to_row }) && from_row
                    <= to_row && (from_row == a.row && to_row == c.row || from_row == c.row && to_row == a.row),
                Mode::VisualBlock => desk.selection() matches Some(Selection::Block { r0, c0, r1, c1 }) && r0 <= r1 && c0
                    <= c1 && (r0 == a.row && r1 == c.row || r0 == c.row && r1 == a.row) && (c0 == a.col && c1 == c.col
                    || c0 == c.col && c1 == a.col),
                _ => desk.selection() is None,
            }
        }),
{
}

/// Deleting a selection takes exactly what is selected, the character under the
/// later end too, into nothing; changing does the same and goes on typing; and
/// copying puts it into the register. Deleting and changing can be undone.
#[verifier::rlimit(60)]
pub proof fn law_operators_on_a_selection(desk: Desk, sel: Selection)
    requires
        desk.selection() == Some(sel),
    ensures
        ({
            let d = desk.doc.snapshot();
            let gone = match sel {
                Selection::Char { from, to } => d.delete_range(from, d.next_pos(to)),
                Selection::Line { from_row, to_row } => d.delete_lines(from_row as int, to_row as int),
                Selection::Block { r0, c0, r1, c1 } => d.delete_block(r0 as int, c0 as int, r1 as int, c1 as int),
            };
            let copied = match sel {
                Selection::Char { from, to } => desk.doc.yank_range(from, desk.doc.next_pos(to)).yank,
                Selection::Line { from_row, to_row } => desk.doc.yank_lines(from_row as int, to_row as int).yank,
                Selection::Block { r0, c0, r1, c1 } => desk.doc.yank_block(
                    r0 as int,
                    c0 as int,
                    r1 as int,
                    c1 as int,
                ).yank,
            };
            &&& desk.visual_delete().doc.text == gone.text
            &&& desk.visual_delete().doc.yank == gone.yank
            &&& desk.visual_delete().mode is Normal
            &&& desk.visual_delete().anchor is None
            &&& desk.visual_change().doc == gone
            &&& desk.visual_change().mode is Insert
            &&& desk.visual_change().anchor is None
            &&& desk.visual_yank().doc.text == desk.doc.text
            &&& desk.visual_yank().doc.yank == copied
            &&& desk.visual_yank().mode is Normal
            &&& desk.visual_yank().anchor is None
        }),
{
    reveal(Desk::visual_delete);
    reveal(Desk::visual_change);
    reveal(Desk::visual_yank);
    reveal(Doc::delete_selection);
    reveal(Doc::yank_selection);
}

/// After copying a selection the cursor stands where it starts.
pub proof fn law_copy_goes_to_the_start(desk: Desk, sel: Selection)
    requires
        desk.selection() == Some(sel),
        desk.wf(),
        sel matches Selection::Char { from, to } ==> in_text(desk.doc.text, from),
        forall|k: int| 0 <= k < desk.doc.text.len() ==> (#[trigger] desk.doc.text[k]).len() <= usize::MAX,
    ensures
        ({
            let c = desk.visual_yank().doc.cursor;
            match sel {
                Selection::Char { from, to } => c.row == from.row && (c.col == from.col || c.col + 1 == from.col
                    && from.col == desk.doc.text[from.row as int].len()),
                Selection::Line { from_row, to_row } => c == (Cursor { row: from_row, col: 0 }),
                Selection::Block { r0, c0, r1, c1 } => c.row == r0 && c.col <= c0,
            }
        }),
{
    reveal(Desk::visual_yank);
    reveal(Doc::yank_selection);
}

/// Joining a selection joins its rows into one; of a selection within one row
/// nothing is made.
pub proof fn law_join_of_a_selection(desk: Desk, sel: Selection)
    requires
        desk.selection() == Some(sel),
    ensures
        ({
            let (a, b) = match sel {
                Selection::Char { from, to } => (from.row as int, to.row as int),
                Selection::Line { from_row, to_row } => (from_row as int, to_row as int),
                Selection::Block { r0, c0, r1, c1 } => (r0 as int, r1 as int),
            };
            if a == b {
                desk.visual_join() == desk
            } else {
                &&& desk.visual_join().doc.text == desk.doc.snapshot().at(a, 0).repeated(Step::JoinNext, b - a).text
                &&& desk.visual_join().mode is Normal
            }
        }),
{
    reveal(Desk::visual_join);
    reveal(Doc::join_rows);
}

/// The keys of the visual modes: the plain movements move the end of the
/// selection and leave where it started; `o` goes to the other end; escape
/// leaves the mode.
#[verifier::rlimit(60)]
pub proof fn law_visual_keys(desk: Desk, key: KeyEvent)
    requires
        !desk.g_pending,
        !key.modifiers.control,
    ensures
        key.code is Esc ==> desk.visual_key(key) == desk.entered(Mode::Normal),
        key.code == KeyCode::Char('h') || key.code is Left ==> desk.visual_key(key) == desk.with_doc(desk.doc.left()),
        key.code == KeyCode::Char('l') || key.code is Right ==> desk.visual_key(key) == desk.with_doc(
            desk.doc.right(false),
        ),
        key.code == KeyCode::Char('j') || key.code is Down ==> desk.visual_key(key) == desk.with_doc(desk.doc.down()),
        key.code == KeyCode::Char('k') || key.code is Up ==> desk.visual_key(key) == desk.with_doc(desk.doc.up()),
        key.code == KeyCode::Char('0') || key.code is Home ==> desk.visual_key(key) == desk.with_doc(
            desk.doc.line_start(),
        ),
        key.code == KeyCode::Char('G') ==> desk.visual_key(key) == desk.with_doc(desk.doc.file_end()),
        key.code == KeyCode::Char('g') ==> desk.visual_key(key) == (Desk { g_pending: true, ..desk }),
        key.code == KeyCode::Char('y') ==> desk.visual_key(key) == desk.visual_yank(),
        key.code == KeyCode::Char('d') || key.code == KeyCode::Char('x') ==> desk.visual_key(key)
            == desk.visual_delete(),
        key.code == KeyCode::Char('c') || key.code == KeyCode::Char('s') ==> desk.visual_key(key)
            == desk.visual_change(),
        key.code == KeyCode::Char('~') ==> desk.visual_key(key) == desk.visual_flip(),
        key.code == KeyCode::Char('J') ==> desk.visual_key(key) == desk.visual_join(),
        key.code == KeyCode::Char('*') ==> desk.visual_key(key) == desk.search_word(true),
        key.code == KeyCode::Char('#') ==> desk.visual_key(key) == desk.search_word(false),
        key.code == KeyCode::Char('o') && desk.anchor is Some ==> desk.visual_key(key) == (Desk {
            anchor: Some(desk.doc.cursor),
            doc: Doc { cursor: desk.anchor->0, ..desk.doc },
            ..desk
        }),
        key.code == KeyCode::Char('v') ==> desk.visual_key(key) == if desk.mode is Visual {
            desk.entered(Mode::Normal)
        } else {
            Desk { mode: Mode::Visual, ..desk }
        },
        key.code == KeyCode::Char('V') ==> desk.visual_key(key) == if desk.mode is VisualLine {
            desk.entered(Mode::Normal)
        } else {
            Desk { mode: Mode::VisualLine, ..desk }
        },
{
}

/// The motion keys of the visual modes go where the motion leads and leave
/// where the selection started.
#[verifier::rlimit(60)]
pub proof fn law_visual_motions(desk: Desk, key: KeyEvent, motion: MotionKind)
    requires
        !desk.g_pending,
        key.modifiers.control ==> match motion {
            MotionKind::HalfPageDown => key.code == KeyCode::Char('d'),
            MotionKind::HalfPageUp => key.code == KeyCode::Char('u'),
            MotionKind::PageDown => key.code == KeyCode::Char('f'),
            MotionKind::PageUp => key.code == KeyCode::Char('b'),
            _ => false,
        },
        !key.modifiers.control ==> match motion {
            MotionKind::WordForward => key.code == KeyCode::Char('w'),
            MotionKind::WordBack => key.code == KeyCode::Char('b'),
            MotionKind::WordEnd => key.code == KeyCode::Char('e'),
            MotionKind::BigWordForward => key.code == KeyCode::Char('W'),
            MotionKind::BigWordBack => key.code == KeyCode::Char('B'),
            MotionKind::BigWordEnd => key.code == KeyCode::Char('E'),
            MotionKind::LineFirstNonBlank => key.code == KeyCode::Char('^'),
            MotionKind::LineEnd => key.code == KeyCode::Char('$') || key.code is End,
            MotionKind::BracketMatch => key.code == KeyCode::Char('%'),
            MotionKind::ViewportTop => key.code == KeyCode::Char('H'),
            MotionKind::ViewportMiddle => key.code == KeyCode::Char('M'),
            MotionKind::ViewportBottom => key.code == KeyCode::Char('L'),
            MotionKind::ParagraphBack => key.code == KeyCode::Char('{'),
            MotionKind::ParagraphForward => key.code == KeyCode::Char('}'),
            _ => false,
        },
    ensures
        desk.visual_key(key) == (Desk {
            doc: Doc { cursor: desk.doc.target(desk.doc.cursor, motion, 1), ..desk.doc },
            ..desk
        }),
{
    reveal(Desk::visual_move);
}

/// The keys after `g` in the visual modes.
#[verifier::rlimit(60)]
pub proof fn law_visual_keys_after_g(desk: Desk, key: KeyEvent)
    requires
        desk.g_pending,
    ensures
        ({
            let calm = Desk { g_pending: false, ..desk };
            let e = desk.visual_key(key);
            &&& !e.g_pending
            &&& key.code == KeyCode::Char('g') ==> e == calm.with_doc(desk.doc.at(0, 0))
            &&& key.code == KeyCode::Char('e') ==> e == calm.with_doc(
                Doc { cursor: desk.doc.target(desk.doc.cursor, MotionKind::WordEndBack, 1), ..desk.doc },
            )
            &&& key.code == KeyCode::Char('E') ==> e == calm.with_doc(
                Doc { cursor: desk.doc.target(desk.doc.cursor, MotionKind::BigWordEndBack, 1), ..desk.doc },
            )
            &&& key.code == KeyCode::Char('_') ==> e == calm.with_doc(
                Doc { cursor: desk.doc.target(desk.doc.cursor, MotionKind::LineLastNonBlank, 1), ..desk.doc },
            )
            &&& key.code == KeyCode::Char('s') ==> e == calm.with_doc(
                Doc { cursor: desk.doc.target(desk.doc.cursor, MotionKind::LineFirstNonBlank, 1), ..desk.doc },
            )
            &&& key.code == KeyCode::Char('l') ==> e == calm.with_doc(
                Doc { cursor: desk.doc.target(desk.doc.cursor, MotionKind::LineEnd, 1), ..desk.doc },
            )
            &&& key.code == KeyCode::Char('n') ==> e == calm.search_select(desk.forward)
            &&& key.code == KeyCode::Char('N') ==> e == calm.search_select(!desk.forward)
        }),
{
    reveal(Desk::visual_move);
    reveal(Desk::search_select);
}

/// Scrolling puts the cursor's row at the top, in the middle or at the bottom of
/// the viewport, as far as the text allows: what is shown starts at a row from
/// which the text fills the viewport, or at the first.
pub proof fn law_scrolling(desk: Desk)
    requires
        desk.doc.height > 0,
        desk.doc.cursor.row < desk.doc.text.len() <= usize::MAX,
    ensures
        ({
            let d = desk.doc;
            let t = desk.run_cmd(Cmd::Scroll(ScrollAnchor::Top)).0.doc;
            let c = desk.run_cmd(Cmd::Scroll(ScrollAnchor::Center)).0.doc;
            let b = desk.run_cmd(Cmd::Scroll(ScrollAnchor::Bottom)).0.doc;
            let row = d.cursor.row as int;
            let last: int = if d.text.len() > d.height {
                d.text.len() - d.height
            } else {
                0
            };
            &&& t == (Doc { scroll: t.scroll, ..d })
            &&& t.scroll == row || (t.scroll == last && row > last)
            &&& c.scroll + d.height / 2 == row || (c.scroll == 0 && row < d.height / 2) || (c.scroll == last && row
                - d.height / 2 > last)
            &&& b.scroll + d.height == row + 1 || (b.scroll == 0 && row + 1 < d.height)
            &&& b.scroll <= last
            &&& c.scroll <= last
            &&& t.scroll <= last
        }),
{
    reveal(Doc::scrolled);
}

/// Saving leaves the text alone and the buffer with nothing to save; a save
/// under another name goes on with that name; and a save that is to quit quits.
pub proof fn law_saving(desk: Desk, path: Option<Seq<char>>, then_quit: bool)
    ensures
        ({
            let e = desk.saved(path, then_quit);
            &&& e.doc.text == desk.doc.text
            &&& e.doc.cursor == desk.doc.cursor
            &&& !e.doc.dirty
            &&& e.doc.path == match path {
                Some(p) => Some(p),
                None => desk.doc.path,
            }
            &&& e.quit == (desk.quit || then_quit)
            &&& e.doc.undo == desk.doc.undo
            &&& e.said.0 is Info
        }),
{
}

/// Text from a formatter takes the place of the buffer's, less the break at its
/// end; one undo brings the old text back, and the cursor stays in the text. The
/// same text changes nothing.
pub proof fn law_formatting(d: Doc, text: Seq<char>)
    requires
        d.text.len() >= 1,
        crate::text::split(text).len() >= 1,
        crate::text::split(text).len() <= usize::MAX,
        forall|k: int| 0 <= k < crate::text::split(text).len() ==> (#[trigger] crate::text::split(text)[k]).len()
            <= usize::MAX,
    ensures
        ({
            let e = d.formatted(text);
            let lines = crate::text::split(text);
            let n = lines.len() as int;
            let kept = if n > 1 && lines[n - 1].len() == 0 {
                lines.take(n - 1)
            } else {
                lines
            };
            &&& e.text == kept
            &&& d.text == kept ==> e == d
            &&& d.text != kept ==> {
                &&& e.dirty
                &&& e.undone().text == d.text
                &&& e.undone().cursor == d.cursor
                &&& in_text(e.text, e.cursor)
                &&& in_text(e.text, d.cursor) ==> e.cursor == d.cursor
            }
        }),
{
    let lines = crate::text::split(text);
    let n = lines.len() as int;
    if n > 1 && lines[n - 1].len() == 0 {
        assert(lines.drop_last() =~= lines.take(n - 1));
    }
}

/// Dot runs the last change again, with its own count or with the one that is
/// given.
pub proof fn law_dot_runs_the_last_change(desk: Desk, e: Expr, count: u32, rest: Seq<char>)
    requires
        desk.last_change == Some(LastChange::<Seq<InsertKey>>::Expr(e)),
    ensures
        ({
            let again = match e {
                Expr::Direct { kind, count: n } => Expr::Direct {
                    kind,
                    count: if count > 1 {
                        count
                    } else {
                        n
                    },
                },
                Expr::Motion(m) => Expr::Motion(
                    MotionExpr {
                        motion: m.motion,
                        count: if count > 1 {
                            count
                        } else {
                            m.count
                        },
                    },
                ),
                Expr::Op { op, target, outer_count } => Expr::Op {
                    op,
                    target,
                    outer_count: if count > 1 {
                        count
                    } else {
                        outer_count
                    },
                },
            };
            let (d, c) = desk.expr(again, rest);
            desk.evaluate((Expr::Direct { kind: DirectKind::RepeatLast, count }), rest) == d.run_cmds(c)
        }),
{
}

/// Dot after an insertion runs what started it and types what was typed, and is
/// back in the normal mode.
pub proof fn law_dot_types_again(desk: Desk, trigger: Expr, keys: Seq<InsertKey>, rest: Seq<char>)
    requires
        desk.last_change == Some(LastChange::Insert { trigger, keys }),
    ensures
        ({
            let (d, c) = desk.expr(trigger, rest);
            let (e, out) = d.run_cmds(c);
            let (f, _) = desk.evaluate((Expr::Direct { kind: DirectKind::RepeatLast, count: 1 }), rest);
            &&& f.mode is Normal
            &&& f.doc.text == e.doc.retyped(keys).text
            &&& f.last_change == e.last_change
        }),
{
}

/// Typing again types each key in its turn: a character, a line break or a
/// backspace.
pub proof fn law_retyping(d: Doc, keys: Seq<InsertKey>, c: char)
    ensures
        d.retyped(Seq::empty()) == d,
        d.retyped(keys.push(InsertKey::Char(c))) == d.retyped(keys).insert_char(c),
        d.retyped(keys.push(InsertKey::Newline)) == d.retyped(keys).insert_newline(),
        d.retyped(keys.push(InsertKey::Backspace)) == d.retyped(keys).delete_before(),
{
    assert(keys.push(InsertKey::Char(c)).drop_last() =~= keys);
    assert(keys.push(InsertKey::Newline).drop_last() =~= keys);
    assert(keys.push(InsertKey::Backspace).drop_last() =~= keys);
}

/// With nothing to repeat, dot says so and leaves everything alone.
pub proof fn law_dot_without_a_change(desk: Desk, count: u32, rest: Seq<char>)
    requires
        desk.last_change is None,
    ensures
        ({
            let (e, c) = desk.evaluate((Expr::Direct { kind: DirectKind::RepeatLast, count }), rest);
            e == (Desk { said: e.said, ..desk }) && e.said.0 is Error && c.len() == 0
        }),
{
}

/// An edit is what dot repeats next, or, where it goes on typing, what a
/// recording starts with. Other commands leave both alone.
pub proof fn law_edits_are_remembered(desk: Desk, e: Expr, cmds: Seq<Cmd<Seq<char>>>)
    ensures
        ({
            let d = desk.remembering(e, cmds);
            let typing = exists|i: int|
                0 <= i < cmds.len() && #[trigger] cmds[i] == Cmd::<Seq<char>>::EnterMode(Mode::Insert);
            &&& !expr_edits(e) ==> d == desk
            &&& expr_edits(e) && !typing ==> d.last_change == Some(LastChange::<Seq<InsertKey>>::Expr(e))
                && d.recording is None
            &&& expr_edits(e) && typing ==> d.last_change == desk.last_change && d.recording == Some(
                InsertRecording { trigger: e, keys: Seq::<InsertKey>::empty() },
            )
            &&& d.doc == desk.doc
            &&& d.mode == desk.mode
        }),
{
}

/// Escape in the insert mode ends the typing: what was typed becomes the last
/// change, the mode is normal, and no text changes.
pub proof fn law_escape_ends_the_typing(desk: Desk, key: KeyEvent, has_lsp: bool)
    requires
        desk.menu is None,
        key.code is Esc,
    ensures
        ({
            let (e, asked) = desk.insert_key(key, has_lsp);
            &&& e.mode is Normal
            &&& e.doc.text == desk.doc.text
            &&& e.recording is None
            &&& desk.recording matches Some(r) ==> e.last_change == Some(
                LastChange::Insert { trigger: r.trigger, keys: r.keys },
            )
            &&& desk.recording is None ==> e.last_change == desk.last_change
            &&& asked is Nothing
        }),
{
}

/// Typing in the insert mode, with one cursor: the character goes in, and into
/// the recording; so do a line break and a backspace.
#[verifier::rlimit(60)]
pub proof fn law_typing_is_recorded(desk: Desk, key: KeyEvent, has_lsp: bool)
    requires
        desk.menu is None,
        desk.doc.extra.len() == 0,
        !key.modifiers.control,
    ensures
        ({
            let e = desk.insert_key(key, has_lsp).0;
            &&& key.code matches KeyCode::Char(c) ==> {
                &&& e.doc == desk.doc.insert_smart(c)
                &&& desk.recording matches Some(r) ==> e.recording == Some(
                    InsertRecording { trigger: r.trigger, keys: r.keys.push(InsertKey::Char(c)) },
                )
                &&& e.mode == desk.mode
            }
            &&& key.code is Enter ==> {
                &&& e.doc == desk.doc.insert_newline()
                &&& desk.recording matches Some(r) ==> e.recording == Some(
                    InsertRecording { trigger: r.trigger, keys: r.keys.push(InsertKey::Newline) },
                )
            }
            &&& key.code is Backspace ==> {
                &&& e.doc == desk.doc.delete_before_smart()
                &&& desk.recording matches Some(r) ==> e.recording == Some(
                    InsertRecording { trigger: r.trigger, keys: r.keys.push(InsertKey::Backspace) },
                )
            }
            &&& (key.code is Char || key.code is Enter || key.code is Backspace) && desk.recording is None
                ==> e.recording is None
        }),
{
    reveal(Desk::type_char);
    reveal(Desk::noting);
    reveal(Desk::menu_updated);
    reveal(Doc::fan_insert);
    reveal(Doc::fan_erase);
    reveal_with_fuel(crate::app::input::insert::recorded, 2);
}

/// A movement while typing drops the recording, moves the cursor and leaves the
/// text.
pub proof fn law_moving_drops_the_recording(desk: Desk, key: KeyEvent, has_lsp: bool)
    requires
        desk.menu is None,
        key.code is Left || key.code is Right || key.code is Up || key.code is Down,
    ensures
        ({
            let e = desk.insert_key(key, has_lsp).0;
            &&& e.recording is None
            &&& e.last_change == desk.last_change
            &&& e.doc.text == desk.doc.text
            &&& e.mode == desk.mode
            &&& key.code is Left ==> e.doc == desk.doc.left()
            &&& key.code is Right ==> e.doc == desk.doc.right(true)
            &&& key.code is Up ==> e.doc == desk.doc.up()
            &&& key.code is Down ==> e.doc == desk.doc.down()
        }),
{
}

/// A tab types a tab, or as many spaces as it takes to the next multiple of the
/// indent width.
pub proof fn law_tab_reaches_a_stop(desk: Desk, key: KeyEvent, has_lsp: bool)
    requires
        desk.menu is None,
        key.code is Tab,
        desk.indent().width > 0,
    ensures
        ({
            let e = desk.insert_key(key, has_lsp).0;
            let w = desk.indent().width as int;
            if desk.indent().use_tabs {
                e.doc == desk.doc.fan_insert('\t')
            } else {
                exists|n: int|
                    1 <= n <= w && (desk.doc.cursor.col + n) % w == 0 && e.doc == #[trigger] desk.doc.fan_spaces(n)
            }
        }),
{
    reveal(Desk::type_tab);
    reveal(Desk::noting);
    reveal(Desk::menu_updated);
    let w = desk.indent().width as int;
    let col = desk.doc.cursor.col as int;
    let n = w - col % w;
    assert(0 <= col % w < w) by (nonlinear_arith)
        requires
            w > 0,
    ;
    assert((col + n) % w == 0) by (nonlinear_arith)
        requires
            w > 0,
            n == w - col % w,
    {
        let q = col / w;
        assert(col == w * q + col % w);
        assert(col + n == w * (q + 1));
        assert((w * (q + 1)) % w == 0);
    }
    assert(desk.insert_key(key, has_lsp).0.doc == if desk.indent().use_tabs {
        desk.doc.fan_insert('\t')
    } else {
        desk.doc.fan_spaces(n)
    });
}

/// The interrupt key quits from every mode; the other keys go to the mode that
/// is on.
pub proof fn law_keys_go_to_the_mode(desk: Desk, key: KeyEvent, has_lsp: bool)
    ensures
        ({
            let (e, c, asked) = desk.key(key, has_lsp);
            if key.modifiers.control && key.code == KeyCode::Char('c') {
                e == (Desk { quit: true, ..desk }) && c.len() == 0
            } else {
                match desk.mode {
                    Mode::Insert => (e, asked) == desk.insert_key(key, has_lsp) && c.len() == 0,
                    Mode::Normal => (e, c) == desk.normal_key(key),
                    _ => e == desk.visual_key(key) && c.len() == 0,
                }
            }
        }),
{
}

/// Going over paragraphs goes to the start of the row that the motion finds,
/// once for each count.
pub proof fn law_paragraph_movements(d: Doc, n: u32, past_end: bool)
    requires
        n < u32::MAX,
    ensures
        d.moved(MotionKind::ParagraphForward, 0, past_end) == d,
        d.moved(MotionKind::ParagraphBack, 0, past_end) == d,
        ({
            let e = d.moved(MotionKind::ParagraphForward, n, past_end);
            d.moved(MotionKind::ParagraphForward, (n + 1) as u32, past_end).cursor == (Cursor {
                row: crate::editor::motion::paragraph_end(e.text, e.cursor.row as int) as usize,
                col: 0,
            })
        }),
        ({
            let e = d.moved(MotionKind::ParagraphBack, n, past_end);
            d.moved(MotionKind::ParagraphBack, (n + 1) as u32, past_end).cursor == (Cursor {
                row: crate::editor::motion::paragraph_start(e.text, e.cursor.row as int) as usize,
                col: 0,
            })
        }),
{
    reveal(Doc::moved);
}

/// Searching on asks for as many steps as the count says, in the direction of
/// the search or against it.
pub proof fn law_search_movements(d: Doc, n: u32, past_end: bool)
    requires
        n < u32::MAX,
    ensures
        motion_cmds(d, MotionKind::SearchNext, 0).len() == 0,
        motion_cmds(d, MotionKind::SearchPrev, 0).len() == 0,
        motion_cmds(d, MotionKind::SearchNext, (n + 1) as u32) == motion_cmds(d, MotionKind::SearchNext, n).push(
            Cmd::JumpSearch { reverse: false },
        ),
        motion_cmds(d, MotionKind::SearchPrev, (n + 1) as u32) == motion_cmds(d, MotionKind::SearchPrev, n).push(
            Cmd::JumpSearch { reverse: true },
        ),
        d.moved(MotionKind::SearchNext, n, past_end) == d,
        d.moved(MotionKind::SearchPrev, n, past_end) == d,
{
    reveal(Doc::moved);
}

/// Searching for the word under the cursor asks for it to be the pattern, in
/// the one direction or in the other, and for one step. Without a word there is
/// an error.
pub proof fn law_word_search_movements(d: Doc)
    ensures
        ({
            let forth = motion_cmds(d, MotionKind::SearchWordForward, 1);
            let back = motion_cmds(d, MotionKind::SearchWordBack, 1);
            match word_at(d.text[d.cursor.row as int], d.cursor.col as int) {
                Some(w) => {
                    &&& forth == seq![
                        Cmd::<Seq<char>>::SetSearch { pattern: w, forward: true },
                        Cmd::JumpSearch { reverse: false },
                    ]
                    &&& back == seq![
                        Cmd::<Seq<char>>::SetSearch { pattern: w, forward: false },
                        Cmd::JumpSearch { reverse: false },
                    ]
                },
                None => forth.len() == 1 && forth[0] is ToastError && back.len() == 1 && back[0] is ToastError,
            }
        }),
{
}

/// A motion that is no find and no repeat of one moves the cursor and asks for
/// what belongs to it.
pub proof fn law_motions_move_and_ask(desk: Desk, m: MotionExpr)
    requires
        !(m.motion is FindChar),
        !(m.motion is RepeatFind),
    ensures
        desk.motion(m).0 == (Desk { doc: desk.doc.moved(m.motion, m.count, desk.mode is Insert), ..desk }),
        desk.motion(m).1 == motion_cmds(desk.doc, m.motion, m.count),
{
    let c = motion_cmds(desk.doc, m.motion, m.count);
    assert(Seq::<Cmd<Seq<char>>>::empty() + c =~= c);
}

/// The comment command toggles the comments of as many lines as its count says,
/// with the token of the buffer's language, and leaves the cursor in its row.
/// Without a token it says so.
pub proof fn law_comment_command(desk: Desk, n: u32, rest: Seq<char>)
    requires
        in_text(desk.doc.text, desk.doc.cursor),
    ensures
        ({
            let (e, c) = desk.direct(DirectKind::ToggleComment, n, rest);
            match desk.comment_token() {
                None => e == desk && c.len() == 1 && c[0] is ToastError,
                Some(token) => {
                    &&& c.len() == 0
                    &&& e.doc.cursor.row == desk.doc.cursor.row
                    &&& n == 1 ==> e.doc.text == desk.doc.toggle_comment(token).text
                    &&& n == 0 ==> e.doc.text == desk.doc.text
                },
            }
        }),
{
    reveal(Doc::comment_lines);
    reveal_with_fuel(crate::app::eval::handle::commented, 2);
}

/// Toggling the comments of several lines toggles each of them, from the
/// cursor's on, as far as there are lines.
pub proof fn law_comment_command_on_lines(d: Doc, token: Seq<char>, n: int)
    requires
        n >= 1,
        d.cursor.row + n <= d.text.len() <= usize::MAX,
    ensures
        ({
            let e = d.comment_lines(token, n);
            let r = d.cursor.row as int;
            &&& e.text.len() == d.text.len()
            &&& forall|k: int|
                0 <= k < d.text.len() ==> (#[trigger] e.text[k]) == if r <= k < r + n {
                    d.at(k, 0).toggle_comment(token).text[k]
                } else {
                    d.text[k]
                }
        }),
{
    reveal(Doc::comment_lines);
    lemma_commented(d, token, 0, n);
}

proof fn lemma_commented(d: Doc, token: Seq<char>, i: int, n: int)
    requires
        0 <= i < n,
        d.cursor.row + (n - i) <= d.text.len() <= usize::MAX,
    ensures
        ({
            let e = crate::app::eval::handle::commented(d, token, i, n);
            let r = d.cursor.row as int;
            &&& e.text.len() == d.text.len()
            &&& forall|k: int|
                0 <= k < d.text.len() ==> (#[trigger] e.text[k]) == if r <= k < r + (n - i) {
                    d.at(k, 0).toggle_comment(token).text[k]
                } else {
                    d.text[k]
                }
        }),
    decreases n - i,
{
    let r = d.cursor.row as int;
    let x = d.toggle_comment(token);
    lemma_comment_row(d, token);
    if i + 1 < n {
        let f = x.at(x.cursor.row + 1, x.cursor.col as int);
        lemma_commented(f, token, i + 1, n);
        let e = crate::app::eval::handle::commented(d, token, i, n);
        assert(e == crate::app::eval::handle::commented(f, token, i + 1, n));
        assert forall|k: int| 0 <= k < d.text.len() implies (#[trigger] e.text[k]) == if r <= k < r + (n - i) {
            d.at(k, 0).toggle_comment(token).text[k]
        } else {
            d.text[k]
        } by {
            if r + 1 <= k < r + (n - i) {
                lemma_comment_row(f.at(k, 0), token);
                lemma_comment_row(d.at(k, 0), token);
                assert(f.text[k] == d.text[k]);
            } else if k == r {
                assert(f.text[k] == x.text[k]);
            }
        }
    } else {
        reveal_with_fuel(crate::app::eval::handle::commented, 2);
    }
}

/// What toggling makes of a row depends on that row alone.
proof fn lemma_comment_row(d: Doc, token: Seq<char>)
    requires
        d.cursor.row < d.text.len(),
    ensures
        ({
            let e = d.toggle_comment(token);
            let r = d.cursor.row as int;
            &&& e.text.len() == d.text.len()
            &&& e.cursor.row == r
            &&& e.text[r] == d.at(r, 0).toggle_comment(token).text[r]
            &&& forall|k: int| 0 <= k < d.text.len() && k != r ==> (#[trigger] e.text[k]) == d.text[k]
        }),
{
}

/// The replace command replaces by what it is told, in the pattern's place the
/// last one that was searched for where it names none; the pattern is what is
/// searched for next. Where the pattern does not occur, or the command is not
/// spelled right, nothing changes and an error is shown.
pub proof fn law_replace_command(desk: Desk, raw: Seq<char>)
    ensures
        ({
            let (e, c) = desk.direct(DirectKind::Substitute, 1, raw);
            match crate::editor::substitute::substitution(raw) {
                None => e == desk && c.len() == 1 && c[0] is ToastError,
                Some(args) => {
                    let pattern = if args.pattern.len() > 0 {
                        args.pattern
                    } else {
                        desk.query
                    };
                    let s = crate::editor::substitute::SubsArgs {
                        range: args.range,
                        pattern,
                        replacement: args.replacement,
                        global: args.global,
                    };
                    &&& pattern.len() == 0 ==> e == desk && c.len() == 1 && c[0] is ToastError
                    &&& pattern.len() > 0 && desk.doc.substitute(s) == desk.doc ==> e.doc == desk.doc
                    &&& pattern.len() > 0 && desk.doc.substitute(s) != desk.doc ==> e.doc == desk.doc.substitute(s)
                        && c[0] == (Cmd::<Seq<char>>::SetSearch { pattern, forward: true })
                },
            }
        }),
{
}

/// What comes of a prompt: a command line is run; a search makes its text the
/// pattern and goes to the next match in its direction; a file is opened below
/// the directory that the editor was started in; and a line is gone to.
pub proof fn law_prompts(desk: Desk, line: Seq<char>, forward: bool, row: usize)
    ensures
        desk.prompted(PromptOutcome::RunCommand(line)) == desk.command(line),
        desk.prompted(PromptOutcome::Search { forward, query: line }).0 == (Desk { query: line, forward, ..desk }).jump_search(
            forward,
        ),
        desk.prompted(PromptOutcome::OpenRelativeFile(line)) == (
            desk,
            seq![Cmd::OpenPath(crate::path::joined(desk.cwd, line))],
        ),
        desk.prompted(PromptOutcome::GotoLine(row)).0 == (Desk {
            doc: Doc { cursor: Cursor { row, col: 0 }, ..desk.doc },
            ..desk
        }),
        desk.prompted(PromptOutcome::Nothing).0 == desk,
        desk.prompted(PromptOutcome::Cancelled).0 == desk,
{
}

/// A command line and a search are typed at their end, and Backspace takes the
/// last character away; entering gives the line without the white space around
/// it, and the search as it is.
pub proof fn law_prompt_lines(s: Seq<char>, c: char, a: Prompt, b: Prompt, key: KeyEvent)
    requires
        a.typed(key, b),
    ensures
        a matches Prompt::Command(x) ==> {
            &&& b matches Prompt::Command(y)
            &&& key.code == KeyCode::Char(c) ==> y@ == x@ + seq![c]
            &&& key.code is Backspace && x@.len() > 0 ==> y@ == x@.take(x@.len() - 1)
            &&& key.code is Backspace && x@.len() == 0 ==> y@ == x@
            &&& a.submitted() == PromptOutcome::<Seq<char>>::RunCommand(crate::app::eval::run::trimmed(x@))
        },
        a matches Prompt::Search { forward, query } ==> {
            &&& b matches Prompt::Search { forward: g, query: y }
            &&& g == forward
            &&& key.code == KeyCode::Char(c) ==> y@ == query@ + seq![c]
            &&& key.code is Backspace && query@.len() > 0 ==> y@ == query@.take(query@.len() - 1)
            &&& a.submitted() == (PromptOutcome::<Seq<char>>::Search { forward, query: query@ })
        },
{
    if let Prompt::Command(x) = a {
        assert(x@.push(c) =~= x@ + seq![c]);
        if x@.len() > 0 {
            assert(x@.drop_last() =~= x@.take(x@.len() - 1));
        }
    }
    if let Prompt::Search { forward, query } = a {
        assert(query@.push(c) =~= query@ + seq![c]);
        if query@.len() > 0 {
            assert(query@.drop_last() =~= query@.take(query@.len() - 1));
        }
    }
}

/// In a picker the arrow keys, and Control with `n` and `p`, go one row down or
/// up and stop at the ends; the query stays.
pub proof fn law_picker_rows(f: Finder, g: Finder, key: KeyEvent)
    requires
        Prompt::Fuzzy(f).typed(key, Prompt::Fuzzy(g)),
        f.wf(),
    ensures
        ({
            let down = key.code is Down || (key.modifiers.control && key.code == KeyCode::Char('n'));
            let up = key.code is Up || (key.modifiers.control && key.code == KeyCode::Char('p'));
            &&& down || up ==> g.query == f.query && g.matches == f.matches
            &&& down && f.selected + 1 < f.matches@.len() ==> g.selected == f.selected + 1
            &&& down && f.selected + 1 >= f.matches@.len() ==> g.selected == f.selected
            &&& up && f.selected > 0 ==> g.selected == f.selected - 1
            &&& up && f.selected == 0 ==> g.selected == 0
            &&& g.items == f.items
            &&& g.kind == f.kind
        }),
{
}

/// A place pulled back into the text stays where it is if the text has it; else
/// it is the end of its row, or of the last row.
pub proof fn law_pulled_in(desk: Desk)
    requires
        1 <= desk.doc.text.len() <= usize::MAX,
        forall|k: int| 0 <= k < desk.doc.text.len() ==> (#[trigger] desk.doc.text[k]).len() <= usize::MAX,
    ensures
        ({
            let e = desk.settled();
            let c = desk.doc.cursor;
            &&& in_text(e.doc.text, e.doc.cursor)
            &&& e.doc.text == desk.doc.text
            &&& in_text(desk.doc.text, c) ==> e.doc.cursor == c
            &&& c.row < desk.doc.text.len() ==> e.doc.cursor.row == c.row
            &&& c.row >= desk.doc.text.len() ==> e.doc.cursor.row == desk.doc.text.len() - 1
            &&& c.row < desk.doc.text.len() && c.col > desk.doc.text[c.row as int].len() ==> e.doc.cursor.col
                == desk.doc.text[c.row as int].len()
            &&& desk.anchor matches Some(a) ==> e.anchor is Some && in_text(e.doc.text, e.anchor->0) && (in_text(
                desk.doc.text,
                a,
            ) ==> e.anchor == Some(a))
            &&& desk.anchor is None ==> e.anchor is None
        }),
{
}

/// Edits of a server are made all together; one undo takes them back, and no
/// edits change nothing.
pub proof fn law_edits_of_a_server(desk: Desk, edits: Seq<crate::lsp::TextEdit<Seq<char>>>)
    ensures
        edits.len() == 0 ==> desk.served(edits) == desk,
        edits.len() > 0 ==> ({
            let e = desk.served(edits).doc;
            &&& e.text == crate::lsp::edits::edited_all(desk.doc.text, edits)
            &&& e.dirty
            &&& e.undone().text == desk.doc.text
            &&& e.undone().cursor == desk.doc.cursor
        }),
{
}

/// Going to a place that a server names goes to that line and character, or to
/// the nearest that the text has; the cursor is put on a character where there
/// is one.
pub proof fn law_going_to_a_place(d: Doc, p: crate::lsp::Position)
    requires
        1 <= d.text.len() <= usize::MAX,
        forall|k: int| 0 <= k < d.text.len() ==> (#[trigger] d.text[k]).len() <= usize::MAX,
    ensures
        ({
            let e = d.placed(p);
            let row: int = if p.line < d.text.len() {
                p.line as int
            } else {
                d.text.len() - 1
            };
            let last: int = if d.text[row].len() > 0 {
                d.text[row].len() - 1
            } else {
                0
            };
            &&& e == (Doc { cursor: e.cursor, ..d })
            &&& e.cursor.row == row
            &&& e.cursor.col == if p.character <= last {
                p.character as int
            } else {
                last
            }
        }),
{
}

/// Swapping the case of a selection swaps that of what is selected, the
/// character under the later end too; one undo takes it back.
pub proof fn law_case_of_a_selection(desk: Desk, sel: Selection)
    requires
        desk.selection() == Some(sel),
    ensures
        ({
            let d = desk.doc.snapshot();
            let span = match sel {
                Selection::Char { from, to } => Span::Range { from, to: d.next_pos(to) },
                Selection::Line { from_row, to_row } => Span::Lines { from_row, to_row },
                Selection::Block { r0, c0, r1, c1 } => Span::Block { r0, c0, r1, c1 },
            };
            &&& desk.visual_flip().doc.text == d.flip_span(span).text
            &&& desk.visual_flip().mode is Normal
            &&& desk.visual_flip().doc.undone().text == desk.doc.text
        }),
{
    reveal(Desk::visual_flip);
    reveal(Doc::flip_selection);
}

/// Deleting, changing, swapping and joining a selection can each be undone at
/// once.
pub proof fn law_selection_edits_are_undone(desk: Desk, sel: Selection)
    requires
        desk.selection() == Some(sel),
    ensures
        desk.visual_delete().doc.undone().text == desk.doc.text,
        desk.visual_change().doc.undone().text == desk.doc.text,
        desk.visual_join() != desk ==> desk.visual_join().doc.undone().text == desk.doc.text,
{
    reveal(Desk::visual_delete);
    reveal(Desk::visual_change);
    reveal(Desk::visual_join);
    reveal(Doc::delete_selection);
    reveal(Doc::join_rows);
    let (a, b) = crate::app::input::visual::selected_rows(sel);
    lemma_joins_keep_history(desk.doc.snapshot().at(a, 0), b - a);
}

proof fn lemma_joins_keep_history(d: Doc, n: int)
    ensures
        d.repeated(Step::JoinNext, n).undo == d.undo,
    decreases n,
{
    if n > 0 {
        lemma_joins_keep_history(d, n - 1);
    }
}

/// Control with `v` goes over to the block mode, or out of it.
pub proof fn law_block_mode_key(desk: Desk, key: KeyEvent)
    requires
        !desk.g_pending,
        key.modifiers.control,
        key.code == KeyCode::Char('v'),
    ensures
        desk.visual_key(key) == if desk.mode is VisualBlock {
            desk.entered(Mode::Normal)
        } else {
            Desk { mode: Mode::VisualBlock, ..desk }
        },
{
}

/// Server edits that format the text leave the cursor where it is, as far as the
/// text has that place.
pub proof fn law_formatting_edits(d: Doc, edits: Seq<crate::lsp::TextEdit<Seq<char>>>)
    requires
        1 <= crate::lsp::edits::edited_all(d.text, edits).len() <= usize::MAX,
        forall|k: int|
            0 <= k < crate::lsp::edits::edited_all(d.text, edits).len() ==> (#[trigger] crate::lsp::edits::edited_all(
                d.text,
                edits,
            )[k]).len() <= usize::MAX,
    ensures
        ({
            let e = d.edited_by(edits);
            &&& e.text == crate::lsp::edits::edited_all(d.text, edits)
            &&& in_text(e.text, e.cursor)
            &&& in_text(e.text, d.cursor) ==> e.cursor == d.cursor
            &&& e.undone().text == d.text
            &&& e.dirty
        }),
{
}

/// A key that is typed several times goes into the recording as often, behind
/// what is in it already. Without a recording nothing is recorded.
pub proof fn law_recorded_keys(r: InsertRecording<Seq<InsertKey>>, k: InsertKey, n: int)
    requires
        n >= 0,
    ensures
        ({
            let x = crate::app::input::insert::recorded(Some(r), k, n)->0;
            &&& crate::app::input::insert::recorded(Some(r), k, n) is Some
            &&& x.trigger == r.trigger
            &&& x.keys.len() == r.keys.len() + n
            &&& forall|i: int| 0 <= i < r.keys.len() ==> (#[trigger] x.keys[i]) == r.keys[i]
            &&& forall|i: int| r.keys.len() <= i < x.keys.len() ==> (#[trigger] x.keys[i]) == k
        }),
        crate::app::input::insert::recorded(None, k, n) is None,
    decreases n,
{
    if n > 0 {
        law_recorded_keys(r, k, n - 1);
    }
}

/// A tab is recorded as what it types: the tab, or each of its spaces.
pub proof fn law_tab_is_recorded(desk: Desk, key: KeyEvent, has_lsp: bool)
    requires
        desk.menu is None,
        key.code is Tab,
    ensures
        ({
            let e = desk.insert_key(key, has_lsp).0;
            if desk.indent().use_tabs {
                e.recording == crate::app::input::insert::recorded(desk.recording, InsertKey::Char('\t'), 1)
            } else {
                exists|n: int|
                    n >= 1 && e.doc == #[trigger] desk.doc.fan_spaces(n) && e.recording
                        == crate::app::input::insert::recorded(desk.recording, InsertKey::Char(' '), n)
            }
        }),
{
    reveal(Desk::type_tab);
    reveal(Desk::noting);
    reveal(Desk::menu_updated);
    let n = crate::app::input::insert::to_tab_stop(desk.doc.cursor.col as int, desk.indent().width as int);
    let w: int = if desk.indent().width > 1 {
        desk.indent().width as int
    } else {
        1
    };
    let col = desk.doc.cursor.col as int;
    assert(0 <= col % w < w) by (nonlinear_arith)
        requires
            w >= 1,
    ;
    assert(n >= 1);
    if !desk.indent().use_tabs {
        assert(desk.insert_key(key, has_lsp).0.doc == desk.doc.fan_spaces(n));
    }
}

/// So many spaces are typed one after the other.
pub proof fn law_spaces(d: Doc, n: int)
    requires
        n >= 0,
    ensures
        d.fan_spaces(0) == d,
        d.fan_spaces(n + 1) == d.fan_spaces(n).fan_insert(' '),
{
}

} // verus!
