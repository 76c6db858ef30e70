//! What key sequences and command lines mean: how counts, prefixes, operators
//! and targets combine, and what each single command does.
use vstd::prelude::*;
use crate::action::{DirectKind, Expr, MotionExpr, MotionKind, Object, Operator, PromptKind, Scope, SplitDir, Target, Token};
use crate::app::eval::direct::{edit_cmds, edit_doc, request_of};
use crate::app::eval::parse::{after_counts, count_at, key_token, number, parsed, Parse};
use crate::app::eval::run::{command_parts, ink_end, space_from, trimmed};
use crate::app::Desk;
use crate::app::eval::{dirty_list, short_name, short_names};
use crate::buffer_ref::BufferRef;
use crate::config::keymap::{goto_table, lookup, object_table, op_pending_table, z_table, KeySig, Keymap};
use crate::editor::laws::law_counts_add_up;
use crate::editor::repeat::Step;
use crate::editor::{skip_space, Cursor, Doc};
use crate::effect::{Cmd, ScrollAnchor};
use crate::finder::fuzzy::FuzzyKind;
use crate::keys::{KeyCode, KeyEvent};
use crate::mode::Mode;
use crate::number::{decimal, number_in};
use crate::text::white_space;

verus! {

/// Tokens that are digits of a count.
pub open spec fn digits(t: Seq<Token>) -> bool {
    forall|i: int| 0 <= i < t.len() ==> (#[trigger] t[i]) is Count
}

/// The number that digits spell.
pub open spec fn spelled(t: Seq<Token>) -> int
    decreases t.len(),
{
    if t.len() == 0 {
        0
    } else {
        10 * spelled(t.drop_last()) + match t.last() {
            Token::Count(d) => d as int,
            _ => 0,
        }
    }
}

/// The count that digits give: the number that they spell, but one for none and
/// for a zero, and no more than a count can hold.
pub open spec fn meant(t: Seq<Token>) -> int {
    if t.len() == 0 || spelled(t) == 0 {
        1
    } else if spelled(t) > u32::MAX {
        u32::MAX as int
    } else {
        spelled(t)
    }
}

proof fn lemma_spelled_range(t: Seq<Token>)
    ensures
        spelled(t) >= 0,
    decreases t.len(),
{
    if t.len() > 0 {
        lemma_spelled_range(t.drop_last());
    }
}

proof fn lemma_number(t: Seq<Token>, i: int, a: Seq<Token>, k: int)
    requires
        digits(a),
        0 <= i,
        i + a.len() <= t.len(),
        0 <= k <= a.len(),
        t.subrange(i, i + a.len()) == a,
    ensures
        number(t, i, i + k) == if spelled(a.take(k)) > u32::MAX {
            u32::MAX as int
        } else {
            spelled(a.take(k))
        },
    decreases k,
{
    lemma_spelled_range(a.take(k));
    if k > 0 {
        lemma_number(t, i, a, k - 1);
        assert(a.take(k).drop_last() =~= a.take(k - 1));
        assert(a.take(k).last() == a[k - 1]);
        assert(t.subrange(i, i + a.len())[k - 1] == t[i + k - 1]);
        lemma_spelled_range(a.take(k - 1));
    }
}

proof fn lemma_count_at(t: Seq<Token>, i: int, a: Seq<Token>)
    requires
        digits(a),
        0 <= i,
        i + a.len() <= t.len(),
        t.subrange(i, i + a.len()) == a,
        i + a.len() < t.len() ==> !(t[i + a.len()] is Count),
    ensures
        after_counts(t, i) == i + a.len(),
        count_at(t, i) == meant(a),
{
    lemma_after(t, i, a, 0);
    lemma_number(t, i, a, a.len() as int);
    assert(a.take(a.len() as int) =~= a);
    lemma_spelled_range(a);
}

proof fn lemma_after(t: Seq<Token>, i: int, a: Seq<Token>, k: int)
    requires
        digits(a),
        0 <= i,
        i + a.len() <= t.len(),
        0 <= k <= a.len(),
        t.subrange(i, i + a.len()) == a,
        i + a.len() < t.len() ==> !(t[i + a.len()] is Count),
    ensures
        after_counts(t, i + k) == i + a.len(),
    decreases a.len() - k,
{
    if k < a.len() {
        assert(t.subrange(i, i + a.len())[k] == t[i + k]);
        assert(a[k] is Count);
        lemma_after(t, i, a, k + 1);
    }
}

/// A single command or motion, with the count that the digits before it give.
pub proof fn law_counted_command(a: Seq<Token>, kind: DirectKind, motion: MotionKind)
    requires
        digits(a),
    ensures
        parsed(a + seq![Token::Direct(kind)]) == Parse::Complete(Expr::Direct { kind, count: meant(a) as u32 }),
        parsed(a + seq![Token::Motion(motion)]) == Parse::Complete(
            Expr::Motion(MotionExpr { motion, count: meant(a) as u32 }),
        ),
{
    let t = a + seq![Token::Direct(kind)];
    assert(t.subrange(0, a.len() as int) =~= a);
    lemma_count_at(t, 0, a);
    let u = a + seq![Token::Motion(motion)];
    assert(u.subrange(0, a.len() as int) =~= a);
    lemma_count_at(u, 0, a);
}

/// A command or motion behind a prefix, with the count before the prefix. The
/// goto prefix twice is the start of the text.
#[verifier::rlimit(60)]
pub proof fn law_prefixed_command(a: Seq<Token>, kind: DirectKind, motion: MotionKind, forward: bool, till: bool)
    requires
        digits(a),
    ensures
        parsed(a + seq![Token::LeaderPrefix, Token::Direct(kind)]) == Parse::Complete(
            Expr::Direct { kind, count: meant(a) as u32 },
        ),
        parsed(a + seq![Token::GotoPrefix, Token::Direct(kind)]) == Parse::Complete(
            Expr::Direct { kind, count: meant(a) as u32 },
        ),
        parsed(a + seq![Token::ZPrefix, Token::Direct(kind)]) == Parse::Complete(
            Expr::Direct { kind, count: meant(a) as u32 },
        ),
        parsed(a + seq![Token::ReplaceCharPrefix, Token::Direct(kind)]) == Parse::Complete(
            Expr::Direct { kind, count: meant(a) as u32 },
        ),
        parsed(a + seq![Token::GotoPrefix, Token::Motion(motion)]) == Parse::Complete(
            Expr::Motion(MotionExpr { motion, count: meant(a) as u32 }),
        ),
        parsed(a + seq![Token::FindCharPrefix { forward, till }, Token::Motion(motion)]) == Parse::Complete(
            Expr::Motion(MotionExpr { motion, count: meant(a) as u32 }),
        ),
        parsed(a + seq![Token::GotoPrefix, Token::GotoPrefix]) == Parse::Complete(
            Expr::Motion(MotionExpr { motion: MotionKind::FileStart, count: meant(a) as u32 }),
        ),
{
    lemma_two(a, Token::LeaderPrefix, Token::Direct(kind));
    lemma_two(a, Token::GotoPrefix, Token::Direct(kind));
    lemma_two(a, Token::ZPrefix, Token::Direct(kind));
    lemma_two(a, Token::ReplaceCharPrefix, Token::Direct(kind));
    lemma_two(a, Token::GotoPrefix, Token::Motion(motion));
    lemma_two(a, (Token::FindCharPrefix { forward, till }), Token::Motion(motion));
    lemma_two(a, Token::GotoPrefix, Token::GotoPrefix);
}

proof fn lemma_two(a: Seq<Token>, x: Token, y: Token)
    requires
        digits(a),
        !(x is Count),
    ensures
        after_counts(a + seq![x, y], 0) == a.len(),
        count_at(a + seq![x, y], 0) == meant(a),
        (a + seq![x, y])[a.len() as int] == x,
        (a + seq![x, y])[a.len() as int + 1] == y,
        (a + seq![x, y]).len() == a.len() + 2,
{
    let t = a + seq![x, y];
    assert(t.subrange(0, a.len() as int) =~= a);
    lemma_count_at(t, 0, a);
}

/// An operator with a motion: the count before the operator says how often it
/// works, and the one before the motion how far that goes.
pub proof fn law_counted_operator(a: Seq<Token>, op: Operator, b: Seq<Token>, motion: MotionKind)
    requires
        digits(a),
        digits(b),
    ensures
        parsed(a + seq![Token::Op(op)] + b + seq![Token::Motion(motion)]) == Parse::Complete(
            Expr::Op {
                op,
                target: Target::Motion(MotionExpr { motion, count: meant(b) as u32 }),
                outer_count: meant(a) as u32,
            },
        ),
{
    let t = a + seq![Token::Op(op)] + b + seq![Token::Motion(motion)];
    lemma_op_counts(a, op, b, seq![Token::Motion(motion)]);
    assert(t[a.len() as int] == Token::Op(op));
    assert(t[a.len() as int + 1 + b.len()] == Token::Motion(motion));
}

/// A doubled operator works on whole lines, as many as the two counts give
/// together.
pub proof fn law_doubled_operator(a: Seq<Token>, op: Operator, b: Seq<Token>)
    requires
        digits(a),
        digits(b),
    ensures
        parsed(a + seq![Token::Op(op)] + b + seq![Token::SelfDouble(op)]) == Parse::Complete(
            Expr::Op {
                op,
                target: Target::LineWise,
                outer_count: if meant(a) * meant(b) <= u32::MAX {
                    (meant(a) * meant(b)) as u32
                } else {
                    u32::MAX
                },
            },
        ),
{
    let t = a + seq![Token::Op(op)] + b + seq![Token::SelfDouble(op)];
    lemma_op_counts(a, op, b, seq![Token::SelfDouble(op)]);
    assert(t[a.len() as int] == Token::Op(op));
    assert(t[a.len() as int + 1 + b.len()] == Token::SelfDouble(op));
    lemma_spelled_range(a);
    lemma_spelled_range(b);
}

/// An operator with a text object, and with a motion behind a prefix.
#[verifier::rlimit(60)]
pub proof fn law_operator_with_two_keys(
    a: Seq<Token>,
    op: Operator,
    b: Seq<Token>,
    scope: Scope,
    object: Object,
    motion: MotionKind,
    forward: bool,
    till: bool,
)
    requires
        digits(a),
        digits(b),
    ensures
        parsed(
            a + seq![Token::Op(op)] + Seq::<Token>::empty() + seq![Token::Scope(scope), Token::Object(object)],
        ) == Parse::Complete(
            Expr::Op { op, target: Target::TextObject { scope, object }, outer_count: meant(a) as u32 },
        ),
        parsed(
            a + seq![Token::Op(op)] + b + seq![Token::FindCharPrefix { forward, till }, Token::Motion(motion)],
        ) == Parse::Complete(
            Expr::Op {
                op,
                target: Target::Motion(MotionExpr { motion, count: meant(b) as u32 }),
                outer_count: meant(a) as u32,
            },
        ),
        parsed(a + seq![Token::Op(op)] + b + seq![Token::GotoPrefix, Token::Motion(motion)]) == Parse::Complete(
            Expr::Op {
                op,
                target: Target::Motion(MotionExpr { motion, count: meant(b) as u32 }),
                outer_count: meant(a) as u32,
            },
        ),
{
    let none = Seq::<Token>::empty();
    lemma_op_counts(a, op, none, seq![Token::Scope(scope), Token::Object(object)]);
    lemma_op_counts(a, op, b, seq![Token::FindCharPrefix { forward, till }, Token::Motion(motion)]);
    lemma_op_counts(a, op, b, seq![Token::GotoPrefix, Token::Motion(motion)]);
}

proof fn lemma_op_counts(a: Seq<Token>, op: Operator, b: Seq<Token>, rest: Seq<Token>)
    requires
        digits(a),
        digits(b),
        rest.len() > 0,
        !(rest[0] is Count),
    ensures
        ({
            let t = a + seq![Token::Op(op)] + b + rest;
            &&& after_counts(t, 0) == a.len()
            &&& count_at(t, 0) == meant(a)
            &&& after_counts(t, a.len() as int + 1) == a.len() as int + 1 + b.len()
            &&& count_at(t, a.len() as int + 1) == meant(b)
            &&& t.len() == a.len() as int + 1 + b.len() + rest.len()
            &&& t[a.len() as int] == Token::Op(op)
            &&& forall|i: int| 0 <= i < rest.len() ==> t[a.len() as int + 1 + b.len() + i] == #[trigger] rest[i]
            &&& t[a.len() as int + 1 + b.len()] == rest[0]
            &&& rest.len() > 1 ==> t[a.len() as int + 1 + b.len() + 1] == rest[1]
        }),
{
    let t = a + seq![Token::Op(op)] + b + rest;
    assert(t.subrange(0, a.len() as int) =~= a);
    lemma_count_at(t, 0, a);
    assert(t.subrange(a.len() as int + 1, a.len() as int + 1 + b.len()) =~= b);
    lemma_count_at(t, a.len() as int + 1, b);
}

/// What a key means at the start of a command: a digit counts, but a zero is a
/// movement until there is a count; Control with `r` redoes; and any other key
/// is what the key map binds it to.
#[verifier::rlimit(60)]
pub proof fn law_first_keys(km: Keymap, a: Seq<Token>, key: KeyEvent)
    requires
        digits(a),
    ensures
        key.modifiers.control && key.code == KeyCode::Char('r') ==> key_token(km, a, key) == Some(
            Token::Direct(DirectKind::Redo),
        ),
        !key.modifiers.control ==> (key.code matches KeyCode::Char(c) ==> '1' <= c <= '9' ==> key_token(km, a, key)
            == Some(Token::Count((c as u32 - '0' as u32) as u32))),
        !key.modifiers.control && key.code == KeyCode::Char('0') && a.len() > 0 ==> key_token(km, a, key) == Some(
            Token::Count(0),
        ),
        !key.modifiers.control && key.code == KeyCode::Char('0') && a.len() == 0 ==> key_token(km, a, key) == Some(
            Token::Motion(MotionKind::LineStart),
        ),
        !(key.modifiers.control && key.code == KeyCode::Char('r')) && !(key.code matches KeyCode::Char(c) && '0' <= c
            <= '9') ==> key_token(km, a, key) == km.initial.at(KeySig::of(key.code, key.modifiers)),
{
    lemma_no_word(a, a.len() as int);
    if a.len() > 0 {
        assert(a[a.len() - 1] is Count);
    }
}

proof fn lemma_no_word(a: Seq<Token>, k: int)
    requires
        digits(a),
        0 <= k <= a.len(),
    ensures
        crate::app::eval::parse::last_word(a, k) is None,
    decreases k,
{
    if k > 0 {
        assert(a[k - 1] is Count);
        lemma_no_word(a, k - 1);
    }
}

/// What a key means behind a prefix that waits for a character: that character.
/// Behind the leader it is what the leader's map binds.
#[verifier::rlimit(60)]
pub proof fn law_keys_behind_a_prefix(km: Keymap, t: Seq<Token>, key: KeyEvent, ch: char)
    requires
        t.len() > 0,
        !(key.modifiers.control && key.code == KeyCode::Char('r')),
    ensures
        t.last() matches Token::FindCharPrefix { forward, till } ==> key.code == KeyCode::Char(ch) ==> key_token(
            km,
            t,
            key,
        ) == Some(Token::Motion(MotionKind::FindChar { ch, forward, till })),
        t.last() is ReplaceCharPrefix && key.code == KeyCode::Char(ch) ==> key_token(km, t, key) == Some(
            Token::Direct(DirectKind::ReplaceChar { ch }),
        ),
        t.last() is FindCharPrefix && !(key.code is Char) ==> key_token(km, t, key) is None,
        t.last() is LeaderPrefix && !(key.code matches KeyCode::Char(c) && '0' <= c <= '9') ==> key_token(km, t, key)
            == km.leader.at(KeySig::of(key.code, key.modifiers)),
        t.last() == Token::Op(Operator::Delete) && key.code == KeyCode::Char('d') ==> key_token(km, t, key) == Some(
            Token::SelfDouble(Operator::Delete),
        ),
        t.last() == Token::Op(Operator::Yank) && key.code == KeyCode::Char('y') ==> key_token(km, t, key) == Some(
            Token::SelfDouble(Operator::Yank),
        ),
        t.last() == Token::Op(Operator::Change) && key.code == KeyCode::Char('c') ==> key_token(km, t, key) == Some(
            Token::SelfDouble(Operator::Change),
        ),
{
}

/// A key in the normal mode: one that is nothing drops what was typed of a
/// command; one that completes a command runs it; and one that leaves it open
/// is kept.
pub proof fn law_normal_keys(desk: Desk, key: KeyEvent)
    ensures
        ({
            let (e, c) = desk.normal_key(key);
            match key_token(desk.config.keymap, desk.tokens, key) {
                None => e == (Desk { tokens: Seq::empty(), ..desk }) && c.len() == 0,
                Some(t) => match parsed(desk.tokens.push(t)) {
                    Parse::Complete(x) => (e, c) == (Desk { tokens: Seq::empty(), ..desk }).evaluate(x, ""@),
                    Parse::Incomplete => e == (Desk { tokens: desk.tokens.push(t), ..desk }) && c.len() == 0,
                    Parse::Invalid => e == (Desk { tokens: Seq::empty(), ..desk }) && c.len() == 0,
                },
            }
        }),
{
}

/// What the commands that change the text in place do, and whether they go on
/// typing. A count of one is one edit.
#[verifier::rlimit(60)]
pub proof fn law_editing_commands(desk: Desk, kind: DirectKind, rest: Seq<char>)
    requires
        kind is OpenLineBelow || kind is OpenLineAbove || kind is AppendAfterCursor || kind is AppendAtLineEnd
            || kind is InsertAtLineStart || kind is ChangeToEol || kind is DeleteToEol || kind is YankLine
            || kind is JoinLines || kind is ToggleCase || kind is SubstituteChar || kind is SubstituteLine
            || kind is ReplaceChar || kind is Paste || kind is Undo || kind is Redo || kind is DeleteCharUnderCursor,
    ensures
        ({
            let d = desk.doc;
            let (e, c) = desk.direct(kind, 1, rest);
            let typing = kind is OpenLineBelow || kind is OpenLineAbove || kind is AppendAfterCursor
                || kind is AppendAtLineEnd || kind is InsertAtLineStart || kind is ChangeToEol || kind is SubstituteChar
                || kind is SubstituteLine;
            &&& e.doc == match kind {
                DirectKind::OpenLineBelow => d.open_below(),
                DirectKind::OpenLineAbove => d.open_above(),
                DirectKind::AppendAfterCursor => d.right(true),
                DirectKind::AppendAtLineEnd => Doc {
                    cursor: Cursor { row: d.cursor.row, col: d.text[d.cursor.row as int].len() as usize },
                    ..d
                },
                DirectKind::InsertAtLineStart => d.first_non_blank(),
                DirectKind::ChangeToEol => d.delete_to_eol(),
                DirectKind::DeleteToEol => d.delete_to_eol(),
                DirectKind::YankLine => d.yank_line(),
                DirectKind::JoinLines => d.join_next(),
                DirectKind::ToggleCase => d.toggle_case(),
                DirectKind::SubstituteChar => d.delete_char(),
                DirectKind::SubstituteLine => d.clear_line(),
                DirectKind::ReplaceChar { ch } => d.replace_char(ch),
                DirectKind::Paste => d.paste_after(),
                DirectKind::Undo => d.undone(),
                DirectKind::Redo => d.redone(),
                _ => d.delete_char(),
            }
            &&& typing ==> c == seq![Cmd::<Seq<char>>::EnterMode(Mode::Insert)]
            &&& kind is YankLine ==> c.contains(Cmd::SyncYank)
            &&& kind is Undo && d.undo.len() == 0 ==> c.len() == 1 && c[0] is ToastError
            &&& kind is Redo && d.redo.len() == 0 ==> c.len() == 1 && c[0] is ToastError
            &&& kind is Undo && d.undo.len() > 0 ==> c.len() == 0
            &&& kind is Redo && d.redo.len() > 0 ==> c.len() == 0
            &&& !typing && !(kind is YankLine) && !(kind is Undo) && !(kind is Redo) ==> c.len() == 0
            &&& e == (Desk { doc: e.doc, ..desk })
        }),
{
    reveal(edit_doc);
    let d = desk.doc;
    law_counts_add_up(d, Step::YankLine, 1, 0);
    law_counts_add_up(d, Step::JoinNext, 1, 0);
    law_counts_add_up(d, Step::ToggleCase, 1, 0);
    law_counts_add_up(d, Step::DeleteChar, 1, 0);
    law_counts_add_up(d, Step::Paste, 1, 0);
    if let DirectKind::ReplaceChar { ch } = kind {
        law_counts_add_up(d, (Step::Replace { ch }), 0, 0);
    }
    assert(request_of(kind, rest) is None);
    if kind is YankLine {
        assert(edit_cmds(d, kind)[0] is SyncYank);
    }
}

/// A count of several is as many edits in a row.
pub proof fn law_counted_edits(desk: Desk, kind: DirectKind, n: u32, rest: Seq<char>)
    requires
        kind is JoinLines || kind is ToggleCase || kind is SubstituteChar || kind is Paste
            || kind is DeleteCharUnderCursor,
        n < u32::MAX,
    ensures
        ({
            let before = desk.direct(kind, n, rest).0.doc;
            let after = desk.direct(kind, (n + 1) as u32, rest).0.doc;
            after == match kind {
                DirectKind::JoinLines => before.join_next(),
                DirectKind::ToggleCase => before.toggle_case(),
                DirectKind::Paste => before.paste_after(),
                _ => before.delete_char(),
            }
        }),
        desk.direct(kind, 0, rest).0.doc == desk.doc,
{
    reveal(edit_doc);
}

/// The commands that ask for something to be done elsewhere leave the editor's
/// state alone and ask for just that.
#[verifier::rlimit(60)]
pub proof fn law_asking_commands(desk: Desk, kind: DirectKind, n: u32, rest: Seq<char>)
    ensures
        ({
            let (e, c) = desk.direct(kind, n, rest);
            let asked: Option<Cmd<Seq<char>>> = match kind {
                DirectKind::EnterMode(m) => Some(Cmd::EnterMode(m)),
                DirectKind::OpenPrompt(k) => Some(Cmd::OpenPrompt(k)),
                DirectKind::ViewportCenter => Some(Cmd::Scroll(ScrollAnchor::Center)),
                DirectKind::ViewportTopAtCursor => Some(Cmd::Scroll(ScrollAnchor::Top)),
                DirectKind::ViewportBottomAtCursor => Some(Cmd::Scroll(ScrollAnchor::Bottom)),
                DirectKind::QuitForce => Some(Cmd::Quit),
                DirectKind::BufferNext => Some(Cmd::BufferCycle { forward: true }),
                DirectKind::BufferPrev => Some(Cmd::BufferCycle { forward: false }),
                DirectKind::BufferDelete => Some(Cmd::BufferDelete { force: false }),
                DirectKind::BufferDeleteForce => Some(Cmd::BufferDelete { force: true }),
                DirectKind::BufferDeleteAll => Some(Cmd::BufferDeleteAll),
                DirectKind::BufferList => Some(Cmd::OpenPrompt(PromptKind::Fuzzy(FuzzyKind::Buffers))),
                DirectKind::NewScratchBuffer => Some(Cmd::NewScratchBuffer),
                DirectKind::SaveAndQuit => Some(
                    Cmd::Save {
                        path: if rest.len() > 0 {
                            Some(rest)
                        } else {
                            None
                        },
                        then_quit: true,
                        force: false,
                    },
                ),
                DirectKind::Save => Some(
                    Cmd::Save {
                        path: if rest.len() > 0 {
                            Some(rest)
                        } else {
                            None
                        },
                        then_quit: false,
                        force: false,
                    },
                ),
                DirectKind::SaveForce => Some(
                    Cmd::Save {
                        path: if rest.len() > 0 {
                            Some(rest)
                        } else {
                            None
                        },
                        then_quit: false,
                        force: true,
                    },
                ),
                DirectKind::Open => if rest.len() > 0 {
                    Some(Cmd::OpenPath(rest))
                } else {
                    Some(Cmd::ToastError("missing path"@))
                },
                DirectKind::OpenLog => Some(Cmd::OpenLog),
                DirectKind::Reload => Some(Cmd::Reload),
                DirectKind::ReloadAll => Some(Cmd::ReloadAll),
                DirectKind::LspStatus => Some(Cmd::LspStatus),
                DirectKind::GotoDefinition => Some(
                    Cmd::LspJump { method: "textDocument/definition"@, label: "definition"@ },
                ),
                DirectKind::GotoDeclaration => Some(
                    Cmd::LspJump { method: "textDocument/declaration"@, label: "declaration"@ },
                ),
                DirectKind::GotoImplementation => Some(
                    Cmd::LspJump { method: "textDocument/implementation"@, label: "implementation"@ },
                ),
                DirectKind::FindReferences => Some(Cmd::LspFindReferences),
                DirectKind::Rename => Some(Cmd::OpenRenamePrompt),
                DirectKind::CodeAction => Some(Cmd::LspCodeAction),
                DirectKind::Hover => Some(Cmd::LspHover),
                DirectKind::SearchSelectNext { reverse } => Some(Cmd::SearchSelectMatch { reverse }),
                DirectKind::ClearSearch => Some(Cmd::SetSearch { pattern: Seq::empty(), forward: true }),
                DirectKind::JumpLabel => Some(Cmd::StartJumpLabel),
                DirectKind::SelectWholeBuffer => Some(Cmd::SelectWholeBuffer),
                DirectKind::SplitWindowHorizontal => Some(Cmd::SplitWindow { dir: SplitDir::Horizontal }),
                DirectKind::SplitWindowVertical => Some(Cmd::SplitWindow { dir: SplitDir::Vertical }),
                DirectKind::CloseWindow => Some(Cmd::CloseWindow),
                DirectKind::FocusWindow { dir } => Some(Cmd::FocusWindow { dir }),
                DirectKind::CycleWindow => Some(Cmd::CycleWindow),
                _ => None,
            };
            asked matches Some(a) ==> e == desk && c == seq![a]
        }),
{
}

/// Quitting is refused while a buffer, the one shown or a sleeping one, has
/// unsaved changes.
pub proof fn law_quit_needs_saved_buffers(desk: Desk, n: u32, rest: Seq<char>)
    ensures
        ({
            let (e, c) = desk.direct(DirectKind::Quit, n, rest);
            let unsaved = desk.doc.dirty || exists|i: int|
                0 <= i < desk.sleeping.len() && (#[trigger] desk.sleeping[i]).1.dirty;
            &&& e == desk
            &&& c.len() == 1
            &&& unsaved ==> c[0] is ToastError
            &&& !unsaved ==> c[0] is Quit
        }),
{
    lemma_unsaved(desk, desk.sleeping.len() as int);
}

proof fn lemma_unsaved(desk: Desk, k: int)
    requires
        0 <= k <= desk.sleeping.len(),
    ensures
        crate::app::eval::handle::unsaved(desk.sleeping, k).len() > 0 <==> exists|i: int|
            0 <= i < k && (#[trigger] desk.sleeping[i]).1.dirty,
    decreases k,
{
    if k > 0 {
        lemma_unsaved(desk, k - 1);
        if desk.sleeping[k - 1].1.dirty {
            assert(0 <= k - 1 < k && desk.sleeping[k - 1].1.dirty);
        }
    }
}

/// Going to a line by its number, counted from one, goes to its start; past the
/// end it is the last line. Anything but a number above zero is refused.
pub proof fn law_goto_line(desk: Desk, n: u32, rest: Seq<char>)
    requires
        1 <= desk.doc.text.len() <= usize::MAX,
    ensures
        ({
            let (e, c) = desk.direct(DirectKind::GotoLine, n, rest);
            match number_in(rest) {
                Some(k) => if k >= 1 {
                    &&& e.doc == (Doc { cursor: e.doc.cursor, ..desk.doc })
                    &&& e.doc.cursor.col == 0
                    &&& e.doc.cursor.row == if k <= desk.doc.text.len() {
                        k - 1
                    } else {
                        desk.doc.text.len() - 1
                    }
                    &&& c.len() == 0
                } else {
                    e == desk && c.len() == 1 && c[0] is ToastError
                },
                None => e == desk && c.len() == 1 && c[0] is ToastError,
            }
        }),
{
}

/// Another cursor goes to the next occurrence of the word under this one, and
/// this one stays behind as an extra cursor. The last one that was added is
/// taken away first, and they can all be cleared.
pub proof fn law_extra_cursors(desk: Desk, word: Seq<char>, r: int, c: int)
    requires
        crate::app::eval::word_at(desk.doc.text[desk.doc.cursor.row as int], desk.doc.cursor.col as int) == Some(word),
        crate::editor::search::match_near(desk.doc.text, word, desk.doc.cursor, true, false) == Some((r, c)),
        desk.doc.cursor != (Cursor { row: r as usize, col: c as usize }),
        !desk.doc.extra.contains(Cursor { row: r as usize, col: c as usize }),
    ensures
        ({
            let (e, asked) = desk.direct(DirectKind::MultiCursorAddNext, 1, ""@);
            let (f, _) = e.direct(DirectKind::MultiCursorPop, 1, ""@);
            let (g, _) = e.direct(DirectKind::MultiCursorClear, 1, ""@);
            &&& e.doc.cursor == (Cursor { row: r as usize, col: c as usize })
            &&& e.doc.extra == desk.doc.extra.push(desk.doc.cursor)
            &&& e.doc.text == desk.doc.text
            &&& asked[0] == (Cmd::<Seq<char>>::SetSearch { pattern: word, forward: true })
            &&& f.doc == desk.doc
            &&& g.doc.extra.len() == 0
            &&& g.doc.cursor == e.doc.cursor
        }),
{
    let e = desk.direct(DirectKind::MultiCursorAddNext, 1, ""@).0;
    assert(e.doc.extra.drop_last() =~= desk.doc.extra);
}

/// Commands run one after the other until one needs something from outside;
/// that one and those behind it are handed back.
pub proof fn law_commands_run_in_order(desk: Desk, c: Cmd<Seq<char>>, rest: Seq<Cmd<Seq<char>>>)
    ensures
        desk.run_cmds(Seq::empty()) == (desk, Seq::<Cmd<Seq<char>>>::empty()),
        ({
            let inside = c is EnterMode || c is StatusInfo || c is StatusError || c is ToastInfo || c is ToastError
                || c is SetSearch || c is JumpSearch || c is SearchSelectMatch || c is SetLastFind || c is Scroll
                || c is SelectWholeBuffer || c is Quit;
            &&& inside ==> desk.run_cmds(seq![c] + rest) == desk.run_cmd(c).0.run_cmds(rest)
            &&& !inside ==> desk.run_cmds(seq![c] + rest) == (desk, seq![c] + rest)
        }),
{
    assert((seq![c] + rest).drop_first() =~= rest);
}

/// What a message or a search that a command asks for does.
pub proof fn law_messages_and_searches(desk: Desk, s: Seq<char>, forward: bool)
    ensures
        desk.run_cmd(Cmd::SetSearch { pattern: s, forward }).0 == (Desk { query: s, forward, ..desk }),
        desk.run_cmd(Cmd::Quit).0 == (Desk { quit: true, ..desk }),
        ({
            let i = desk.run_cmd(Cmd::ToastInfo(s)).0;
            let e = desk.run_cmd(Cmd::ToastError(s)).0;
            &&& i == (Desk { said: i.said, ..desk })
            &&& i.said.0 is Info
            &&& i.said.1 == s
            &&& e == (Desk { said: e.said, ..desk })
            &&& e.said.0 is Error
            &&& e.said.1 == s
            &&& desk.run_cmd(Cmd::StatusInfo(s)).0 == i
            &&& desk.run_cmd(Cmd::StatusError(s)).0 == e
        }),
{
}

/// A text without the white space around it: what is cut off at either end is
/// white space, and what is left starts and ends with something else.
pub proof fn law_trimmed(s: Seq<char>)
    ensures
        ({
            let t = trimmed(s);
            exists|a: int|
                #![trigger s.subrange(a, a + t.len())]
                0 <= a && a + t.len() <= s.len() && t == s.subrange(a, a + t.len()) && (forall|i: int|
                    0 <= i < a ==> white_space(#[trigger] s[i])) && (forall|i: int|
                    a + t.len() <= i < s.len() ==> white_space(#[trigger] s[i])) && (t.len() > 0 ==> !white_space(t[0])
                    && !white_space(t[t.len() - 1]))
        }),
{
    lemma_skip(s, 0);
    lemma_ink(s, s.len() as int);
    let a = skip_space(s, 0);
    let b = ink_end(s, s.len() as int);
    let t = trimmed(s);
    if a >= b {
        let z = s.len() as int;
        assert(s.subrange(z, z + t.len()) =~= t);
        assert forall|i: int| 0 <= i < z implies white_space(#[trigger] s[i]) by {
            if i >= a {
                assert(i >= b);
            }
        }
    } else {
        assert(s.subrange(a, a + t.len()) =~= t);
        assert(t[0] == s[a]);
        assert(t[t.len() - 1] == s[b - 1]);
    }
}

proof fn lemma_skip(s: Seq<char>, i: int)
    requires
        0 <= i <= s.len(),
    ensures
        i <= skip_space(s, i) <= s.len(),
        forall|k: int| i <= k < skip_space(s, i) ==> white_space(#[trigger] s[k]),
        skip_space(s, i) < s.len() ==> !white_space(s[skip_space(s, i)]),
    decreases s.len() - i,
{
    if i < s.len() && white_space(s[i]) {
        lemma_skip(s, i + 1);
    }
}

proof fn lemma_ink(s: Seq<char>, k: int)
    requires
        0 <= k <= s.len(),
    ensures
        0 <= ink_end(s, k) <= k,
        forall|i: int| ink_end(s, k) <= i < k ==> white_space(#[trigger] s[i]),
        ink_end(s, k) > 0 ==> !white_space(s[ink_end(s, k) - 1]),
    decreases k,
{
    if k > 0 && white_space(s[k - 1]) {
        lemma_ink(s, k - 1);
    }
}

/// A command line is the name up to the first blank, and the rest without the
/// white space around it.
pub proof fn law_command_line(name: Seq<char>, arg: Seq<char>)
    requires
        forall|i: int| 0 <= i < name.len() ==> name[i] != ' ',
    ensures
        command_parts(name) == (name, Seq::<char>::empty()),
        command_parts(name + seq![' '] + arg) == (name, trimmed(arg)),
{
    let s = name + seq![' '] + arg;
    lemma_space(name, 0, name.len() as int);
    lemma_space(s, 0, name.len() as int);
    assert(s.take(name.len() as int) =~= name);
    assert(s.skip(name.len() as int + 1) =~= arg);
}

proof fn lemma_space(s: Seq<char>, i: int, k: int)
    requires
        0 <= i <= k <= s.len(),
        forall|j: int| 0 <= j < k ==> s[j] != ' ',
        k < s.len() ==> s[k] == ' ',
    ensures
        space_from(s, i) == k,
    decreases k - i,
{
    if i < k {
        lemma_space(s, i + 1, k);
    }
}

/// A command line that is a number goes to that line; an empty one does
/// nothing; one that names no command is answered with an error and does
/// nothing else.
pub proof fn law_command_lines(desk: Desk, s: Seq<char>)
    ensures
        number_in(s) is Some ==> desk.command(s) == desk.evaluate(
            (Expr::Direct { kind: DirectKind::GotoLine, count: 1 }),
            s,
        ),
        number_in(s) is None && command_parts(s).0.len() == 0 ==> desk.command(s) == (
            desk,
            Seq::<Cmd<Seq<char>>>::empty(),
        ),
        number_in(s) is None && command_parts(s).0.len() > 0 && crate::config::command::command_named(
            crate::config::command::command_table(),
            command_parts(s).0,
            0,
        ) is None ==> ({
            let e = desk.command(s).0;
            e == (Desk { said: e.said, ..desk }) && e.said.0 is Error
        }),
{
}

/// What a key means behind the goto and the scroll prefix and where an object is
/// awaited: what the tables for that say.
#[verifier::rlimit(60)]
pub proof fn law_keys_of_the_tables(km: Keymap, t: Seq<Token>, key: KeyEvent)
    requires
        t.len() > 0,
        !(key.modifiers.control && key.code == KeyCode::Char('r')),
        !(key.code matches KeyCode::Char(c) && '0' <= c <= '9'),
    ensures
        t.last() is GotoPrefix ==> key_token(km, t, key) == lookup(goto_table(), key.code, 0),
        t.last() is ZPrefix ==> key_token(km, t, key) == lookup(z_table(), key.code, 0),
        t.last() is Scope ==> key_token(km, t, key) == lookup(object_table(), key.code, 0),
        t.last() matches Token::Op(op) ==> (match op {
            Operator::Delete => key.code != KeyCode::Char('d'),
            Operator::Yank => key.code != KeyCode::Char('y'),
            Operator::Change => key.code != KeyCode::Char('c'),
            _ => true,
        }) ==> key_token(km, t, key) == lookup(op_pending_table(), key.code, 0),
{
}

/// The names of unsaved buffers are listed with commas between them, three at
/// most; of the others only their number is told.
pub proof fn law_names_of_unsaved_buffers(refs: Seq<BufferRef<Seq<char>>>)
    ensures
        refs.len() == 1 ==> dirty_list(refs) == short_name(refs[0]),
        refs.len() == 2 ==> dirty_list(refs) == short_name(refs[0]) + ", "@ + short_name(refs[1]),
        refs.len() > 3 ==> dirty_list(refs) == dirty_list(refs.take(3)) + " +"@ + decimal(refs.len() - 3) + " more"@,
{
    reveal_with_fuel(short_names, 5);
    if refs.len() > 3 {
        let t = refs.take(3);
        assert(t[0] == refs[0] && t[1] == refs[1] && t[2] == refs[2]);
        assert(short_names(t, 3) == short_names(refs, 3));
    }
}

} // verus!
