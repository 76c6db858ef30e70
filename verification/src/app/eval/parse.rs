//! From key presses to commands: a key becomes a token, and a finished list
//! of tokens becomes an expression.
use vstd::prelude::*;
use crate::action::{DirectKind, Expr, MotionExpr, MotionKind, Object, Operator, Scope, Target, Token};
use crate::config::keymap::{
    find_binding, goto_bindings, goto_table, lookup, object_bindings, object_table, op_pending_bindings, op_pending_table,
    z_bindings, z_table, KeySig, Keymap,
};
use crate::editor::{least, most};
use crate::keys::{KeyCode, KeyEvent};
use crate::text::ascii_digit;

verus! {

/// What a list of tokens amounts to.
#[derive(Debug, Clone, Copy, PartialEq, Eq, Structural)]
pub enum Parse {
    Complete(Expr),
    Incomplete,
    Invalid,
}

/// What the next key is expected to be.
#[derive(Debug, Clone, Copy, PartialEq, Eq, Structural)]
pub enum ParseCtx {
    /// The start of a command, or a count before it.
    Initial,
    /// A key of the leader's table.
    LeaderPending,
    /// The target of an operator.
    OpPending,
    /// The body of a text object.
    ObjectExpected,
    /// The second key after `g`.
    GotoPending,
    /// The character that a command takes as its argument.
    CharArgPending,
    /// The second key after `z`.
    ZPending,
}

/// The last of the first `k` tokens that is no count.
pub open spec fn last_word(t: Seq<Token>, k: int) -> Option<Token>
    decreases k,
{
    if k <= 0 {
        None
    } else if t[k - 1] is Count {
        last_word(t, k - 1)
    } else {
        Some(t[k - 1])
    }
}

pub open spec fn context(t: Seq<Token>) -> ParseCtx {
    match last_word(t, t.len() as int) {
        None => ParseCtx::Initial,
        Some(w) => match w {
            Token::LeaderPrefix => ParseCtx::LeaderPending,
            Token::Op(_) => ParseCtx::OpPending,
            Token::Scope(_) => ParseCtx::ObjectExpected,
            Token::GotoPrefix => ParseCtx::GotoPending,
            Token::FindCharPrefix { forward, till } => ParseCtx::CharArgPending,
            Token::ReplaceCharPrefix => ParseCtx::CharArgPending,
            Token::ZPrefix => ParseCtx::ZPending,
            _ => ParseCtx::Initial,
        },
    }
}

/// What the next key is expected to be, by the last token that is no count.
pub fn context_of(prev: &Vec<Token>) -> (r: ParseCtx)
    ensures
        r == context(prev@),
{
    let mut k: usize = prev.len();
    while k > 0
        invariant
            k <= prev.len(),
            last_word(prev@, prev@.len() as int) == last_word(prev@, k as int),
        decreases k,
    {
        match prev[k - 1] {
            Token::Count(_) => {},
            Token::LeaderPrefix => return ParseCtx::LeaderPending,
            Token::Op(_) => return ParseCtx::OpPending,
            Token::Scope(_) => return ParseCtx::ObjectExpected,
            Token::GotoPrefix => return ParseCtx::GotoPending,
            Token::FindCharPrefix { .. } | Token::ReplaceCharPrefix => return ParseCtx::CharArgPending,
            Token::ZPrefix => return ParseCtx::ZPending,
            _ => return ParseCtx::Initial,
        }
        k = k - 1;
    }
    ParseCtx::Initial
}

/// The last of the first `k` tokens that waits for a character.
pub open spec fn char_prefix(t: Seq<Token>, k: int) -> Option<Token>
    decreases k,
{
    if k <= 0 {
        None
    } else if t[k - 1] is FindCharPrefix || t[k - 1] is ReplaceCharPrefix {
        Some(t[k - 1])
    } else {
        char_prefix(t, k - 1)
    }
}

/// The token that a key becomes as the argument of `f`, `F`, `t`, `T` or `r`.
pub open spec fn char_arg(code: KeyCode, t: Seq<Token>) -> Option<Token> {
    match (char_prefix(t, t.len() as int), code) {
        (Some(Token::FindCharPrefix { forward, till }), KeyCode::Char(ch)) => Some(
            Token::Motion(MotionKind::FindChar { ch, forward, till }),
        ),
        (Some(Token::ReplaceCharPrefix), KeyCode::Char(ch)) => Some(Token::Direct(DirectKind::ReplaceChar { ch })),
        _ => None,
    }
}

/// The token that a key becomes as the argument of a character command. Keys
/// that are no character give up.
pub fn char_arg_token(code: KeyCode, prev: &Vec<Token>) -> (r: Option<Token>)
    ensures
        r == char_arg(code, prev@),
{
    let ch = match code {
        KeyCode::Char(c) => c,
        _ => return None,
    };
    let mut k: usize = prev.len();
    while k > 0
        invariant
            k <= prev.len(),
            code == KeyCode::Char(ch),
            char_prefix(prev@, prev@.len() as int) == char_prefix(prev@, k as int),
        decreases k,
    {
        match prev[k - 1] {
            Token::FindCharPrefix { forward, till } => {
                return Some(Token::Motion(MotionKind::FindChar { ch, forward, till }));
            },
            Token::ReplaceCharPrefix => {
                return Some(Token::Direct(DirectKind::ReplaceChar { ch }));
            },
            _ => {},
        }
        k = k - 1;
    }
    None
}

/// The last operator among the first `k` tokens.
pub open spec fn pending_op(t: Seq<Token>, k: int) -> Option<Operator>
    decreases k,
{
    if k <= 0 {
        None
    } else if let Token::Op(o) = t[k - 1] {
        Some(o)
    } else {
        pending_op(t, k - 1)
    }
}

/// The key that doubles an operator.
pub open spec fn doubles(op: Operator, code: KeyCode) -> bool {
    match op {
        Operator::Delete => code == KeyCode::Char('d'),
        Operator::Yank => code == KeyCode::Char('y'),
        Operator::Change => code == KeyCode::Char('c'),
        Operator::Indent => false,
        Operator::Dedent => false,
    }
}

pub open spec fn op_token(code: KeyCode, t: Seq<Token>) -> Option<Token> {
    match pending_op(t, t.len() as int) {
        None => None,
        Some(op) => if doubles(op, code) {
            Some(Token::SelfDouble(op))
        } else {
            lookup(op_pending_table(), code, 0)
        },
    }
}

/// The token of a key after an operator: the operator's own key again, or a
/// key of the table.
pub fn op_pending_token(code: KeyCode, prev: &Vec<Token>) -> (r: Option<Token>)
    ensures
        r == op_token(code, prev@),
{
    let mut k: usize = prev.len();
    while k > 0
        invariant
            k <= prev.len(),
            pending_op(prev@, prev@.len() as int) == pending_op(prev@, k as int),
        decreases k,
    {
        if let Token::Op(op) = prev[k - 1] {
            let same = match op {
                Operator::Delete => code == KeyCode::Char('d'),
                Operator::Yank => code == KeyCode::Char('y'),
                Operator::Change => code == KeyCode::Char('c'),
                Operator::Indent | Operator::Dedent => false,
            };
            if same {
                return Some(Token::SelfDouble(op));
            }
            let t = op_pending_bindings();
            return find_binding(&t, code);
        }
        k = k - 1;
    }
    None
}

/// The digit that a key types.
pub open spec fn digit_of(code: KeyCode) -> Option<int> {
    match code {
        KeyCode::Char(c) => if ascii_digit(c) {
            Some(c as int - '0' as int)
        } else {
            None
        },
        _ => None,
    }
}

fn digit(code: KeyCode) -> (r: Option<u32>)
    ensures
        match (r, digit_of(code)) {
            (Some(a), Some(b)) => a == b && a <= 9,
            (None, None) => true,
            _ => false,
        },
{
    match code {
        KeyCode::Char(c) => {
            if '0' <= c && c <= '9' {
                Some((c as u32) - 48)
            } else {
                None
            }
        },
        _ => None,
    }
}

/// Whether a digit belongs to a count: one to nine start or go on with one
/// before a command or its target, and zero goes on with one.
pub open spec fn counts(ctx: ParseCtx, d: int, counting: bool) -> bool {
    if d == 0 {
        counting
    } else {
        ctx is Initial || ctx is OpPending
    }
}

/// The token that a key becomes after the tokens before it.
pub open spec fn key_token(km: Keymap, t: Seq<Token>, key: KeyEvent) -> Option<Token> {
    let ctx = context(t);
    let sig = KeySig::of(key.code, key.modifiers);
    let counting = t.len() > 0 && t.last() is Count;
    if key.modifiers.control && key.code == KeyCode::Char('r') {
        Some(Token::Direct(DirectKind::Redo))
    } else if ctx is CharArgPending {
        char_arg(key.code, t)
    } else if let Some(d) = digit_of(key.code) {
        if counts(ctx, d, counting) {
            Some(Token::Count(d as u32))
        } else if d == 0 && (ctx is Initial || ctx is OpPending) {
            Some(Token::Motion(MotionKind::LineStart))
        } else {
            None
        }
    } else {
        match ctx {
            ParseCtx::Initial => km.initial.at(sig),
            ParseCtx::LeaderPending => km.leader.at(sig),
            ParseCtx::OpPending => op_token(key.code, t),
            ParseCtx::ObjectExpected => lookup(object_table(), key.code, 0),
            ParseCtx::GotoPending => lookup(goto_table(), key.code, 0),
            ParseCtx::CharArgPending => char_arg(key.code, t),
            ParseCtx::ZPending => lookup(z_table(), key.code, 0),
        }
    }
}

/// The token that a key becomes in normal mode after the tokens before it.
/// `None` means that the key has no meaning there.
pub fn tokenize(km: &Keymap, prev: &Vec<Token>, key: KeyEvent) -> (r: Option<Token>)
    ensures
        r == key_token(*km, prev@, key),
{
    if key.modifiers.control && key.code == KeyCode::Char('r') {
        return Some(Token::Direct(DirectKind::Redo));
    }
    let ctx = context_of(prev);
    let code = key.code;
    if ctx == ParseCtx::CharArgPending {
        return char_arg_token(code, prev);
    }
    if let Some(d) = digit(code) {
        let counting = if prev.len() > 0 {
            if let Token::Count(_) = prev[prev.len() - 1] { true } else { false }
        } else {
            false
        };
        let open = ctx == ParseCtx::Initial || ctx == ParseCtx::OpPending;
        return if (d == 0 && counting) || (d != 0 && open) {
            Some(Token::Count(d))
        } else if d == 0 && open {
            Some(Token::Motion(MotionKind::LineStart))
        } else {
            None
        };
    }
    let sig = KeySig::from_event(key);
    match ctx {
        ParseCtx::Initial => km.initial.get(sig),
        ParseCtx::LeaderPending => km.leader.get(sig),
        ParseCtx::OpPending => op_pending_token(code, prev),
        ParseCtx::ObjectExpected => {
            let t = object_bindings();
            find_binding(&t, code)
        },
        ParseCtx::GotoPending => {
            let t = goto_bindings();
            find_binding(&t, code)
        },
        ParseCtx::CharArgPending => char_arg_token(code, prev),
        ParseCtx::ZPending => {
            let t = z_bindings();
            find_binding(&t, code)
        },
    }
}

/// The place of the first token from `i` on that is no count.
pub open spec fn after_counts(t: Seq<Token>, i: int) -> int
    decreases t.len() - i,
{
    if 0 <= i < t.len() && t[i] is Count {
        after_counts(t, i + 1)
    } else {
        i
    }
}

/// The number that the digits `i..k` form, held within its type.
pub open spec fn number(t: Seq<Token>, i: int, k: int) -> int
    decreases k - i,
{
    if k <= i {
        0
    } else {
        least(
            least(number(t, i, k - 1) * 10, u32::MAX as int) + match t[k - 1] {
                Token::Count(d) => d as int,
                _ => 0,
            },
            u32::MAX as int,
        )
    }
}

/// The count that starts at `i`; one where there is none.
pub open spec fn count_at(t: Seq<Token>, i: int) -> u32 {
    let k = after_counts(t, i);
    if k == i {
        1
    } else {
        most(number(t, i, k), 1) as u32
    }
}

proof fn lemma_after_counts(t: Seq<Token>, i: int)
    requires
        0 <= i <= t.len(),
    ensures
        i <= after_counts(t, i) <= t.len(),
        forall|k: int| i <= k < after_counts(t, i) ==> (#[trigger] t[k]) is Count,
        after_counts(t, i) < t.len() ==> !(t[after_counts(t, i)] is Count),
    decreases t.len() - i,
{
    if i < t.len() && t[i] is Count {
        lemma_after_counts(t, i + 1);
    }
}

proof fn lemma_number(t: Seq<Token>, i: int, k: int)
    ensures
        0 <= number(t, i, k) <= u32::MAX,
    decreases k - i,
{
    if k > i {
        lemma_number(t, i, k - 1);
    }
}

/// The count that starts at `from`, and the place of what follows it.
pub fn take_count(tokens: &Vec<Token>, from: usize) -> (r: (u32, usize))
    requires
        from <= tokens.len(),
    ensures
        r.0 == count_at(tokens@, from as int),
        r.1 == after_counts(tokens@, from as int),
        from <= r.1 <= tokens.len(),
{
    let mut count: u32 = 0;
    let mut i: usize = from;
    while i < tokens.len()
        invariant
            from <= i <= tokens.len(),
            after_counts(tokens@, from as int) == after_counts(tokens@, i as int),
            count == number(tokens@, from as int, i as int),
        ensures
            after_counts(tokens@, from as int) == i,
            from <= i <= tokens.len(),
            count == number(tokens@, from as int, i as int),
        decreases tokens.len() - i,
    {
        match tokens[i] {
            Token::Count(d) => {
                let ten: u64 = count as u64 * 10;
                let times: u32 = if ten > u32::MAX as u64 { u32::MAX } else { ten as u32 };
                count = times.saturating_add(d);
                i = i + 1;
            },
            _ => {
                break;
            },
        }
    }
    if i == from {
        (1, from)
    } else {
        (if count > 1 { count } else { 1 }, i)
    }
}

/// The product of two counts, held within its type.
pub open spec fn times(a: u32, b: u32) -> u32 {
    least(a * b, u32::MAX as int) as u32
}

fn sat_mul(a: u32, b: u32) -> (r: u32)
    ensures
        r == times(a, b),
{
    proof {
        assert(a * b <= 0xffff_ffff * 0xffff_ffff) by (nonlinear_arith)
            requires
                a <= 0xffff_ffff,
                b <= 0xffff_ffff,
        ;
        assert(0 <= a * b) by (nonlinear_arith);
    }
    let p: u64 = a as u64 * b as u64;
    if p > u32::MAX as u64 {
        u32::MAX
    } else {
        p as u32
    }
}

/// The expression that a complete list of tokens stands for.
pub open spec fn expr_of(t: Seq<Token>) -> Option<Expr> {
    let n = count_at(t, 0);
    let k = after_counts(t, 0);
    let m = t.len() - k;
    if m == 1 {
        match t[k] {
            Token::Direct(kind) => Some(Expr::Direct { kind, count: n }),
            Token::Motion(motion) => Some(Expr::Motion(MotionExpr { motion, count: n })),
            _ => None,
        }
    } else if m == 2 && !(t[k] is Op) {
        match (t[k], t[k + 1]) {
            (Token::FindCharPrefix { forward, till }, Token::Motion(motion)) => Some(
                Expr::Motion(MotionExpr { motion, count: n }),
            ),
            (Token::LeaderPrefix, Token::Direct(kind)) => Some(Expr::Direct { kind, count: n }),
            (Token::GotoPrefix, Token::GotoPrefix) => Some(
                Expr::Motion(MotionExpr { motion: MotionKind::FileStart, count: n }),
            ),
            (Token::GotoPrefix, Token::Direct(kind)) => Some(Expr::Direct { kind, count: n }),
            (Token::GotoPrefix, Token::Motion(motion)) => Some(Expr::Motion(MotionExpr { motion, count: n })),
            (Token::ZPrefix, Token::Direct(kind)) => Some(Expr::Direct { kind, count: n }),
            (Token::ReplaceCharPrefix, Token::Direct(kind)) => Some(Expr::Direct { kind, count: n }),
            _ => None,
        }
    } else if m >= 2 {
        match t[k] {
            Token::Op(op) => op_expr(op, t, k + 1, n),
            _ => None,
        }
    } else {
        None
    }
}

/// The expression of an operator with the tokens from `i` on as its target.
pub open spec fn op_expr(op: Operator, t: Seq<Token>, i: int, outer: u32) -> Option<Expr> {
    let n = count_at(t, i);
    let k = after_counts(t, i);
    let m = t.len() - k;
    if m == 1 {
        match t[k] {
            Token::SelfDouble(_) => Some(Expr::Op { op, target: Target::LineWise, outer_count: times(outer, n) }),
            Token::Motion(motion) => Some(motion_op(op, motion, n, outer)),
            _ => None,
        }
    } else if m == 2 {
        match (t[k], t[k + 1]) {
            (Token::FindCharPrefix { forward, till }, Token::Motion(motion)) => Some(motion_op(op, motion, n, outer)),
            (Token::GotoPrefix, Token::Motion(motion)) => Some(motion_op(op, motion, n, outer)),
            (Token::Scope(scope), Token::Object(object)) => if n == 1 {
                Some(Expr::Op { op, target: Target::TextObject { scope, object }, outer_count: outer })
            } else {
                None
            },
            _ => None,
        }
    } else {
        None
    }
}

pub open spec fn motion_op(op: Operator, motion: MotionKind, count: u32, outer: u32) -> Expr {
    Expr::Op { op, target: Target::Motion(MotionExpr { motion, count }), outer_count: outer }
}

/// The expression that a complete list of tokens stands for.
pub fn build_expr(tokens: &Vec<Token>) -> (r: Option<Expr>)
    ensures
        r == expr_of(tokens@),
{
    let (n, k) = take_count(tokens, 0);
    let m = tokens.len() - k;
    if m == 1 {
        match tokens[k] {
            Token::Direct(kind) => Some(Expr::Direct { kind, count: n }),
            Token::Motion(motion) => Some(Expr::Motion(MotionExpr { motion, count: n })),
            _ => None,
        }
    } else if m >= 2 {
        if let Token::Op(op) = tokens[k] {
            return build_op_expr(op, tokens, k + 1, n);
        }
        if m > 2 {
            return None;
        }
        match (tokens[k], tokens[k + 1]) {
            (Token::FindCharPrefix { .. }, Token::Motion(motion)) => Some(
                Expr::Motion(MotionExpr { motion, count: n }),
            ),
            (Token::LeaderPrefix, Token::Direct(kind)) => Some(Expr::Direct { kind, count: n }),
            (Token::GotoPrefix, Token::GotoPrefix) => Some(
                Expr::Motion(MotionExpr { motion: MotionKind::FileStart, count: n }),
            ),
            (Token::GotoPrefix, Token::Direct(kind)) => Some(Expr::Direct { kind, count: n }),
            (Token::GotoPrefix, Token::Motion(motion)) => Some(Expr::Motion(MotionExpr { motion, count: n })),
            (Token::ZPrefix, Token::Direct(kind)) => Some(Expr::Direct { kind, count: n }),
            (Token::ReplaceCharPrefix, Token::Direct(kind)) => Some(Expr::Direct { kind, count: n }),
            _ => None,
        }
    } else {
        None
    }
}

/// The expression of an operator with the tokens from `from` on as its
/// target.
pub fn build_op_expr(op: Operator, tokens: &Vec<Token>, from: usize, outer_count: u32) -> (r: Option<Expr>)
    requires
        from <= tokens.len(),
    ensures
        r == op_expr(op, tokens@, from as int, outer_count),
{
    let (n, k) = take_count(tokens, from);
    let m = tokens.len() - k;
    if m == 1 {
        match tokens[k] {
            Token::SelfDouble(_) => Some(
                Expr::Op { op, target: Target::LineWise, outer_count: sat_mul(outer_count, n) },
            ),
            Token::Motion(motion) => Some(
                Expr::Op { op, target: Target::Motion(MotionExpr { motion, count: n }), outer_count },
            ),
            _ => None,
        }
    } else if m == 2 {
        match (tokens[k], tokens[k + 1]) {
            (Token::FindCharPrefix { .. }, Token::Motion(motion)) => Some(
                Expr::Op { op, target: Target::Motion(MotionExpr { motion, count: n }), outer_count },
            ),
            (Token::GotoPrefix, Token::Motion(motion)) => Some(
                Expr::Op { op, target: Target::Motion(MotionExpr { motion, count: n }), outer_count },
            ),
            (Token::Scope(scope), Token::Object(object)) => {
                if n == 1 {
                    Some(Expr::Op { op, target: Target::TextObject { scope, object }, outer_count })
                } else {
                    None
                }
            },
            _ => None,
        }
    } else {
        None
    }
}

/// Whether more tokens can make a command of these.
pub open spec fn extends(t: Seq<Token>) -> bool {
    exists|s: Seq<Token>| s.len() > 0 && #[trigger] expr_of(t + s) is Some
}

/// The shapes of token lists that more tokens can complete.
pub open spec fn open_shape(t: Seq<Token>) -> bool {
    let k = after_counts(t, 0);
    let m = t.len() - k;
    if m == 0 {
        true
    } else if t[k] is Op {
        let j = after_counts(t, k + 1);
        let rest = t.len() - j;
        ||| rest == 0
        ||| rest == 1 && (t[j] is FindCharPrefix || t[j] is GotoPrefix || (t[j] is Scope && count_at(t, k + 1) == 1))
    } else {
        m == 1 && (t[k] is LeaderPrefix || t[k] is GotoPrefix || t[k] is ZPrefix || t[k] is FindCharPrefix
            || t[k] is ReplaceCharPrefix)
    }
}

/// Whether more tokens can make a command of these.
pub fn is_valid_prefix(tokens: &Vec<Token>) -> (r: bool)
    ensures
        r == extends(tokens@),
{
    let (_, k) = take_count(tokens, 0);
    let m = tokens.len() - k;
    let r = if m == 0 {
        true
    } else {
        match tokens[k] {
            Token::Op(_) => {
                let (n, j) = take_count(tokens, k + 1);
                let rest = tokens.len() - j;
                if rest == 0 {
                    true
                } else if rest == 1 {
                    match tokens[j] {
                        Token::FindCharPrefix { .. } | Token::GotoPrefix => true,
                        Token::Scope(_) => n == 1,
                        _ => false,
                    }
                } else {
                    false
                }
            },
            Token::LeaderPrefix | Token::GotoPrefix | Token::ZPrefix | Token::FindCharPrefix { .. }
            | Token::ReplaceCharPrefix => m == 1,
            _ => false,
        }
    };
    proof {
        assert(r == open_shape(tokens@));
        lemma_open_shape(tokens@);
    }
    r
}

/// Counts at the front stay where they are when tokens are added behind.
proof fn lemma_counts_prefix(t: Seq<Token>, u: Seq<Token>, i: int)
    requires
        t.is_prefix_of(u),
        0 <= i <= t.len(),
        after_counts(t, i) < t.len(),
    ensures
        after_counts(u, i) == after_counts(t, i),
        count_at(u, i) == count_at(t, i),
{
    lemma_after_counts_prefix(t, u, i);
    lemma_after_counts(t, i);
    lemma_number_prefix(t, u, i, after_counts(t, i));
}

proof fn lemma_after_counts_prefix(t: Seq<Token>, u: Seq<Token>, i: int)
    requires
        t.is_prefix_of(u),
        0 <= i <= t.len(),
        after_counts(t, i) < t.len(),
    ensures
        after_counts(u, i) == after_counts(t, i),
    decreases t.len() - i,
{
    if i < t.len() {
        assert(t[i] == u[i]);
        if t[i] is Count {
            lemma_after_counts_prefix(t, u, i + 1);
        }
    }
}

proof fn lemma_number_prefix(t: Seq<Token>, u: Seq<Token>, i: int, k: int)
    requires
        t.is_prefix_of(u),
        0 <= i,
        k <= t.len(),
    ensures
        number(t, i, k) == number(u, i, k),
    decreases k - i,
{
    if k > i {
        lemma_number_prefix(t, u, i, k - 1);
        assert(t[k - 1] == u[k - 1]);
    }
}

/// The shapes are exactly the lists that can be completed.
proof fn lemma_open_shape(t: Seq<Token>)
    ensures
        open_shape(t) == extends(t),
{
    let k = after_counts(t, 0);
    lemma_after_counts(t, 0);
    if open_shape(t) {
        let m = t.len() - k;
        let motion = Token::Motion(MotionKind::Left);
        let direct = Token::Direct(DirectKind::Undo);
        let s = if m == 0 {
            seq![motion]
        } else if t[k] is Op {
            let j = after_counts(t, k + 1);
            lemma_after_counts(t, k + 1);
            if j < t.len() && t[j] is Scope {
                seq![Token::Object(Object::Paren)]
            } else {
                seq![motion]
            }
        } else if t[k] is FindCharPrefix {
            seq![motion]
        } else {
            seq![direct]
        };
        let u = t + s;
        assert(t.is_prefix_of(u));
        assert(u[t.len() as int] == s[0]);
        if m == 0 {
            lemma_counts_to_end(t, u, 0);
            assert(expr_of(u) is Some);
        } else {
            lemma_counts_prefix(t, u, 0);
            assert(u[k] == t[k]);
            if t[k] is Op {
                let j = after_counts(t, k + 1);
                lemma_after_counts(t, k + 1);
                if j < t.len() {
                    lemma_counts_prefix(t, u, k + 1);
                    assert(u[j] == t[j]);
                } else {
                    lemma_counts_to_end(t, u, k + 1);
                }
            }
            assert(expr_of(u) is Some);
        }
        assert(extends(t));
    }
    if extends(t) {
        let s = choose|s: Seq<Token>| s.len() > 0 && #[trigger] expr_of(t + s) is Some;
        let u = t + s;
        assert(t.is_prefix_of(u));
        if k < t.len() {
            lemma_counts_prefix(t, u, 0);
            assert(u[k] == t[k]);
            if t[k] is Op {
                let j = after_counts(t, k + 1);
                lemma_after_counts(t, k + 1);
                if j < t.len() {
                    lemma_counts_prefix(t, u, k + 1);
                    assert(u[j] == t[j]);
                }
            }
        }
    }
}

/// Counts up to the end of a list end where the next token starts.
proof fn lemma_counts_to_end(t: Seq<Token>, u: Seq<Token>, i: int)
    requires
        t.is_prefix_of(u),
        t.len() < u.len(),
        0 <= i <= t.len(),
        after_counts(t, i) == t.len(),
        !(u[t.len() as int] is Count),
    ensures
        after_counts(u, i) == t.len(),
    decreases t.len() - i,
{
    if i < t.len() {
        assert(t[i] == u[i]);
        lemma_counts_to_end(t, u, i + 1);
    }
}

pub open spec fn parsed(t: Seq<Token>) -> Parse {
    match expr_of(t) {
        Some(e) => Parse::Complete(e),
        None => if extends(t) {
            Parse::Incomplete
        } else {
            Parse::Invalid
        },
    }
}

/// Reads a list of tokens: a complete command, the start of one, or neither.
pub fn classify(tokens: &Vec<Token>) -> (r: Parse)
    ensures
        r == parsed(tokens@),
{
    match build_expr(tokens) {
        Some(e) => Parse::Complete(e),
        None => {
            if is_valid_prefix(tokens) {
                Parse::Incomplete
            } else {
                Parse::Invalid
            }
        },
    }
}

/// While a command is typed, what is there so far is never invalid.
pub proof fn law_prefixes_stay_open(t: Seq<Token>, k: int)
    requires
        expr_of(t) is Some,
        0 <= k < t.len(),
    ensures
        !(parsed(t.take(k)) is Invalid),
{
    let s = t.skip(k);
    assert(t.take(k) + s =~= t);
    assert(extends(t.take(k)));
}

} // verus!
