//! Reading and evaluating commands.
use vstd::prelude::*;
use crate::action::{Expr, MotionExpr, MotionKind};
use crate::app::completion::{ident_char, ident_start, is_ident_continue};
use crate::app::refs_of;
use crate::buffer_ref::BufferRef;
use crate::editor::{Buffer, Doc};
use crate::number::{decimal, to_decimal};
use crate::path::{file_name, name_in};
use crate::text::{copy_str, push_str, string_slice};

pub mod command_laws;
pub mod direct;
pub mod handle;
pub mod laws;
pub mod motions;
pub mod operator;
pub mod parse;
pub mod run;

verus! {

/// How many names a list of buffers shows.
pub const SHOWN_NAMES: usize = 3;

/// The name of a buffer in a list: the name of its file.
pub open spec fn short_name(r: BufferRef<Seq<char>>) -> Seq<char> {
    match r {
        BufferRef::Scratch => "[scratch]"@,
        BufferRef::File(p) => match name_in(p) {
            Some(n) => n,
            None => p,
        },
    }
}

/// The names of the first `k` buffers.
pub open spec fn short_names(refs: Seq<BufferRef<Seq<char>>>, k: int) -> Seq<char>
    decreases k,
{
    if k <= 0 {
        Seq::empty()
    } else if k == 1 {
        short_name(refs[0])
    } else {
        short_names(refs, k - 1) + ", "@ + short_name(refs[k - 1])
    }
}

/// A list of buffers, cut short where it is long.
pub open spec fn dirty_list(refs: Seq<BufferRef<Seq<char>>>) -> Seq<char> {
    if refs.len() > SHOWN_NAMES {
        short_names(refs, SHOWN_NAMES as int) + " +"@ + decimal(refs.len() - SHOWN_NAMES) + " more"@
    } else {
        short_names(refs, refs.len() as int)
    }
}

/// The names of some buffers, for a message.
pub fn format_dirty_list(refs: &Vec<BufferRef>) -> (r: String)
    ensures
        r@ == dirty_list(refs_of(refs@)),
{
    let ghost all = refs_of(refs@);
    let shown = if refs.len() > SHOWN_NAMES { SHOWN_NAMES } else { refs.len() };
    let mut out = String::new();
    let mut i: usize = 0;
    proof {
        reveal_strlit("");
        assert(out@ =~= short_names(all, 0));
    }
    while i < shown
        invariant
            i <= shown <= refs.len(),
            all == refs_of(refs@),
            out@ == short_names(all, i as int),
        decreases shown - i,
    {
        if i > 0 {
            push_str(&mut out, ", ");
        }
        let name = match &refs[i] {
            BufferRef::Scratch => copy_str("[scratch]"),
            BufferRef::File(p) => match file_name(p.as_str()) {
                Some(n) => n,
                None => p.clone(),
            },
        };
        proof {
            assert(all[i as int] == refs@[i as int]@);
            assert(name@ == short_name(all[i as int]));
        }
        let ghost before = out@;
        push_str(&mut out, name.as_str());
        proof {
            if i == 0 {
                assert(out@ =~= short_name(all[0]));
            } else {
                assert(out@ =~= short_names(all, i as int) + ", "@ + short_name(all[i as int]));
            }
        }
        i = i + 1;
    }
    if refs.len() > SHOWN_NAMES {
        push_str(&mut out, " +");
        push_str(&mut out, to_decimal(refs.len() - SHOWN_NAMES).as_str());
        push_str(&mut out, " more");
    }
    out
}

/// Whether the place that a motion reaches belongs to what an operator takes.
pub open spec fn inclusive(motion: MotionKind) -> bool {
    match motion {
        MotionKind::WordEnd => true,
        MotionKind::BigWordEnd => true,
        MotionKind::WordEndBack => true,
        MotionKind::BigWordEndBack => true,
        MotionKind::FindChar { ch, forward, till } => true,
        MotionKind::LineEnd => true,
        MotionKind::LineLastNonBlank => true,
        MotionKind::FileEnd => true,
        MotionKind::BracketMatch => true,
        _ => false,
    }
}

/// Whether the place that a motion reaches belongs to what an operator takes.
pub fn is_inclusive_motion(motion: MotionKind) -> (r: bool)
    ensures
        r == inclusive(motion),
{
    matches!(
        motion,
        MotionKind::WordEnd
            | MotionKind::BigWordEnd
            | MotionKind::WordEndBack
            | MotionKind::BigWordEndBack
            | MotionKind::FindChar { .. }
            | MotionKind::LineEnd
            | MotionKind::LineLastNonBlank
            | MotionKind::FileEnd
            | MotionKind::BracketMatch
    )
}

/// The end of the run of word characters that starts at `k`.
pub open spec fn ident_end(line: Seq<char>, k: int) -> int
    decreases line.len() - k,
{
    if 0 <= k < line.len() && ident_char(line[k]) {
        ident_end(line, k + 1)
    } else {
        k
    }
}

/// The word that a column lies in.
pub open spec fn word_at(line: Seq<char>, col: int) -> Option<Seq<char>> {
    if 0 <= col < line.len() && ident_char(line[col]) {
        Some(line.subrange(ident_start(line, col), ident_end(line, col)))
    } else {
        None
    }
}

impl Doc {
    pub open spec fn word_under(self) -> Option<Seq<char>> {
        word_at(self.line(), self.cursor.col as int)
    }
}

/// The word under the cursor. There is none on white space or punctuation.
pub fn word_under_cursor(buf: &Buffer) -> (r: Option<String>)
    requires
        buf.cursor.row < buf.lines.len(),
    ensures
        match (r, buf@.word_under()) {
            (Some(a), Some(b)) => a@ == b,
            (None, None) => true,
            _ => false,
        },
        r matches Some(w) ==> w@.len() > 0,
{
    let line = buf.line_chars(buf.cursor.row);
    let col = buf.cursor.col;
    if col >= line.len() {
        return None;
    }
    if !is_ident_continue(line[col]) {
        return None;
    }
    let mut lo: usize = col;
    while lo > 0
        invariant
            lo <= col < line.len(),
            ident_start(line@, col as int) == ident_start(line@, lo as int),
        ensures
            lo <= col < line.len(),
            ident_start(line@, col as int) == lo,
        decreases lo,
    {
        if !is_ident_continue(line[lo - 1]) {
            break;
        }
        lo = lo - 1;
    }
    let mut hi: usize = col + 1;
    while hi < line.len()
        invariant
            col < hi <= line.len(),
            ident_end(line@, col as int) == ident_end(line@, hi as int),
        ensures
            col < hi <= line.len(),
            ident_end(line@, col as int) == hi,
        decreases line.len() - hi,
    {
        if !is_ident_continue(line[hi]) {
            break;
        }
        hi = hi + 1;
    }
    Some(string_slice(&line, lo, hi))
}

/// An expression with a count of its own in place of the recorded one. No
/// count, or one, leaves it as it is.
pub open spec fn recounted(expr: Expr, count: u32) -> Expr {
    if count <= 1 {
        expr
    } else {
        match expr {
            Expr::Direct { kind, count: _ } => Expr::Direct { kind, count },
            Expr::Motion(m) => Expr::Motion(MotionExpr { count, ..m }),
            Expr::Op { op, target, outer_count } => Expr::Op { op, target, outer_count: count },
        }
    }
}

/// An expression with a count of its own in place of the recorded one.
pub fn override_count(expr: Expr, count: u32) -> (r: Expr)
    ensures
        r == recounted(expr, count),
{
    if count <= 1 {
        return expr;
    }
    match expr {
        Expr::Direct { kind, .. } => Expr::Direct { kind, count },
        Expr::Motion(m) => Expr::Motion(MotionExpr { motion: m.motion, count }),
        Expr::Op { op, target, .. } => Expr::Op { op, target, outer_count: count },
    }
}

} // verus!
