//! Swapping the case of a part of the text.
use vstd::prelude::*;
use crate::editor::{least, Buffer, Cursor, Doc};
use crate::text::{push_slice, slice_chars, to_lower, to_upper};

verus! {

/// A part of the text.
#[derive(Debug, Clone, Copy, PartialEq, Eq, Structural)]
pub enum Span {
    /// From one position up to another, which is left out.
    Range { from: Cursor, to: Cursor },
    /// Whole rows, both included.
    Lines { from_row: usize, to_row: usize },
    /// A rectangle of columns, both corners included.
    Block { r0: usize, c0: usize, r1: usize, c1: usize },
}

impl Span {
    pub open spec fn first_row(self) -> int {
        match self {
            Span::Range { from, to } => from.row as int,
            Span::Lines { from_row, to_row } => from_row as int,
            Span::Block { r0, c0, r1, c1 } => r0 as int,
        }
    }

    pub open spec fn last_row(self) -> int {
        match self {
            Span::Range { from, to } => to.row as int,
            Span::Lines { from_row, to_row } => to_row as int,
            Span::Block { r0, c0, r1, c1 } => r1 as int,
        }
    }

    /// The columns of a row of this length that belong to the part.
    pub open spec fn cols(self, row: int, len: int) -> (int, int) {
        match self {
            Span::Range { from, to } => (
                if row == from.row {
                    least(from.col as int, len)
                } else {
                    0
                },
                if row == to.row {
                    least(to.col as int, len)
                } else {
                    len
                },
            ),
            Span::Lines { from_row, to_row } => (0, len),
            Span::Block { r0, c0, r1, c1 } => (least(c0 as int, len), least(c1 + 1, len)),
        }
    }

    /// Whether a row lies in the part.
    pub open spec fn covers(self, row: int) -> bool {
        self.first_row() <= row <= self.last_row()
    }
}

/// A character in its other case.
pub open spec fn flipped(c: char) -> Seq<char> {
    match Doc::other_case(c) {
        Some(r) => r,
        None => seq![c],
    }
}

/// The characters `a..b` of a line, each in its other case.
pub open spec fn flips(line: Seq<char>, a: int, b: int) -> Seq<char>
    decreases b - a,
{
    if b <= a {
        Seq::empty()
    } else {
        flips(line, a, b - 1) + flipped(line[b - 1])
    }
}

pub open spec fn flip_cols(line: Seq<char>, a: int, b: int) -> Seq<char> {
    if b <= a {
        line
    } else {
        line.take(a) + flips(line, a, b) + line.skip(b)
    }
}

/// The line of a row with the case of the part swapped.
pub open spec fn flip_row(text: Seq<Seq<char>>, span: Span, row: int) -> Seq<char> {
    let (a, b) = span.cols(row, text[row].len() as int);
    if span.covers(row) {
        flip_cols(text[row], a, b)
    } else {
        text[row]
    }
}

impl Doc {
    pub open spec fn flip_span(self, span: Span) -> Doc {
        Doc { text: Seq::new(self.text.len(), |r: int| flip_row(self.text, span, r)), ..self }.touched()
    }
}

fn lower(a: usize, b: usize) -> (r: usize)
    ensures
        r == least(a as int, b as int),
{
    if a <= b {
        a
    } else {
        b
    }
}

fn span_cols(span: Span, row: usize, len: usize) -> (r: (usize, usize))
    ensures
        (r.0 as int, r.1 as int) == span.cols(row as int, len as int),
        r.0 <= len,
        r.1 <= len,
{
    match span {
        Span::Range { from, to } => (
            if row == from.row { lower(from.col, len) } else { 0 },
            if row == to.row { lower(to.col, len) } else { len },
        ),
        Span::Lines { .. } => (0, len),
        Span::Block { c0, c1, .. } => (lower(c0, len), if c1 >= len { len } else { c1 + 1 }),
    }
}

fn flip_chars(cs: &Vec<char>, a: usize, b: usize) -> (r: Vec<char>)
    requires
        a < b <= cs.len(),
    ensures
        r@ == flip_cols(cs@, a as int, b as int),
{
    let mut out = slice_chars(cs, 0, a);
    let mut i: usize = a;
    proof {
        assert(out@ =~= cs@.take(a as int) + flips(cs@, a as int, a as int));
    }
    while i < b
        invariant
            a <= i <= b <= cs.len(),
            out@ == cs@.take(a as int) + flips(cs@, a as int, i as int),
        decreases b - i,
    {
        let ch = cs[i];
        if ch.is_uppercase() {
            let o = to_lower(ch);
            push_slice(&mut out, &o, 0, o.len());
            proof {
                assert(o@.subrange(0, o@.len() as int) =~= flipped(ch));
            }
        } else if ch.is_lowercase() {
            let o = to_upper(ch);
            push_slice(&mut out, &o, 0, o.len());
            proof {
                assert(o@.subrange(0, o@.len() as int) =~= flipped(ch));
            }
        } else {
            out.push(ch);
        }
        proof {
            assert(out@ =~= cs@.take(a as int) + (flips(cs@, a as int, i as int) + flipped(ch)));
        }
        i = i + 1;
    }
    push_slice(&mut out, cs, b, cs.len());
    proof {
        assert(cs@.subrange(b as int, cs@.len() as int) =~= cs@.skip(b as int));
    }
    out
}

impl Buffer {
    /// Swaps the case of a part of the text. Rows that do not exist are left
    /// out. The cursor stays where it is.
    pub fn toggle_case_span(&mut self, span: Span)
        ensures
            final(self)@ == old(self)@.flip_span(span),
            final(self).lines.len() == old(self).lines.len(),
    {
        let ghost d = self@;
        let last = match span {
            Span::Range { to, .. } => to.row,
            Span::Lines { to_row, .. } => to_row,
            Span::Block { r1, .. } => r1,
        };
        let first = match span {
            Span::Range { from, .. } => from.row,
            Span::Lines { from_row, .. } => from_row,
            Span::Block { r0, .. } => r0,
        };
        let mut row: usize = 0;
        while row < self.lines.len()
            invariant
                row <= self.lines.len(),
                first == span.first_row(),
                last == span.last_row(),
                self@.text.len() == d.text.len(),
                self@ == (Doc { text: self@.text, ..d }),
                forall|r: int| 0 <= r < row ==> self@.text[r] == flip_row(d.text, span, r),
                forall|r: int| row <= r < d.text.len() ==> self@.text[r] == d.text[r],
            decreases self.lines.len() - row,
        {
            if first <= row && row <= last {
                let cs = self.line_chars(row);
                let (a, b) = span_cols(span, row, cs.len());
                if a < b {
                    let out = flip_chars(&cs, a, b);
                    self.set_line(row, &out);
                }
            }
            row = row + 1;
        }
        proof {
            assert(self@.text =~= Seq::new(d.text.len(), |r: int| flip_row(d.text, span, r)));
        }
        self.touch();
    }

    /// Swaps the case from one position up to another.
    pub fn toggle_case_range(&mut self, from: Cursor, to: Cursor)
        ensures
            final(self)@ == old(self)@.flip_span(Span::Range { from, to }),
            final(self).lines.len() == old(self).lines.len(),
    {
        self.toggle_case_span(Span::Range { from, to });
    }

    /// Swaps the case of whole rows.
    pub fn toggle_case_lines(&mut self, from_row: usize, to_row: usize)
        ensures
            final(self)@ == old(self)@.flip_span(Span::Lines { from_row, to_row }),
            final(self).lines.len() == old(self).lines.len(),
    {
        self.toggle_case_span(Span::Lines { from_row, to_row });
    }

    /// Swaps the case of a rectangle.
    pub fn toggle_case_block(&mut self, r0: usize, c0: usize, r1: usize, c1: usize)
        ensures
            final(self)@ == old(self)@.flip_span((Span::Block { r0, c0, r1, c1 })),
            final(self).lines.len() == old(self).lines.len(),
    {
        self.toggle_case_span(Span::Block { r0, c0, r1, c1 });
    }
}

} // verus!
