//! Edits on ranges, lines and column blocks, and the yank register.
use vstd::prelude::*;
use crate::editor::{in_text, least, most, Buffer, Cursor, Doc, IndentSettings};
use crate::text::{chars_of, join, join_lines, push_slice, slice_chars, string_of};

verus! {

/// The earlier of two positions.
pub open spec fn first_of(a: Cursor, b: Cursor) -> Cursor {
    if b.before(a) {
        b
    } else {
        a
    }
}

/// The later of two positions.
pub open spec fn second_of(a: Cursor, b: Cursor) -> Cursor {
    if b.before(a) {
        a
    } else {
        b
    }
}

/// Two positions in document order.
pub fn order(a: Cursor, b: Cursor) -> (r: (Cursor, Cursor))
    ensures
        r == (first_of(a, b), second_of(a, b)),
{
    if b.is_before(a) {
        (b, a)
    } else {
        (a, b)
    }
}

/// The part of a line up to a column.
pub open spec fn head(line: Seq<char>, col: int) -> Seq<char> {
    line.take(least(col, line.len() as int))
}

/// The part of a line from a column on.
pub open spec fn tail(line: Seq<char>, col: int) -> Seq<char> {
    line.skip(least(col, line.len() as int))
}

/// The text from one position up to a later one, lines separated by
/// newlines.
pub open spec fn between(text: Seq<Seq<char>>, r: int, c: int, tr: int, tc: int) -> Seq<char>
    decreases tr - r,
{
    if r >= tr {
        head(text[tr], tc).skip(least(c, head(text[tr], tc).len() as int))
    } else {
        tail(text[r], c).push('\n') + between(text, r + 1, 0, tr, tc)
    }
}

/// The lines that are left when the text from `a` up to `b` is cut out.
pub open spec fn cut_out(text: Seq<Seq<char>>, a: Cursor, b: Cursor) -> Seq<Seq<char>> {
    text.take(a.row as int).push(
        head(text[a.row as int], a.col as int) + tail(text[b.row as int], b.col as int),
    ) + text.skip(b.row + 1)
}

/// The columns `c0..=c1` of a line, as far as it has them.
pub open spec fn block_row(line: Seq<char>, c0: int, c1: int) -> Seq<char> {
    let hi = least(c1 + 1, line.len() as int);
    line.subrange(least(c0, hi), hi)
}

/// A line without its columns `c0..=c1`.
pub open spec fn without_cols(line: Seq<char>, c0: int, c1: int) -> Seq<char> {
    let hi = least(c1 + 1, line.len() as int);
    line.take(least(c0, hi)) + line.skip(hi)
}

/// The columns `c0..=c1` of the lines `r0..=r1`, one below the other.
pub open spec fn block_text(text: Seq<Seq<char>>, r0: int, c0: int, r1: int, c1: int) -> Seq<char>
    decreases r1 - r0,
{
    if r1 < r0 {
        Seq::empty()
    } else if r1 == r0 {
        block_row(text[r1], c0, c1)
    } else {
        block_text(text, r0, c0, r1 - 1, c1).push('\n') + block_row(text[r1], c0, c1)
    }
}

/// One level of indentation for a line: in the style the line has, else as
/// the settings say.
pub open spec fn indent_unit(line: Seq<char>, s: IndentSettings) -> Seq<char> {
    if (line.len() > 0 && line[0] == '\t') || (s.use_tabs && !(line.len() > 0 && line[0] == ' ')) {
        seq!['\t']
    } else {
        Seq::new(s.width as nat, |i: int| ' ')
    }
}

/// A line one level further in. An empty line stays empty.
pub open spec fn indented(line: Seq<char>, s: IndentSettings) -> Seq<char> {
    if line.len() == 0 {
        line
    } else {
        indent_unit(line, s) + line
    }
}

/// How many of the first `n` characters, from `i` on, are spaces in a row.
pub open spec fn leading_spaces(line: Seq<char>, i: int, n: int) -> int
    decreases n - i,
{
    if i < n && i < line.len() && line[i] == ' ' {
        leading_spaces(line, i + 1, n)
    } else {
        i
    }
}

/// A line one level further out: without its first tab, or without up to
/// `width` of its first spaces.
pub open spec fn dedented(line: Seq<char>, s: IndentSettings) -> Seq<char> {
    if line.len() > 0 && line[0] == '\t' {
        line.skip(1)
    } else {
        line.skip(leading_spaces(line, 0, s.width as int))
    }
}

impl Doc {
    pub open spec fn delete_line(self) -> Doc {
        let row = self.cursor.row as int;
        if self.text.len() == 1 {
            Doc { text: seq![Seq::empty()], yank: self.text[0], ..self }.clamped(false).touched()
        } else {
            Doc {
                text: self.text.remove(row),
                yank: self.text[row],
                ..self
            }.at(least(row, self.text.len() - 2), self.cursor.col as int).clamped(false).touched()
        }
    }

    pub open spec fn yank_line(self) -> Doc {
        Doc { yank: self.line(), ..self }
    }

    pub open spec fn paste_after(self) -> Doc {
        let row = self.cursor.row as int;
        if self.yank.len() == 0 {
            self
        } else {
            Doc { text: self.text.insert(row + 1, self.yank), ..self }.at(row + 1, 0).touched()
        }
    }

    pub open spec fn delete_range(self, a: Cursor, b: Cursor) -> Doc {
        let f = first_of(a, b);
        if a == b {
            self
        } else {
            Doc { text: cut_out(self.text, f, second_of(a, b)), cursor: f, ..self }.clamped(false).touched()
        }
    }

    pub open spec fn yank_range(self, a: Cursor, b: Cursor) -> Doc {
        let f = first_of(a, b);
        let t = second_of(a, b);
        Doc {
            yank: between(self.text, f.row as int, f.col as int, t.row as int, t.col as int),
            ..self
        }
    }

    /// The last row of a range of whole lines.
    pub open spec fn row_cap(self, r: int) -> int {
        least(r, self.text.len() - 1)
    }

    pub open spec fn yank_lines(self, a: int, b: int) -> Doc {
        Doc { yank: join(self.text, least(a, b), self.row_cap(most(a, b)) + 1), ..self }
    }

    pub open spec fn delete_lines(self, a: int, b: int) -> Doc {
        let lo = least(a, b);
        let hi = self.row_cap(most(a, b));
        let d = self.yank_lines(a, b);
        if lo == 0 && hi + 1 >= self.text.len() {
            Doc { text: seq![Seq::empty()], ..d }.at(0, 0).touched()
        } else {
            let text = self.text.take(lo) + self.text.skip(hi + 1);
            Doc { text, ..d }.at(least(lo, text.len() - 1), 0).touched()
        }
    }

    pub open spec fn yank_block(self, r0: int, c0: int, r1: int, c1: int) -> Doc {
        Doc {
            yank: block_text(
                self.text,
                least(r0, r1),
                least(c0, c1),
                self.row_cap(most(r0, r1)),
                most(c0, c1),
            ),
            ..self
        }
    }

    /// The text without a column block.
    pub open spec fn without_block(self, r0: int, c0: int, r1: int, c1: int) -> Seq<Seq<char>> {
        Seq::new(
            self.text.len(),
            |r: int|
                if r0 <= r <= r1 {
                    without_cols(self.text[r], c0, c1)
                } else {
                    self.text[r]
                },
        )
    }

    pub open spec fn delete_block(self, r0: int, c0: int, r1: int, c1: int) -> Doc {
        let lo = least(r0, r1);
        let left = least(c0, c1);
        Doc {
            text: self.without_block(lo, left, self.row_cap(most(r0, r1)), most(c0, c1)),
            ..self.yank_block(r0, c0, r1, c1)
        }.at(lo, left).clamped(false).touched()
    }

    pub open spec fn indent_line(self, row: int, s: IndentSettings) -> Doc {
        Doc { text: self.text.update(row, indented(self.text[row], s)), ..self }.touched()
    }

    pub open spec fn dedent_line(self, row: int, s: IndentSettings) -> Doc {
        Doc { text: self.text.update(row, dedented(self.text[row], s)), ..self }.touched()
    }
}

impl Buffer {
    /// Deletes the current line into the yank register. The last line that
    /// is left is emptied instead.
    pub fn delete_line(&mut self)
        requires
            old(self).cursor.row < old(self).lines.len(),
        ensures
            old(self)@.wf() ==> final(self)@.wf(),
            final(self)@ == old(self)@.delete_line(),
    {
        let ghost d = self@;
        let row = self.cursor.row;
        if self.lines.len() == 1 {
            self.yank = self.lines[0].clone();
            let empty: Vec<char> = Vec::new();
            self.set_line(0, &empty);
            proof {
                assert(self@.text =~= seq![Seq::<char>::empty()]);
            }
        } else {
            let line = self.take_line(row);
            self.yank = string_of(&line);
            if self.cursor.row >= self.lines.len() {
                self.cursor.row = self.lines.len() - 1;
            }
        }
        self.clamp_col(false);
        self.touch();
    }

    /// Copies the current line into the yank register.
    pub fn yank_line(&mut self)
        requires
            old(self).cursor.row < old(self).lines.len(),
        ensures
            old(self)@.wf() ==> final(self)@.wf(),
            final(self)@ == old(self)@.yank_line(),
    {
        self.yank = self.lines[self.cursor.row].clone();
    }

    /// Inserts the yank register as a line below the cursor.
    pub fn paste_after(&mut self)
        requires
            old(self).cursor.row < old(self).lines.len(),
        ensures
            old(self)@.wf() ==> final(self)@.wf(),
            final(self)@ == old(self)@.paste_after(),
    {
        let cs = chars_of(self.yank.as_str());
        if cs.len() == 0 {
            return;
        }
        let row = self.cursor.row;
        self.insert_line(row + 1, &cs);
        self.cursor.row = row + 1;
        self.cursor.col = 0;
        self.touch();
    }

    /// Deletes the text from one position up to the other; their order does
    /// not matter. The cursor lands on the earlier one.
    pub fn delete_range(&mut self, from: Cursor, to: Cursor)
        requires
            from.row < old(self).lines.len(),
            to.row < old(self).lines.len(),
        ensures
            old(self)@.wf() ==> final(self)@.wf(),
            final(self)@ == old(self)@.delete_range(from, to),
    {
        let ghost d = self@;
        if from == to {
            return;
        }
        let (f, t) = order(from, to);
        let first = self.line_chars(f.row);
        let last = self.line_chars(t.row);
        let fc = if f.col < first.len() { f.col } else { first.len() };
        let tc = if t.col < last.len() { t.col } else { last.len() };
        let mut joined = slice_chars(&first, 0, fc);
        push_slice(&mut joined, &last, tc, last.len());
        proof {
            assert(joined@ =~= head(d.text[f.row as int], f.col as int) + tail(d.text[t.row as int], t.col as int));
        }
        self.set_line(f.row, &joined);
        self.drain_rows(f.row + 1, t.row + 1);
        self.cursor = f;
        proof {
            assert(self@.text =~= cut_out(d.text, f, t));
        }
        self.clamp_col(false);
        self.touch();
    }

    /// Removes the lines `a..b`.
    fn drain_rows(&mut self, a: usize, b: usize)
        requires
            a <= b <= old(self).lines.len(),
        ensures
            final(self)@ == (Doc {
                text: old(self)@.text.take(a as int) + old(self)@.text.skip(b as int),
                ..old(self)@
            }),
            final(self).lines.len() == old(self).lines.len() - (b - a),
    {
        let mut k: usize = b;
        proof {
            assert(self@.text =~= old(self)@.text.take(b as int) + old(self)@.text.skip(b as int));
        }
        while k > a
            invariant
                a <= k <= b <= old(self).lines.len(),
                self.lines.len() == old(self).lines.len() - (b - k),
                self@ == (Doc {
                    text: old(self)@.text.take(k as int) + old(self)@.text.skip(b as int),
                    ..old(self)@
                }),
            decreases k,
        {
            let gone = self.take_line(k - 1);
            k = k - 1;
            proof {
                assert(self@.text =~= old(self)@.text.take(k as int) + old(self)@.text.skip(b as int));
            }
        }
    }

    /// Copies the text between two positions into the yank register.
    pub fn yank_range(&mut self, from: Cursor, to: Cursor)
        requires
            from.row < old(self).lines.len(),
            to.row < old(self).lines.len(),
        ensures
            old(self)@.wf() ==> final(self)@.wf(),
            final(self)@ == old(self)@.yank_range(from, to),
    {
        let ghost d = self@;
        let (f, t) = order(from, to);
        let mut out: Vec<char> = Vec::new();
        let mut r: usize = f.row;
        let mut c: usize = f.col;
        while r < t.row
            invariant
                *self == *old(self),
                self@ == d,
                f.row <= r <= t.row < self.lines.len(),
                out@ + between(d.text, r as int, c as int, t.row as int, t.col as int) == between(
                    d.text,
                    f.row as int,
                    f.col as int,
                    t.row as int,
                    t.col as int,
                ),
            decreases t.row - r,
        {
            let cs = self.line_chars(r);
            let from_col = if c < cs.len() { c } else { cs.len() };
            let ghost before = out@;
            push_slice(&mut out, &cs, from_col, cs.len());
            out.push('\n');
            proof {
                assert(out@ =~= before + tail(d.text[r as int], c as int).push('\n'));
                assert(out@ + between(d.text, r + 1, 0, t.row as int, t.col as int) =~= before + between(
                    d.text,
                    r as int,
                    c as int,
                    t.row as int,
                    t.col as int,
                ));
            }
            r = r + 1;
            c = 0;
        }
        let cs = self.line_chars(r);
        let hi = if t.col < cs.len() { t.col } else { cs.len() };
        let lo = if c < hi { c } else { hi };
        let ghost before = out@;
        push_slice(&mut out, &cs, lo, hi);
        proof {
            assert(cs@.subrange(lo as int, hi as int) =~= between(
                d.text,
                r as int,
                c as int,
                t.row as int,
                t.col as int,
            ));
        }
        self.yank = string_of(&out);
    }

    /// Copies whole lines, both ends included, into the yank register.
    pub fn yank_lines(&mut self, from_row: usize, to_row: usize)
        requires
            from_row < old(self).lines.len() || to_row < old(self).lines.len(),
        ensures
            old(self)@.wf() ==> final(self)@.wf(),
            final(self)@ == old(self)@.yank_lines(from_row as int, to_row as int),
    {
        let (a, b) = if from_row <= to_row { (from_row, to_row) } else { (to_row, from_row) };
        let last = self.lines.len() - 1;
        let b = if b < last { b } else { last };
        self.yank = join_lines(&self.lines, a, b + 1);
    }

    /// Deletes whole lines, both ends included, into the yank register.
    pub fn delete_lines(&mut self, from_row: usize, to_row: usize)
        requires
            from_row < old(self).lines.len() || to_row < old(self).lines.len(),
        ensures
            old(self)@.wf() ==> final(self)@.wf(),
            final(self)@ == old(self)@.delete_lines(from_row as int, to_row as int),
    {
        let ghost d = self@;
        self.yank_lines(from_row, to_row);
        let (a, b) = if from_row <= to_row { (from_row, to_row) } else { (to_row, from_row) };
        let last = self.lines.len() - 1;
        let b = if b < last { b } else { last };
        if a == 0 && b + 1 >= self.lines.len() {
            self.drain_rows(1, self.lines.len());
            let empty: Vec<char> = Vec::new();
            self.set_line(0, &empty);
            self.cursor.row = 0;
            proof {
                assert(self@.text =~= seq![Seq::<char>::empty()]);
            }
        } else {
            self.drain_rows(a, b + 1);
            let end = self.lines.len() - 1;
            self.cursor.row = if a < end { a } else { end };
        }
        self.cursor.col = 0;
        self.touch();
    }

    /// Copies a column block into the yank register, its rows separated by
    /// newlines. A shorter line contributes what it has.
    pub fn yank_block(&mut self, r0: usize, c0: usize, r1: usize, c1: usize)
        requires
            old(self).lines.len() >= 1,
        ensures
            old(self)@.wf() ==> final(self)@.wf(),
            final(self)@ == old(self)@.yank_block(r0 as int, c0 as int, r1 as int, c1 as int),
    {
        let ghost d = self@;
        let (a, b) = if r0 <= r1 { (r0, r1) } else { (r1, r0) };
        let (left, right) = if c0 <= c1 { (c0, c1) } else { (c1, c0) };
        let last = self.lines.len() - 1;
        let b = if b < last { b } else { last };
        let mut out: Vec<char> = Vec::new();
        let mut r: usize = a;
        while r < b + 1
            invariant
                *self == *old(self),
                self@ == d,
                a <= r,
                b < self.lines.len(),
                r == a || r <= b + 1,
                left <= right,
                out@ == block_text(d.text, a as int, left as int, r - 1, right as int),
            decreases b + 1 - r,
        {
            if r > a {
                out.push('\n');
            }
            let cs = self.line_chars(r);
            let hi = if right < cs.len() { right + 1 } else { cs.len() };
            let lo = if left < hi { left } else { hi };
            push_slice(&mut out, &cs, lo, hi);
            proof {
                assert(cs@.subrange(lo as int, hi as int) =~= block_row(d.text[r as int], left as int, right as int));
                assert(out@ =~= block_text(d.text, a as int, left as int, r as int, right as int));
            }
            r = r + 1;
        }
        proof {
            assert(r == a || r == b + 1);
            if r == a && a > b {
                assert(block_text(d.text, a as int, left as int, b as int, right as int) =~= Seq::<char>::empty());
            }
        }
        self.yank = string_of(&out);
    }

    /// Deletes a column block into the yank register.
    pub fn delete_block(&mut self, r0: usize, c0: usize, r1: usize, c1: usize)
        requires
            r0 < old(self).lines.len() || r1 < old(self).lines.len(),
        ensures
            old(self)@.wf() ==> final(self)@.wf(),
            final(self)@ == old(self)@.delete_block(r0 as int, c0 as int, r1 as int, c1 as int),
    {
        let ghost d = self@;
        let (a, b) = if r0 <= r1 { (r0, r1) } else { (r1, r0) };
        let (left, right) = if c0 <= c1 { (c0, c1) } else { (c1, c0) };
        let last = self.lines.len() - 1;
        let b = if b < last { b } else { last };
        self.yank_block(r0, c0, r1, c1);
        let ghost e = self@;
        let mut r: usize = a;
        proof {
            assert(e.text =~= e.without_block(a as int, left as int, a - 1, right as int));
        }
        while r <= b
            invariant
                a <= r <= b + 1,
                b < self.lines.len(),
                left <= right,
                self.lines.len() == e.text.len(),
                self@ == (Doc { text: e.without_block(a as int, left as int, r - 1, right as int), ..e }),
            decreases b + 1 - r,
        {
            let cs = self.line_chars(r);
            let hi = if right < cs.len() { right + 1 } else { cs.len() };
            let lo = if left < hi { left } else { hi };
            let mut out = slice_chars(&cs, 0, lo);
            push_slice(&mut out, &cs, hi, cs.len());
            self.set_line(r, &out);
            proof {
                assert(out@ =~= without_cols(e.text[r as int], left as int, right as int));
                assert(self@.text =~= e.without_block(a as int, left as int, r as int, right as int));
            }
            r = r + 1;
        }
        self.cursor.row = a;
        self.cursor.col = left;
        self.clamp_col(false);
        self.touch();
    }

    /// Moves a line one level in.
    pub fn indent_line(&mut self, row: usize, s: IndentSettings)
        requires
            row < old(self).lines.len(),
        ensures
            old(self)@.wf() ==> final(self)@.wf(),
            final(self)@ == old(self)@.indent_line(row as int, s),
    {
        let ghost d = self@;
        let cs = self.line_chars(row);
        let mut out: Vec<char> = Vec::new();
        if cs.len() > 0 {
            if cs[0] == '\t' || (s.use_tabs && cs[0] != ' ') {
                out.push('\t');
                proof {
                    assert(out@ =~= indent_unit(cs@, s));
                }
            } else {
                let mut i: usize = 0;
                while i < s.width
                    invariant
                        i <= s.width,
                        out@ == Seq::new(i as nat, |k: int| ' '),
                    decreases s.width - i,
                {
                    out.push(' ');
                    i = i + 1;
                    proof {
                        assert(out@ =~= Seq::new(i as nat, |k: int| ' '));
                    }
                }
                proof {
                    assert(out@ =~= indent_unit(cs@, s));
                }
            }
        }
        push_slice(&mut out, &cs, 0, cs.len());
        proof {
            assert(cs@.subrange(0, cs@.len() as int) =~= cs@);
            assert(out@ =~= indented(cs@, s));
        }
        self.set_line(row, &out);
        self.touch();
    }

    /// Moves a line one level out.
    pub fn dedent_line(&mut self, row: usize, s: IndentSettings)
        requires
            row < old(self).lines.len(),
        ensures
            final(self)@ == old(self)@.dedent_line(row as int, s),
    {
        let cs = self.line_chars(row);
        let mut k: usize = 0;
        if cs.len() > 0 && cs[0] == '\t' {
            k = 1;
        } else {
            while k < s.width && k < cs.len() && cs[k] == ' '
                invariant
                    k <= cs.len(),
                    leading_spaces(cs@, 0, s.width as int) == leading_spaces(cs@, k as int, s.width as int),
                decreases cs.len() - k,
            {
                k = k + 1;
            }
        }
        let out = slice_chars(&cs, k, cs.len());
        proof {
            assert(out@ =~= dedented(cs@, s));
        }
        self.set_line(row, &out);
        self.touch();
    }
}

/// Deleting and copying a range do not depend on the order of its ends.
pub proof fn law_range_order(d: Doc, a: Cursor, b: Cursor)
    ensures
        d.delete_range(a, b) == d.delete_range(b, a),
        d.yank_range(a, b) == d.yank_range(b, a),
{
    if !a.before(b) && !b.before(a) {
        assert(a == b);
    }
}

/// The text up to a position only depends on the lines up to it.
pub proof fn lemma_between_prefix(t: Seq<Seq<char>>, u: Seq<Seq<char>>, r: int, c: int, tr: int, tc: int)
    requires
        0 <= r <= tr < t.len(),
        tr < u.len(),
        0 <= c,
        0 <= tc <= t[tr].len(),
        tc <= u[tr].len(),
        u[tr].take(tc) == t[tr].take(tc),
        forall|k: int| r <= k < tr ==> u[k] == t[k],
    ensures
        between(t, r, c, tr, tc) == between(u, r, c, tr, tc),
    decreases tr - r,
{
    if r < tr {
        lemma_between_prefix(t, u, r + 1, 0, tr, tc);
    }
}

/// The text from a position on only depends on the rest of its line and the
/// lines after it.
pub proof fn lemma_between_suffix(
    t: Seq<Seq<char>>,
    u: Seq<Seq<char>>,
    r: int,
    c: int,
    r2: int,
    c2: int,
    n: int,
)
    requires
        0 <= r < t.len(),
        0 <= r2 < u.len(),
        0 <= c <= t[r].len(),
        0 <= c2 <= u[r2].len(),
        t[r].skip(c) == u[r2].skip(c2),
        n == t.len() - 1 - r,
        n == u.len() - 1 - r2,
        forall|k: int| 0 < k <= n ==> t[r + k] == #[trigger] u[r2 + k],
    ensures
        between(t, r, c, t.len() - 1, t.last().len() as int) == between(
            u,
            r2,
            c2,
            u.len() - 1,
            u.last().len() as int,
        ),
    decreases n,
{
    if n == 0 {
        assert(between(t, r, c, r, t[r].len() as int) =~= t[r].skip(c));
        assert(between(u, r2, c2, r2, u[r2].len() as int) =~= u[r2].skip(c2));
    } else {
        assert(t[r + 1] == u[r2 + 1]);
        assert forall|k: int| 0 < k <= n - 1 implies t[r + 1 + k] == #[trigger] u[r2 + 1 + k] by {
            assert(t[r + (k + 1)] == u[r2 + (k + 1)]);
        }
        assert(t[r + 1].skip(0) == u[r2 + 1].skip(0));
        lemma_between_suffix(t, u, r + 1, 0, r2 + 1, 0, n - 1);
    }
}

/// A join starts with its first line.
proof fn lemma_join_front(text: Seq<Seq<char>>, a: int, b: int)
    requires
        0 <= a,
        a + 1 < b <= text.len(),
    ensures
        join(text, a, b) == text[a].push('\n') + join(text, a + 1, b),
    decreases b - a,
{
    if b == a + 2 {
        assert(join(text, a, a + 1) == text[a]);
        assert(join(text, a + 1, b) == text[a + 1]);
        assert(join(text, a, b) =~= text[a].push('\n') + join(text, a + 1, b));
    } else {
        lemma_join_front(text, a, b - 1);
        assert(join(text, a, b) =~= text[a].push('\n') + join(text, a + 1, b));
    }
}

/// From the start of a line to the end of the text.
proof fn lemma_between_to_end(text: Seq<Seq<char>>, r: int)
    requires
        0 <= r < text.len(),
    ensures
        between(text, r, 0, text.len() - 1, text.last().len() as int) == join(text, r, text.len() as int),
    decreases text.len() - r,
{
    let n = text.len() as int;
    if r == n - 1 {
        assert(between(text, r, 0, n - 1, text.last().len() as int) =~= text[r]);
    } else {
        lemma_between_to_end(text, r + 1);
        lemma_join_front(text, r, n);
        assert(tail(text[r], 0) =~= text[r]);
    }
}

/// From the first position to the last one lies what a file for the text
/// holds.
pub proof fn law_whole_text(text: Seq<Seq<char>>)
    requires
        text.len() >= 1,
    ensures
        between(text, 0, 0, text.len() - 1, text.last().len() as int) == join(text, 0, text.len() as int),
{
    lemma_between_to_end(text, 0);
}

/// A deletion removes exactly the text that copying the same range yields:
/// the whole text is some front, the copied text and some rest; after the
/// deletion it is that front and that rest.
pub proof fn law_delete_is_what_yank_copies(d: Doc, a: Cursor, b: Cursor)
    requires
        in_text(d.text, a),
        in_text(d.text, b),
        a != b,
    ensures
        ({
            let f = first_of(a, b);
            let t = second_of(a, b);
            let end = (d.text.len() - 1, d.text.last().len() as int);
            let front = between(d.text, 0, 0, f.row as int, f.col as int);
            let rest = between(d.text, t.row as int, t.col as int, end.0, end.1);
            let after = d.delete_range(a, b).text;
            &&& between(d.text, 0, 0, end.0, end.1) == front + d.yank_range(a, b).yank + rest
            &&& between(after, 0, 0, after.len() - 1, after.last().len() as int) == front + rest
        }),
{
    let f = first_of(a, b);
    let t = second_of(a, b);
    let n = d.text.len() - 1;
    let row = f.row as int;
    let endc = d.text.last().len() as int;
    let front = between(d.text, 0, 0, f.row as int, f.col as int);
    let mid = between(d.text, f.row as int, f.col as int, t.row as int, t.col as int);
    let rest = between(d.text, t.row as int, t.col as int, n, endc);
    let after = cut_out(d.text, f, t);
    assert(d.delete_range(a, b).text == after);
    lemma_between_from(d.text, 0, 0, row, f.col as int);
    lemma_between_from(d.text, row, f.col as int, t.row as int, t.col as int);
    assert(front + mid + rest =~= front + (mid + rest));
    let joined = d.text[row].take(f.col as int) + d.text[t.row as int].skip(t.col as int);
    assert(after[row] == joined);
    assert(joined.take(f.col as int) =~= d.text[row].take(f.col as int));
    assert(joined.skip(f.col as int) =~= d.text[t.row as int].skip(t.col as int));
    assert forall|k: int| 0 <= k < row implies after[k] == d.text[k] by {}
    lemma_between_prefix(d.text, after, 0, 0, row, f.col as int);
    assert forall|k: int| 0 < k <= d.text.len() - 1 - t.row implies d.text[t.row + k] == #[trigger] after[row + k] by {
        assert(after[row + k] == d.text.skip(t.row + 1)[k - 1]);
    }
    lemma_between_suffix(d.text, after, t.row as int, t.col as int, row, f.col as int, d.text.len() - 1 - t.row);
    lemma_between_from(after, 0, 0, row, f.col as int);
}

/// The text from one position on, cut at a later one.
pub proof fn lemma_between_from(text: Seq<Seq<char>>, r: int, c: int, row: int, col: int)
    requires
        0 <= r <= row < text.len(),
        0 <= c <= text[r].len(),
        0 <= col <= text[row].len(),
        r == row ==> c <= col,
    ensures
        between(text, r, c, text.len() - 1, text.last().len() as int) == between(text, r, c, row, col) + between(
            text,
            row,
            col,
            text.len() - 1,
            text.last().len() as int,
        ),
    decreases row - r,
{
    let n = text.len() - 1;
    let e = text.last().len() as int;
    if r < row {
        lemma_between_from(text, r + 1, 0, row, col);
        assert(between(text, r, c, n, e) =~= between(text, r, c, row, col) + between(text, row, col, n, e));
    } else {
        assert(between(text, r, c, n, e) =~= between(text, r, c, row, col) + between(text, row, col, n, e));
    }
}

proof fn lemma_leading_spaces(line: Seq<char>, i: int, n: int)
    requires
        0 <= i <= n <= line.len(),
        forall|k: int| i <= k < n ==> line[k] == ' ',
    ensures
        leading_spaces(line, i, n) == n,
    decreases n - i,
{
    if i < n {
        lemma_leading_spaces(line, i + 1, n);
    }
}

/// A line that is put one level further in and back out is what it was.
pub proof fn law_dedent_undoes_indent(line: Seq<char>, s: IndentSettings)
    ensures
        dedented(indented(line, s), s) == line,
{
    let new = indented(line, s);
    let unit = indent_unit(line, s);
    if line.len() == 0 {
        assert(dedented(line, s) =~= line);
    } else if unit == seq!['\t'] {
        assert(new.skip(1) =~= line);
    } else {
        lemma_leading_spaces(new, 0, s.width as int);
        assert(new.skip(s.width as int) =~= line);
    }
}

} // verus!
