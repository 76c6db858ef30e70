//! Applying edits to lines of text.
use vstd::prelude::*;
use crate::editor::{in_text, least, Cursor};
use crate::lsp::{edits_of, Position, TextEdit};
use crate::text::{chars_of, push_slice, slice_chars, split, split_lines, string_of, text_of};

verus! {

/// The position in the text that is meant: columns past the end of a line
/// stand for its end, lines past the last one for the end of the text.
pub open spec fn spot(text: Seq<Seq<char>>, p: Position) -> Cursor {
    if p.line >= text.len() {
        Cursor { row: (text.len() - 1) as usize, col: text.last().len() as usize }
    } else {
        Cursor { row: p.line as usize, col: least(p.character as int, text[p.line as int].len() as int) as usize }
    }
}

/// The lines that stand for the range from `a` to `b` once `new` is put in
/// its place.
pub open spec fn seam(text: Seq<Seq<char>>, a: Cursor, b: Cursor, new: Seq<Seq<char>>) -> Seq<Seq<char>> {
    let head = text[a.row as int].take(a.col as int);
    let tail = text[b.row as int].skip(b.col as int);
    if new.len() == 1 {
        seq![head + new[0] + tail]
    } else {
        seq![head + new[0]] + new.subrange(1, new.len() - 1) + seq![new.last() + tail]
    }
}

/// The text with one edit applied. A range that ends before it starts is
/// taken as empty.
pub open spec fn edited(text: Seq<Seq<char>>, e: TextEdit<Seq<char>>) -> Seq<Seq<char>> {
    let a = spot(text, e.range.start);
    let z = spot(text, e.range.end);
    let b = if z.before(a) {
        a
    } else {
        z
    };
    text.take(a.row as int) + seam(text, a, b, split(e.new_text)) + text.skip(b.row + 1)
}

/// Whether one position comes before another.
pub open spec fn starts_before(a: Position, b: Position) -> bool {
    a.line < b.line || (a.line == b.line && a.character < b.character)
}

/// Puts an edit behind all those that do not start after it.
pub open spec fn place(s: Seq<TextEdit<Seq<char>>>, x: TextEdit<Seq<char>>) -> Seq<TextEdit<Seq<char>>>
    decreases s.len(),
{
    if s.len() == 0 || !starts_before(x.range.start, s.last().range.start) {
        s.push(x)
    } else {
        place(s.drop_last(), x).push(s.last())
    }
}

/// The first `k` edits by where they start; those that start at one place
/// stay in order.
pub open spec fn in_order(s: Seq<TextEdit<Seq<char>>>, k: int) -> Seq<TextEdit<Seq<char>>>
    decreases k,
{
    if k <= 0 {
        Seq::empty()
    } else {
        place(in_order(s, k - 1), s[k - 1])
    }
}

/// The text with edits applied, the last one first.
pub open spec fn edited_back(text: Seq<Seq<char>>, s: Seq<TextEdit<Seq<char>>>) -> Seq<Seq<char>>
    decreases s.len(),
{
    if s.len() == 0 {
        text
    } else {
        edited_back(edited(text, s.last()), s.drop_last())
    }
}

/// The text with all edits applied: from the end of the text backwards, so
/// that no edit moves what an earlier one speaks of.
pub open spec fn edited_all(text: Seq<Seq<char>>, s: Seq<TextEdit<Seq<char>>>) -> Seq<Seq<char>> {
    edited_back(text, in_order(s, s.len() as int))
}

fn find_spot(lines: &Vec<String>, p: Position) -> (r: Cursor)
    requires
        lines.len() >= 1,
    ensures
        r == spot(text_of(lines@), p),
        in_text(text_of(lines@), r),
{
    if p.line as usize >= lines.len() {
        let last = lines.len() - 1;
        let n = chars_of(lines[last].as_str()).len();
        Cursor { row: last, col: n }
    } else {
        let row = p.line as usize;
        let n = chars_of(lines[row].as_str()).len();
        Cursor { row, col: if (p.character as usize) < n { p.character as usize } else { n } }
    }
}

/// Puts a text in place of a range of lines.
fn apply_edit(lines: &mut Vec<String>, e: &TextEdit)
    requires
        old(lines).len() >= 1,
    ensures
        text_of(final(lines)@) == edited(text_of(old(lines)@), e@),
        final(lines).len() >= 1,
{
    let ghost text = text_of(lines@);
    let a = find_spot(lines, e.range.start);
    let z = find_spot(lines, e.range.end);
    let b = if z.is_before(a) { a } else { z };
    let first = chars_of(lines[a.row].as_str());
    let last = chars_of(lines[b.row].as_str());
    let new = split_lines(e.new_text.as_str());
    let n = new.len();
    let ghost parts = split(e@.new_text);
    let ghost tail = text[b.row as int].skip(b.col as int);
    proof {
        assert(text_of(new@) == parts);
        assert(parts.len() == n);
        assert forall|i: int| 0 <= i < n implies new@[i]@ == parts[i] by {
            assert(text_of(new@)[i] == new@[i]@);
        }
        assert(text[a.row as int] == first@);
        assert(text[b.row as int] == last@);
    }
    let mut out: Vec<String> = Vec::new();
    let mut i: usize = 0;
    while i < a.row
        invariant
            i <= a.row < lines.len(),
            text == text_of(lines@),
            text_of(out@) == text.take(i as int),
        decreases a.row - i,
    {
        let ghost before = out@;
        out.push(lines[i].clone());
        proof {
            assert(text_of(out@) =~= text_of(before).push(text[i as int]));
            assert(text.take(i + 1) =~= text.take(i as int).push(text[i as int]));
        }
        i = i + 1;
    }
    let ghost top = text.take(a.row as int);
    let mut line = slice_chars(&first, 0, a.col);
    let new0 = chars_of(new[0].as_str());
    push_slice(&mut line, &new0, 0, new0.len());
    proof {
        assert(line@ =~= text[a.row as int].take(a.col as int) + parts[0]);
    }
    let ghost opened = line@;
    let mut k: usize = 1;
    while k < n
        invariant
            1 <= k <= n,
            n == new.len(),
            parts.len() == n,
            forall|j: int| 0 <= j < n ==> new@[j]@ == parts[j],
            k == 1 ==> text_of(out@) == top && line@ == opened,
            k > 1 ==> text_of(out@) == top + seq![opened] + parts.subrange(1, k - 1) && line@ == parts[k - 1],
        decreases n - k,
    {
        let ghost before = out@;
        let s = string_of(&line);
        out.push(s);
        proof {
            assert(text_of(out@) =~= text_of(before).push(line@));
            if k == 1 {
                assert(text_of(out@) =~= top + seq![opened] + parts.subrange(1, 1));
            } else {
                assert(text_of(out@) =~= top + seq![opened] + parts.subrange(1, k as int));
            }
        }
        line = chars_of(new[k].as_str());
        k = k + 1;
    }
    let ghost unsewn = line@;
    push_slice(&mut line, &last, b.col, last.len());
    let s = string_of(&line);
    let ghost before = out@;
    out.push(s);
    proof {
        assert(last@.subrange(b.col as int, last@.len() as int) =~= tail);
        assert(line@ =~= unsewn + tail);
        assert(text_of(out@) =~= text_of(before).push(line@));
        if n == 1 {
            assert(text_of(out@) =~= top + seam(text, a, b, parts));
        } else {
            assert(text_of(out@) =~= top + seam(text, a, b, parts));
        }
    }
    let ghost sewn = top + seam(text, a, b, parts);
    let mut j: usize = b.row + 1;
    proof {
        assert(text_of(out@) =~= sewn + text.subrange(b.row + 1, j as int));
    }
    while j < lines.len()
        invariant
            b.row < j <= lines.len(),
            text == text_of(lines@),
            out.len() >= 1,
            text_of(out@) == sewn + text.subrange(b.row + 1, j as int),
        decreases lines.len() - j,
    {
        let ghost before = out@;
        out.push(lines[j].clone());
        proof {
            assert(text_of(out@) =~= text_of(before).push(text[j as int]));
            assert(text_of(out@) =~= sewn + text.subrange(b.row + 1, j + 1));
        }
        j = j + 1;
    }
    proof {
        assert(text.subrange(b.row + 1, text.len() as int) =~= text.skip(b.row + 1));
        assert(sewn + text.skip(b.row + 1) =~= edited(text, e@));
    }
    *lines = out;
}

/// The edits by where they start.
fn sort_edits(edits: Vec<TextEdit>) -> (r: Vec<TextEdit>)
    ensures
        edits_of(r@) == in_order(edits_of(edits@), edits@.len() as int),
{
    let mut out: Vec<TextEdit> = Vec::new();
    let ghost all = edits_of(edits@);
    let mut i: usize = 0;
    proof {
        assert(edits_of(out@) =~= in_order(all, 0));
    }
    while i < edits.len()
        invariant
            i <= edits.len(),
            all == edits_of(edits@),
            edits_of(out@) == in_order(all, i as int),
        decreases edits.len() - i,
    {
        let x = edits[i].copy();
        proof {
            assert(all[i as int] == x@);
        }
        insert_edit(&mut out, x);
        i = i + 1;
    }
    out
}

fn insert_edit(out: &mut Vec<TextEdit>, x: TextEdit)
    ensures
        edits_of(final(out)@) == place(edits_of(old(out)@), x@),
{
    let ghost s = edits_of(out@);
    let ghost v = x@;
    let mut k: usize = out.len();
    proof {
        assert(s.take(k as int) =~= s);
        assert(place(s, v) =~= place(s.take(k as int), v) + s.skip(k as int));
    }
    while k > 0
        invariant
            k <= out.len(),
            s == edits_of(out@),
            v == x@,
            place(s, v) == place(s.take(k as int), v) + s.skip(k as int),
        ensures
            k <= out.len(),
            s == edits_of(out@),
            place(s, v) == s.take(k as int).push(v) + s.skip(k as int),
        decreases k,
    {
        let before = {
            let p = x.range.start;
            let q = out[k - 1].range.start;
            p.line < q.line || (p.line == q.line && p.character < q.character)
        };
        proof {
            assert(s.take(k as int).last() == s[k - 1]);
            assert(s[k - 1] == out@[k - 1]@);
            assert(s.take(k as int).drop_last() =~= s.take(k - 1));
        }
        if !before {
            break;
        }
        proof {
            assert(place(s, v) =~= place(s.take(k - 1), v) + s.skip(k - 1));
        }
        k = k - 1;
    }
    let ghost old_v = out@;
    out.insert(k, x);
    proof {
        assert(edits_of(out@) =~= s.take(k as int).push(v) + s.skip(k as int));
    }
}

/// Applies edits to lines of text, all as the text stands before the first.
pub fn apply_text_edits(lines: &mut Vec<String>, edits: Vec<TextEdit>)
    requires
        old(lines).len() >= 1,
    ensures
        text_of(final(lines)@) == edited_all(text_of(old(lines)@), edits_of(edits@)),
        final(lines).len() >= 1,
{
    let ghost text = text_of(lines@);
    let ordered = sort_edits(edits);
    let ghost s = edits_of(ordered@);
    let mut k: usize = ordered.len();
    proof {
        assert(s.take(k as int) =~= s);
    }
    while k > 0
        invariant
            k <= ordered.len(),
            s == edits_of(ordered@),
            lines.len() >= 1,
            edited_back(text_of(lines@), s.take(k as int)) == edited_back(text, s),
        decreases k,
    {
        proof {
            assert(s.take(k as int).last() == ordered@[k - 1]@);
            assert(s.take(k as int).drop_last() =~= s.take(k - 1));
        }
        apply_edit(lines, &ordered[k - 1]);
        k = k - 1;
    }
    proof {
        assert(s.take(0) =~= Seq::<TextEdit<Seq<char>>>::empty());
    }
}

/// An edit that puts nothing in place of nothing leaves the text as it is.
pub proof fn law_empty_edit(text: Seq<Seq<char>>, p: Position)
    requires
        text.len() >= 1,
        text.len() <= usize::MAX,
        forall|r: int| 0 <= r < text.len() ==> (#[trigger] text[r]).len() <= usize::MAX,
    ensures
        edited(
            text,
            (TextEdit { range: (crate::lsp::Range { start: p, end: p }), new_text: Seq::empty() }),
        ) == text,
{
    let a = spot(text, p);
    let e: Seq<char> = Seq::empty();
    assert(split(e) =~= seq![e]);
    let row = text[a.row as int];
    assert(a.col <= row.len());
    assert(row.take(a.col as int) + e + row.skip(a.col as int) =~= row);
    assert(seam(text, a, a, split(e)) =~= seq![row]);
    assert(text.take(a.row as int) + seq![row] + text.skip(a.row + 1) =~= text);
}

} // verus!
