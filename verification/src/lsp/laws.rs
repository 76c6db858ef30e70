//! What edits of a text are for.
use vstd::prelude::*;
use crate::editor::laws::{cut_lines, lemma_between_is_join};
use crate::editor::ops::{between, law_whole_text, lemma_between_from, lemma_between_prefix, lemma_between_suffix};
use crate::editor::{in_text, Cursor};
use crate::lsp::edits::{edited, edited_all, edited_back, in_order, place, seam, spot, starts_before};
use crate::lsp::{Position, TextEdit};
use crate::text::{join, law_join_split, lemma_split_nonempty, split};

verus! {

/// Lines and characters can be counted by machine integers.
pub open spec fn countable(text: Seq<Seq<char>>) -> bool {
    &&& 1 <= text.len() <= usize::MAX
    &&& forall|r: int| 0 <= r < text.len() ==> (#[trigger] text[r]).len() <= usize::MAX
}

/// A position means the place of that line and character; past the end of the
/// line its end, past the last line the end of the text.
pub proof fn law_spot_is_the_nearest_place(text: Seq<Seq<char>>, p: Position)
    requires
        countable(text),
    ensures
        in_text(text, spot(text, p)),
        p.line < text.len() && p.character <= text[p.line as int].len() ==> spot(text, p) == (Cursor {
            row: p.line as usize,
            col: p.character as usize,
        }),
        p.line < text.len() && p.character > text[p.line as int].len() ==> spot(text, p).row == p.line && spot(
            text,
            p,
        ).col == text[p.line as int].len(),
        p.line >= text.len() ==> spot(text, p).row == text.len() - 1 && spot(text, p).col == text.last().len(),
{
}

/// Where an edit ends: a range that ends before it starts is empty.
pub open spec fn edit_end(text: Seq<Seq<char>>, e: TextEdit<Seq<char>>) -> Cursor {
    let a = spot(text, e.range.start);
    let z = spot(text, e.range.end);
    if z.row < a.row || (z.row == a.row && z.col < a.col) {
        a
    } else {
        z
    }
}

/// From a place up to the end of the text.
pub open spec fn rest_of(text: Seq<Seq<char>>, r: int, c: int) -> Seq<char> {
    between(text, r, c, text.len() - 1, text.last().len() as int)
}

/// Up to its start and from its end on an edit leaves the text as it is, and
/// between them stands the new text: seen from any place before the edit.
proof fn lemma_edit_from(text: Seq<Seq<char>>, e: TextEdit<Seq<char>>, r: int, c: int)
    requires
        countable(text),
        0 <= r <= spot(text, e.range.start).row,
        0 <= c <= text[r].len(),
        r == spot(text, e.range.start).row ==> c <= spot(text, e.range.start).col,
    ensures
        edited(text, e).len() >= 1,
        ({
            let a = spot(text, e.range.start);
            let b = edit_end(text, e);
            rest_of(edited(text, e), r, c) == between(text, r, c, a.row as int, a.col as int) + e.new_text + rest_of(
                text,
                b.row as int,
                b.col as int,
            )
        }),
{
    let a = spot(text, e.range.start);
    let b = edit_end(text, e);
    let parts = split(e.new_text);
    let u = edited(text, e);
    let head = text[a.row as int].take(a.col as int);
    let tail = text[b.row as int].skip(b.col as int);
    lemma_split_nonempty(e.new_text);
    law_join_split(e.new_text);
    assert(u == text.take(a.row as int) + seam(text, a, b, parts) + text.skip(b.row + 1));
    let n = parts.len() as int;
    let zr = a.row + n - 1;
    let zc = if n == 1 {
        a.col + parts[0].len()
    } else {
        parts.last().len() as int
    };
    assert(u.len() == a.row + n + (text.len() - 1 - b.row));
    assert forall|k: int| 0 <= k < a.row implies u[k] == text[k] by {}
    let first = u[a.row as int];
    if n == 1 {
        assert(first == head + parts[0] + tail);
    } else {
        assert(first == head + parts[0]);
        assert(u[zr] == parts.last() + tail);
    }
    assert(first.take(a.col as int) =~= head);
    lemma_between_prefix(text, u, r, c, a.row as int, a.col as int);
    assert(u[zr].skip(zc) =~= tail);
    assert forall|k: int| 0 < k <= text.len() - 1 - b.row implies text[b.row + k] == #[trigger] u[zr + k] by {
        assert(text.skip(b.row + 1)[k - 1] == text[b.row + k]);
    }
    lemma_between_suffix(text, u, b.row as int, b.col as int, zr, zc, text.len() - 1 - b.row);
    assert(between(u, a.row as int, a.col as int, zr, zc) == e.new_text) by {
        if n == 1 {
            assert(between(u, a.row as int, a.col as int, zr, zc) =~= parts[0]);
            assert(join(parts, 0, 1) == parts[0]);
        } else {
            lemma_between_is_join(u, a.row as int, a.col as int, zr, zc);
            let cut = cut_lines(u, a.row as int, a.col as int, zr, zc);
            assert(first.skip(a.col as int) =~= parts[0]);
            assert(u[zr].take(zc) =~= parts.last());
            assert forall|k: int| 0 < k < n - 1 implies u[a.row + k] == parts[k] by {
                assert(seam(text, a, b, parts)[k] == parts.subrange(1, n - 1)[k - 1]);
            }
            assert(cut =~= parts);
        }
    }
    if r < a.row {
        assert(u[r] == text[r]);
    }
    lemma_between_from(u, r, c, a.row as int, a.col as int);
    lemma_between_from(u, a.row as int, a.col as int, zr, zc);
    let x = between(text, r, c, a.row as int, a.col as int);
    let y = rest_of(text, b.row as int, b.col as int);
    assert(x + (e.new_text + y) =~= x + e.new_text + y);
}

/// Read as one text, an edit replaces exactly its range: what stands before
/// the range and behind it stays, and between them stands the new text.
pub proof fn law_edit_replaces_its_range(text: Seq<Seq<char>>, e: TextEdit<Seq<char>>)
    requires
        countable(text),
    ensures
        edited(text, e).len() >= 1,
        ({
            let a = spot(text, e.range.start);
            let b = edit_end(text, e);
            let after = edited(text, e);
            join(after, 0, after.len() as int) == between(text, 0, 0, a.row as int, a.col as int) + e.new_text
                + between(text, b.row as int, b.col as int, text.len() - 1, text.last().len() as int)
        }),
{
    lemma_edit_from(text, e, 0, 0);
    law_whole_text(edited(text, e));
}

/// Line by line: the lines above an edit and below it stay; what stands before
/// its start and behind its end stays too; and the lines of the new text stand
/// between them, each as it is.
pub proof fn law_edit_lines(text: Seq<Seq<char>>, e: TextEdit<Seq<char>>)
    requires
        countable(text),
    ensures
        ({
            let a = spot(text, e.range.start);
            let b = edit_end(text, e);
            let after = edited(text, e);
            let parts = split(e.new_text);
            let n = parts.len() as int;
            let head = text[a.row as int].take(a.col as int);
            let tail = text[b.row as int].skip(b.col as int);
            &&& after.len() == text.len() - (b.row - a.row) + (n - 1)
            &&& forall|k: int| 0 <= k < a.row ==> (#[trigger] after[k]) == text[k]
            &&& forall|k: int| b.row < k < text.len() ==> after[k + (n - 1) - (b.row - a.row)] == #[trigger] text[k]
            &&& n == 1 ==> after[a.row as int] == head + e.new_text + tail
            &&& n > 1 ==> {
                &&& after[a.row as int] == head + parts[0]
                &&& forall|k: int| 0 < k < n - 1 ==> after[a.row + k] == #[trigger] parts[k]
                &&& after[a.row + n - 1] == parts[n - 1] + tail
            }
        }),
{
    let a = spot(text, e.range.start);
    let b = edit_end(text, e);
    let after = edited(text, e);
    let parts = split(e.new_text);
    lemma_split_nonempty(e.new_text);
    law_join_split(e.new_text);
    let n = parts.len() as int;
    if n == 1 {
        assert(join(parts, 0, 1) =~= parts[0]);
        assert(after[a.row as int] =~= text[a.row as int].take(a.col as int) + e.new_text + text[b.row as int].skip(
            b.col as int,
        ));
    } else {
        assert forall|k: int| 0 < k < n - 1 implies after[a.row + k] == #[trigger] parts[k] by {}
    }
    assert forall|k: int| b.row < k < text.len() implies after[k + (n - 1) - (b.row - a.row)] == #[trigger] text[k] by {
        assert(text.skip(b.row + 1)[k - b.row - 1] == text[k]);
    }
}

/// Whether a list of edits is in order, and none reaches into the next.
pub open spec fn apart(text: Seq<Seq<char>>, s: Seq<TextEdit<Seq<char>>>) -> bool {
    forall|i: int, j: int|
        #![trigger s[i], s[j]]
        0 <= i < j < s.len() ==> !spot(text, s[j].range.start).before(edit_end(text, s[i]))
}

/// The text up to the end of the first `k` edits, with each of them made.
pub open spec fn made(text: Seq<Seq<char>>, s: Seq<TextEdit<Seq<char>>>, k: int) -> Seq<char>
    decreases k,
{
    if k <= 0 {
        Seq::empty()
    } else {
        let from = made_end(text, s, k - 1);
        let a = spot(text, s[k - 1].range.start);
        made(text, s, k - 1) + between(text, from.row as int, from.col as int, a.row as int, a.col as int) + s[k
            - 1].new_text
    }
}

/// Where the first `k` edits end.
pub open spec fn made_end(text: Seq<Seq<char>>, s: Seq<TextEdit<Seq<char>>>, k: int) -> Cursor {
    if k <= 0 {
        Cursor { row: 0, col: 0 }
    } else {
        edit_end(text, s[k - 1])
    }
}

/// An edit does not move the places before it.
proof fn lemma_spot_before(text: Seq<Seq<char>>, e: TextEdit<Seq<char>>, p: Position)
    requires
        countable(text),
        countable(edited(text, e)),
        !spot(text, e.range.start).before(spot(text, p)),
        p.line < text.len(),
        p.character <= text[p.line as int].len(),
    ensures
        spot(edited(text, e), p) == spot(text, p),
{
    let a = spot(text, e.range.start);
    let b = edit_end(text, e);
    let u = edited(text, e);
    lemma_split_nonempty(e.new_text);
    if p.line < a.row {
        assert(u[p.line as int] == text[p.line as int]);
    } else {
        assert(p.line == a.row);
        assert(p.character <= a.col);
        assert(u[a.row as int].len() >= a.col);
    }
}

/// Up to the start of a later edit, the earlier ones come to the same with or
/// without it.
proof fn lemma_made_before(text: Seq<Seq<char>>, s: Seq<TextEdit<Seq<char>>>, e: TextEdit<Seq<char>>, k: int)
    requires
        countable(text),
        countable(edited(text, e)),
        0 <= k <= s.len(),
        forall|i: int| 0 <= i < s.len() ==> within(text, #[trigger] s[i]),
        forall|i: int| 0 <= i < s.len() ==> !spot(text, e.range.start).before(edit_end(text, #[trigger] s[i])),
        apart(text, s),
    ensures
        made(edited(text, e), s, k) == made(text, s, k),
        made_end(edited(text, e), s, k) == made_end(text, s, k),
    decreases k,
{
    if k > 0 {
        lemma_made_before(text, s, e, k - 1);
        let x = s[k - 1];
        let u = edited(text, e);
        let a = spot(text, e.range.start);
        assert(within(text, x));
        assert(!a.before(edit_end(text, x)));
        lemma_spot_before(text, e, x.range.start);
        lemma_spot_before(text, e, x.range.end);
        let from = made_end(text, s, k - 1);
        let to = spot(text, x.range.start);
        lemma_split_nonempty(e.new_text);
        assert forall|i: int| 0 <= i < to.row implies u[i] == text[i] by {}
        if to.row < a.row {
            assert(u[to.row as int] == text[to.row as int]);
        } else {
            assert(u[to.row as int].take(to.col as int) =~= text[to.row as int].take(to.col as int));
        }
        if k > 1 {
            assert(!spot(text, s[k - 1].range.start).before(edit_end(text, s[k - 2])));
        }
        lemma_between_prefix(text, u, from.row as int, from.col as int, to.row as int, to.col as int);
    }
}

/// Whether the ends of an edit are places of the text, in order.
pub open spec fn within(text: Seq<Seq<char>>, e: TextEdit<Seq<char>>) -> bool {
    &&& e.range.start.line < text.len()
    &&& e.range.start.character <= text[e.range.start.line as int].len()
    &&& e.range.end.line < text.len()
    &&& e.range.end.character <= text[e.range.end.line as int].len()
    &&& !starts_before(e.range.end, e.range.start)
}

/// Several edits that do not reach into each other are all made in the text as
/// it stood before the first of them: each replaces its own range, and what
/// lies between the ranges stays.
pub proof fn law_edits_replace_their_ranges(text: Seq<Seq<char>>, s: Seq<TextEdit<Seq<char>>>)
    requires
        countable(text),
        apart(text, s),
        forall|i: int| 0 <= i < s.len() ==> within(text, #[trigger] s[i]),
        forall|k: int| 0 <= k <= s.len() ==> countable(edited_back(text, #[trigger] s.skip(k))),
    ensures
        ({
            let after = edited_back(text, s);
            let end = made_end(text, s, s.len() as int);
            join(after, 0, after.len() as int) == made(text, s, s.len() as int) + rest_of(
                text,
                end.row as int,
                end.col as int,
            )
        }),
    decreases s.len(),
{
    let n = s.len() as int;
    if n == 0 {
        law_whole_text(text);
        assert(Seq::<char>::empty() + rest_of(text, 0, 0) =~= rest_of(text, 0, 0));
    } else {
        let e = s.last();
        let t = s.drop_last();
        let u = edited(text, e);
        assert(s.skip(n - 1) =~= seq![e]);
        assert(seq![e].drop_last() =~= Seq::<TextEdit<Seq<char>>>::empty());
        assert(edited_back(text, s.skip(n - 1)) == edited_back(u, seq![e].drop_last()));
        assert(countable(u));
        assert(within(text, s[n - 1]));
        assert forall|i: int| 0 <= i < t.len() implies !spot(text, e.range.start).before(
            edit_end(text, #[trigger] t[i]),
        ) by {
            assert(t[i] == s[i]);
            assert(s[n - 1] == e);
        }
        assert forall|i: int, j: int| #![trigger t[i], t[j]] 0 <= i < j < t.len() implies !spot(
            text,
            t[j].range.start,
        ).before(edit_end(text, t[i])) by {
            assert(t[i] == s[i] && t[j] == s[j]);
        }
        assert forall|i: int| 0 <= i < t.len() implies within(text, #[trigger] t[i]) && within(u, t[i]) && spot(
            u,
            t[i].range.start,
        ) == spot(text, t[i].range.start) && edit_end(u, t[i]) == edit_end(text, t[i]) by {
            assert(t[i] == s[i]);
            assert(within(text, s[i]));
            lemma_spot_before(text, e, t[i].range.start);
            lemma_spot_before(text, e, t[i].range.end);
            lemma_rows_before(text, e, t[i]);
        }
        assert(apart(u, t));
        assert forall|k: int| 0 <= k <= t.len() implies countable(edited_back(u, #[trigger] t.skip(k))) by {
            assert(s.skip(k).last() == e);
            assert(s.skip(k).drop_last() =~= t.skip(k));
            assert(countable(edited_back(text, s.skip(k))));
        }
        law_edits_replace_their_ranges(u, t);
        lemma_made_before(text, t, e, n - 1);
        lemma_made_take(text, s, n - 1);
        let from = made_end(text, s, n - 1);
        if n > 1 {
            assert(!spot(text, s[n - 1].range.start).before(edit_end(text, s[n - 2])));
        }
        lemma_edit_from(text, e, from.row as int, from.col as int);
        let x = made(text, s, n - 1);
        let a = spot(text, e.range.start);
        let y = between(text, from.row as int, from.col as int, a.row as int, a.col as int);
        let b = edit_end(text, e);
        let z = rest_of(text, b.row as int, b.col as int);
        assert(x + (y + e.new_text + z) =~= x + y + e.new_text + z);
    }
}

proof fn lemma_rows_before(text: Seq<Seq<char>>, e: TextEdit<Seq<char>>, x: TextEdit<Seq<char>>)
    requires
        countable(text),
        within(text, x),
        !spot(text, e.range.start).before(edit_end(text, x)),
    ensures
        within(edited(text, e), x),
{
    let a = spot(text, e.range.start);
    let u = edited(text, e);
    lemma_split_nonempty(e.new_text);
    assert(x.range.end.line <= a.row);
    assert(u.len() > a.row);
    assert(u[a.row as int].len() >= a.col);
    assert forall|k: int| 0 <= k < a.row implies u[k] == text[k] by {}
}

proof fn lemma_made_take(text: Seq<Seq<char>>, s: Seq<TextEdit<Seq<char>>>, k: int)
    requires
        0 <= k < s.len(),
    ensures
        made(text, s.drop_last(), k) == made(text, s, k),
        made_end(text, s.drop_last(), k) == made_end(text, s, k),
    decreases k,
{
    if k > 0 {
        lemma_made_take(text, s, k - 1);
    }
}

/// Whether `m` tells where each edit of `o` stands in `s`.
pub open spec fn comes_from(o: Seq<TextEdit<Seq<char>>>, s: Seq<TextEdit<Seq<char>>>, m: Seq<int>, k: int) -> bool {
    &&& m.len() == o.len() == k
    &&& forall|i: int| 0 <= i < k ==> 0 <= #[trigger] m[i] < k && o[i] == s[m[i]]
    &&& forall|i: int, j: int| #![trigger m[i], m[j]] 0 <= i < j < k ==> m[i] != m[j]
}

proof fn lemma_place(s: Seq<TextEdit<Seq<char>>>, x: TextEdit<Seq<char>>)
    ensures
        exists|p: int| #[trigger]
            placed_at(s, x, p) && 0 <= p <= s.len() && (forall|i: int|
                p <= i < s.len() ==> starts_before(x.range.start, (#[trigger] s[i]).range.start)) && (p > 0
                ==> !starts_before(x.range.start, s[p - 1].range.start)),
    decreases s.len(),
{
    if s.len() == 0 || !starts_before(x.range.start, s.last().range.start) {
        assert(s.push(x) =~= s.insert(s.len() as int, x));
        assert(placed_at(s, x, s.len() as int));
    } else {
        let t = s.drop_last();
        lemma_place(t, x);
        let p = choose|p: int| #[trigger]
            placed_at(t, x, p) && 0 <= p <= t.len() && (forall|i: int|
                p <= i < t.len() ==> starts_before(x.range.start, (#[trigger] t[i]).range.start)) && (p > 0
                ==> !starts_before(x.range.start, t[p - 1].range.start));
        assert(t.insert(p, x).push(s.last()) =~= s.insert(p, x));
        assert(placed_at(s, x, p));
        assert forall|i: int| p <= i < s.len() implies starts_before(x.range.start, (#[trigger] s[i]).range.start) by {
            if i < t.len() {
                assert(t[i] == s[i]);
            }
        }
    }
}

spec fn placed_at(s: Seq<TextEdit<Seq<char>>>, x: TextEdit<Seq<char>>, p: int) -> bool {
    place(s, x) == s.insert(p, x)
}

/// The edits are taken by where they start. Each is taken once, and those that
/// start at one place keep the order in which they were given.
pub proof fn law_edits_in_order(s: Seq<TextEdit<Seq<char>>>, k: int)
    requires
        0 <= k <= s.len(),
    ensures
        ({
            let o = in_order(s, k);
            &&& forall|i: int, j: int|
                #![trigger o[i], o[j]]
                0 <= i < j < o.len() ==> {
                    let p = o[i].range.start;
                    let q = o[j].range.start;
                    p.line < q.line || (p.line == q.line && p.character <= q.character)
                }
            &&& exists|m: Seq<int>| #[trigger]
                comes_from(o, s, m, k) && forall|i: int, j: int|
                    #![trigger m[i], m[j]]
                    0 <= i < j < k && o[i].range.start == o[j].range.start ==> m[i] < m[j]
        }),
    decreases k,
{
    if k == 0 {
        let m = Seq::<int>::empty();
        assert(comes_from(in_order(s, 0), s, m, 0));
    } else {
        law_edits_in_order(s, k - 1);
        let o = in_order(s, k - 1);
        let x = s[k - 1];
        let m = choose|m: Seq<int>| #[trigger]
            comes_from(o, s, m, k - 1) && forall|i: int, j: int|
                #![trigger m[i], m[j]]
                0 <= i < j < k - 1 && o[i].range.start == o[j].range.start ==> m[i] < m[j];
        lemma_place(o, x);
        let p = choose|p: int| #[trigger]
            placed_at(o, x, p) && 0 <= p <= o.len() && (forall|i: int|
                p <= i < o.len() ==> starts_before(x.range.start, (#[trigger] o[i]).range.start)) && (p > 0
                ==> !starts_before(x.range.start, o[p - 1].range.start));
        let w = in_order(s, k);
        let v = m.insert(p, k - 1);
        assert(w == o.insert(p, x));
        assert forall|i: int, j: int| #![trigger w[i], w[j]] 0 <= i < j < w.len() implies {
            let a = w[i].range.start;
            let b = w[j].range.start;
            a.line < b.line || (a.line == b.line && a.character <= b.character)
        } by {
            if i < p {
                assert(w[i] == o[i]);
                if j < p {
                    assert(w[j] == o[j]);
                } else if j > p {
                    assert(w[j] == o[j - 1]);
                } else if i < p - 1 {
                    assert(o[i] == o[i] && o[p - 1] == o[p - 1]);
                }
            } else if i > p {
                assert(w[i] == o[i - 1]);
                assert(w[j] == o[j - 1]);
            } else {
                assert(w[j] == o[j - 1]);
            }
        }
        assert forall|i: int| 0 <= i < k implies 0 <= #[trigger] v[i] < k && w[i] == s[v[i]] by {
            if i < p {
                assert(v[i] == m[i]);
            } else if i > p {
                assert(v[i] == m[i - 1]);
            }
        }
        assert forall|i: int, j: int| #![trigger v[i], v[j]] 0 <= i < j < k implies v[i] != v[j] by {
            let a = if i < p { i } else { i - 1 };
            let b = if j < p { j } else { j - 1 };
            if i != p {
                assert(v[i] == m[a]);
            }
            if j != p {
                assert(v[j] == m[b]);
            }
        }
        assert(comes_from(w, s, v, k));
        assert forall|i: int, j: int| #![trigger v[i], v[j]] 0 <= i < j < k && w[i].range.start
            == w[j].range.start implies v[i] < v[j] by {
            if j == p {
                assert(v[i] == m[i]);
            } else if i == p {
                assert(w[j] == o[j - 1]);
            } else {
                let a = if i < p { i } else { i - 1 };
                let b = if j < p { j } else { j - 1 };
                assert(v[i] == m[a] && v[j] == m[b]);
                assert(w[i] == o[a] && w[j] == o[b]);
            }
        }
    }
}

/// Edits from a server in whatever order they come: taken in the order of
/// where they start, each replaces its range of the text as it was.
pub proof fn law_edits_of_a_server(text: Seq<Seq<char>>, s: Seq<TextEdit<Seq<char>>>)
    requires
        countable(text),
        apart(text, in_order(s, s.len() as int)),
        forall|i: int| 0 <= i < s.len() ==> within(text, #[trigger] s[i]),
        forall|k: int|
            0 <= k <= s.len() ==> countable(edited_back(text, #[trigger] in_order(s, s.len() as int).skip(k))),
    ensures
        ({
            let o = in_order(s, s.len() as int);
            let after = edited_all(text, s);
            let end = made_end(text, o, o.len() as int);
            join(after, 0, after.len() as int) == made(text, o, o.len() as int) + rest_of(
                text,
                end.row as int,
                end.col as int,
            )
        }),
{
    let n = s.len() as int;
    let o = in_order(s, n);
    law_edits_in_order(s, n);
    let m = choose|m: Seq<int>| #[trigger]
        comes_from(o, s, m, n) && forall|i: int, j: int|
            #![trigger m[i], m[j]]
            0 <= i < j < n && o[i].range.start == o[j].range.start ==> m[i] < m[j];
    assert forall|i: int| 0 <= i < o.len() implies within(text, #[trigger] o[i]) by {
        assert(0 <= m[i] < n && o[i] == s[m[i]]);
    }
    law_edits_replace_their_ranges(text, o);
}

} // verus!
