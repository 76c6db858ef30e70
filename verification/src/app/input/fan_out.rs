//! Typing at several cursors at once.
use vstd::prelude::*;
use crate::editor::{in_text, least, Buffer, Cursor, Doc};

verus! {

/// All cursors, the primary one first.
pub open spec fn cursors_of(d: Doc) -> Seq<Cursor> {
    seq![d.cursor] + d.extra
}

/// Puts the cursor `x` behind all those that do not come before it.
pub open spec fn place_cursor(s: Seq<int>, all: Seq<Cursor>, x: int) -> Seq<int>
    decreases s.len(),
{
    if s.len() == 0 || !all[s.last()].before(all[x]) {
        s.push(x)
    } else {
        place_cursor(s.drop_last(), all, x).push(s.last())
    }
}

/// The first `k` cursors from the last one in the text to the first.
pub open spec fn from_last(all: Seq<Cursor>, k: int) -> Seq<int>
    decreases k,
{
    if k <= 0 {
        Seq::empty()
    } else {
        place_cursor(from_last(all, k - 1), all, k - 1)
    }
}

/// The order in which the cursors are taken.
pub open spec fn fan_order(d: Doc) -> Seq<int> {
    from_last(cursors_of(d), cursors_of(d).len() as int)
}

/// A cursor moved right by one.
pub open spec fn right_of(c: Cursor) -> Cursor {
    Cursor { row: c.row, col: least(c.col + 1, usize::MAX as int) as usize }
}

/// The cursors that are done and stand in a row, moved right by one.
pub open spec fn pushed(ps: Seq<Cursor>, order: Seq<int>, row: usize, k: int) -> Seq<Cursor>
    decreases k,
{
    if k <= 0 {
        ps
    } else {
        let q = pushed(ps, order, row, k - 1);
        let x = order[k - 1];
        if q[x].row == row {
            q.update(x, right_of(q[x]))
        } else {
            q
        }
    }
}

/// The cursors that are done and stand in a row, moved left by one.
pub open spec fn pulled(ps: Seq<Cursor>, order: Seq<int>, row: usize, k: int) -> Seq<Cursor>
    decreases k,
{
    if k <= 0 {
        ps
    } else {
        let q = pulled(ps, order, row, k - 1);
        let x = order[k - 1];
        if q[x].row == row && q[x].col > 0 {
            q.update(x, Cursor { row, col: (q[x].col - 1) as usize })
        } else {
            q
        }
    }
}

/// The document once a character is typed at the first `i` cursors of the
/// order, and where those cursors stand.
pub open spec fn typed_at(d: Doc, ch: char, i: int) -> (Doc, Seq<Cursor>)
    decreases i,
{
    let all = cursors_of(d);
    if i <= 0 {
        (d, all)
    } else {
        let (e, ps) = typed_at(d, ch, i - 1);
        let x = fan_order(d)[i - 1];
        let f = Doc { cursor: all[x], ..e }.insert_char(ch);
        (f, pushed(ps.update(x, f.cursor), fan_order(d), all[x].row, i - 1))
    }
}

/// A cursor held within its line.
pub open spec fn in_line(text: Seq<Seq<char>>, c: Cursor) -> Cursor {
    Cursor { row: c.row, col: least(c.col as int, text[c.row as int].len() as int) as usize }
}

/// The document once the character before each of the first `i` cursors of
/// the order is deleted, and where those cursors stand. At the start of a
/// line only the primary cursor joins it with the one before. A cursor that
/// is left behind the end of its line deletes nothing.
pub open spec fn erased_at(d: Doc, i: int) -> (Doc, Seq<Cursor>)
    decreases i,
{
    let all = cursors_of(d);
    if i <= 0 {
        (d, all)
    } else {
        let (e, ps) = erased_at(d, i - 1);
        let x = fan_order(d)[i - 1];
        let pos = all[x];
        if pos.col == 0 && x != 0 {
            (e, ps.update(x, pos))
        } else if pos.col == 0 {
            let f = Doc { cursor: pos, ..e }.delete_before();
            (f, ps.update(x, f.cursor))
        } else if in_text(e.text, pos) {
            let f = Doc { cursor: pos, ..e }.delete_before();
            (f, pulled(ps.update(x, f.cursor), fan_order(d), pos.row, i - 1))
        } else {
            (e, ps.update(x, in_line(e.text, pos)))
        }
    }
}

/// The extra cursors among `1..k`, without those that have come upon another
/// one.
pub open spec fn distinct_extras(ps: Seq<Cursor>, k: int) -> Seq<Cursor>
    decreases k,
{
    if k <= 1 {
        Seq::empty()
    } else {
        let s = distinct_extras(ps, k - 1);
        if ps[k - 1] == ps[0] || s.contains(ps[k - 1]) {
            s
        } else {
            s.push(ps[k - 1])
        }
    }
}

/// The document with its cursors put back.
pub open spec fn scattered(d: Doc, ps: Seq<Cursor>) -> Doc {
    Doc { cursor: ps[0], extra: distinct_extras(ps, ps.len() as int), ..d }
}

impl Doc {
    /// A character typed at every cursor. A single cursor brings paired
    /// delimiters along.
    #[verifier::opaque]
    pub open spec fn fan_insert(self, ch: char) -> Doc {
        if self.extra.len() == 0 {
            self.insert_smart(ch)
        } else {
            let (d, ps) = typed_at(self, ch, cursors_of(self).len() as int);
            scattered(d, ps)
        }
    }

    /// The character before every cursor deleted. A single cursor takes
    /// paired delimiters away together.
    #[verifier::opaque]
    pub open spec fn fan_erase(self) -> Doc {
        if self.extra.len() == 0 {
            self.delete_before_smart()
        } else {
            let (d, ps) = erased_at(self, cursors_of(self).len() as int);
            scattered(d, ps)
        }
    }
}

/// The order takes every cursor once, none after one that comes before it.
pub proof fn lemma_from_last(all: Seq<Cursor>, k: int)
    requires
        0 <= k <= all.len(),
    ensures
        from_last(all, k).len() == k,
        forall|p: int| 0 <= p < k ==> 0 <= (#[trigger] from_last(all, k)[p]) < k,
        forall|p: int, q: int| 0 <= p < q < k ==> from_last(all, k)[p] != from_last(all, k)[q],
        forall|p: int, q: int|
            0 <= p < q < k ==> !all[(#[trigger] from_last(all, k)[p])].before(all[(#[trigger] from_last(all, k)[q])]),
        forall|x: int| 0 <= x < k ==> from_last(all, k).contains(x),
    decreases k,
{
    if k > 0 {
        lemma_from_last(all, k - 1);
        let s = from_last(all, k - 1);
        lemma_place_cursor(s, all, k - 1);
        assert forall|x: int| 0 <= x < k implies from_last(all, k).contains(x) by {
            if x < k - 1 {
                assert(s.contains(x));
            }
        }
    }
}

proof fn lemma_place_cursor(s: Seq<int>, all: Seq<Cursor>, x: int)
    requires
        0 <= x < all.len(),
        forall|p: int| 0 <= p < s.len() ==> 0 <= (#[trigger] s[p]) < x,
        forall|p: int, q: int| 0 <= p < q < s.len() ==> s[p] != s[q],
        forall|p: int, q: int| 0 <= p < q < s.len() ==> !all[(#[trigger] s[p])].before(all[(#[trigger] s[q])]),
    ensures
        ({
            let t = place_cursor(s, all, x);
            &&& t.len() == s.len() + 1
            &&& forall|p: int| 0 <= p < t.len() ==> 0 <= (#[trigger] t[p]) <= x
            &&& forall|p: int, q: int| 0 <= p < q < t.len() ==> t[p] != t[q]
            &&& forall|p: int, q: int| 0 <= p < q < t.len() ==> !all[(#[trigger] t[p])].before(all[(#[trigger] t[q])])
            &&& forall|y: int|
                #![trigger t.contains(y)]
                #![trigger s.contains(y)]
                t.contains(y) <==> s.contains(y) || y == x
        }),
    decreases s.len(),
{
    let t = place_cursor(s, all, x);
    if s.len() == 0 || !all[s.last()].before(all[x]) {
        assert forall|p: int, q: int| 0 <= p < q < t.len() implies !all[(#[trigger] t[p])].before(
            all[(#[trigger] t[q])],
        ) by {
            if q == s.len() && p < s.len() - 1 {
                assert(!all[s[p]].before(all[s[s.len() - 1]]));
            }
        }
        assert forall|y: int| t.contains(y) <==> s.contains(y) || y == x by {
            if s.contains(y) {
                let i = choose|i: int| 0 <= i < s.len() && s[i] == y;
                assert(t[i] == y);
            }
            assert(t[s.len() as int] == x);
        }
    } else {
        let d = s.drop_last();
        let l = s.last();
        lemma_place_cursor(d, all, x);
        let p0 = place_cursor(d, all, x);
        assert forall|p: int, q: int| 0 <= p < q < t.len() implies t[p] != t[q] by {
            if q == p0.len() {
                assert(p0.contains(p0[p]));
                if p0[p] != x {
                    assert(d.contains(p0[p]));
                    let m = choose|m: int| 0 <= m < d.len() && d[m] == p0[p];
                    assert(s[m] != s[s.len() - 1]);
                }
            }
        }
        assert forall|p: int, q: int| 0 <= p < q < t.len() implies !all[(#[trigger] t[p])].before(
            all[(#[trigger] t[q])],
        ) by {
            if q == p0.len() {
                assert(p0.contains(p0[p]));
                if p0[p] != x {
                    assert(d.contains(p0[p]));
                    let m = choose|m: int| 0 <= m < d.len() && d[m] == p0[p];
                    assert(!all[s[m]].before(all[s[s.len() - 1]]));
                }
            }
        }
        assert forall|y: int| t.contains(y) <==> s.contains(y) || y == x by {
            if t.contains(y) {
                let i = choose|i: int| 0 <= i < t.len() && t[i] == y;
                if i < p0.len() {
                    assert(p0.contains(y));
                    if y != x {
                        assert(d.contains(y));
                        let m = choose|m: int| 0 <= m < d.len() && d[m] == y;
                        assert(s[m] == y);
                    }
                } else {
                    assert(s[s.len() - 1] == y);
                }
            }
            if s.contains(y) || y == x {
                if y == l {
                    assert(t[p0.len() as int] == y);
                } else {
                    if s.contains(y) {
                        let m = choose|m: int| 0 <= m < s.len() && s[m] == y;
                        assert(d[m] == y);
                        assert(d.contains(y));
                    }
                    assert(p0.contains(y));
                    let i = choose|i: int| 0 <= i < p0.len() && p0[i] == y;
                    assert(t[i] == y);
                }
            }
        }
    }
}

pub open spec fn ints(v: Seq<usize>) -> Seq<int> {
    Seq::new(v.len(), |i: int| v[i] as int)
}

/// All cursors, the primary one first.
pub fn collect_cursors(buf: &Buffer) -> (r: Vec<Cursor>)
    ensures
        r@ == cursors_of(buf@),
{
    let mut v: Vec<Cursor> = Vec::new();
    v.push(buf.cursor);
    let mut i: usize = 0;
    while i < buf.extra_cursors.len()
        invariant
            i <= buf.extra_cursors.len(),
            v@ == seq![buf.cursor] + buf.extra_cursors@.take(i as int),
        decreases buf.extra_cursors.len() - i,
    {
        v.push(buf.extra_cursors[i]);
        proof {
            assert(v@ =~= seq![buf.cursor] + buf.extra_cursors@.take(i + 1));
        }
        i = i + 1;
    }
    proof {
        assert(buf.extra_cursors@.take(i as int) =~= buf.extra_cursors@);
    }
    v
}

fn place(order: &mut Vec<usize>, all: &Vec<Cursor>, x: usize)
    requires
        x < all.len(),
        forall|p: int| 0 <= p < old(order).len() ==> (#[trigger] old(order)@[p]) < all.len(),
    ensures
        ints(final(order)@) == place_cursor(ints(old(order)@), all@, x as int),
        forall|p: int| 0 <= p < final(order).len() ==> (#[trigger] final(order)@[p]) < all.len(),
{
    let ghost s = ints(order@);
    let ghost v = x as int;
    let mut k: usize = order.len();
    proof {
        assert(s.take(k as int) =~= s);
        assert(place_cursor(s, all@, v) =~= place_cursor(s.take(k as int), all@, v) + s.skip(k as int));
    }
    while k > 0
        invariant
            k <= order.len(),
            x < all.len(),
            s == ints(order@),
            v == x,
            forall|p: int| 0 <= p < order.len() ==> (#[trigger] order@[p]) < all.len(),
            place_cursor(s, all@, v) == place_cursor(s.take(k as int), all@, v) + s.skip(k as int),
        ensures
            k <= order.len(),
            s == ints(order@),
            forall|p: int| 0 <= p < order.len() ==> (#[trigger] order@[p]) < all.len(),
            place_cursor(s, all@, v) == s.take(k as int).push(v) + s.skip(k as int),
        decreases k,
    {
        proof {
            assert(s.take(k as int).last() == s[k - 1]);
            assert(s[k - 1] == order@[k - 1]);
            assert(s.take(k as int).drop_last() =~= s.take(k - 1));
        }
        if !all[order[k - 1]].is_before(all[x]) {
            break;
        }
        proof {
            assert(place_cursor(s, all@, v) =~= place_cursor(s.take(k - 1), all@, v) + s.skip(k - 1));
        }
        k = k - 1;
    }
    order.insert(k, x);
    proof {
        assert(ints(order@) =~= s.take(k as int).push(v) + s.skip(k as int));
    }
}

fn sort_from_last(all: &Vec<Cursor>) -> (r: Vec<usize>)
    ensures
        ints(r@) == from_last(all@, all@.len() as int),
{
    let mut order: Vec<usize> = Vec::new();
    let mut i: usize = 0;
    proof {
        assert(ints(order@) =~= from_last(all@, 0));
    }
    while i < all.len()
        invariant
            i <= all.len(),
            forall|p: int| 0 <= p < order.len() ==> (#[trigger] order@[p]) < all.len(),
            ints(order@) == from_last(all@, i as int),
        decreases all.len() - i,
    {
        place(&mut order, all, i);
        i = i + 1;
    }
    order
}

/// Puts the cursors back. Extra cursors that have come upon another one are
/// dropped.
pub fn scatter_cursors(buf: &mut Buffer, positions: Vec<Cursor>)
    requires
        positions.len() >= 1,
    ensures
        final(buf)@ == scattered(old(buf)@, positions@),
{
    let primary = positions[0];
    let mut extras: Vec<Cursor> = Vec::new();
    let mut i: usize = 1;
    while i < positions.len()
        invariant
            1 <= i <= positions.len(),
            primary == positions@[0],
            extras@ == distinct_extras(positions@, i as int),
        decreases positions.len() - i,
    {
        let c = positions[i];
        let mut seen = c == primary;
        let mut j: usize = 0;
        while j < extras.len()
            invariant
                j <= extras.len(),
                seen == (c == primary || exists|k: int| 0 <= k < j && extras@[k] == c),
            decreases extras.len() - j,
        {
            if extras[j] == c {
                seen = true;
            }
            j = j + 1;
        }
        if !seen {
            extras.push(c);
        }
        i = i + 1;
    }
    buf.cursor = primary;
    buf.extra_cursors = extras;
}

/// Moves the cursors that are done and stand in a row right by one.
fn push_right(positions: &mut Vec<Cursor>, order: &Vec<usize>, row: usize, n: usize)
    requires
        n <= order.len(),
        forall|p: int| 0 <= p < order.len() ==> (#[trigger] order@[p]) < old(positions).len(),
        forall|p: int, q: int| 0 <= p < q < order.len() ==> order@[p] != order@[q],
    ensures
        final(positions)@ == pushed(old(positions)@, ints(order@), row, n as int),
        final(positions).len() == old(positions).len(),
        forall|p: int|
            #![trigger order@[p]]
            0 <= p < n ==> ({
                let c = old(positions)@[order@[p] as int];
                final(positions)@[order@[p] as int] == if c.row == row {
                    right_of(c)
                } else {
                    c
                }
            }),
        forall|x: int|
            0 <= x < old(positions).len() && (forall|p: int| 0 <= p < n ==> order@[p] != x) ==> final(positions)@[x]
                == old(positions)@[x],
{
    let ghost ps = positions@;
    let mut k: usize = 0;
    while k < n
        invariant
            k <= n <= order.len(),
            positions.len() == ps.len(),
            ps == old(positions)@,
            forall|p: int| 0 <= p < order.len() ==> (#[trigger] order@[p]) < ps.len(),
            forall|p: int, q: int| 0 <= p < q < order.len() ==> order@[p] != order@[q],
            positions@ == pushed(ps, ints(order@), row, k as int),
            forall|p: int|
                #![trigger order@[p]]
                0 <= p < k ==> ({
                    let c = ps[order@[p] as int];
                    positions@[order@[p] as int] == if c.row == row {
                        right_of(c)
                    } else {
                        c
                    }
                }),
            forall|x: int|
                0 <= x < ps.len() && (forall|p: int| 0 <= p < k ==> order@[p] != x) ==> positions@[x] == ps[x],
        decreases n - k,
    {
        let x = order[k];
        assert(ints(order@)[k as int] == x);
        assert(positions@[x as int] == ps[x as int]);
        let c = positions[x];
        if c.row == row {
            positions.set(x, Cursor { row, col: c.col.saturating_add(1) });
        }
        k = k + 1;
    }
}

/// Moves the cursors that are done and stand in a row left by one.
fn pull_left(positions: &mut Vec<Cursor>, order: &Vec<usize>, row: usize, n: usize)
    requires
        n <= order.len(),
        forall|p: int| 0 <= p < order.len() ==> (#[trigger] order@[p]) < old(positions).len(),
        forall|p: int, q: int| 0 <= p < q < order.len() ==> order@[p] != order@[q],
    ensures
        final(positions)@ == pulled(old(positions)@, ints(order@), row, n as int),
        final(positions).len() == old(positions).len(),
        forall|p: int|
            #![trigger order@[p]]
            0 <= p < n ==> ({
                let c = old(positions)@[order@[p] as int];
                final(positions)@[order@[p] as int] == if c.row == row && c.col > 0 {
                    Cursor { row, col: (c.col - 1) as usize }
                } else {
                    c
                }
            }),
        forall|x: int|
            0 <= x < old(positions).len() && (forall|p: int| 0 <= p < n ==> order@[p] != x) ==> final(positions)@[x]
                == old(positions)@[x],
{
    let ghost ps = positions@;
    let mut k: usize = 0;
    while k < n
        invariant
            k <= n <= order.len(),
            positions.len() == ps.len(),
            ps == old(positions)@,
            forall|p: int| 0 <= p < order.len() ==> (#[trigger] order@[p]) < ps.len(),
            forall|p: int, q: int| 0 <= p < q < order.len() ==> order@[p] != order@[q],
            positions@ == pulled(ps, ints(order@), row, k as int),
            forall|p: int|
                #![trigger order@[p]]
                0 <= p < k ==> ({
                    let c = ps[order@[p] as int];
                    positions@[order@[p] as int] == if c.row == row && c.col > 0 {
                        Cursor { row, col: (c.col - 1) as usize }
                    } else {
                        c
                    }
                }),
            forall|x: int|
                0 <= x < ps.len() && (forall|p: int| 0 <= p < k ==> order@[p] != x) ==> positions@[x] == ps[x],
        decreases n - k,
    {
        let x = order[k];
        assert(ints(order@)[k as int] == x);
        assert(positions@[x as int] == ps[x as int]);
        let c = positions[x];
        if c.row == row && c.col > 0 {
            positions.set(x, Cursor { row, col: c.col - 1 });
        }
        k = k + 1;
    }
}

/// Every cursor stands in a row that the text has.
pub open spec fn rows_exist(text: Seq<Seq<char>>, all: Seq<Cursor>) -> bool {
    forall|x: int| 0 <= x < all.len() ==> (#[trigger] all[x]).row < text.len()
}

/// Types a character at every cursor.
#[verifier::rlimit(40)]
pub fn fan_out_insert_char(buf: &mut Buffer, ch: char)
    requires
        old(buf)@.wf(),
        rows_exist(old(buf)@.text, old(buf)@.extra),
    ensures
        final(buf)@ == old(buf)@.fan_insert(ch),
        final(buf)@.wf(),
        rows_exist(final(buf)@.text, final(buf)@.extra),
        final(buf)@.path == old(buf)@.path,
{
    reveal(Doc::fan_insert);
    if buf.extra_cursors.len() == 0 {
        buf.insert_char_smart(ch);
        return;
    }
    let ghost d = buf@;
    let all = collect_cursors(buf);
    let order = sort_from_last(&all);
    let n = all.len();
    proof {
        lemma_from_last(all@, n as int);
        assert(ints(order@).len() == order@.len());
        assert forall|p: int| 0 <= p < order.len() implies (#[trigger] order@[p]) < n by {
            assert(ints(order@)[p] == order@[p]);
        }
        assert forall|p: int, q: int| 0 <= p < q < order.len() implies order@[p] != order@[q] by {
            assert(ints(order@)[p] == order@[p]);
            assert(ints(order@)[q] == order@[q]);
        }
        assert forall|x: int| 0 <= x < n implies (#[trigger] all@[x]).row < d.text.len() by {
            if x > 0 {
                assert(all@[x] == d.extra[x - 1]);
            }
        }
    }
    let mut positions = collect_cursors(buf);
    let mut i: usize = 0;
    while i < n
        invariant
            i <= n,
            n == all.len() == order.len() == positions.len(),
            n >= 1,
            all@ == cursors_of(d),
            ints(order@) == fan_order(d),
            forall|p: int| 0 <= p < order.len() ==> (#[trigger] order@[p]) < n,
            forall|p: int, q: int| 0 <= p < q < order.len() ==> order@[p] != order@[q],
            (buf@, positions@) == typed_at(d, ch, i as int) || (i == 0 && buf@ == d && positions@ == all@),
            buf@.text.len() == d.text.len(),
            shots_kept(buf@, d),
            buf@.path == d.path,
            d.wf(),
            rows_exist(d.text, all@),
            rows_exist(d.text, positions@),
            in_text(buf@.text, all@[0]),
            forall|p: int| 0 <= p < i && (#[trigger] order@[p]) == 0 ==> in_text(buf@.text, positions@[0]),
        decreases n - i,
    {
        let ghost e = buf@;
        let ghost ps = positions@;
        let x = order[i];
        assert(ints(order@)[i as int] == x);
        let pos = all[x];
        assert(all@[x as int].row < d.text.len());
        assert(buf@.text.len() == buf.lines@.len());
        buf.cursor = pos;
        buf.insert_char(ch);
        assert(buf@.text.len() == buf.lines@.len());
        let len = buf.line_chars(pos.row).len();
        positions.set(x, buf.cursor);
        let ghost mid = positions@;
        push_right(&mut positions, &order, pos.row, i);
        proof {
            assert(len == buf@.text[pos.row as int].len());
            assert(buf@.text[pos.row as int].len() == e.text[pos.row as int].len() + 1);
            assert(positions@[x as int] == buf@.cursor);
            assert forall|y: int| 0 <= y < positions@.len() implies (#[trigger] positions@[y]).row < d.text.len() by {
                assert(ps[y].row < d.text.len());
                if exists|p: int| 0 <= p < i && order@[p] == y {
                    let p = choose|p: int| 0 <= p < i && order@[p] == y;
                    assert(order@[p] == y);
                    assert(mid[y].row < d.text.len());
                } else {
                    assert(positions@[y] == mid[y]);
                }
            }
            assert forall|p: int| 0 <= p < i + 1 && (#[trigger] order@[p]) == 0 implies in_text(
                buf@.text,
                positions@[0],
            ) by {
                if p < i {
                    assert(order@[p] != order@[i as int]);
                    assert(mid[0] == ps[0]);
                    assert(in_text(e.text, ps[0]));
                }
            }
        }
        i = i + 1;
    }
    proof {
        assert(ints(order@).contains(0));
        let p = choose|p: int| 0 <= p < ints(order@).len() && ints(order@)[p] == 0;
        assert(order@[p] == 0);
        assert(in_text(buf@.text, positions@[0]));
        lemma_extras_from(buf@.text, positions@, positions@.len() as int);
    }
    scatter_cursors(buf, positions);
}

proof fn lemma_extras_from(text: Seq<Seq<char>>, ps: Seq<Cursor>, k: int)
    requires
        k <= ps.len(),
        rows_exist(text, ps),
    ensures
        rows_exist(text, distinct_extras(ps, k)),
    decreases k,
{
    if k > 1 {
        lemma_extras_from(text, ps, k - 1);
    }
}

/// Deletes the character before every cursor.
#[verifier::rlimit(60)]
pub fn fan_out_backspace(buf: &mut Buffer)
    requires
        old(buf)@.wf(),
        rows_exist(old(buf)@.text, old(buf)@.extra),
    ensures
        final(buf)@ == old(buf)@.fan_erase(),
        final(buf)@.wf(),
{
    reveal(Doc::fan_erase);
    if buf.extra_cursors.len() == 0 {
        buf.delete_char_before_smart();
        return;
    }
    let ghost d = buf@;
    let all = collect_cursors(buf);
    let order = sort_from_last(&all);
    let n = all.len();
    proof {
        lemma_from_last(all@, n as int);
        assert(ints(order@).len() == order@.len());
        assert forall|p: int| 0 <= p < order.len() implies (#[trigger] order@[p]) < n by {
            assert(ints(order@)[p] == order@[p]);
        }
        assert forall|p: int, q: int| 0 <= p < q < order.len() implies order@[p] != order@[q] by {
            assert(ints(order@)[p] == order@[p]);
            assert(ints(order@)[q] == order@[q]);
        }
        assert forall|p: int, q: int| 0 <= p < q < order.len() implies !all@[(#[trigger] order@[p]) as int].before(
            all@[(#[trigger] order@[q]) as int],
        ) by {
            assert(ints(order@)[p] == order@[p]);
            assert(ints(order@)[q] == order@[q]);
        }
        assert forall|x: int| 0 <= x < n implies (#[trigger] all@[x]).row < d.text.len() by {
            if x > 0 {
                assert(all@[x] == d.extra[x - 1]);
            }
        }
    }
    let mut positions = collect_cursors(buf);
    let mut i: usize = 0;
    let ghost mut joined = false;
    let ghost mut primary_done = false;
    while i < n
        invariant
            i <= n,
            n == all.len() == order.len() == positions.len(),
            n >= 1,
            all@ == cursors_of(d),
            rows_exist(d.text, all@),
            ints(order@) == fan_order(d),
            forall|p: int| 0 <= p < order.len() ==> (#[trigger] order@[p]) < n,
            forall|p: int, q: int| 0 <= p < q < order.len() ==> order@[p] != order@[q],
            forall|p: int, q: int|
                0 <= p < q < order.len() ==> !all@[(#[trigger] order@[p]) as int].before(
                    all@[(#[trigger] order@[q]) as int],
                ),
            (buf@, positions@) == erased_at(d, i as int) || (i == 0 && buf@ == d && positions@ == all@),
            buf@.text.len() == if joined {
                d.text.len() - 1
            } else {
                d.text.len() as int
            },
            buf@.text.len() >= 1,
            joined ==> primary_done && all@[0].col == 0,
            primary_done == exists|p: int| 0 <= p < i && order@[p] == 0,
            shots_kept(buf@, d),
            d.wf(),
            primary_done ==> in_text(buf@.text, positions@[0]),
        decreases n - i,
    {
        let ghost e = buf@;
        let ghost ps = positions@;
        let x = order[i];
        assert(ints(order@)[i as int] == x);
        let pos = all[x];
        proof {
            assert(all@[x as int].row < d.text.len());
            if joined {
                let p = choose|p: int| 0 <= p < i && order@[p] == 0;
                assert(!all@[order@[p] as int].before(all@[order@[i as int] as int]));
                assert(order@[p] != order@[i as int]);
            }
            if primary_done {
                let p = choose|p: int| 0 <= p < i && order@[p] == 0;
                assert(order@[p] != order@[i as int]);
                assert(x != 0);
            }
            assert(buf@.text.len() == buf.lines@.len());
        }
        if pos.col == 0 {
            if x == 0 {
                proof {
                    assert(!joined);
                }
                buf.cursor = pos;
                buf.delete_char_before();
                positions.set(x, buf.cursor);
                proof {
                    joined = pos.row > 0;
                }
            } else {
                positions.set(x, pos);
            }
        } else {
            let len = buf.line_chars(pos.row).len();
            if pos.col <= len {
                buf.cursor = pos;
                buf.delete_char_before();
                positions.set(x, buf.cursor);
                pull_left(&mut positions, &order, pos.row, i);
                proof {
                    assert(buf@.text[pos.row as int].len() == len - 1);
                    if primary_done {
                        let p = choose|p: int| 0 <= p < i && order@[p] == 0;
                        assert(order@[p] == 0);
                        assert(positions@[0] == if ps[0].row == pos.row && ps[0].col > 0 {
                            Cursor { row: pos.row, col: (ps[0].col - 1) as usize }
                        } else {
                            ps[0]
                        });
                    } else {
                        assert(positions@[x as int] == buf@.cursor);
                    }
                }
            } else {
                positions.set(x, Cursor { row: pos.row, col: len });
            }
        }
        proof {
            if x == 0 {
                assert(order@[i as int] == 0);
                primary_done = true;
            }
            assert(primary_done == exists|p: int| 0 <= p < i + 1 && order@[p] == 0);
            assert((e, ps) == erased_at(d, i as int));
            assert(fan_order(d)[i as int] == x);
            assert(buf@ =~= erased_at(d, i + 1).0);
            assert(positions@ =~= erased_at(d, i + 1).1);
        }
        i = i + 1;
    }
    proof {
        assert(ints(order@).contains(0));
        let p = choose|p: int| 0 <= p < ints(order@).len() && ints(order@)[p] == 0;
        assert(order@[p] == 0);
        assert(in_text(buf@.text, positions@[0]));
    }
    scatter_cursors(buf, positions);
}

/// The history of one document is that of another.
pub open spec fn shots_kept(a: Doc, b: Doc) -> bool {
    a.undo == b.undo && a.redo == b.redo
}

} // verus!
