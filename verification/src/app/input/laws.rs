//! What typing at several cursors promises.
use vstd::prelude::*;
use crate::app::input::fan_out::{
    cursors_of,
    distinct_extras,
    erased_at,
    fan_order,
    from_last,
    lemma_from_last,
    place_cursor,
    pulled,
    pushed,
    typed_at,
};
use crate::editor::{in_text, Cursor, Doc};

verus! {

/// Every cursor is in the text, no two stand in one row, and no line is longer
/// than a column can say.
pub open spec fn one_to_a_row(d: Doc) -> bool {
    let all = seq![d.cursor] + d.extra;
    &&& forall|x: int| 0 <= x < all.len() ==> in_text(d.text, #[trigger] all[x])
    &&& forall|x: int, y: int| 0 <= x < y < all.len() ==> (#[trigger] all[x]).row != (#[trigger] all[y]).row
    &&& forall|k: int| 0 <= k < d.text.len() ==> (#[trigger] d.text[k]).len() < usize::MAX
}

proof fn lemma_pushed_elsewhere(ps: Seq<Cursor>, order: Seq<int>, row: usize, k: int)
    requires
        0 <= k <= order.len(),
        forall|j: int| 0 <= j < k ==> ps[#[trigger] order[j]].row != row,
    ensures
        pushed(ps, order, row, k) == ps,
        pulled(ps, order, row, k) == ps,
    decreases k,
{
    if k > 0 {
        lemma_pushed_elsewhere(ps, order, row, k - 1);
        assert(ps[order[k - 1]].row != row);
    }
}

proof fn lemma_typed(d: Doc, ch: char, i: int)
    requires
        one_to_a_row(d),
        0 <= i <= cursors_of(d).len(),
    ensures
        ({
            let all = cursors_of(d);
            let order = fan_order(d);
            let (e, ps) = typed_at(d, ch, i);
            &&& e.text.len() == d.text.len()
            &&& ps.len() == all.len()
            &&& forall|j: int|
                #![trigger order[j]]
                0 <= j < all.len() ==> ({
                    let c = all[order[j]];
                    if j < i {
                        &&& ps[order[j]] == (Cursor { row: c.row, col: (c.col + 1) as usize })
                        &&& e.text[c.row as int] == d.text[c.row as int].insert(c.col as int, ch)
                    } else {
                        &&& ps[order[j]] == c
                        &&& e.text[c.row as int] == d.text[c.row as int]
                    }
                })
            &&& forall|r: int|
                0 <= r < d.text.len() && (forall|x: int| 0 <= x < all.len() ==> (#[trigger] all[x]).row != r)
                    ==> #[trigger] e.text[r] == d.text[r]
            &&& e.yank == d.yank
            &&& e.undo == d.undo
            &&& i > 0 ==> e.dirty
        }),
    decreases i,
{
    let all = cursors_of(d);
    let order = fan_order(d);
    lemma_from_last(all, all.len() as int);
    if i > 0 {
        lemma_typed(d, ch, i - 1);
        let (e, ps) = typed_at(d, ch, i - 1);
        let x = order[i - 1];
        let c = all[x];
        let f = Doc { cursor: c, ..e }.insert_char(ch);
        assert(in_text(d.text, c));
        assert(d.text[c.row as int].len() < usize::MAX);
        assert(e.text[c.row as int] == d.text[c.row as int]);
        let qs = ps.update(x, f.cursor);
        assert forall|j: int| 0 <= j < i - 1 implies qs[#[trigger] order[j]].row != c.row by {
            assert(order[j] != x);
            assert(ps[order[j]].row == all[order[j]].row);
            assert(all[order[j]].row != all[x].row);
        }
        lemma_pushed_elsewhere(qs, order, c.row, i - 1);
        assert(typed_at(d, ch, i) == (f, qs));
        assert forall|j: int| #![trigger order[j]] 0 <= j < all.len() implies ({
            let b = all[order[j]];
            if j < i {
                &&& qs[order[j]] == (Cursor { row: b.row, col: (b.col + 1) as usize })
                &&& f.text[b.row as int] == d.text[b.row as int].insert(b.col as int, ch)
            } else {
                &&& qs[order[j]] == b
                &&& f.text[b.row as int] == d.text[b.row as int]
            }
        }) by {
            if j != i - 1 {
                assert(order[j] != x);
                assert(all[order[j]].row != c.row);
                assert(in_text(d.text, all[order[j]]));
            }
        }
        assert forall|r: int|
            0 <= r < d.text.len() && (forall|y: int| 0 <= y < all.len() ==> (#[trigger] all[y]).row != r) implies #[trigger] f.text[r]
            == d.text[r] by {
            assert(all[x].row != r);
            assert(e.text[r] == d.text[r]);
        }
    } else {
        assert forall|j: int| #![trigger order[j]] 0 <= j < all.len() implies in_text(d.text, all[order[j]]) by {}
    }
}

proof fn lemma_erased(d: Doc, i: int)
    requires
        one_to_a_row(d),
        forall|x: int| 0 <= x < cursors_of(d).len() ==> (#[trigger] cursors_of(d)[x]).col > 0,
        0 <= i <= cursors_of(d).len(),
    ensures
        ({
            let all = cursors_of(d);
            let order = fan_order(d);
            let (e, ps) = erased_at(d, i);
            &&& e.text.len() == d.text.len()
            &&& ps.len() == all.len()
            &&& forall|j: int|
                #![trigger order[j]]
                0 <= j < all.len() ==> ({
                    let c = all[order[j]];
                    if j < i {
                        &&& ps[order[j]] == (Cursor { row: c.row, col: (c.col - 1) as usize })
                        &&& e.text[c.row as int] == d.text[c.row as int].remove(c.col - 1)
                    } else {
                        &&& ps[order[j]] == c
                        &&& e.text[c.row as int] == d.text[c.row as int]
                    }
                })
            &&& forall|r: int|
                0 <= r < d.text.len() && (forall|x: int| 0 <= x < all.len() ==> (#[trigger] all[x]).row != r)
                    ==> #[trigger] e.text[r] == d.text[r]
            &&& e.yank == d.yank
            &&& e.undo == d.undo
            &&& i > 0 ==> e.dirty
        }),
    decreases i,
{
    let all = cursors_of(d);
    let order = fan_order(d);
    lemma_from_last(all, all.len() as int);
    if i > 0 {
        lemma_erased(d, i - 1);
        let (e, ps) = erased_at(d, i - 1);
        let x = order[i - 1];
        let c = all[x];
        assert(in_text(d.text, c) && c.col > 0);
        assert(e.text[c.row as int] == d.text[c.row as int]);
        assert(in_text(e.text, c));
        let f = Doc { cursor: c, ..e }.delete_before();
        let qs = ps.update(x, f.cursor);
        assert forall|j: int| 0 <= j < i - 1 implies qs[#[trigger] order[j]].row != c.row by {
            assert(order[j] != x);
            assert(ps[order[j]].row == all[order[j]].row);
            assert(all[order[j]].row != all[x].row);
        }
        lemma_pushed_elsewhere(qs, order, c.row, i - 1);
        assert(erased_at(d, i) == (f, qs));
        assert forall|j: int| #![trigger order[j]] 0 <= j < all.len() implies ({
            let b = all[order[j]];
            if j < i {
                &&& qs[order[j]] == (Cursor { row: b.row, col: (b.col - 1) as usize })
                &&& f.text[b.row as int] == d.text[b.row as int].remove(b.col - 1)
            } else {
                &&& qs[order[j]] == b
                &&& f.text[b.row as int] == d.text[b.row as int]
            }
        }) by {
            if j != i - 1 {
                assert(order[j] != x);
                assert(all[order[j]].row != c.row);
                assert(in_text(d.text, all[order[j]]));
            }
        }
        assert forall|r: int|
            0 <= r < d.text.len() && (forall|y: int| 0 <= y < all.len() ==> (#[trigger] all[y]).row != r) implies #[trigger] f.text[r]
            == d.text[r] by {
            assert(all[x].row != r);
            assert(e.text[r] == d.text[r]);
        }
    } else {
        assert forall|j: int| #![trigger order[j]] 0 <= j < all.len() implies in_text(d.text, all[order[j]]) by {}
    }
}

proof fn lemma_extras_all(ps: Seq<Cursor>, k: int)
    requires
        1 <= k <= ps.len(),
        forall|x: int, y: int| 0 <= x < y < ps.len() ==> (#[trigger] ps[x]).row != (#[trigger] ps[y]).row,
    ensures
        distinct_extras(ps, k) == ps.subrange(1, k),
    decreases k,
{
    if k > 1 {
        lemma_extras_all(ps, k - 1);
        let s = distinct_extras(ps, k - 1);
        assert(ps[0].row != ps[k - 1].row);
        assert(!s.contains(ps[k - 1])) by {
            if s.contains(ps[k - 1]) {
                let i = choose|i: int| 0 <= i < s.len() && s[i] == ps[k - 1];
                assert(s[i] == ps[i + 1]);
            }
        }
        assert(s.push(ps[k - 1]) =~= ps.subrange(1, k));
    } else {
        assert(ps.subrange(1, k) =~= Seq::empty());
    }
}

/// A character typed at several cursors, each in a row of its own, stands before
/// each of them, and each goes on behind it. The rows without a cursor stay.
#[verifier::rlimit(60)]
pub proof fn law_typing_at_every_cursor(d: Doc, ch: char)
    requires
        one_to_a_row(d),
        d.extra.len() > 0,
    ensures
        ({
            let all = seq![d.cursor] + d.extra;
            let e = d.fan_insert(ch);
            &&& e.text.len() == d.text.len()
            &&& forall|x: int|
                0 <= x < all.len() ==> ({
                    let c = #[trigger] all[x];
                    e.text[c.row as int] == d.text[c.row as int].take(c.col as int) + seq![ch]
                        + d.text[c.row as int].skip(c.col as int)
                })
            &&& forall|r: int|
                0 <= r < d.text.len() && (forall|x: int| 0 <= x < all.len() ==> (#[trigger] all[x]).row != r)
                    ==> #[trigger] e.text[r] == d.text[r]
            &&& e.cursor == (Cursor { row: d.cursor.row, col: (d.cursor.col + 1) as usize })
            &&& e.extra.len() == d.extra.len()
            &&& forall|k: int|
                0 <= k < d.extra.len() ==> (#[trigger] e.extra[k]) == (Cursor {
                    row: d.extra[k].row,
                    col: (d.extra[k].col + 1) as usize,
                })
            &&& e.yank == d.yank
            &&& e.dirty
        }),
{
    reveal(Doc::fan_insert);
    let all = cursors_of(d);
    let n = all.len() as int;
    let order = fan_order(d);
    lemma_from_last(all, n);
    lemma_typed(d, ch, n);
    let (e, ps) = typed_at(d, ch, n);
    assert forall|x: int| 0 <= x < n implies (#[trigger] ps[x]) == (Cursor {
        row: all[x].row,
        col: (all[x].col + 1) as usize,
    }) && e.text[all[x].row as int] == d.text[all[x].row as int].insert(all[x].col as int, ch) by {
        assert(from_last(all, n).contains(x));
        let j = choose|j: int| 0 <= j < order.len() && order[j] == x;
        assert(order[j] == x);
    }
    assert forall|x: int| 0 <= x < n implies ({
        let c = #[trigger] all[x];
        e.text[c.row as int] == d.text[c.row as int].take(c.col as int) + seq![ch] + d.text[c.row as int].skip(
            c.col as int,
        )
    }) by {
        assert(ps[x].row == all[x].row);
        assert(in_text(d.text, all[x]));
        let line = d.text[all[x].row as int];
        let col = all[x].col as int;
        assert(line.insert(col, ch) =~= line.take(col) + seq![ch] + line.skip(col));
    }
    lemma_extras_all(ps, n);
    let f = d.fan_insert(ch);
    assert(f.extra == ps.subrange(1, n));
    assert(all[0] == d.cursor);
    assert(ps[0].row == all[0].row);
    assert forall|k: int| 0 <= k < d.extra.len() implies (#[trigger] f.extra[k]) == (Cursor {
        row: d.extra[k].row,
        col: (d.extra[k].col + 1) as usize,
    }) by {
        assert(f.extra[k] == ps[k + 1]);
        assert(all[k + 1] == d.extra[k]);
    }
}

/// Backspace at several cursors, each in a row of its own and none at its start,
/// takes the character before each of them away.
#[verifier::rlimit(60)]
pub proof fn law_erasing_at_every_cursor(d: Doc)
    requires
        one_to_a_row(d),
        d.extra.len() > 0,
        d.cursor.col > 0,
        forall|k: int| 0 <= k < d.extra.len() ==> (#[trigger] d.extra[k]).col > 0,
    ensures
        ({
            let all = seq![d.cursor] + d.extra;
            let e = d.fan_erase();
            &&& e.text.len() == d.text.len()
            &&& forall|x: int|
                0 <= x < all.len() ==> ({
                    let c = #[trigger] all[x];
                    e.text[c.row as int] == d.text[c.row as int].take(c.col - 1) + d.text[c.row as int].skip(
                        c.col as int,
                    )
                })
            &&& forall|r: int|
                0 <= r < d.text.len() && (forall|x: int| 0 <= x < all.len() ==> (#[trigger] all[x]).row != r)
                    ==> #[trigger] e.text[r] == d.text[r]
            &&& e.cursor == (Cursor { row: d.cursor.row, col: (d.cursor.col - 1) as usize })
            &&& e.extra.len() == d.extra.len()
            &&& forall|k: int|
                0 <= k < d.extra.len() ==> (#[trigger] e.extra[k]) == (Cursor {
                    row: d.extra[k].row,
                    col: (d.extra[k].col - 1) as usize,
                })
        }),
{
    reveal(Doc::fan_erase);
    let all = cursors_of(d);
    let n = all.len() as int;
    let order = fan_order(d);
    lemma_from_last(all, n);
    assert forall|x: int| 0 <= x < n implies (#[trigger] all[x]).col > 0 by {
        if x > 0 {
            assert(all[x] == d.extra[x - 1]);
        }
    }
    lemma_erased(d, n);
    let (e, ps) = erased_at(d, n);
    assert forall|x: int| 0 <= x < n implies (#[trigger] ps[x]) == (Cursor {
        row: all[x].row,
        col: (all[x].col - 1) as usize,
    }) && e.text[all[x].row as int] == d.text[all[x].row as int].remove(all[x].col - 1) by {
        assert(from_last(all, n).contains(x));
        let j = choose|j: int| 0 <= j < order.len() && order[j] == x;
        assert(order[j] == x);
    }
    assert forall|x: int| 0 <= x < n implies ({
        let c = #[trigger] all[x];
        e.text[c.row as int] == d.text[c.row as int].take(c.col - 1) + d.text[c.row as int].skip(c.col as int)
    }) by {
        assert(ps[x].row == all[x].row);
        assert(in_text(d.text, all[x]));
        let line = d.text[all[x].row as int];
        let col = all[x].col as int;
        assert(line.remove(col - 1) =~= line.take(col - 1) + line.skip(col));
    }
    lemma_extras_all(ps, n);
    let f = d.fan_erase();
    assert(f.extra == ps.subrange(1, n));
    assert(all[0] == d.cursor);
    assert(ps[0].row == all[0].row);
    assert forall|k: int| 0 <= k < d.extra.len() implies (#[trigger] f.extra[k]) == (Cursor {
        row: d.extra[k].row,
        col: (d.extra[k].col - 1) as usize,
    }) by {
        assert(f.extra[k] == ps[k + 1]);
        assert(all[k + 1] == d.extra[k]);
    }
}

/// Two cursors in one row: the character stands before each, and the later one
/// moves over both.
#[verifier::rlimit(60)]
pub proof fn law_typing_twice_in_a_row(d: Doc, ch: char)
    requires
        d.extra.len() == 1,
        in_text(d.text, d.cursor),
        in_text(d.text, d.extra[0]),
        d.cursor.row == d.extra[0].row,
        d.cursor.col != d.extra[0].col,
        d.text[d.cursor.row as int].len() + 2 <= usize::MAX,
    ensures
        ({
            let e = d.fan_insert(ch);
            let r = d.cursor.row as int;
            let line = d.text[r];
            let (a, b) = if d.cursor.col < d.extra[0].col {
                (d.cursor.col as int, d.extra[0].col as int)
            } else {
                (d.extra[0].col as int, d.cursor.col as int)
            };
            let first = Cursor { row: d.cursor.row, col: (a + 1) as usize };
            let second = Cursor { row: d.cursor.row, col: (b + 2) as usize };
            &&& e.text.len() == d.text.len()
            &&& e.text[r] == line.take(a) + seq![ch] + line.subrange(a, b) + seq![ch] + line.skip(b)
            &&& forall|k: int| 0 <= k < d.text.len() && k != r ==> (#[trigger] e.text[k]) == d.text[k]
            &&& d.cursor.col < d.extra[0].col ==> e.cursor == first && e.extra == seq![second]
            &&& d.cursor.col > d.extra[0].col ==> e.cursor == second && e.extra == seq![first]
        }),
{
    reveal(Doc::fan_insert);
    reveal_with_fuel(typed_at, 3);
    reveal_with_fuel(from_last, 3);
    reveal_with_fuel(place_cursor, 3);
    reveal_with_fuel(pushed, 3);
    reveal_with_fuel(distinct_extras, 3);
    let all = cursors_of(d);
    assert(all.len() == 2);
    assert(all[0] == d.cursor && all[1] == d.extra[0]);
    let r = d.cursor.row as int;
    let line = d.text[r];
    let later: int = if d.cursor.col < d.extra[0].col {
        1
    } else {
        0
    };
    let earlier: int = 1 - later;
    let b = all[later].col as int;
    let a = all[earlier].col as int;
    assert(from_last(all, 1) =~= seq![0int]);
    assert(seq![0int].drop_last() =~= Seq::<int>::empty());
    assert(fan_order(d) =~= seq![later, earlier]);
    let (e1, ps1) = typed_at(d, ch, 1);
    assert(e1.text[r] == line.insert(b, ch));
    assert(ps1 =~= all.update(later, Cursor { row: d.cursor.row, col: (b + 1) as usize }));
    let (e2, ps2) = typed_at(d, ch, 2);
    assert(e2.text[r] == line.insert(b, ch).insert(a, ch));
    assert(line.insert(b, ch).insert(a, ch) =~= line.take(a) + seq![ch] + line.subrange(a, b) + seq![ch] + line.skip(b));
    assert(ps2[earlier] == (Cursor { row: d.cursor.row, col: (a + 1) as usize }));
    assert(ps2[later] == (Cursor { row: d.cursor.row, col: (b + 2) as usize }));
    assert(distinct_extras(ps2, 1) =~= Seq::empty());
    assert(distinct_extras(ps2, 2) =~= seq![ps2[1]]);
}

} // verus!
