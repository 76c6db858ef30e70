//! What the completion menu promises: which items it lists and in what order,
//! what moving in it selects and what taking an item leaves in the text.
use vstd::prelude::*;
use crate::app::completion::{
    first_occurrence,
    ident_start,
    law_menu,
    matches_inside,
    menu,
    place_row,
    row_le,
    rows_in_order,
    shown,
    typed,
    Row,
};
use crate::app::input::insert::Ask;
use crate::app::lsp_request::{lines_added, lines_removed, row_after};
use crate::app::{Desk, Menu};
use crate::editor::search::{law_occurrence, occurs};
use crate::editor::{Cursor, Doc};
use crate::finder::listing::seq_le;
use crate::keys::{KeyCode, KeyEvent};
use crate::lsp::edits::{edited, edited_back, in_order};
use crate::lsp::laws::{countable, law_edit_lines};
use crate::lsp::{edits_of, CompletionItem, TextEdit};
use crate::text::{alphanumeric, lower_text, split};

verus! {

/// What an item is matched by: the text it gives for that, else its label.
pub open spec fn filter_of(item: CompletionItem) -> Seq<char> {
    match item.filter_text {
        Some(s) => s@,
        None => item.label@,
    }
}

/// What an item is ordered by: the text it gives for that, else its label.
pub open spec fn order_of(item: CompletionItem) -> Seq<char> {
    match item.sort_text {
        Some(s) => s@,
        None => item.label@,
    }
}

/// Whether what is typed stands at a place of an item's text, whatever the
/// case.
pub open spec fn stands_at(item: CompletionItem, prefix: Seq<char>, c: int) -> bool {
    let needle = lower_text(prefix);
    let hay = lower_text(filter_of(item));
    0 <= c && c + needle.len() <= hay.len() && forall|i: int|
        0 <= i < needle.len() ==> hay[c + i] == #[trigger] needle[i]
}

/// Whether an item has what is typed somewhere in it.
pub open spec fn offers(item: CompletionItem, prefix: Seq<char>) -> bool {
    lower_text(prefix).len() == 0 || exists|c: int| #[trigger] stands_at(item, prefix, c)
}

/// Whether an item starts with what is typed.
pub open spec fn begins_with(item: CompletionItem, prefix: Seq<char>) -> bool {
    lower_text(prefix).len() == 0 || stands_at(item, prefix, 0)
}

proof fn lemma_first_occurrence(hay: Seq<char>, pat: Seq<char>, c: int)
    requires
        pat.len() > 0,
        0 <= c,
    ensures
        match first_occurrence(hay, pat, c) {
            Some(k) => c <= k && occurs(hay, pat, k) && forall|j: int| c <= j < k ==> !#[trigger] occurs(hay, pat, j),
            None => forall|j: int| c <= j ==> !#[trigger] occurs(hay, pat, j),
        },
    decreases hay.len() + 1 - c,
{
    if c <= hay.len() && !occurs(hay, pat, c) {
        lemma_first_occurrence(hay, pat, c + 1);
    }
}

proof fn lemma_matches(item: CompletionItem, prefix: Seq<char>)
    ensures
        matches_inside(item, prefix) is Some <==> offers(item, prefix),
        matches_inside(item, prefix) matches Some(inside) ==> inside == !begins_with(item, prefix),
{
    let needle = lower_text(prefix);
    let hay = lower_text(filter_of(item));
    if needle.len() > 0 {
        lemma_first_occurrence(hay, needle, 0);
        assert forall|c: int| #[trigger] stands_at(item, prefix, c) == occurs(hay, needle, c) by {
            law_occurrence(hay, needle, c);
        }
        if let Some(k) = first_occurrence(hay, needle, 0) {
            assert(stands_at(item, prefix, k));
        } else if exists|c: int| #[trigger] stands_at(item, prefix, c) {
            let c = choose|c: int| #[trigger] stands_at(item, prefix, c);
            assert(occurs(hay, needle, c));
        }
        assert(stands_at(item, prefix, 0) == occurs(hay, needle, 0));
    }
}

proof fn lemma_place_row_at(s: Seq<Row>, x: Row) -> (p: int)
    requires
        rows_in_order(s),
    ensures
        0 <= p <= s.len(),
        place_row(s, x) == s.insert(p, x),
        forall|i: int| p <= i < s.len() ==> !row_le(#[trigger] s[i], x),
    decreases s.len(),
{
    if s.len() == 0 || row_le(s.last(), x) {
        assert(s.insert(s.len() as int, x) =~= s.push(x));
        s.len() as int
    } else {
        let t = s.drop_last();
        let p = lemma_place_row_at(t, x);
        assert(t.insert(p, x).push(s.last()) =~= s.insert(p, x));
        assert forall|i: int| p <= i < s.len() implies !row_le(#[trigger] s[i], x) by {
            if i < t.len() {
                assert(t[i] == s[i]);
            }
        }
        p
    }
}

proof fn lemma_menu_order(items: Seq<CompletionItem>, prefix: Seq<char>, k: int)
    requires
        0 <= k <= items.len(),
    ensures
        forall|i: int, j: int|
            0 <= i < j < menu(items, prefix, k).len() ==> {
                let (a, b) = (#[trigger] menu(items, prefix, k)[i], #[trigger] menu(items, prefix, k)[j]);
                a.idx != b.idx && (a.inside == b.inside && a.key == b.key ==> a.idx < b.idx)
            },
    decreases k,
{
    if k > 0 {
        lemma_menu_order(items, prefix, k - 1);
        law_menu(items, prefix, k - 1);
        let s = menu(items, prefix, k - 1);
        if let Some(inside) = matches_inside(items[k - 1], prefix) {
            let x = Row { idx: k - 1, inside, key: items[k - 1].ordered() };
            let p = lemma_place_row_at(s, x);
            let m = menu(items, prefix, k);
            assert(m == s.insert(p, x));
            assert forall|i: int| 0 <= i < s.len() implies (#[trigger] s[i]).idx < k - 1 by {
                assert(s.contains(s[i]));
            }
            assert forall|i: int, j: int| 0 <= i < j < m.len() implies ({
                let (a, b) = (#[trigger] m[i], #[trigger] m[j]);
                a.idx != b.idx && (a.inside == b.inside && a.key == b.key ==> a.idx < b.idx)
            }) by {
                if i == p {
                    assert(m[j] == s[j - 1]);
                    assert(!row_le(s[j - 1], x));
                    lemma_le_self(x.key);
                } else if j == p {
                    assert(m[i] == s[i]);
                } else {
                    let a = if i < p {
                        i
                    } else {
                        i - 1
                    };
                    let b = if j < p {
                        j
                    } else {
                        j - 1
                    };
                    assert(m[i] == s[a] && m[j] == s[b]);
                }
            }
        }
    }
}

proof fn lemma_le_self(a: Seq<char>)
    ensures
        seq_le(a, a),
    decreases a.len(),
{
    if a.len() > 0 {
        lemma_le_self(a.drop_first());
    }
}

/// The menu lists exactly the items that have what is typed somewhere in them,
/// each once: first those that start with it, then the others; among either by
/// what they are ordered by, and among equals in the order in which they came.
#[verifier::rlimit(60)]
pub proof fn law_menu_lists_what_is_typed(m: Menu, prefix: Seq<char>)
    ensures
        ({
            let rows = m.refiltered(prefix).rows;
            &&& forall|i: int|
                0 <= i < rows.len() ==> 0 <= #[trigger] rows[i] < m.items.len() && offers(m.items[rows[i]], prefix)
            &&& forall|x: int|
                0 <= x < m.items.len() && offers(#[trigger] m.items[x], prefix) ==> exists|i: int|
                    0 <= i < rows.len() && #[trigger] rows[i] == x
            &&& forall|i: int, j: int|
                0 <= i < j < rows.len() ==> {
                    let (a, b) = (m.items[#[trigger] rows[i]], m.items[#[trigger] rows[j]]);
                    &&& rows[i] != rows[j]
                    &&& begins_with(b, prefix) ==> begins_with(a, prefix)
                    &&& begins_with(b, prefix) == begins_with(a, prefix) ==> seq_le(order_of(a), order_of(b)) && (
                    order_of(a) == order_of(b) ==> rows[i] < rows[j])
                }
            &&& m.refiltered(prefix).items == m.items
            &&& m.refiltered(prefix).start == m.start
        }),
{
    let n = m.items.len() as int;
    let all = menu(m.items, prefix, n);
    let rows = m.refiltered(prefix).rows;
    law_menu(m.items, prefix, n);
    lemma_menu_order(m.items, prefix, n);
    assert(rows == shown(all));
    assert forall|i: int| 0 <= i < rows.len() implies 0 <= #[trigger] rows[i] < m.items.len() && offers(
        m.items[rows[i]],
        prefix,
    ) && all[i].idx == rows[i] && all[i].inside == !begins_with(m.items[rows[i]], prefix) && all[i].key == order_of(
        m.items[rows[i]],
    ) by {
        assert(all.contains(all[i]));
        lemma_matches(m.items[all[i].idx], prefix);
    }
    assert forall|x: int| 0 <= x < m.items.len() && offers(#[trigger] m.items[x], prefix) implies exists|i: int|
        0 <= i < rows.len() && #[trigger] rows[i] == x by {
        lemma_matches(m.items[x], prefix);
        let r = Row { idx: x, inside: matches_inside(m.items[x], prefix)->0, key: m.items[x].ordered() };
        assert(all.contains(r));
        let i = choose|i: int| 0 <= i < all.len() && all[i] == r;
        assert(rows[i] == x);
    }
    assert forall|i: int, j: int| 0 <= i < j < rows.len() implies ({
        let (a, b) = (m.items[#[trigger] rows[i]], m.items[#[trigger] rows[j]]);
        &&& rows[i] != rows[j]
        &&& begins_with(b, prefix) ==> begins_with(a, prefix)
        &&& begins_with(b, prefix) == begins_with(a, prefix) ==> seq_le(order_of(a), order_of(b)) && (order_of(a)
            == order_of(b) ==> rows[i] < rows[j])
    }) by {
        assert(row_le(all[i], all[j]));
    }
}

/// Texts are ordered by their first difference; a text comes before those that
/// go on from it.
pub proof fn law_order_of_texts(a: Seq<char>, b: Seq<char>, k: int)
    requires
        0 <= k <= a.len(),
        k <= b.len(),
        forall|i: int| 0 <= i < k ==> a[i] == b[i],
    ensures
        k == a.len() ==> seq_le(a, b),
        k == b.len() && k < a.len() ==> !seq_le(a, b),
        k < a.len() && k < b.len() && a[k] != b[k] ==> (seq_le(a, b) <==> a[k] < b[k]),
    decreases k,
{
    if k > 0 {
        assert(a[0] == b[0]);
        let (x, y) = (a.drop_first(), b.drop_first());
        assert forall|i: int| 0 <= i < k - 1 implies x[i] == y[i] by {
            assert(a[i + 1] == b[i + 1]);
        }
        law_order_of_texts(x, y, k - 1);
    }
}

/// The selection goes on to the next row or to the previous one, and round the
/// ends of the list.
pub proof fn law_menu_moves_round(m: Menu)
    requires
        0 <= m.selected < m.rows.len(),
    ensures
        m.moved(1).selected == if m.selected + 1 < m.rows.len() {
            m.selected + 1
        } else {
            0
        },
        m.moved(-1).selected == if m.selected > 0 {
            m.selected - 1
        } else {
            m.rows.len() - 1
        },
        m.moved(1).rows == m.rows,
        m.moved(1).items == m.items,
        m.moved(1).moved(-1) == m,
        m.moved(-1).moved(1) == m,
{
    let n = m.rows.len() as int;
    let s = m.selected;
    if s + 1 < n {
        assert((s + 1) % n == s + 1) by (nonlinear_arith)
            requires
                0 <= s,
                s + 1 < n,
        ;
    } else {
        assert(n % n == 0) by (nonlinear_arith)
            requires
                n > 0,
        ;
    }
    if s > 0 {
        assert((s - 1) % n == s - 1) by (nonlinear_arith)
            requires
                0 < s < n,
        ;
    } else {
        assert((-1int) % n == n - 1) by (nonlinear_arith)
            requires
                n > 0,
        ;
    }
    assert(s % n == s) by (nonlinear_arith)
        requires
            0 <= s < n,
    ;
    if s + 1 < n {
    } else {
        assert((-1int) % n == n - 1) by (nonlinear_arith)
            requires
                n > 0,
        ;
    }
    if s > 0 {
    } else {
        assert(n % n == 0) by (nonlinear_arith)
            requires
                n > 0,
        ;
    }
}

/// Narrowing keeps the selection where the list is long enough, and else puts
/// it on the last row.
pub proof fn law_narrowing_keeps_the_selection(m: Menu, prefix: Seq<char>)
    requires
        m.selected >= 0,
    ensures
        ({
            let e = m.refiltered(prefix);
            &&& m.selected < e.rows.len() ==> e.selected == m.selected
            &&& m.selected >= e.rows.len() && e.rows.len() > 0 ==> e.selected == e.rows.len() - 1
            &&& e.rows.len() > 0 ==> 0 <= e.selected < e.rows.len() && e.current() == Some(
                m.items[e.rows[e.selected]],
            )
        }),
{
    law_menu_lists_what_is_typed(m, prefix);
}

/// The keys of an open menu.
pub proof fn law_menu_keys(desk: Desk, m: Menu, key: KeyEvent, has_lsp: bool)
    requires
        desk.menu == Some(m),
    ensures
        ({
            let (e, asked) = desk.insert_key(key, has_lsp);
            let ctrl = key.modifiers.control;
            &&& key.code is Esc ==> e == (Desk { menu: None, ..desk }) && asked is Nothing
            &&& key.code is Up || key.code is BackTab || (ctrl && key.code == KeyCode::Char('p')) ==> e == (Desk {
                menu: Some(m.moved(-1)),
                ..desk
            })
            &&& key.code is Down || key.code is Tab || (ctrl && key.code == KeyCode::Char('n')) ==> e == (Desk {
                menu: Some(m.moved(1)),
                ..desk
            })
            &&& key.code is Enter ==> e == desk.accepted().0
            &&& !ctrl && key.code is Char ==> (e, asked) == desk.text_key(key, has_lsp)
        }),
{
}

/// While typing goes on in the word, the menu is narrowed to what is typed of
/// it; it closes when nothing is left to list or the cursor leaves the word.
pub proof fn law_menu_follows_the_typing(desk: Desk, m: Menu)
    requires
        desk.menu == Some(m),
        desk.wf(),
    ensures
        ({
            let e = desk.menu_updated();
            let c = desk.doc.cursor;
            let line = desk.doc.text[c.row as int];
            let inside = c.row == m.start.row && c.col >= m.start.col;
            &&& e.doc == desk.doc
            &&& !inside ==> e.menu is None
            &&& inside ==> ({
                let n = m.refiltered(line.subrange(m.start.col as int, c.col as int));
                if n.rows.len() == 0 {
                    e.menu is None
                } else {
                    e.menu == Some(n)
                }
            })
        }),
{
    reveal(Desk::menu_updated);
    let c = desk.doc.cursor;
    let line = desk.doc.text[c.row as int];
    if c.row == m.start.row && c.col >= m.start.col {
        assert(typed(line, m.start.col as int, c.col as int) =~= line.subrange(m.start.col as int, c.col as int));
    }
}

/// Items from a server open a menu narrowed to what is typed of the word, with
/// its first row selected. A late answer, from when the cursor was elsewhere,
/// changes nothing.
pub proof fn law_offer_opens_the_menu(desk: Desk, start: Cursor, items: Seq<CompletionItem>)
    requires
        desk.wf(),
    ensures
        ({
            let e = desk.menu_offered(start, items);
            let c = desk.doc.cursor;
            let inside = c.row == start.row && c.col >= start.col;
            &&& e.doc == desk.doc
            &&& !inside ==> e == desk
            &&& inside && items.len() == 0 ==> e.menu is None
            &&& inside && items.len() > 0 ==> (e.menu matches Some(n) ==> n.start == start && n.items == items
                && n.selected == 0 && n.rows.len() > 0 && n.rows == (Menu {
                start,
                items,
                rows: Seq::empty(),
                selected: 0,
            }).refiltered(desk.doc.text[c.row as int].subrange(start.col as int, c.col as int)).rows)
        }),
{
    reveal(Desk::menu_offered);
    let c = desk.doc.cursor;
    let line = desk.doc.text[c.row as int];
    if c.row == start.row && c.col >= start.col {
        assert(typed(line, start.col as int, c.col as int) =~= line.subrange(start.col as int, c.col as int));
    }
}

/// What is completed starts with the longest run of word characters before the
/// cursor.
pub proof fn law_completion_starts_at_the_word(line: Seq<char>, k: int)
    requires
        0 <= k <= line.len(),
    ensures
        ({
            let a = ident_start(line, k);
            &&& 0 <= a <= k
            &&& forall|i: int| a <= i < k ==> alphanumeric(#[trigger] line[i]) || line[i] == '_'
            &&& a > 0 ==> !alphanumeric(line[a - 1]) && line[a - 1] != '_'
        }),
    decreases k,
{
    if k > 0 && (alphanumeric(line[k - 1]) || line[k - 1] == '_') {
        law_completion_starts_at_the_word(line, k - 1);
    }
}

/// Asking for completions asks at the cursor, for the word that starts before
/// it; without a server there is an error and nothing is asked.
pub proof fn law_asking_for_completions(desk: Desk)
    ensures
        ({
            let (e, asked) = desk.ask_completion(true);
            let (f, none) = desk.ask_completion(false);
            let c = desk.doc.cursor;
            &&& e == desk
            &&& asked == (Ask::<Seq<char>>::Completion {
                cursor: c,
                prefix_start: Cursor {
                    row: c.row,
                    col: ident_start(desk.doc.text[c.row as int], c.col as int) as usize,
                },
            })
            &&& f == (Desk { said: f.said, ..desk })
            &&& f.said.0 is Error
            &&& none is Nothing
        }),
{
}

/// What an item puts into the text: its edit's text, else the text that it
/// gives for that, else its label.
pub open spec fn insertion_of(item: CompletionItem) -> Seq<char> {
    match item.text_edit {
        Some(e) => e.new_text@,
        None => match item.insert_text {
            Some(s) => s@,
            None => item.label@,
        },
    }
}

/// Taking an item over puts its text in place of what is typed of the word,
/// leaves the rest of the line and the other lines, and puts the cursor behind
/// it. One undo brings back what was typed.
#[verifier::rlimit(60)]
pub proof fn law_accepting_completes_the_word(desk: Desk, m: Menu, item: CompletionItem)
    requires
        desk.wf(),
        countable(desk.doc.text),
        desk.menu == Some(m),
        m.current() == Some(item),
        m.start.row == desk.doc.cursor.row,
        m.start.col <= desk.doc.cursor.col,
        desk.doc.cursor.row <= u32::MAX,
        desk.doc.cursor.col <= u32::MAX,
        item.additional_text_edits@.len() == 0,
        split(insertion_of(item)).len() == 1,
        m.start.col + insertion_of(item).len() <= usize::MAX,
    ensures
        ({
            let (e, more) = desk.accepted();
            let r = m.start.row as int;
            let line = desk.doc.text[r];
            let new = insertion_of(item);
            &&& e.menu is None
            &&& e.doc.text.len() == desk.doc.text.len()
            &&& e.doc.text[r] == line.take(m.start.col as int) + new + line.skip(desk.doc.cursor.col as int)
            &&& forall|k: int| 0 <= k < desk.doc.text.len() && k != r ==> (#[trigger] e.doc.text[k])
                == desk.doc.text[k]
            &&& e.doc.cursor.row == r
            &&& e.doc.cursor.col == m.start.col + new.len()
            &&& e.doc.undone().text == desk.doc.text
            &&& e.doc.undone().cursor == desk.doc.cursor
            &&& e.doc.dirty
            &&& more matches Some(x) && x.raw == item.raw@ && x.source == item.source@
        }),
{
    reveal(Desk::accepted);
    reveal(Doc::completed);
    let d = desk.doc;
    let edit = TextEdit { range: d.word_range(m.start), new_text: insertion_of(item) };
    let none = edits_of(item.additional_text_edits@);
    assert(none =~= Seq::<TextEdit<Seq<char>>>::empty());
    let s = none.push(edit);
    assert(s =~= seq![edit]);
    reveal_with_fuel(in_order, 2);
    assert(in_order(s, 1) =~= seq![edit]);
    reveal_with_fuel(edited_back, 2);
    assert(seq![edit].drop_last() =~= Seq::<TextEdit<Seq<char>>>::empty());
    assert(crate::lsp::edits::edited_all(d.text, s) == edited(d.text, edit));
    law_edit_lines(d.text, edit);
}

/// Nothing that is selected, nothing taken over: the menu just closes.
pub proof fn law_accepting_nothing(desk: Desk, m: Menu)
    requires
        desk.menu == Some(m),
        m.current() is None,
    ensures
        desk.accepted().0 == (Desk { menu: None, ..desk }),
        desk.accepted().1 is None,
{
    reveal(Desk::accepted);
}

/// Edits that belong to a completion and come later are made in the document
/// that they are for, and in no other.
pub proof fn law_late_edits(desk: Desk, uri: Seq<char>, current: Option<Seq<char>>, edits: Seq<TextEdit<Seq<char>>>)
    ensures
        edits.len() == 0 ==> desk.resolved(uri, current, edits) == desk,
        current != Some(uri) ==> desk.resolved(uri, current, edits) == desk,
        edits.len() > 0 && current == Some(uri) ==> ({
            let e = desk.resolved(uri, current, edits);
            &&& e.doc.text == crate::lsp::edits::edited_all(desk.doc.text, edits)
            &&& e.doc.undone().text == desk.doc.text
            &&& e.doc.dirty
            &&& e.doc.cursor.col == desk.doc.cursor.col
        }),
{
    reveal(Doc::imported);
}

/// Lines that edits add above a row move it down, those that they take away
/// above it move it up, and edits at the row or below it leave it.
pub proof fn law_row_after_edits(edits: Seq<TextEdit<Seq<char>>>, e: TextEdit<Seq<char>>, row: int)
    requires
        split(e.new_text).len() >= 1,
    ensures
        ({
            let n = edits.len() as int;
            let all = edits.push(e);
            &&& lines_added(Seq::empty(), row, 0) == 0
            &&& lines_removed(Seq::empty(), row, 0) == 0
            &&& lines_added(all, row, n + 1) == lines_added(edits, row, n) + if e.range.start.line < row {
                split(e.new_text).len() - 1
            } else {
                0
            }
            &&& lines_removed(all, row, n + 1) == lines_removed(edits, row, n) + if e.range.start.line < row
                && e.range.end.line > e.range.start.line {
                e.range.end.line - e.range.start.line
            } else {
                0
            }
        }),
{
    lemma_lines_take(edits, e, row, edits.len() as int);
}

proof fn lemma_lines_take(edits: Seq<TextEdit<Seq<char>>>, e: TextEdit<Seq<char>>, row: int, k: int)
    requires
        0 <= k <= edits.len(),
    ensures
        lines_added(edits.push(e), row, k) == lines_added(edits, row, k),
        lines_removed(edits.push(e), row, k) == lines_removed(edits, row, k),
    decreases k,
{
    if k > 0 {
        lemma_lines_take(edits, e, row, k - 1);
    }
}

/// The cursor's row goes with the lines that edits add and take away above it,
/// and stays among the lines that there are.
pub proof fn law_row_goes_with_the_lines(edits: Seq<TextEdit<Seq<char>>>, row: int, more: int, lines: int)
    requires
        lines >= 1,
    ensures
        ({
            let n = edits.len() as int;
            let to = row + more + lines_added(edits, row, n) - lines_removed(edits, row, n);
            let r = row_after(edits, row, more, lines);
            &&& 0 <= to < lines ==> r == to
            &&& to < 0 ==> r == 0
            &&& to >= lines ==> r == lines - 1
        }),
{
}

} // verus!
