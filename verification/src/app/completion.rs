//! The completion menu.
use vstd::prelude::*;
use crate::editor::search::occurs;
use crate::editor::Cursor;
use crate::finder::listing::{lemma_seq_le_total, lemma_seq_le_trans, seq_le, str_le};
use crate::lsp::CompletionItem;
use crate::text::{alphanumeric, chars_of, lower_text, same_chars, slice_chars, string_slice, to_lower_text};

verus! {

/// The open menu: the items as the server gave them, and which of them match
/// what is typed, in the order in which they are shown.
#[derive(Debug)]
pub struct CompletionState {
    /// Where the word that is completed starts.
    pub prefix_start: Cursor,
    pub items: Vec<CompletionItem>,
    /// Indices into `items`.
    pub filtered: Vec<usize>,
    /// The selected row of `filtered`.
    pub selected: usize,
}

/// A row of the menu, with what orders it.
pub struct Row {
    pub idx: int,
    /// Whether the match lies behind the item's start.
    pub inside: bool,
    pub key: Seq<char>,
}

/// The first occurrence at or after `c`.
pub open spec fn first_occurrence(hay: Seq<char>, pat: Seq<char>, c: int) -> Option<int>
    decreases hay.len() + 1 - c,
{
    if c > hay.len() {
        None
    } else if occurs(hay, pat, c) {
        Some(c)
    } else {
        first_occurrence(hay, pat, c + 1)
    }
}

/// Whether an item matches behind its start, where it matches at all, without
/// regard to case. Nothing typed matches every item at its start.
pub open spec fn matches_inside(item: CompletionItem, prefix: Seq<char>) -> Option<bool> {
    let needle = lower_text(prefix);
    let hay = lower_text(item.matched());
    if needle.len() == 0 {
        Some(false)
    } else {
        match first_occurrence(hay, needle, 0) {
            Some(c) => Some(c > 0),
            None => None,
        }
    }
}

/// The order of the menu: matches at the start first, then those behind it;
/// among either by the sort text.
pub open spec fn row_le(a: Row, b: Row) -> bool {
    (!a.inside && b.inside) || (a.inside == b.inside && seq_le(a.key, b.key))
}

/// Puts a row behind all those that do not come after it.
pub open spec fn place_row(s: Seq<Row>, x: Row) -> Seq<Row>
    decreases s.len(),
{
    if s.len() == 0 || row_le(s.last(), x) {
        s.push(x)
    } else {
        place_row(s.drop_last(), x).push(s.last())
    }
}

/// The rows of the menu for the first `k` items.
pub open spec fn menu(items: Seq<CompletionItem>, prefix: Seq<char>, k: int) -> Seq<Row>
    decreases k,
{
    if k <= 0 {
        Seq::empty()
    } else {
        match matches_inside(items[k - 1], prefix) {
            Some(inside) => place_row(
                menu(items, prefix, k - 1),
                Row { idx: k - 1, inside, key: items[k - 1].ordered() },
            ),
            None => menu(items, prefix, k - 1),
        }
    }
}

/// The items of a menu, by their indices.
pub open spec fn shown(rows: Seq<Row>) -> Seq<int> {
    Seq::new(rows.len(), |i: int| rows[i].idx)
}

pub open spec fn indices(v: Seq<usize>) -> Seq<int> {
    Seq::new(v.len(), |i: int| v[i] as int)
}

pub open spec fn rows_in_order(s: Seq<Row>) -> bool {
    forall|i: int, j: int| 0 <= i < j < s.len() ==> row_le(#[trigger] s[i], #[trigger] s[j])
}

/// A row as it is put together.
struct Ranked {
    idx: usize,
    inside: bool,
    key: String,
}

impl View for Ranked {
    type V = Row;

    closed spec fn view(&self) -> Row {
        Row { idx: self.idx as int, inside: self.inside, key: self.key@ }
    }
}

spec fn rows_of(v: Seq<Ranked>) -> Seq<Row> {
    Seq::new(v.len(), |i: int| v[i]@)
}

/// The menu is in order, and holds exactly the items that match.
pub proof fn law_menu(items: Seq<CompletionItem>, prefix: Seq<char>, k: int)
    requires
        0 <= k <= items.len(),
    ensures
        rows_in_order(menu(items, prefix, k)),
        forall|r: Row|
            menu(items, prefix, k).contains(r) <==> 0 <= r.idx < k && matches_inside(items[r.idx], prefix) == Some(r.inside)
                && r.key == items[r.idx].ordered(),
    decreases k,
{
    if k > 0 {
        law_menu(items, prefix, k - 1);
        let s = menu(items, prefix, k - 1);
        match matches_inside(items[k - 1], prefix) {
            Some(inside) => {
                let x = Row { idx: k - 1, inside, key: items[k - 1].ordered() };
                lemma_place_row(s, x);
                assert forall|r: Row|
                    menu(items, prefix, k).contains(r) <==> 0 <= r.idx < k && matches_inside(items[r.idx], prefix) == Some(r.inside)
                        && r.key == items[r.idx].ordered() by {
                    assert(menu(items, prefix, k).contains(r) <==> s.contains(r) || r == x);
                }
            },
            None => {},
        }
    }
}

proof fn lemma_row_le_trans(a: Row, b: Row, c: Row)
    requires
        row_le(a, b),
        row_le(b, c),
    ensures
        row_le(a, c),
{
    if a.inside == b.inside && b.inside == c.inside {
        lemma_seq_le_trans(a.key, b.key, c.key);
    }
}

proof fn lemma_place_row(s: Seq<Row>, x: Row)
    requires
        rows_in_order(s),
    ensures
        rows_in_order(place_row(s, x)),
        place_row(s, x).len() == s.len() + 1,
        forall|r: Row|
            #![trigger place_row(s, x).contains(r)]
            #![trigger s.contains(r)]
            place_row(s, x).contains(r) <==> s.contains(r) || r == x,
    decreases s.len(),
{
    if s.len() == 0 || row_le(s.last(), x) {
        let t = s.push(x);
        assert forall|i: int, j: int| 0 <= i < j < t.len() implies row_le(#[trigger] t[i], #[trigger] t[j]) by {
            if j == s.len() {
                if i < s.len() - 1 {
                    lemma_row_le_trans(s[i], s.last(), x);
                }
            }
        }
        assert forall|r: Row| t.contains(r) <==> s.contains(r) || r == x by {
            if s.contains(r) {
                let i = choose|i: int| 0 <= i < s.len() && s[i] == r;
                assert(t[i] == r);
            }
            assert(t[s.len() as int] == x);
        }
    } else {
        let d = s.drop_last();
        let p = place_row(d, x);
        let l = s.last();
        lemma_place_row(d, x);
        lemma_seq_le_total(l.key, x.key);
        let t = p.push(l);
        assert forall|i: int, j: int| 0 <= i < j < t.len() implies row_le(#[trigger] t[i], #[trigger] t[j]) by {
            if j == p.len() {
                assert(p.contains(p[i]));
                if p[i] != x {
                    assert(d.contains(p[i]));
                    let m = choose|m: int| 0 <= m < d.len() && d[m] == p[i];
                    assert(s[m] == p[i]);
                    assert(row_le(s[m], s[s.len() - 1]));
                }
            }
        }
        assert forall|r: Row| t.contains(r) <==> s.contains(r) || r == x by {
            if t.contains(r) {
                let i = choose|i: int| 0 <= i < t.len() && t[i] == r;
                if i < p.len() {
                    assert(p.contains(r));
                    if r != x {
                        assert(d.contains(r));
                        let m = choose|m: int| 0 <= m < d.len() && d[m] == r;
                        assert(s[m] == r);
                    }
                } else {
                    assert(s[s.len() - 1] == r);
                }
            }
            if s.contains(r) || r == x {
                if r == l {
                    assert(t[p.len() as int] == r);
                } else {
                    if s.contains(r) {
                        let m = choose|m: int| 0 <= m < s.len() && s[m] == r;
                        assert(d[m] == r);
                        assert(d.contains(r));
                    }
                    assert(d.contains(r) || r == x);
                    assert(place_row(d, x).contains(r));
                    let i = choose|i: int| 0 <= i < p.len() && p[i] == r;
                    assert(t[i] == r);
                }
            }
        }
    }
}

fn find_first(hay: &Vec<char>, pat: &Vec<char>) -> (r: Option<usize>)
    requires
        pat.len() > 0,
    ensures
        match (r, first_occurrence(hay@, pat@, 0)) {
            (Some(a), Some(b)) => a == b && a <= hay.len(),
            (None, None) => true,
            _ => false,
        },
{
    let mut c: usize = 0;
    loop
        invariant
            c <= hay.len(),
            pat.len() > 0,
            first_occurrence(hay@, pat@, 0) == first_occurrence(hay@, pat@, c as int),
        decreases hay.len() - c,
    {
        if pat.len() > hay.len() - c {
            proof {
                lemma_too_short(hay@, pat@, c as int);
            }
            return None;
        }
        let s = slice_chars(hay, c, c + pat.len());
        if same_chars(&s, pat) {
            return Some(c);
        }
        proof {
            if c == hay.len() {
                assert(pat.len() == 0);
            }
        }
        c = c + 1;
    }
}

proof fn lemma_too_short(hay: Seq<char>, pat: Seq<char>, c: int)
    requires
        0 <= c,
        pat.len() > hay.len() - c,
    ensures
        first_occurrence(hay, pat, c) is None,
    decreases hay.len() + 1 - c,
{
    if c <= hay.len() {
        lemma_too_short(hay, pat, c + 1);
    }
}

fn place_ranked(out: &mut Vec<Ranked>, x: Ranked)
    ensures
        rows_of(final(out)@) == place_row(rows_of(old(out)@), x@),
{
    let ghost s = rows_of(out@);
    let ghost v = x@;
    let mut k: usize = out.len();
    proof {
        assert(s.take(k as int) =~= s);
        assert(place_row(s, v) =~= place_row(s.take(k as int), v) + s.skip(k as int));
    }
    while k > 0
        invariant
            k <= out.len(),
            s == rows_of(out@),
            v == x@,
            place_row(s, v) == place_row(s.take(k as int), v) + s.skip(k as int),
        ensures
            k <= out.len(),
            s == rows_of(out@),
            place_row(s, v) == s.take(k as int).push(v) + s.skip(k as int),
        decreases k,
    {
        let le = {
            let q = &out[k - 1];
            (!q.inside && x.inside) || (q.inside == x.inside && str_le(q.key.as_str(), x.key.as_str()))
        };
        proof {
            assert(s.take(k as int).last() == s[k - 1]);
            assert(s[k - 1] == out@[k - 1]@);
            assert(s.take(k as int).drop_last() =~= s.take(k - 1));
        }
        if le {
            break;
        }
        proof {
            assert(place_row(s, v) =~= place_row(s.take(k - 1), v) + s.skip(k - 1));
        }
        k = k - 1;
    }
    out.insert(k, x);
    proof {
        assert(rows_of(out@) =~= s.take(k as int).push(v) + s.skip(k as int));
    }
}

impl CompletionState {
    /// Every shown item exists.
    pub open spec fn wf(self) -> bool {
        forall|i: int| 0 <= i < self.filtered.len() ==> (#[trigger] self.filtered@[i]) < self.items.len()
    }

    /// A menu for what a server gave, narrowed to what is typed already.
    pub fn new(prefix_start: Cursor, items: Vec<CompletionItem>, prefix: &str) -> (r: CompletionState)
        ensures
            r.prefix_start == prefix_start,
            r.items == items,
            r.selected == 0,
            indices(r.filtered@) == shown(menu(items@, prefix@, items@.len() as int)),
            r.wf(),
    {
        let mut s = CompletionState { prefix_start, items, filtered: Vec::new(), selected: 0 };
        s.refilter(prefix);
        s
    }

    /// Lists the items that match what is typed, and keeps the selection
    /// within them.
    pub fn refilter(&mut self, prefix: &str)
        ensures
            final(self).prefix_start == old(self).prefix_start,
            final(self).items == old(self).items,
            indices(final(self).filtered@) == shown(menu(old(self).items@, prefix@, old(self).items@.len() as int)),
            final(self).selected == if old(self).selected < final(self).filtered.len() {
                old(self).selected as int
            } else if final(self).filtered.len() == 0 {
                0
            } else {
                final(self).filtered.len() - 1
            },
            final(self).wf(),
    {
        let needle = chars_of(to_lower_text(prefix).as_str());
        let mut rows: Vec<Ranked> = Vec::new();
        let mut i: usize = 0;
        proof {
            assert(rows_of(rows@) =~= menu(self.items@, prefix@, 0));
        }
        while i < self.items.len()
            invariant
                i <= self.items.len(),
                *self == *old(self),
                needle@ == lower_text(prefix@),
                rows_of(rows@) == menu(self.items@, prefix@, i as int),
            decreases self.items.len() - i,
        {
            let hay = chars_of(to_lower_text(self.items[i].filter_key()).as_str());
            let inside: Option<bool> = if needle.len() == 0 {
                Some(false)
            } else {
                match find_first(&hay, &needle) {
                    Some(c) => Some(c > 0),
                    None => None,
                }
            };
            if let Some(inside) = inside {
                let key = crate::text::copy_str(self.items[i].sort_key());
                let x = Ranked { idx: i, inside, key };
                place_ranked(&mut rows, x);
            }
            i = i + 1;
        }
        let ghost all = menu(self.items@, prefix@, self.items@.len() as int);
        let mut filtered: Vec<usize> = Vec::new();
        let mut k: usize = 0;
        while k < rows.len()
            invariant
                k <= rows.len(),
                *self == *old(self),
                all == rows_of(rows@),
                all == menu(self.items@, prefix@, self.items@.len() as int),
                filtered.len() == k,
                forall|j: int| 0 <= j < k ==> filtered@[j] == all[j].idx,
                forall|j: int| 0 <= j < k ==> (#[trigger] filtered@[j]) < self.items.len(),
            decreases rows.len() - k,
        {
            proof {
                law_menu(self.items@, prefix@, self.items@.len() as int);
                assert(all[k as int] == rows@[k as int]@);
                assert(all.contains(all[k as int]));
            }
            filtered.push(rows[k].idx);
            k = k + 1;
        }
        proof {
            assert(indices(filtered@) =~= shown(all));
        }
        self.filtered = filtered;
        if self.selected >= self.filtered.len() {
            self.selected = self.filtered.len().saturating_sub(1);
        }
    }

    pub fn is_empty(&self) -> (r: bool)
        ensures
            r == (self.filtered.len() == 0),
    {
        self.filtered.len() == 0
    }

    /// The selected item.
    pub fn current(&self) -> (r: Option<&CompletionItem>)
        ensures
            match r {
                Some(item) => self.selected < self.filtered.len() && self.filtered@[self.selected as int]
                    < self.items.len() && *item == self.items@[self.filtered@[self.selected as int] as int],
                None => self.selected >= self.filtered.len() || self.filtered@[self.selected as int]
                    >= self.items.len(),
            },
    {
        if self.selected >= self.filtered.len() {
            return None;
        }
        let i = self.filtered[self.selected];
        if i >= self.items.len() {
            return None;
        }
        Some(&self.items[i])
    }

    /// Moves the selection down by `delta` rows, or up, round the ends.
    pub fn move_selection(&mut self, delta: isize)
        ensures
            *final(self) == (CompletionState { selected: final(self).selected, ..*old(self) }),
            old(self).filtered.len() == 0 ==> final(self).selected == old(self).selected,
            old(self).filtered.len() > 0 ==> final(self).selected == (old(self).selected + delta) % (
            old(self).filtered.len() as int),
    {
        if self.filtered.len() == 0 {
            return;
        }
        let len: i128 = self.filtered.len() as i128;
        let sum: i128 = self.selected as i128 + delta as i128;
        let next: i128 = if sum >= 0 {
            sum % len
        } else {
            let up: i128 = (-sum) % len;
            proof {
                lemma_round(sum as int, len as int);
            }
            if up == 0 {
                0
            } else {
                len - up
            }
        };
        self.selected = next as usize;
    }
}

proof fn lemma_round(sum: int, len: int)
    requires
        sum < 0,
        len > 0,
    ensures
        (-sum) % len == 0 ==> sum % len == 0,
        (-sum) % len != 0 ==> sum % len == len - (-sum) % len,
{
    let q = (-sum) / len;
    let r = (-sum) % len;
    vstd::arithmetic::div_mod::lemma_fundamental_div_mod(-sum, len);
    if r == 0 {
        assert(sum == len * (-q)) by (nonlinear_arith)
            requires
                -sum == len * q + r,
                r == 0,
        ;
        vstd::arithmetic::div_mod::lemma_fundamental_div_mod_converse(sum, len, -q, 0);
    } else {
        assert(sum == len * (-q - 1) + (len - r)) by (nonlinear_arith)
            requires
                -sum == len * q + r,
        ;
        vstd::arithmetic::div_mod::lemma_fundamental_div_mod_converse(sum, len, -q - 1, len - r);
    }
}

/// A character of an identifier.
pub open spec fn ident_char(c: char) -> bool {
    alphanumeric(c) || c == '_'
}

/// The start of the run of identifier characters that ends at `k`.
pub open spec fn ident_start(line: Seq<char>, k: int) -> int
    decreases k,
{
    if 0 < k <= line.len() && ident_char(line[k - 1]) {
        ident_start(line, k - 1)
    } else {
        k
    }
}

/// Whether a character belongs to an identifier.
pub fn is_ident_continue(c: char) -> (r: bool)
    ensures
        r == ident_char(c),
{
    c.is_alphanumeric() || c == '_'
}

/// Where the identifier before the cursor starts; the cursor's own column
/// where there is none.
pub fn identifier_prefix_start(line: &str, cursor_col: usize) -> (r: usize)
    ensures
        r == ident_start(
            line@,
            if cursor_col <= line@.len() {
                cursor_col as int
            } else {
                line@.len() as int
            },
        ),
        r <= cursor_col,
        r <= line@.len(),
{
    let cs = chars_of(line);
    let mut col = if cursor_col <= cs.len() { cursor_col } else { cs.len() };
    let ghost start = col as int;
    while col > 0
        invariant
            col <= start <= cs.len(),
            start <= cursor_col,
            cs@ == line@,
            ident_start(line@, start) == ident_start(line@, col as int),
        ensures
            col <= start <= cs.len(),
            ident_start(line@, start) == col,
        decreases col,
    {
        if !is_ident_continue(cs[col - 1]) {
            break;
        }
        col = col - 1;
    }
    col
}

/// The characters from one column up to another, as far as the line has
/// them.
pub open spec fn typed(line: Seq<char>, from: int, to: int) -> Seq<char> {
    let b = if to <= line.len() {
        to
    } else {
        line.len() as int
    };
    if b <= from {
        Seq::empty()
    } else {
        line.subrange(from, b)
    }
}

/// What is typed between the start of the word and the cursor.
pub fn prefix_slice(line: &str, prefix_start_col: usize, cursor_col: usize) -> (r: String)
    ensures
        r@ == typed(line@, prefix_start_col as int, cursor_col as int),
{
    let cs = chars_of(line);
    let b = if cursor_col <= cs.len() { cursor_col } else { cs.len() };
    if b <= prefix_start_col {
        proof {
            reveal_strlit("");
        }
        return String::new();
    }
    string_slice(&cs, prefix_start_col, b)
}

} // verus!
