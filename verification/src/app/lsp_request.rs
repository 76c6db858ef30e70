//! The completion menu on the buffer.
use vstd::prelude::*;
use crate::app::completion::{menu, prefix_slice, shown, typed, CompletionState};
use crate::app::{App, Desk, Menu};
use crate::editor::{in_text, least, Buffer, Cursor, Doc};
use crate::lsp::edits::{apply_text_edits, edited_all};
use crate::lsp::{copy_edits, edits_of, CompletionItem, Position, Range, TextEdit};
use crate::text::{chars_of, split, split_lines};

verus! {

impl Menu {
    /// The menu narrowed to what is typed. The selection is held within it.
    pub open spec fn refiltered(self, prefix: Seq<char>) -> Menu {
        let rows = shown(menu(self.items, prefix, self.items.len() as int));
        Menu {
            rows,
            selected: if self.selected < rows.len() {
                self.selected
            } else if rows.len() == 0 {
                0
            } else {
                rows.len() - 1
            },
            ..self
        }
    }

    /// The selected item.
    pub open spec fn current(self) -> Option<CompletionItem> {
        if 0 <= self.selected < self.rows.len() && 0 <= self.rows[self.selected] < self.items.len() {
            Some(self.items[self.rows[self.selected]])
        } else {
            None
        }
    }

    pub open spec fn moved(self, delta: int) -> Menu {
        if self.rows.len() == 0 {
            self
        } else {
            Menu { selected: (self.selected + delta) % (self.rows.len() as int), ..self }
        }
    }
}

/// A menu, unless it is empty.
pub open spec fn unless_empty(m: Menu) -> Option<Menu> {
    if m.rows.len() == 0 {
        None
    } else {
        Some(m)
    }
}

/// Whether the cursor still stands in the word that is completed.
pub open spec fn still_in(d: Doc, start: Cursor) -> bool {
    d.cursor.row == start.row && d.cursor.col >= start.col
}

/// What is typed of the word that is completed.
pub open spec fn typed_since(d: Doc, start: Cursor) -> Seq<char> {
    typed(d.line(), start.col as int, d.cursor.col as int)
}

impl Desk {
    /// Narrows the menu to what is typed, and closes it where the cursor has
    /// left the word or nothing matches.
    #[verifier::opaque]
    pub open spec fn menu_updated(self) -> Desk {
        match self.menu {
            None => self,
            Some(m) => if !still_in(self.doc, m.start) {
                Desk { menu: None, ..self }
            } else {
                Desk { menu: unless_empty(m.refiltered(typed_since(self.doc, m.start))), ..self }
            },
        }
    }

    /// What a server offers opens the menu. It comes too late where the
    /// cursor has left the word.
    #[verifier::opaque]
    pub open spec fn menu_offered(self, start: Cursor, items: Seq<CompletionItem>) -> Desk {
        if !still_in(self.doc, start) {
            self
        } else if items.len() == 0 {
            Desk { menu: None, ..self }
        } else {
            let m = Menu { start, items, rows: Seq::empty(), selected: 0 };
            Desk { menu: unless_empty(m.refiltered(typed_since(self.doc, start))), ..self }
        }
    }
}

impl App {
    /// Narrows the menu to what is typed.
    pub fn update_completion_filter(&mut self)
        requires
            old(self).wf(),
        ensures
            final(self)@ == old(self)@.menu_updated(),
            final(self).wf(),
    {
        reveal(Desk::menu_updated);
        let mut state = match self.completion.take() {
            Some(s) => s,
            None => return,
        };
        let cursor = self.buffer.cursor;
        let start = state.prefix_start;
        if cursor.row != start.row || cursor.col < start.col {
            return;
        }
        let ghost m = state@;
        let prefix = prefix_slice(self.buffer.current_line(), start.col, cursor.col);
        state.refilter(prefix.as_str());
        proof {
            assert(state@ =~= m.refiltered(prefix@));
            assert(state@.rows.len() == state.filtered@.len());
        }
        if !state.is_empty() {
            self.completion = Some(state);
        }
    }

    /// Opens the menu with what a server offers.
    pub fn apply_completion_outcome(&mut self, prefix_start: Cursor, items: Vec<CompletionItem>)
        requires
            old(self).wf(),
        ensures
            final(self)@ == old(self)@.menu_offered(prefix_start, items@),
            final(self).wf(),
    {
        reveal(Desk::menu_offered);
        let cursor = self.buffer.cursor;
        if cursor.row != prefix_start.row || cursor.col < prefix_start.col {
            return;
        }
        if items.len() == 0 {
            self.completion = None;
            return;
        }
        let prefix = prefix_slice(self.buffer.current_line(), prefix_start.col, cursor.col);
        let ghost given = items@;
        let state = CompletionState::new(prefix_start, items, prefix.as_str());
        proof {
            let m = Menu { start: prefix_start, items: given, rows: Seq::empty(), selected: 0 };
            assert(state@ =~= m.refiltered(prefix@));
            assert(state@.rows.len() == state.filtered@.len());
        }
        if state.is_empty() {
            self.completion = None;
        } else {
            self.completion = Some(state);
        }
    }

    /// Closes the menu.
    pub fn cancel_completion(&mut self)
        ensures
            final(self)@ == (Desk { menu: None, ..old(self)@ }),
    {
        self.completion = None;
    }
}

/// The lines that the first `k` edits add above a row.
pub open spec fn lines_added(edits: Seq<TextEdit<Seq<char>>>, row: int, k: int) -> int
    decreases k,
{
    if k <= 0 {
        0
    } else {
        let e = edits[k - 1];
        lines_added(edits, row, k - 1) + if e.range.start.line < row {
            split(e.new_text).len() - 1
        } else {
            0
        }
    }
}

/// The lines that the first `k` edits take away above a row.
pub open spec fn lines_removed(edits: Seq<TextEdit<Seq<char>>>, row: int, k: int) -> int
    decreases k,
{
    if k <= 0 {
        0
    } else {
        let e = edits[k - 1];
        lines_removed(edits, row, k - 1) + if e.range.start.line < row && e.range.end.line > e.range.start.line {
            e.range.end.line - e.range.start.line
        } else {
            0
        }
    }
}

/// Where a row ends up once edits above it are applied and `more` lines are
/// put in, held within `lines` lines.
pub open spec fn row_after(edits: Seq<TextEdit<Seq<char>>>, row: int, more: int, lines: int) -> int {
    let n = edits.len() as int;
    let r = row + lines_added(edits, row, n) + more - lines_removed(edits, row, n);
    least(
        if r < 0 {
            0
        } else {
            r
        },
        lines - 1,
    )
}

/// Where a row ends up once edits above it are applied.
pub fn shift_row(edits: &Vec<TextEdit>, row: usize, more: usize, lines: usize) -> (r: usize)
    requires
        lines >= 1,
    ensures
        r == row_after(edits_of(edits@), row as int, more as int, lines as int),
        r < lines,
{
    let ghost all = edits_of(edits@);
    let mut plus: u128 = 0;
    let mut minus: u128 = 0;
    let mut i: usize = 0;
    while i < edits.len()
        invariant
            i <= edits.len(),
            all == edits_of(edits@),
            plus == lines_added(all, row as int, i as int),
            minus == lines_removed(all, row as int, i as int),
            plus <= 0xffff_ffff_ffff_fffe * i,
            minus <= 0xffff_ffff * i,
        decreases edits.len() - i,
    {
        let e = &edits[i];
        assert(all[i as int] == e@);
        if (e.range.start.line as usize) < row {
            let lines = split_lines(e.new_text.as_str());
            assert(crate::text::text_of(lines@).len() == lines@.len());
            plus = plus + (lines.len() - 1) as u128;
            if e.range.end.line > e.range.start.line {
                minus = minus + (e.range.end.line - e.range.start.line) as u128;
            }
        }
        i = i + 1;
    }
    let sum: u128 = row as u128 + plus + more as u128;
    let down: u128 = sum.saturating_sub(minus);
    let last: u128 = (lines - 1) as u128;
    if down < last {
        down as usize
    } else {
        lines - 1
    }
}

/// The last line of a text.
pub open spec fn last_line(s: Seq<char>) -> Seq<char> {
    split(s).last()
}

impl Doc {
    /// The range from the start of the word to the cursor.
    pub open spec fn word_range(self, start: Cursor) -> Range {
        Range {
            start: Position { line: start.row as u32, character: start.col as u32 },
            end: Position { line: self.cursor.row as u32, character: self.cursor.col as u32 },
        }
    }

    /// The completed word: what the item puts in takes the place of what is
    /// typed, together with the item's further edits, and the cursor goes
    /// behind it.
    #[verifier::opaque]
    pub open spec fn completed(self, start: Cursor, item: CompletionItem) -> Doc {
        let new = item.inserted();
        let more = edits_of(item.additional_text_edits@);
        let text = edited_all(self.text, more.push(TextEdit { range: self.word_range(start), new_text: new }));
        let breaks = split(new).len() - 1;
        let row = row_after(more, start.row as int, breaks, text.len() as int);
        let col = if breaks == 0 {
            start.col + new.len()
        } else {
            last_line(new).len() as int
        };
        Doc { text, ..self.snapshot() }.at(row, least(col, usize::MAX as int)).touched()
    }

    /// Edits that belong to a completion and came later. The cursor stays
    /// with its line, at its column.
    #[verifier::opaque]
    pub open spec fn imported(self, edits: Seq<TextEdit<Seq<char>>>) -> Doc {
        let text = edited_all(self.text, edits);
        let row = row_after(edits, self.cursor.row as int, 0, text.len() as int);
        Doc { text, ..self.snapshot() }.at(row, self.cursor.col as int).touched()
    }
}

/// Puts text in place of the buffer's own and the cursor at a row and column.
fn replace_text(buf: &mut Buffer, lines: Vec<String>, row: usize, col: usize)
    requires
        old(buf)@.wf(),
        lines.len() >= 1,
    ensures
        final(buf)@ == (Doc { text: crate::text::text_of(lines@), ..old(buf)@.snapshot() }).at(
            row as int,
            col as int,
        ).touched(),
        final(buf)@.sound(),
{
    let ghost d = buf@;
    buf.snapshot();
    proof {
        crate::editor::history::law_history_wf(d);
    }
    buf.lines = lines;
    buf.cursor = Cursor { row, col };
    buf.touch();
    assert(buf@.text.len() == buf.lines@.len());
}

fn complete_word(buf: &mut Buffer, start: Cursor, item: &CompletionItem)
    requires
        old(buf)@.wf(),
    ensures
        final(buf)@ == old(buf)@.completed(start, *item),
        final(buf)@.sound(),
{
    reveal(Doc::completed);
    let ghost d = buf@;
    assert(d.text.len() == buf.lines@.len());
    let new = item.insertion();
    let cursor = buf.cursor;
    let range = Range {
        start: Position { line: start.row as u32, character: start.col as u32 },
        end: Position { line: cursor.row as u32, character: cursor.col as u32 },
    };
    let parts = split_lines(new.as_str());
    let breaks = parts.len() - 1;
    let col = if breaks == 0 {
        start.col.saturating_add(chars_of(new.as_str()).len())
    } else {
        chars_of(parts[breaks].as_str()).len()
    };
    proof {
        assert(crate::text::text_of(parts@)[breaks as int] == parts@[breaks as int]@);
        assert(crate::text::text_of(parts@).len() == parts@.len());
    }
    let mut all = copy_edits(&item.additional_text_edits);
    let primary = TextEdit { range, new_text: new };
    let ghost before = all@;
    all.push(primary);
    proof {
        assert(edits_of(all@) =~= edits_of(before).push(primary@));
    }
    let mut lines = crate::text::copy_lines(&buf.lines);
    apply_text_edits(&mut lines, all);
    assert(crate::text::text_of(lines@).len() == lines@.len());
    let row = shift_row(&item.additional_text_edits, start.row, breaks, lines.len());
    replace_text(buf, lines, row, col);
}

/// Applies edits that belong to a completion and came later.
pub fn import_edits(buf: &mut Buffer, edits: Vec<TextEdit>)
    requires
        old(buf)@.wf(),
    ensures
        final(buf)@ == old(buf)@.imported(edits_of(edits@)),
        final(buf)@.sound(),
{
    reveal(Doc::imported);
    assert(buf@.text.len() == buf.lines@.len());
    let mut lines = crate::text::copy_lines(&buf.lines);
    let copy = copy_edits(&edits);
    apply_text_edits(&mut lines, copy);
    assert(crate::text::text_of(lines@).len() == lines@.len());
    let row = shift_row(&edits, buf.cursor.row, 0, lines.len());
    let col = buf.cursor.col;
    replace_text(buf, lines, row, col);
}

/// An item for its server to fill in: the item as it came, and the client.
#[derive(Debug)]
pub struct Resolve<S = String> {
    pub raw: S,
    pub source: S,
}

impl View for Resolve {
    type V = Resolve<Seq<char>>;

    open spec fn view(&self) -> Resolve<Seq<char>> {
        Resolve { raw: self.raw@, source: self.source@ }
    }
}

impl Desk {
    /// Takes the selected item over and closes the menu. An item without
    /// further edits is for its server to fill in.
    #[verifier::opaque]
    pub open spec fn accepted(self) -> (Desk, Option<Resolve<Seq<char>>>) {
        let closed = Desk { menu: None, ..self };
        match self.menu {
            None => (self, None),
            Some(m) => match m.current() {
                None => (closed, None),
                Some(item) => (
                    closed.with_doc(self.doc.completed(m.start, item)),
                    if item.additional_text_edits@.len() == 0 {
                        Some(Resolve { raw: item.raw@, source: item.source@ })
                    } else {
                        None
                    },
                ),
            },
        }
    }

    /// Edits that belong to a completion and came later. They are dropped
    /// where another document is open by now.
    pub open spec fn resolved(self, uri: Seq<char>, current: Option<Seq<char>>, edits: Seq<TextEdit<Seq<char>>>) -> Desk {
        if edits.len() == 0 || current != Some(uri) {
            self
        } else {
            self.with_doc(self.doc.imported(edits))
        }
    }
}

impl App {
    /// Takes the selected item over.
    pub fn accept_completion(&mut self) -> (r: Option<Resolve>)
        requires
            old(self).wf(),
            old(self)@.anchor is None,
        ensures
            final(self)@ == old(self)@.accepted().0,
            match (r, old(self)@.accepted().1) {
                (Some(a), Some(b)) => a@ == b,
                (None, None) => true,
                _ => false,
            },
            final(self).sound(),
    {
        reveal(Desk::accepted);
        let ghost desk = self@;
        let state = match self.completion.take() {
            Some(s) => s,
            None => return None,
        };
        let item = match state.current() {
            Some(i) => i,
            None => {
                proof {
                    if state.selected < state.filtered@.len() {
                        assert(state@.rows[state.selected as int] == state.filtered@[state.selected as int]);
                    }
                }
                return None;
            },
        };
        proof {
            assert(state@.rows[state.selected as int] == state.filtered@[state.selected as int]);
            assert(state@.current() == Some(*item));
        }
        complete_word(&mut self.buffer, state.prefix_start, item);
        if item.additional_text_edits.len() == 0 {
            Some(Resolve { raw: item.raw.clone(), source: item.source.clone() })
        } else {
            None
        }
    }

    /// Applies edits that belong to a completion and came later.
    pub fn apply_completion_resolved_outcome(&mut self, uri: &str, current: &Option<String>, edits: Vec<TextEdit>)
        requires
            old(self).wf(),
        ensures
            final(self)@ == old(self)@.resolved(uri@, crate::text::opt_str(*current), edits_of(edits@)),
            final(self).sound(),
    {
        assert(edits_of(edits@).len() == edits@.len());
        if edits.len() == 0 {
            return;
        }
        match current {
            Some(c) => {
                if crate::text::same_str(c.as_str(), uri) {
                    import_edits(&mut self.buffer, edits);
                }
            },
            None => {},
        }
    }
}

/// An item that has no further edits leaves the cursor in the text, behind
/// what it put in.
pub proof fn law_completion_stays_placed(d: Doc, start: Cursor, item: CompletionItem)
    requires
        in_text(d.text, d.cursor),
        start.row == d.cursor.row,
        start.col <= d.cursor.col,
        d.cursor.row <= u32::MAX,
        d.cursor.col <= u32::MAX,
        item.additional_text_edits@.len() == 0,
        d.text.len() + split(item.inserted()).len() <= usize::MAX,
        d.line().len() + item.inserted().len() <= usize::MAX,
    ensures
        in_text(d.completed(start, item).text, d.completed(start, item).cursor),
{
    reveal(Doc::completed);
    let new = item.inserted();
    let parts = split(new);
    let more = edits_of(item.additional_text_edits@);
    let e = TextEdit { range: d.word_range(start), new_text: new };
    let all = more.push(e);
    crate::text::lemma_split_nonempty(new);
    assert(more =~= Seq::empty());
    reveal_with_fuel(crate::lsp::edits::in_order, 2);
    reveal_with_fuel(crate::lsp::edits::edited_back, 2);
    assert(crate::lsp::edits::in_order(all, 1) =~= seq![e]);
    assert(seq![e].drop_last() =~= Seq::empty());
    assert(edited_all(d.text, all) == crate::lsp::edits::edited(d.text, e));
    assert(crate::lsp::edits::spot(d.text, e.range.start) == start);
    assert(crate::lsp::edits::spot(d.text, e.range.end) == d.cursor);
    assert(!d.cursor.before(start));
    let text = edited_all(d.text, all);
    let row = start.row + parts.len() - 1;
    assert(text.len() == d.text.len() + parts.len() - 1);
    if parts.len() == 1 {
        crate::text::law_join_split(new);
        reveal_with_fuel(crate::text::join, 2);
        assert(parts[0] =~= new);
        assert(text[row] == d.line().take(start.col as int) + new + d.line().skip(d.cursor.col as int));
    } else {
        assert(text[row] == parts.last() + d.line().skip(d.cursor.col as int));
        lemma_piece_len(new, parts.len() - 1);
    }
}

proof fn lemma_piece_len(s: Seq<char>, i: int)
    requires
        0 <= i < split(s).len(),
    ensures
        split(s)[i].len() <= s.len(),
    decreases s.len(),
{
    if s.len() > 0 {
        crate::text::lemma_split_nonempty(s.drop_last());
        if i < split(s.drop_last()).len() {
            lemma_piece_len(s.drop_last(), i);
        }
    }
}

} // verus!
