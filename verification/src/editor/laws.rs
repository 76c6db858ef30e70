//! What the edits of the document are for: how the text, the register and the
//! cursor after an edit relate to those before it.
use vstd::prelude::*;
use crate::editor::{in_text, Cursor, Doc, IndentSettings};
use crate::text::{join, white_space};

verus! {

/// What an edit leaves alone besides the text, the cursor and the register:
/// the other cursors, the path, the viewport and the history.
pub open spec fn surroundings_kept(d: Doc, e: Doc) -> bool {
    &&& e.extra == d.extra
    &&& e.path == d.path
    &&& e.scroll == d.scroll
    &&& e.height == d.height
    &&& e.visual_y == d.visual_y
    &&& e.undo == d.undo
    &&& e.redo == d.redo
    &&& e.tokens == d.tokens
}

/// Whether an edit is noted: the buffer is unsaved, and its version is another
/// one.
pub open spec fn noted(d: Doc, e: Doc) -> bool {
    e.dirty && e.version != d.version
}

/// Pasting puts the register in as a line of its own below the cursor's. The
/// lines above it are what they were, those below it come one row later, and
/// the cursor stands at the start of the new line. An empty register pastes
/// nothing.
pub proof fn law_paste_goes_below(d: Doc)
    requires
        d.cursor.row < d.text.len(),
        d.text.len() < usize::MAX,
    ensures
        ({
            let e = d.paste_after();
            let r = d.cursor.row as int;
            if d.yank.len() == 0 {
                e == d
            } else {
                &&& e.text.len() == d.text.len() + 1
                &&& forall|k: int| 0 <= k <= r ==> (#[trigger] e.text[k]) == d.text[k]
                &&& e.text[r + 1] == d.yank
                &&& forall|k: int| r < k < d.text.len() ==> e.text[k + 1] == #[trigger] d.text[k]
                &&& e.cursor.row == r + 1
                &&& e.cursor.col == 0
                &&& e.yank == d.yank
                &&& noted(d, e)
                &&& surroundings_kept(d, e)
            }
        }),
{
    assert(d.version.wrapping_add(1) != d.version);
}

/// Deleting a line takes it out of the text and into the register. The lines
/// below it move up by one. The only line is emptied instead.
pub proof fn law_delete_line_takes_it(d: Doc)
    requires
        d.cursor.row < d.text.len(),
        d.text.len() <= usize::MAX,
        forall|k: int| 0 <= k < d.text.len() ==> (#[trigger] d.text[k]).len() <= usize::MAX,
    ensures
        ({
            let e = d.delete_line();
            let r = d.cursor.row as int;
            &&& e.yank == d.text[r]
            &&& noted(d, e)
            &&& surroundings_kept(d, e)
            &&& in_text(e.text, e.cursor)
            &&& if d.text.len() == 1 {
                &&& e.text.len() == 1
                &&& e.text[0].len() == 0
                &&& e.cursor == (Cursor { row: 0, col: 0 })
            } else {
                &&& e.text.len() == d.text.len() - 1
                &&& forall|k: int| 0 <= k < r ==> (#[trigger] e.text[k]) == d.text[k]
                &&& forall|k: int| r <= k < e.text.len() ==> (#[trigger] e.text[k]) == d.text[k + 1]
                &&& e.cursor.row == if r < e.text.len() {
                    r
                } else {
                    r - 1
                }
            }
        }),
{
    assert(d.version.wrapping_add(1) != d.version);
}

/// Copying a line puts it into the register and changes nothing else.
pub proof fn law_yank_line_copies(d: Doc)
    requires
        d.cursor.row < d.text.len(),
    ensures
        d.yank_line().yank == d.text[d.cursor.row as int],
        d.yank_line() == (Doc { yank: d.yank_line().yank, ..d }),
{
}

/// A line that is copied and pasted stands below itself.
pub proof fn law_yank_paste_doubles(d: Doc)
    requires
        d.cursor.row < d.text.len(),
        d.text.len() < usize::MAX,
        d.text[d.cursor.row as int].len() > 0,
    ensures
        ({
            let e = d.yank_line().paste_after();
            let r = d.cursor.row as int;
            &&& e.text[r] == d.text[r]
            &&& e.text[r + 1] == d.text[r]
            &&& e.text.remove(r + 1) == d.text
        }),
{
    let e = d.yank_line().paste_after();
    assert(e.text.remove(d.cursor.row + 1) =~= d.text);
}

/// Deleting from one place up to a later one keeps the front of the first
/// line, the rest of the last line and every line outside. The cursor lands on
/// the first place, as far as a character is left there.
pub proof fn law_delete_range_keeps_the_rest(d: Doc, a: Cursor, b: Cursor)
    requires
        in_text(d.text, a),
        in_text(d.text, b),
        a.row < b.row || (a.row == b.row && a.col < b.col),
        d.text.len() <= usize::MAX,
        forall|k: int| 0 <= k < d.text.len() ==> (#[trigger] d.text[k]).len() <= usize::MAX,
    ensures
        ({
            let e = d.delete_range(a, b);
            let gone = b.row - a.row;
            &&& e.text.len() == d.text.len() - gone
            &&& forall|k: int| 0 <= k < a.row ==> (#[trigger] e.text[k]) == d.text[k]
            &&& e.text[a.row as int] == d.text[a.row as int].take(a.col as int) + d.text[b.row as int].skip(
                b.col as int,
            )
            &&& forall|k: int| a.row < k < e.text.len() ==> (#[trigger] e.text[k]) == d.text[k + gone]
            &&& e.cursor.row == a.row
            &&& e.cursor.col == a.col || (a.col > 0 && a.col == e.text[a.row as int].len() && e.cursor.col == a.col - 1)
            &&& a.col < e.text[a.row as int].len() ==> e.cursor.col == a.col
            &&& e.yank == d.yank
            &&& noted(d, e)
            &&& surroundings_kept(d, e)
        }),
{
    assert(d.version.wrapping_add(1) != d.version);
    let e = d.delete_range(a, b);
    assert(e.text[a.row as int] =~= d.text[a.row as int].take(a.col as int) + d.text[b.row as int].skip(b.col as int));
}

/// The order of the two places does not matter, and between a place and itself
/// there is nothing to delete.
pub proof fn law_delete_range_either_way(d: Doc, a: Cursor, b: Cursor)
    ensures
        d.delete_range(a, b) == d.delete_range(b, a),
        d.delete_range(a, a) == d,
{
    crate::editor::ops::law_range_order(d, a, b);
}

/// Copying from one place up to a later one puts the lines of the range into
/// the register, the first without what stands before it and the last without
/// what stands behind it, one below the other. Nothing else changes.
pub proof fn law_yank_range_copies(d: Doc, a: Cursor, b: Cursor)
    requires
        in_text(d.text, a),
        in_text(d.text, b),
        a.row < b.row || (a.row == b.row && a.col <= b.col),
    ensures
        ({
            let e = d.yank_range(a, b);
            let first = d.text[a.row as int];
            let last = d.text[b.row as int];
            &&& e == (Doc { yank: e.yank, ..d })
            &&& if a.row == b.row {
                e.yank == first.subrange(a.col as int, b.col as int)
            } else {
                let lines = seq![first.skip(a.col as int)] + d.text.subrange(a.row + 1, b.row as int) + seq![
                    last.take(b.col as int),
                ];
                e.yank == join(lines, 0, lines.len() as int)
            }
        }),
{
    let first = d.text[a.row as int];
    let last = d.text[b.row as int];
    if a.row == b.row {
        assert(d.yank_range(a, b).yank =~= first.subrange(a.col as int, b.col as int));
    } else {
        let lines = seq![first.skip(a.col as int)] + d.text.subrange(a.row + 1, b.row as int) + seq![
            last.take(b.col as int),
        ];
        lemma_between_is_join(d.text, a.row as int, a.col as int, b.row as int, b.col as int);
    }
}

/// The lines of a range, cut at both ends.
pub open spec fn cut_lines(text: Seq<Seq<char>>, r: int, c: int, tr: int, tc: int) -> Seq<Seq<char>> {
    seq![text[r].skip(c)] + text.subrange(r + 1, tr) + seq![text[tr].take(tc)]
}

pub proof fn lemma_between_is_join(text: Seq<Seq<char>>, r: int, c: int, tr: int, tc: int)
    requires
        0 <= r < tr < text.len(),
        0 <= c <= text[r].len(),
        0 <= tc <= text[tr].len(),
    ensures
        crate::editor::ops::between(text, r, c, tr, tc) == join(
            cut_lines(text, r, c, tr, tc),
            0,
            cut_lines(text, r, c, tr, tc).len() as int,
        ),
    decreases tr - r,
{
    let lines = cut_lines(text, r, c, tr, tc);
    let n = lines.len() as int;
    let rest = crate::editor::ops::between(text, r + 1, 0, tr, tc);
    lemma_join_first(lines, n);
    if r + 1 == tr {
        assert(rest =~= text[tr].take(tc));
        assert(lines =~= seq![text[r].skip(c), text[tr].take(tc)]);
        assert(join(lines.skip(1), 0, 1) == text[tr].take(tc));
    } else {
        lemma_between_is_join(text, r + 1, 0, tr, tc);
        assert(text[r + 1].skip(0) =~= text[r + 1]);
        assert(lines.skip(1) =~= cut_lines(text, r + 1, 0, tr, tc));
    }
}

/// A join starts with its first line.
pub proof fn lemma_join_first(lines: Seq<Seq<char>>, n: int)
    requires
        1 < n <= lines.len(),
    ensures
        join(lines, 0, n) == lines[0].push('\n') + join(lines.skip(1), 0, n - 1),
    decreases n,
{
    if n == 2 {
        assert(join(lines, 0, 1) == lines[0]);
        assert(join(lines.skip(1), 0, 1) == lines[1]);
    } else {
        lemma_join_first(lines, n - 1);
        assert(lines.skip(1)[n - 2] == lines[n - 1]);
        assert(join(lines, 0, n) =~= lines[0].push('\n') + join(lines.skip(1), 0, n - 1));
    }
}

/// Deleting whole lines takes them out of the text and into the register, one
/// below the other; the cursor stands at the start of the line that follows.
pub proof fn law_delete_lines_takes_them(d: Doc, a: int, b: int)
    requires
        0 <= a <= b < d.text.len(),
        d.text.len() <= usize::MAX,
    ensures
        ({
            let e = d.delete_lines(a, b);
            &&& e == d.delete_lines(b, a)
            &&& e.yank == join(d.text, a, b + 1)
            &&& noted(d, e)
            &&& surroundings_kept(d, e)
            &&& e.cursor.col == 0
            &&& if b - a + 1 == d.text.len() {
                &&& e.text.len() == 1
                &&& e.text[0].len() == 0
                &&& e.cursor.row == 0
            } else {
                &&& e.text.len() == d.text.len() - (b - a + 1)
                &&& forall|k: int| 0 <= k < a ==> (#[trigger] e.text[k]) == d.text[k]
                &&& forall|k: int| a <= k < e.text.len() ==> (#[trigger] e.text[k]) == d.text[k + (b - a + 1)]
                &&& e.cursor.row == if a < e.text.len() {
                    a
                } else {
                    a - 1
                }
            }
        }),
{
    assert(d.version.wrapping_add(1) != d.version);
}

/// Copying whole lines puts them into the register, one below the other, and
/// changes nothing else.
pub proof fn law_yank_lines_copies(d: Doc, a: int, b: int)
    requires
        0 <= a <= b < d.text.len(),
    ensures
        d.yank_lines(a, b).yank == join(d.text, a, b + 1),
        d.yank_lines(b, a) == d.yank_lines(a, b),
        d.yank_lines(a, b) == (Doc { yank: d.yank_lines(a, b).yank, ..d }),
{
}

/// Deleting a block of columns takes them out of every line of its rows, as
/// far as the line has them, and leaves the other rows alone. The cursor goes
/// to the upper left corner.
pub proof fn law_delete_block_takes_columns(d: Doc, r0: int, c0: int, r1: int, c1: int)
    requires
        0 <= r0 <= r1 < d.text.len(),
        0 <= c0 <= c1 < usize::MAX,
        d.text.len() <= usize::MAX,
    ensures
        ({
            let e = d.delete_block(r0, c0, r1, c1);
            &&& e == d.delete_block(r1, c1, r0, c0)
            &&& e == d.delete_block(r0, c1, r1, c0)
            &&& e.text.len() == d.text.len()
            &&& forall|r: int|
                0 <= r < d.text.len() && !(r0 <= r <= r1) ==> (#[trigger] e.text[r]) == d.text[r]
            &&& forall|r: int|
                r0 <= r <= r1 && d.text[r].len() <= c0 ==> (#[trigger] e.text[r]) == d.text[r]
            &&& forall|r: int|
                r0 <= r <= r1 && c0 < d.text[r].len() <= c1 + 1 ==> (#[trigger] e.text[r]) == d.text[r].take(c0)
            &&& forall|r: int|
                r0 <= r <= r1 && c1 + 1 < d.text[r].len() ==> (#[trigger] e.text[r]) == d.text[r].take(c0)
                    + d.text[r].skip(c1 + 1)
            &&& e.cursor.row == r0
            &&& e.cursor.col <= c0
            &&& c0 < e.text[r0].len() ==> e.cursor.col == c0
            &&& e.yank == d.yank_block(r0, c0, r1, c1).yank
            &&& noted(d, e)
            &&& surroundings_kept(d, e)
        }),
{
    assert(d.version.wrapping_add(1) != d.version);
    let e = d.delete_block(r0, c0, r1, c1);
    assert forall|r: int| r0 <= r <= r1 && d.text[r].len() <= c0 implies (#[trigger] e.text[r]) == d.text[r] by {
        assert(e.text[r] =~= d.text[r]);
    }
    assert forall|r: int| r0 <= r <= r1 && c0 < d.text[r].len() <= c1 + 1 implies (#[trigger] e.text[r])
        == d.text[r].take(c0) by {
        assert(e.text[r] =~= d.text[r].take(c0));
    }
}

/// Copying a block of columns puts the columns of each row into the register,
/// one row below the other, and changes nothing else.
pub proof fn law_yank_block_copies(d: Doc, r0: int, c0: int, r1: int, c1: int)
    requires
        0 <= r0 <= r1 < d.text.len(),
        0 <= c0 <= c1,
    ensures
        ({
            let e = d.yank_block(r0, c0, r1, c1);
            let rows = Seq::new(
                (r1 - r0 + 1) as nat,
                |i: int|
                    {
                        let line = d.text[r0 + i];
                        if line.len() <= c0 {
                            Seq::<char>::empty()
                        } else if line.len() <= c1 + 1 {
                            line.skip(c0)
                        } else {
                            line.subrange(c0, c1 + 1)
                        }
                    },
            );
            &&& e.yank == join(rows, 0, rows.len() as int)
            &&& e == (Doc { yank: e.yank, ..d })
            &&& e == d.yank_block(r1, c1, r0, c0)
        }),
{
    let rows = Seq::new(
        (r1 - r0 + 1) as nat,
        |i: int|
            {
                let line = d.text[r0 + i];
                if line.len() <= c0 {
                    Seq::<char>::empty()
                } else if line.len() <= c1 + 1 {
                    line.skip(c0)
                } else {
                    line.subrange(c0, c1 + 1)
                }
            },
    );
    lemma_block_rows(d.text, rows, r0, c0, r1, c1, r1);
}

proof fn lemma_block_rows(text: Seq<Seq<char>>, rows: Seq<Seq<char>>, r0: int, c0: int, r1: int, c1: int, r: int)
    requires
        0 <= r0 <= r <= r1 < text.len(),
        0 <= c0 <= c1,
        rows.len() == r1 - r0 + 1,
        forall|i: int|
            0 <= i < rows.len() ==> (#[trigger] rows[i]) == {
                let line = text[r0 + i];
                if line.len() <= c0 {
                    Seq::<char>::empty()
                } else if line.len() <= c1 + 1 {
                    line.skip(c0)
                } else {
                    line.subrange(c0, c1 + 1)
                }
            },
    ensures
        crate::editor::ops::block_text(text, r0, c0, r, c1) == join(rows, 0, r - r0 + 1),
    decreases r - r0,
{
    let i = r - r0;
    assert(crate::editor::ops::block_row(text[r], c0, c1) =~= rows[i]);
    if r > r0 {
        lemma_block_rows(text, rows, r0, c0, r1, c1, r - 1);
    }
}

/// Indenting puts one level of blanks in front of a line that is not empty:
/// a tab where the line starts with one, spaces where it starts with a space,
/// else what the settings say. Every other line stays.
pub proof fn law_indent_puts_blanks_in_front(d: Doc, row: int, s: IndentSettings)
    requires
        0 <= row < d.text.len(),
    ensures
        ({
            let e = d.indent_line(row, s);
            let line = d.text[row];
            let tab = line[0] == '\t' || (line[0] != ' ' && s.use_tabs);
            let n: int = if tab {
                1
            } else {
                s.width as int
            };
            &&& e.text.len() == d.text.len()
            &&& forall|k: int| 0 <= k < d.text.len() && k != row ==> (#[trigger] e.text[k]) == d.text[k]
            &&& if line.len() == 0 {
                e.text[row].len() == 0
            } else {
                &&& e.text[row].len() == n + line.len()
                &&& e.text[row].skip(n) == line
                &&& forall|k: int|
                    0 <= k < n ==> (#[trigger] e.text[row][k]) == if tab {
                        '\t'
                    } else {
                        ' '
                    }
            }
            &&& e.cursor == d.cursor
            &&& e.yank == d.yank
            &&& noted(d, e)
            &&& surroundings_kept(d, e)
        }),
{
    assert(d.version.wrapping_add(1) != d.version);
    let e = d.indent_line(row, s);
    let line = d.text[row];
    if line.len() > 0 {
        let tab = line[0] == '\t' || (line[0] != ' ' && s.use_tabs);
        let n: int = if tab {
            1
        } else {
            s.width as int
        };
        assert(e.text[row].skip(n) =~= line);
    }
}

/// Dedenting takes a tab from the front of a line, or as many spaces as a
/// level has, as far as they are there. Every other line stays.
pub proof fn law_dedent_takes_blanks_away(d: Doc, row: int, s: IndentSettings)
    requires
        0 <= row < d.text.len(),
    ensures
        ({
            let e = d.dedent_line(row, s);
            let line = d.text[row];
            &&& e.text.len() == d.text.len()
            &&& forall|k: int| 0 <= k < d.text.len() && k != row ==> (#[trigger] e.text[k]) == d.text[k]
            &&& if line.len() > 0 && line[0] == '\t' {
                e.text[row] == line.skip(1)
            } else {
                let n = line.len() - e.text[row].len();
                &&& 0 <= n <= s.width
                &&& e.text[row] == line.skip(n)
                &&& forall|k: int| 0 <= k < n ==> (#[trigger] line[k]) == ' '
                &&& n < s.width && n < line.len() ==> line[n] != ' '
            }
            &&& e.cursor == d.cursor
            &&& e.yank == d.yank
            &&& noted(d, e)
            &&& surroundings_kept(d, e)
        }),
{
    assert(d.version.wrapping_add(1) != d.version);
    lemma_leading(d.text[row], 0, s.width as int);
}

proof fn lemma_leading(line: Seq<char>, i: int, n: int)
    requires
        0 <= i <= line.len(),
        i <= n,
    ensures
        ({
            let k = crate::editor::ops::leading_spaces(line, i, n);
            &&& i <= k <= n
            &&& k <= line.len()
            &&& forall|j: int| i <= j < k ==> (#[trigger] line[j]) == ' '
            &&& k < n && k < line.len() ==> line[k] != ' '
        }),
    decreases n - i,
{
    if i < n && i < line.len() && line[i] == ' ' {
        lemma_leading(line, i + 1, n);
    }
}

/// Only the line of the cursor changes, to another one.
pub open spec fn line_becomes(d: Doc, e: Doc, line: Seq<char>) -> bool {
    &&& e.text.len() == d.text.len()
    &&& e.text[d.cursor.row as int] == line
    &&& forall|k: int| 0 <= k < d.text.len() && k != d.cursor.row ==> (#[trigger] e.text[k]) == d.text[k]
}

/// Deleting a character takes the one under the cursor; at the end of a line
/// there is none. The cursor stays on a character.
pub proof fn law_delete_char_takes_one(d: Doc)
    requires
        in_text(d.text, d.cursor),
    ensures
        ({
            let e = d.delete_char();
            let line = d.text[d.cursor.row as int];
            let col = d.cursor.col as int;
            if col < line.len() {
                &&& line_becomes(d, e, line.take(col) + line.skip(col + 1))
                &&& e.cursor.row == d.cursor.row
                &&& e.cursor.col == if col + 1 < line.len() || col == 0 {
                    col
                } else {
                    col - 1
                }
                &&& e.yank == d.yank
                &&& noted(d, e)
                &&& surroundings_kept(d, e)
            } else {
                e == d
            }
        }),
{
    assert(d.version.wrapping_add(1) != d.version);
    let line = d.text[d.cursor.row as int];
    let col = d.cursor.col as int;
    if col < line.len() {
        assert(line.remove(col) =~= line.take(col) + line.skip(col + 1));
    }
}

/// Backspace takes the character before the cursor, and at the start of a line
/// the line break before it. At the start of the text it does nothing.
pub proof fn law_backspace_takes_one(d: Doc)
    requires
        in_text(d.text, d.cursor),
        forall|k: int| 0 <= k < d.text.len() ==> (#[trigger] d.text[k]).len() <= usize::MAX,
    ensures
        ({
            let e = d.delete_before();
            let r = d.cursor.row as int;
            let line = d.text[r];
            let col = d.cursor.col as int;
            if col > 0 {
                &&& line_becomes(d, e, line.take(col - 1) + line.skip(col))
                &&& e.cursor == (Cursor { row: d.cursor.row, col: (col - 1) as usize })
                &&& e.yank == d.yank
                &&& noted(d, e)
                &&& surroundings_kept(d, e)
            } else if r > 0 {
                &&& e.text.len() == d.text.len() - 1
                &&& forall|k: int| 0 <= k < r - 1 ==> (#[trigger] e.text[k]) == d.text[k]
                &&& e.text[r - 1] == d.text[r - 1] + line
                &&& forall|k: int| r <= k < e.text.len() ==> (#[trigger] e.text[k]) == d.text[k + 1]
                &&& e.cursor == (Cursor { row: (r - 1) as usize, col: d.text[r - 1].len() as usize })
                &&& e.yank == d.yank
                &&& noted(d, e)
                &&& surroundings_kept(d, e)
            } else {
                e == d
            }
        }),
{
    assert(d.version.wrapping_add(1) != d.version);
    let line = d.text[d.cursor.row as int];
    let col = d.cursor.col as int;
    if col > 0 {
        assert(line.remove(col - 1) =~= line.take(col - 1) + line.skip(col));
    }
}

/// Deleting to the end of the line takes what stands from the cursor on into
/// the register and keeps what stands before it.
pub proof fn law_delete_to_eol_takes_the_rest(d: Doc)
    requires
        in_text(d.text, d.cursor),
    ensures
        ({
            let e = d.delete_to_eol();
            let line = d.text[d.cursor.row as int];
            let col = d.cursor.col as int;
            &&& line_becomes(d, e, line.take(col))
            &&& e.yank == line.skip(col)
            &&& e.cursor.row == d.cursor.row
            &&& e.cursor.col == if col == 0 {
                0
            } else {
                col - 1
            }
            &&& noted(d, e)
            &&& surroundings_kept(d, e)
        }),
{
    assert(d.version.wrapping_add(1) != d.version);
}

/// Clearing a line takes all of it into the register and leaves it empty.
pub proof fn law_clear_line_takes_all(d: Doc)
    requires
        d.cursor.row < d.text.len(),
    ensures
        line_becomes(d, d.clear_line(), Seq::empty()),
        d.clear_line().yank == d.text[d.cursor.row as int],
        d.clear_line().cursor == (Cursor { row: d.cursor.row, col: 0 }),
        noted(d, d.clear_line()),
        surroundings_kept(d, d.clear_line()),
{
    assert(d.version.wrapping_add(1) != d.version);
}

/// Joining lines puts the next line behind the cursor's, without the white
/// space in front of it, and one space between the two unless the first one is
/// empty or ends in white space, or nothing follows. The cursor stands where
/// they meet. The last line has nothing to be joined with.
pub proof fn law_join_puts_lines_together(d: Doc)
    requires
        d.cursor.row < d.text.len(),
        forall|k: int| 0 <= k < d.text.len() ==> (#[trigger] d.text[k]).len() <= usize::MAX,
    ensures
        ({
            let e = d.join_next();
            let r = d.cursor.row as int;
            if r + 1 < d.text.len() {
                let a = d.text[r];
                let next = d.text[r + 1];
                &&& e.text.len() == d.text.len() - 1
                &&& forall|k: int| 0 <= k < r ==> (#[trigger] e.text[k]) == d.text[k]
                &&& forall|k: int| r < k < e.text.len() ==> (#[trigger] e.text[k]) == d.text[k + 1]
                &&& exists|n: int|
                    0 <= n <= next.len() && (forall|k: int| 0 <= k < n ==> white_space(#[trigger] next[k])) && (n
                        < next.len() ==> !white_space(next[n])) && e.text[r] == if a.len() == 0 || white_space(a.last())
                        || n == next.len() {
                        a + #[trigger] next.skip(n)
                    } else {
                        a + seq![' '] + next.skip(n)
                    }
                &&& e.cursor.row == r
                &&& e.cursor.col == a.len()
                &&& e.yank == d.yank
                &&& noted(d, e)
                &&& surroundings_kept(d, e)
            } else {
                e == d
            }
        }),
{
    assert(d.version.wrapping_add(1) != d.version);
    let r = d.cursor.row as int;
    if r + 1 < d.text.len() {
        let a = d.text[r];
        let next = d.text[r + 1];
        lemma_skipped(next, 0);
        let n = crate::editor::skip_space(next, 0);
        let b = next.skip(n);
        assert(d.join_next().text[r] == a + Doc::join_gap(a, b) + b);
        assert(a + Seq::<char>::empty() + b =~= a + b);
    }
}

/// The first place that holds no white space, with white space up to it.
pub proof fn lemma_skipped(line: Seq<char>, i: int)
    requires
        0 <= i <= line.len(),
    ensures
        ({
            let n = crate::editor::skip_space(line, i);
            &&& i <= n <= line.len()
            &&& forall|k: int| i <= k < n ==> white_space(#[trigger] line[k])
            &&& n < line.len() ==> !white_space(line[n])
        }),
    decreases line.len() - i,
{
    if i < line.len() && white_space(line[i]) {
        lemma_skipped(line, i + 1);
    }
}

/// Swapping the case puts a capital letter in its small form and the other way
/// round, and goes on by one character, within the line. Where there is no
/// letter nothing happens.
pub proof fn law_toggle_case_swaps(d: Doc)
    requires
        in_text(d.text, d.cursor),
        forall|k: int| 0 <= k < d.text.len() ==> (#[trigger] d.text[k]).len() <= usize::MAX,
    ensures
        ({
            let e = d.toggle_case();
            let line = d.text[d.cursor.row as int];
            let col = d.cursor.col as int;
            if col < line.len() && (crate::text::uppercase(line[col]) || crate::text::lowercase(line[col])) {
                let new = if crate::text::uppercase(line[col]) {
                    crate::text::lower_mapping(line[col])
                } else {
                    crate::text::upper_mapping(line[col])
                };
                &&& line_becomes(d, e, line.take(col) + new + line.skip(col + 1))
                &&& e.cursor.row == d.cursor.row
                &&& e.cursor.col == if col + 1 < e.text[d.cursor.row as int].len() {
                    col + 1
                } else {
                    col
                }
                &&& e.yank == d.yank
                &&& noted(d, e)
                &&& surroundings_kept(d, e)
            } else {
                e == d
            }
        }),
{
    assert(d.version.wrapping_add(1) != d.version);
}

/// Replacing a character puts another one in its place, and nothing where
/// there is none.
pub proof fn law_replace_char_puts_it_there(d: Doc, ch: char)
    requires
        in_text(d.text, d.cursor),
    ensures
        ({
            let e = d.replace_char(ch);
            let line = d.text[d.cursor.row as int];
            let col = d.cursor.col as int;
            if col < line.len() {
                &&& line_becomes(d, e, line.take(col) + seq![ch] + line.skip(col + 1))
                &&& e.cursor == d.cursor
                &&& e.yank == d.yank
                &&& noted(d, e)
                &&& surroundings_kept(d, e)
            } else {
                e == d
            }
        }),
{
    assert(d.version.wrapping_add(1) != d.version);
    let line = d.text[d.cursor.row as int];
    let col = d.cursor.col as int;
    if col < line.len() {
        assert(line.update(col, ch) =~= line.take(col) + seq![ch] + line.skip(col + 1));
    }
}

/// A typed character stands before the cursor, between what was before it and
/// what was behind it.
pub proof fn law_typing_puts_it_before_the_cursor(d: Doc, c: char)
    requires
        in_text(d.text, d.cursor),
        d.cursor.col < usize::MAX,
    ensures
        ({
            let e = d.insert_char(c);
            let line = d.text[d.cursor.row as int];
            let col = d.cursor.col as int;
            &&& line_becomes(d, e, line.take(col) + seq![c] + line.skip(col))
            &&& e.cursor == (Cursor { row: d.cursor.row, col: (col + 1) as usize })
            &&& e.yank == d.yank
            &&& noted(d, e)
            &&& surroundings_kept(d, e)
        }),
{
    assert(d.version.wrapping_add(1) != d.version);
    let line = d.text[d.cursor.row as int];
    let col = d.cursor.col as int;
    assert(line.insert(col, c) =~= line.take(col) + seq![c] + line.skip(col));
}

/// A line break splits the line at the cursor, which goes to the start of the
/// second half.
pub proof fn law_newline_splits_the_line(d: Doc)
    requires
        in_text(d.text, d.cursor),
        d.text.len() < usize::MAX,
    ensures
        ({
            let e = d.insert_newline();
            let r = d.cursor.row as int;
            let line = d.text[r];
            let col = d.cursor.col as int;
            &&& e.text.len() == d.text.len() + 1
            &&& forall|k: int| 0 <= k < r ==> (#[trigger] e.text[k]) == d.text[k]
            &&& e.text[r] == line.take(col)
            &&& e.text[r + 1] == line.skip(col)
            &&& forall|k: int| r < k < d.text.len() ==> e.text[k + 1] == #[trigger] d.text[k]
            &&& e.cursor == (Cursor { row: (r + 1) as usize, col: 0 })
            &&& e.yank == d.yank
            &&& noted(d, e)
            &&& surroundings_kept(d, e)
        }),
{
    assert(d.version.wrapping_add(1) != d.version);
}

/// Opening a line puts an empty one below or above the cursor's, and the
/// cursor on it.
pub proof fn law_open_line_is_empty(d: Doc)
    requires
        d.cursor.row < d.text.len(),
        d.text.len() < usize::MAX,
    ensures
        ({
            let e = d.open_below();
            let r = d.cursor.row as int;
            &&& e.text.len() == d.text.len() + 1
            &&& forall|k: int| 0 <= k <= r ==> (#[trigger] e.text[k]) == d.text[k]
            &&& e.text[r + 1].len() == 0
            &&& forall|k: int| r < k < d.text.len() ==> e.text[k + 1] == #[trigger] d.text[k]
            &&& e.cursor == (Cursor { row: (r + 1) as usize, col: 0 })
            &&& e.yank == d.yank
            &&& noted(d, e)
            &&& surroundings_kept(d, e)
        }),
        ({
            let e = d.open_above();
            let r = d.cursor.row as int;
            &&& e.text.len() == d.text.len() + 1
            &&& forall|k: int| 0 <= k < r ==> (#[trigger] e.text[k]) == d.text[k]
            &&& e.text[r].len() == 0
            &&& forall|k: int| r <= k < d.text.len() ==> e.text[k + 1] == #[trigger] d.text[k]
            &&& e.cursor == (Cursor { row: r as usize, col: 0 })
            &&& e.yank == d.yank
            &&& noted(d, e)
            &&& surroundings_kept(d, e)
        }),
{
    assert(d.version.wrapping_add(1) != d.version);
}

/// The closer that an opener brings along.
pub open spec fn brings(c: char) -> Option<char> {
    if c == '(' {
        Some(')')
    } else if c == '[' {
        Some(']')
    } else if c == '{' {
        Some('}')
    } else if c == '"' || c == '\'' || c == '`' {
        Some(c)
    } else {
        None
    }
}

/// A letter, a digit or an underscore.
pub open spec fn wordy(c: char) -> bool {
    crate::text::alphanumeric(c) || c == '_'
}

/// Typing with paired delimiters. A closer in front of the same closer is
/// stepped over. An opener brings its closer along, with the cursor between the
/// two, unless a word follows; a quote also not behind a word or the same
/// quote. Any other character stands alone.
pub proof fn law_smart_typing_pairs(d: Doc, c: char)
    requires
        in_text(d.text, d.cursor),
        d.cursor.col + 1 < usize::MAX,
    ensures
        ({
            let e = d.insert_smart(c);
            let r = d.cursor.row as int;
            let line = d.text[r];
            let col = d.cursor.col as int;
            let front = line.take(col);
            let rest = line.skip(col);
            let next_word = col < line.len() && wordy(line[col]);
            let quote = c == '"' || c == '\'' || c == '`';
            let stuck = quote && col > 0 && (wordy(line[col - 1]) || line[col - 1] == c);
            let closer = c == ')' || c == ']' || c == '}' || quote;
            if closer && col < line.len() && line[col] == c {
                &&& e.text == d.text
                &&& e.cursor == (Cursor { row: d.cursor.row, col: (col + 1) as usize })
                &&& e == (Doc { cursor: e.cursor, ..d })
            } else if brings(c) is Some && !next_word && !stuck {
                &&& line_becomes(d, e, front + seq![c, brings(c)->0] + rest)
                &&& e.cursor == (Cursor { row: d.cursor.row, col: (col + 1) as usize })
                &&& surroundings_kept(d, e)
                &&& e.dirty
            } else {
                &&& line_becomes(d, e, front + seq![c] + rest)
                &&& e.cursor == (Cursor { row: d.cursor.row, col: (col + 1) as usize })
                &&& surroundings_kept(d, e)
                &&& e.dirty
            }
        }),
{
    use_pairs(c);
    let r = d.cursor.row as int;
    let line = d.text[r];
    let col = d.cursor.col as int;
    law_typing_puts_it_before_the_cursor(d, c);
    let one = d.insert_char(c);
    if brings(c) is Some {
        law_typing_puts_it_before_the_cursor(one, brings(c)->0);
        let two = one.insert_char(brings(c)->0);
        assert(two.text[r] =~= line.take(col) + seq![c, brings(c)->0] + line.skip(col));
    }
}

/// What the table of pairs holds.
proof fn use_pairs(c: char)
    ensures
        crate::editor::insert::autopair::closer_of(c) == brings(c),
        (exists|o: char| crate::editor::insert::autopair::closer_of(o) == Some(c)) <==> c == ')' || c == ']' || c == '}'
            || c == '"' || c == '\'' || c == '`',
{
    if c == ')' {
        assert(crate::editor::insert::autopair::closer_of('(') == Some(c));
    }
    if c == ']' {
        assert(crate::editor::insert::autopair::closer_of('[') == Some(c));
    }
    if c == '}' {
        assert(crate::editor::insert::autopair::closer_of('{') == Some(c));
    }
    if c == '"' || c == '\'' || c == '`' {
        assert(crate::editor::insert::autopair::closer_of(c) == Some(c));
    }
}

/// Backspace between an opener and its closer takes both; anywhere else it
/// takes one character.
pub proof fn law_smart_backspace_takes_pairs(d: Doc)
    requires
        in_text(d.text, d.cursor),
    ensures
        ({
            let e = d.delete_before_smart();
            let line = d.text[d.cursor.row as int];
            let col = d.cursor.col as int;
            if 0 < col < line.len() && brings(line[col - 1]) == Some(line[col]) {
                &&& line_becomes(d, e, line.take(col - 1) + line.skip(col + 1))
                &&& e.cursor == (Cursor { row: d.cursor.row, col: (col - 1) as usize })
                &&& e.yank == d.yank
                &&& noted(d, e)
                &&& surroundings_kept(d, e)
            } else {
                e == d.delete_before()
            }
        }),
{
    assert(d.version.wrapping_add(1) != d.version);
    let line = d.text[d.cursor.row as int];
    let col = d.cursor.col as int;
    if 0 < col < line.len() {
        use_pairs(line[col - 1]);
    }
}

/// Undoing brings back the text, the cursors and the mark of unsaved changes
/// that were recorded last, and redoing brings back those of the undone state.
/// Both count as a new version of the text.
pub proof fn law_undo_and_redo_bring_back(before: Doc, after: Doc)
    requires
        after.undo == before.snapshot().undo,
    ensures
        ({
            let u = after.undone();
            &&& u.text == before.text
            &&& u.cursor == before.cursor
            &&& u.extra == before.extra
            &&& u.dirty == before.dirty
            &&& u.version != after.version
            &&& u.yank == after.yank
            &&& u.path == after.path
            &&& u.redone().text == after.text
            &&& u.redone().cursor == after.cursor
            &&& u.redone().extra == after.extra
            &&& u.redone().dirty == after.dirty
            &&& u.redone().version != u.version
        }),
{
    let u = after.undone();
    assert(after.version.wrapping_add(1) != after.version);
    assert(u.version.wrapping_add(1) != u.version);
    crate::editor::history::law_undo_restores(before, after);
    crate::editor::history::law_redo_after_undo(after);
    let s = before.undo.push(before.shot());
    if s.len() > crate::editor::history::MAX_UNDO_DEPTH {
        assert(s.remove(0).last() == s.last());
    }
}

/// Where nothing is recorded there is nothing to undo, and where nothing was
/// undone there is nothing to redo. A new step ends what could be redone.
pub proof fn law_nothing_to_undo(d: Doc)
    ensures
        d.undo.len() == 0 ==> d.undone() == d,
        d.redo.len() == 0 ==> d.redone() == d,
        d.snapshot().redo.len() == 0,
        d.snapshot().undo.len() > 0,
        d.snapshot() == (Doc { undo: d.snapshot().undo, redo: d.snapshot().redo, ..d }),
{
}

/// Two hundred states are kept, the newest ones; each step that is recorded is
/// one more of them, on top of the others.
pub proof fn law_history_keeps_the_newest(d: Doc)
    requires
        d.undo.len() <= 200,
    ensures
        ({
            let u = d.snapshot().undo;
            &&& u.last().text == d.text
            &&& u.last().cursor == d.cursor
            &&& u.last().extra == d.extra
            &&& u.last().dirty == d.dirty
            &&& d.undo.len() < 200 ==> u.drop_last() == d.undo
            &&& d.undo.len() == 200 ==> u.len() == 200 && u.drop_last() == d.undo.skip(1)
        }),
{
    let u = d.snapshot().undo;
    if d.undo.len() < 200 {
        assert(u.drop_last() =~= d.undo);
    } else {
        assert(u.drop_last() =~= d.undo.skip(1));
    }
}

/// A count repeats a step: so many steps and so many more are all of them one
/// after the other.
pub proof fn law_counts_add_up(d: Doc, s: crate::editor::repeat::Step, a: int, b: int)
    requires
        0 <= a,
        0 <= b,
    ensures
        d.repeated(s, a).repeated(s, b) == d.repeated(s, a + b),
        d.repeated(s, 0) == d,
        d.repeated(s, 1) == d.stepped(s),
    decreases b,
{
    reveal_with_fuel(Doc::repeated, 2);
    if b > 0 {
        law_counts_add_up(d, s, a, b - 1);
    }
}

/// Replacing several characters puts the new one in place of each, from the
/// cursor on, as far as the line goes. The cursor ends on the last of them.
pub proof fn law_replace_puts_it_in_place_of_each(d: Doc, ch: char, n: int)
    requires
        in_text(d.text, d.cursor),
        n >= 1,
        d.cursor.col < d.text[d.cursor.row as int].len(),
        d.text[d.cursor.row as int].len() <= usize::MAX,
    ensures
        ({
            let e = d.replaced(ch, n);
            let r = d.cursor.row as int;
            let line = d.text[r];
            let col = d.cursor.col as int;
            let end = if col + n < line.len() {
                col + n
            } else {
                line.len() as int
            };
            &&& e.text.len() == d.text.len()
            &&& forall|k: int| 0 <= k < d.text.len() && k != r ==> (#[trigger] e.text[k]) == d.text[k]
            &&& e.text[r].len() == line.len()
            &&& forall|k: int|
                0 <= k < line.len() ==> (#[trigger] e.text[r][k]) == if col <= k < end {
                    ch
                } else {
                    line[k]
                }
            &&& e.cursor.row == r
            &&& e.cursor.col == end - 1
        }),
{
    lemma_replaces(d, ch, n - 1);
}

proof fn lemma_replaces(d: Doc, ch: char, n: int)
    requires
        in_text(d.text, d.cursor),
        n >= 0,
        d.cursor.col < d.text[d.cursor.row as int].len(),
        d.text[d.cursor.row as int].len() <= usize::MAX,
    ensures
        ({
            let e = d.repeated((crate::editor::repeat::Step::Replace { ch }), n);
            let r = d.cursor.row as int;
            let line = d.text[r];
            let col = d.cursor.col as int;
            let at = if col + n < line.len() {
                col + n
            } else {
                line.len() - 1
            };
            &&& e.text.len() == d.text.len()
            &&& forall|k: int| 0 <= k < d.text.len() && k != r ==> (#[trigger] e.text[k]) == d.text[k]
            &&& e.text[r].len() == line.len()
            &&& forall|k: int| 0 <= k < line.len() && !(col <= k <= at) ==> (#[trigger] e.text[r][k]) == line[k]
            &&& forall|k: int| col <= k < at ==> (#[trigger] e.text[r][k]) == ch
            &&& col + n < line.len() ==> e.text[r][at] == line[at]
            &&& e.cursor.row == r
            &&& e.cursor.col == at
        }),
    decreases n,
{
    if n > 0 {
        lemma_replaces(d, ch, n - 1);
    }
}

/// Toggling the comment of a line: behind its indentation the token comes off,
/// with one blank, where it stands there; else it goes in front of the rest,
/// with a blank. The indentation, the rest and the other lines stay.
pub proof fn law_comment_goes_behind_the_indentation(d: Doc, token: Seq<char>, at: int)
    requires
        in_text(d.text, d.cursor),
        0 <= at < d.text[d.cursor.row as int].len(),
        d.text[d.cursor.row as int].len() + token.len() < usize::MAX,
        forall|i: int| 0 <= i < at ==> white_space(#[trigger] d.text[d.cursor.row as int][i]),
        !white_space(d.text[d.cursor.row as int][at]),
    ensures
        ({
            let r = d.cursor.row as int;
            let line = d.text[r];
            let n = token.len() as int;
            let e = d.toggle_comment(token);
            let there = at + n <= line.len() && line.subrange(at, at + n) == token;
            let blank = at + n < line.len() && line[at + n] == ' ';
            &&& there && blank ==> line_becomes(d, e, line.take(at) + line.skip(at + n + 1))
            &&& there && !blank ==> line_becomes(d, e, line.take(at) + line.skip(at + n))
            &&& !there ==> line_becomes(d, e, line.take(at) + token + seq![' '] + line.skip(at))
            &&& e.cursor.row == r
            &&& e.yank == d.yank
            &&& noted(d, e)
            &&& surroundings_kept(d, e)
        }),
{
    assert(d.version.wrapping_add(1) != d.version);
    let r = d.cursor.row as int;
    let line = d.text[r];
    let n = token.len() as int;
    lemma_indentation(line, 0, at);
    let rest = line.skip(at);
    let there = at + n <= line.len() && line.subrange(at, at + n) == token;
    if token.is_prefix_of(rest) {
        assert(line.subrange(at, at + n) =~= token) by {
            assert(rest.subrange(0, n) =~= line.subrange(at, at + n));
        }
    }
    if there {
        assert(rest.subrange(0, n) =~= line.subrange(at, at + n));
        assert(token.is_prefix_of(rest));
        assert(rest.skip(n) =~= line.skip(at + n));
        if at + n < line.len() {
            assert(rest.skip(n + 1) =~= line.skip(at + n + 1));
        }
    } else {
        assert(line.take(at) + token.push(' ') + rest =~= line.take(at) + token + seq![' '] + line.skip(at));
    }
}

/// A blank line has no comment to toggle.
pub proof fn law_blank_line_keeps_no_comment(d: Doc, token: Seq<char>)
    requires
        in_text(d.text, d.cursor),
        forall|i: int|
            0 <= i < d.text[d.cursor.row as int].len() ==> white_space(#[trigger] d.text[d.cursor.row as int][i]),
    ensures
        d.toggle_comment(token) == d,
{
    let line = d.text[d.cursor.row as int];
    lemma_indentation(line, 0, line.len() as int);
}

proof fn lemma_indentation(line: Seq<char>, i: int, at: int)
    requires
        0 <= i <= at <= line.len(),
        forall|k: int| i <= k < at ==> white_space(#[trigger] line[k]),
        at < line.len() ==> !white_space(line[at]),
    ensures
        crate::editor::skip_space(line, i) == at,
    decreases at - i,
{
    if i < at {
        assert(white_space(line[i]));
        lemma_indentation(line, i + 1, at);
    }
}

/// The start of a line's text is its first character that is no white space;
/// in a blank line it is the start of the line.
pub proof fn law_first_non_blank(d: Doc, at: int)
    requires
        in_text(d.text, d.cursor),
        0 <= at <= d.text[d.cursor.row as int].len() <= usize::MAX,
        forall|i: int| 0 <= i < at ==> white_space(#[trigger] d.text[d.cursor.row as int][i]),
        at < d.text[d.cursor.row as int].len() ==> !white_space(d.text[d.cursor.row as int][at]),
    ensures
        ({
            let e = d.first_non_blank();
            &&& e == (Doc { cursor: e.cursor, ..d })
            &&& e.cursor.row == d.cursor.row
            &&& at < d.text[d.cursor.row as int].len() ==> e.cursor.col == at
            &&& at == d.text[d.cursor.row as int].len() ==> e.cursor.col == 0
        }),
{
    lemma_indentation(d.text[d.cursor.row as int], 0, at);
}

} // verus!
