//! Word motions by character class.
//!
//! Letters, digits and `_` form words; other characters form runs of
//! punctuation; white space separates. For the "big" motions everything
//! between white space is one word.
use vstd::prelude::*;
use crate::editor::{in_text, last_col, Cursor};
use crate::text::{alphanumeric, chars_of, text_of, white_space};

verus! {

#[derive(Debug, Clone, Copy, PartialEq, Eq, Structural)]
pub enum CharClass {
    Word,
    Punct,
    Space,
}

pub open spec fn class_of(c: char) -> CharClass {
    if white_space(c) {
        CharClass::Space
    } else if alphanumeric(c) || c == '_' {
        CharClass::Word
    } else {
        CharClass::Punct
    }
}

/// The class of a character.
pub fn classify(c: char) -> (r: CharClass)
    ensures
        r == class_of(c),
{
    if c.is_whitespace() {
        CharClass::Space
    } else if c.is_alphanumeric() || c == '_' {
        CharClass::Word
    } else {
        CharClass::Punct
    }
}

/// The class of a character, with words and punctuation taken together for
/// the big motions.
pub open spec fn word_class(c: char, big: bool) -> CharClass {
    if big && class_of(c) is Punct {
        CharClass::Word
    } else {
        class_of(c)
    }
}

fn classify_for(c: char, big: bool) -> (r: CharClass)
    ensures
        r == word_class(c, big),
{
    let raw = classify(c);
    if big && raw == CharClass::Punct {
        CharClass::Word
    } else {
        raw
    }
}

/// Whether a word starts at this place.
pub open spec fn word_start(line: Seq<char>, i: int, big: bool) -> bool {
    0 <= i < line.len() && !(class_of(line[i]) is Space) && (i == 0 || word_class(line[i - 1], big) != word_class(
        line[i],
        big,
    ))
}

/// Whether a word ends at this place.
pub open spec fn word_end(line: Seq<char>, i: int, big: bool) -> bool {
    0 <= i < line.len() && !(class_of(line[i]) is Space) && (i + 1 == line.len() || word_class(line[i + 1], big)
        != word_class(line[i], big))
}

/// What a word motion looks for.
pub enum Mark {
    /// The start of a word. An empty line counts as a word.
    Start { big: bool },
    /// The end of a word.
    End { big: bool },
}

pub open spec fn marked(text: Seq<Seq<char>>, m: Mark, r: int, c: int) -> bool {
    match m {
        Mark::Start { big } => word_start(text[r], c, big) || (c == 0 && text[r].len() == 0),
        Mark::End { big } => word_end(text[r], c, big),
    }
}

/// The first marked position at or after `(r, c)`.
pub open spec fn seek(text: Seq<Seq<char>>, m: Mark, r: int, c: int) -> Option<(int, int)>
    decreases text.len() - r, text[r].len() + 1 - c,
{
    if r < 0 || r >= text.len() {
        None
    } else if c > text[r].len() {
        seek(text, m, r + 1, 0)
    } else if marked(text, m, r, c) {
        Some((r, c))
    } else {
        seek(text, m, r, c + 1)
    }
}

/// The last marked position at or before `(r, c)`.
pub open spec fn seek_back(text: Seq<Seq<char>>, m: Mark, r: int, c: int) -> Option<(int, int)>
    decreases r, c + 1,
{
    if r < 0 || r >= text.len() {
        None
    } else if c < 0 {
        if r == 0 {
            None
        } else {
            seek_back(text, m, r - 1, text[r - 1].len() as int)
        }
    } else if marked(text, m, r, c) {
        Some((r, c))
    } else {
        seek_back(text, m, r, c - 1)
    }
}

/// Document order on pairs of row and column.
pub open spec fn pair_before(r: int, c: int, r2: int, c2: int) -> bool {
    r < r2 || (r == r2 && c < c2)
}

/// `seek` finds a marked position, and none lies before the one it finds.
pub proof fn law_seek(text: Seq<Seq<char>>, m: Mark, r: int, c: int)
    requires
        0 <= r,
        0 <= c,
    ensures
        match seek(text, m, r, c) {
            Some((fr, fc)) => {
                &&& 0 <= fr < text.len() && 0 <= fc <= text[fr].len()
                &&& marked(text, m, fr, fc)
                &&& !pair_before(fr, fc, r, c)
                &&& forall|r2: int, c2: int|
                    #![trigger marked(text, m, r2, c2)]
                    0 <= r2 < text.len() && 0 <= c2 <= text[r2].len() && !pair_before(r2, c2, r, c)
                        && pair_before(r2, c2, fr, fc) ==> !marked(text, m, r2, c2)
            },
            None => forall|r2: int, c2: int|
                #![trigger marked(text, m, r2, c2)]
                0 <= r2 < text.len() && 0 <= c2 <= text[r2].len() && !pair_before(r2, c2, r, c) ==> !marked(
                    text,
                    m,
                    r2,
                    c2,
                ),
        },
    decreases text.len() - r, text[r].len() + 1 - c,
{
    if r >= text.len() {
    } else if c > text[r].len() {
        law_seek(text, m, r + 1, 0);
    } else if !marked(text, m, r, c) {
        law_seek(text, m, r, c + 1);
    }
}

/// `seek_back` finds a marked position, and none lies between it and the
/// start.
pub proof fn law_seek_back(text: Seq<Seq<char>>, m: Mark, r: int, c: int)
    requires
        0 <= r < text.len(),
    ensures
        match seek_back(text, m, r, c) {
            Some((fr, fc)) => {
                &&& 0 <= fr < text.len() && 0 <= fc
                &&& marked(text, m, fr, fc)
                &&& !pair_before(r, c, fr, fc)
                &&& forall|r2: int, c2: int|
                    #![trigger marked(text, m, r2, c2)]
                    0 <= r2 < text.len() && 0 <= c2 <= text[r2].len() && !pair_before(r, c, r2, c2)
                        && pair_before(fr, fc, r2, c2) ==> !marked(text, m, r2, c2)
            },
            None => forall|r2: int, c2: int|
                #![trigger marked(text, m, r2, c2)]
                0 <= r2 < text.len() && 0 <= c2 <= text[r2].len() && !pair_before(r, c, r2, c2) ==> !marked(
                    text,
                    m,
                    r2,
                    c2,
                ),
        },
    decreases r, c + 1,
{
    if c < 0 {
        if r > 0 {
            law_seek_back(text, m, r - 1, text[r - 1].len() as int);
        }
    } else if !marked(text, m, r, c) {
        law_seek_back(text, m, r, c - 1);
    }
}

/// The target of a forward motion: the first marked position after `from`,
/// else the end of the given line.
pub open spec fn forward_target(text: Seq<Seq<char>>, m: Mark, from: Cursor, end_row: int) -> Cursor {
    match seek(text, m, from.row as int, from.col + 1) {
        Some((r, c)) => Cursor { row: r as usize, col: c as usize },
        None => Cursor { row: end_row as usize, col: last_col(text[end_row]) as usize },
    }
}

/// The next word start. Without one, the end of the line.
pub open spec fn next_word(text: Seq<Seq<char>>, from: Cursor, big: bool) -> Cursor {
    forward_target(text, Mark::Start { big }, from, from.row as int)
}

/// The next word end. Without one, the end of the text.
pub open spec fn next_word_end(text: Seq<Seq<char>>, from: Cursor, big: bool) -> Cursor {
    forward_target(text, Mark::End { big }, from, text.len() - 1)
}

/// The previous word end. Without one, the start of the text.
pub open spec fn prev_word_end(text: Seq<Seq<char>>, from: Cursor, big: bool) -> Cursor {
    match seek_back(text, Mark::End { big }, from.row as int, from.col - 1) {
        Some((r, c)) => Cursor { row: r as usize, col: c as usize },
        None => Cursor { row: 0, col: 0 },
    }
}

/// The last word start of a line at or before `i`, else the line's start.
pub open spec fn start_at_or_before(line: Seq<char>, i: int, big: bool) -> int
    decreases i,
{
    if i <= 0 {
        0
    } else if word_start(line, i, big) {
        i
    } else {
        start_at_or_before(line, i - 1, big)
    }
}

/// The previous word start of the line, else its start. From the start of a
/// line, the end of the line above.
pub open spec fn prev_word(text: Seq<Seq<char>>, from: Cursor, big: bool) -> Cursor {
    if from.col > 0 {
        Cursor {
            row: from.row,
            col: start_at_or_before(text[from.row as int], from.col - 1, big) as usize,
        }
    } else if from.row > 0 {
        Cursor { row: (from.row - 1) as usize, col: last_col(text[from.row - 1]) as usize }
    } else {
        from
    }
}

/// Past the last character of a line there is no mark left in it, unless the
/// line is empty.
proof fn lemma_seek_row_end(text: Seq<Seq<char>>, m: Mark, r: int, c: int)
    requires
        0 <= r < text.len(),
        c >= text[r].len(),
        c > 0 || m is End,
    ensures
        seek(text, m, r, c) == seek(text, m, r + 1, 0),
{
    if c == text[r].len() {
        assert(seek(text, m, r, c) == seek(text, m, r, c + 1));
    }
}

/// The first character from `i` on that is no white space, with what is known
/// of the places that were skipped.
fn skip_class_space(cs: &Vec<char>, i: usize) -> (r: usize)
    requires
        i <= cs.len(),
    ensures
        i <= r <= cs.len(),
        r < cs.len() ==> !(class_of(cs@[r as int]) is Space),
        forall|k: int| i <= k < r ==> class_of(#[trigger] cs@[k]) is Space,
{
    let mut k: usize = i;
    while k < cs.len() && classify(cs[k]) == CharClass::Space
        invariant
            i <= k <= cs.len(),
            forall|q: int| i <= q < k ==> class_of(#[trigger] cs@[q]) is Space,
        decreases cs.len() - k,
    {
        k = k + 1;
    }
    k
}

/// No mark stands on the places `a..b` of a line.
proof fn lemma_seek_skip(text: Seq<Seq<char>>, m: Mark, r: int, a: int, b: int)
    requires
        0 <= r < text.len(),
        0 <= a <= b <= text[r].len(),
        forall|k: int| a <= k < b ==> !(#[trigger] marked(text, m, r, k)),
    ensures
        seek(text, m, r, a) == seek(text, m, r, b),
    decreases b - a,
{
    if a < b {
        assert(!marked(text, m, r, a));
        lemma_seek_skip(text, m, r, a + 1, b);
    }
}

/// The next word start, by the character classes.
fn word_forward(lines: &Vec<String>, from: Cursor, big: bool) -> (r: Cursor)
    requires
        from.row < lines.len(),
    ensures
        r == next_word(text_of(lines@), from, big),
        in_text(text_of(lines@), r),
{
    let ghost text = text_of(lines@);
    let ghost m = Mark::Start { big };
    let row = from.row;
    let cs = chars_of(lines[row].as_str());
    let len = cs.len();
    proof {
        assert(cs@ == text[row as int]);
    }
    if from.col < len {
        let start = from.col;
        let class = classify_for(cs[start], big);
        let mut i: usize = start;
        if class != CharClass::Space {
            while i < len && classify_for(cs[i], big) == class
                invariant
                    start <= i <= len,
                    len == cs.len(),
                    start < len,
                    class == word_class(cs@[start as int], big),
                    forall|k: int| start <= k < i ==> word_class(#[trigger] cs@[k], big) == class,
                decreases len - i,
            {
                i = i + 1;
            }
        }
        let ghost run = i;
        let j = skip_class_space(&cs, i);
        proof {
            assert(j > start);
            assert forall|k: int| start + 1 <= k < j implies !(#[trigger] marked(text, m, row as int, k)) by {
                if k < run {
                    assert(word_class(cs@[k], big) == class);
                    assert(word_class(cs@[k - 1], big) == class);
                } else {
                    assert(class_of(cs@[k]) is Space);
                }
            }
            lemma_seek_skip(text, m, row as int, start + 1, j as int);
            if j < len {
                if j == run {
                    assert(word_class(cs@[j - 1], big) == class);
                    assert(word_class(cs@[j as int], big) != class);
                } else {
                    assert(class_of(cs@[j - 1]) is Space);
                }
                assert(marked(text, m, row as int, j as int));
            } else {
                lemma_seek_row_end(text, m, row as int, j as int);
            }
        }
        if j < len {
            return Cursor { row, col: j };
        }
    } else {
        proof {
            if from.col + 1 <= text[row as int].len() {
            } else {
                assert(seek(text, m, row as int, from.col + 1) == seek(text, m, row + 1, 0));
            }
        }
    }
    let mut r: usize = row + 1;
    while r < lines.len()
        invariant
            row == from.row,
            row < r <= lines.len(),
            text == text_of(lines@),
            m == (Mark::Start { big }),
            seek(text, m, row as int, from.col + 1) == seek(text, m, r as int, 0),
        decreases lines.len() - r,
    {
        let ls = chars_of(lines[r].as_str());
        proof {
            assert(ls@ == text[r as int]);
        }
        if ls.len() == 0 {
            proof {
                assert(marked(text, m, r as int, 0));
            }
            return Cursor { row: r, col: 0 };
        }
        let j = skip_class_space(&ls, 0);
        proof {
            lemma_seek_skip(text, m, r as int, 0, j as int);
            if j < ls.len() {
                if j > 0 {
                    assert(class_of(ls@[j - 1]) is Space);
                }
                assert(marked(text, m, r as int, j as int));
            } else {
                lemma_seek_row_end(text, m, r as int, j as int);
            }
        }
        if j < ls.len() {
            return Cursor { row: r, col: j };
        }
        r = r + 1;
    }
    Cursor { row, col: len.saturating_sub(1) }
}

/// Skips the rest of the word under the cursor and what separates it from
/// the next one; an empty line stops the motion. At the end of the text the
/// cursor goes to the end of its line.
pub fn word_forward_char_class(lines: &Vec<String>, from: Cursor) -> (r: Cursor)
    requires
        from.row < lines.len(),
    ensures
        r == next_word(text_of(lines@), from, false),
        in_text(text_of(lines@), r),
{
    word_forward(lines, from, false)
}

/// The same, with everything between white space as one word.
pub fn big_word_forward(lines: &Vec<String>, from: Cursor) -> (r: Cursor)
    requires
        from.row < lines.len(),
    ensures
        r == next_word(text_of(lines@), from, true),
        in_text(text_of(lines@), r),
{
    word_forward(lines, from, true)
}

/// Goes to the end of the word, or to that of the next one where the cursor
/// stands on an end already; across lines. Past the last word the cursor
/// goes to the end of the text.
pub fn word_end_char_class(lines: &Vec<String>, from: Cursor, big: bool) -> (r: Cursor)
    requires
        from.row < lines.len(),
    ensures
        r == next_word_end(text_of(lines@), from, big),
        in_text(text_of(lines@), r),
{
    let ghost text = text_of(lines@);
    let ghost m = Mark::End { big };
    let mut row: usize = from.row;
    let mut first = true;
    loop
        invariant
            from.row <= row < lines.len(),
            text == text_of(lines@),
            m == (Mark::End { big }),
            first ==> row == from.row,
            seek(text, m, from.row as int, from.col + 1) == seek(
                text,
                m,
                row as int,
                if first {
                    from.col + 1
                } else {
                    0
                },
            ),
        decreases lines.len() - row,
    {
        let cs = chars_of(lines[row].as_str());
        let len = cs.len();
        proof {
            assert(cs@ == text[row as int]);
        }
        let begin: usize = if !first {
            0
        } else if from.col < len {
            from.col + 1
        } else {
            len
        };
        proof {
            if first && from.col >= len {
                lemma_seek_row_end(text, m, row as int, from.col + 1);
                lemma_seek_row_end(text, m, row as int, len as int);
            }
        }
        let i = skip_class_space(&cs, begin);
        proof {
            assert forall|k: int| begin <= k < i implies !(#[trigger] marked(text, m, row as int, k)) by {
                assert(class_of(cs@[k]) is Space);
            }
            lemma_seek_skip(text, m, row as int, begin as int, i as int);
        }
        if i < len {
            let class = classify_for(cs[i], big);
            let mut j: usize = i;
            while j + 1 < len && classify_for(cs[j + 1], big) == class
                invariant
                    i <= j < len,
                    len == cs.len(),
                    cs@ == text[row as int],
                    m == (Mark::End { big }),
                    0 <= row < text.len(),
                    class == word_class(cs@[i as int], big),
                    !(class_of(cs@[i as int]) is Space),
                    word_class(cs@[j as int], big) == class,
                    seek(text, m, row as int, i as int) == seek(text, m, row as int, j as int),
                decreases len - j,
            {
                proof {
                    assert(!marked(text, m, row as int, j as int));
                }
                j = j + 1;
            }
            proof {
                assert(marked(text, m, row as int, j as int));
            }
            return Cursor { row, col: j };
        }
        proof {
            lemma_seek_row_end(text, m, row as int, i as int);
        }
        if row + 1 >= lines.len() {
            return Cursor { row, col: len.saturating_sub(1) };
        }
        row = row + 1;
        first = false;
    }
}

/// Goes back to the end of the previous word, across lines; to the start of
/// the text where there is none.
pub fn word_end_back(lines: &Vec<String>, from: Cursor, big: bool) -> (r: Cursor)
    requires
        from.row < lines.len(),
    ensures
        r == prev_word_end(text_of(lines@), from, big),
        in_text(text_of(lines@), r),
{
    let ghost text = text_of(lines@);
    let ghost m = Mark::End { big };
    let mut row: usize = from.row;
    let mut below: usize = from.col;
    loop
        invariant
            row < lines.len(),
            text == text_of(lines@),
            m == (Mark::End { big }),
            seek_back(text, m, from.row as int, from.col - 1) == seek_back(text, m, row as int, below - 1),
        decreases row,
    {
        let cs = chars_of(lines[row].as_str());
        let len = cs.len();
        proof {
            assert(cs@ == text[row as int]);
        }
        let mut i: usize = below;
        while i > 0
            invariant
                cs@ == text[row as int],
                len == cs.len(),
                row < lines.len(),
                text == text_of(lines@),
                m == (Mark::End { big }),
                seek_back(text, m, from.row as int, from.col - 1) == seek_back(text, m, row as int, i - 1),
            decreases i,
        {
            let k = i - 1;
            if k < len && classify(cs[k]) != CharClass::Space {
                let end = if k + 1 >= len {
                    true
                } else {
                    classify_for(cs[k], big) != classify_for(cs[k + 1], big)
                };
                if end {
                    proof {
                        assert(marked(text, m, row as int, k as int));
                    }
                    return Cursor { row, col: k };
                }
            }
            proof {
                assert(!marked(text, m, row as int, k as int));
            }
            i = k;
        }
        if row == 0 {
            return Cursor { row: 0, col: 0 };
        }
        row = row - 1;
        let above = chars_of(lines[row].as_str());
        below = above.len();
        proof {
            assert(above@ == text[row as int]);
            assert(!marked(text, m, row as int, below as int));
            assert(seek_back(text, m, row + 1, -1) == seek_back(text, m, row as int, below as int));
        }
    }
}

/// The previous word start of the line.
fn word_back(lines: &Vec<String>, from: Cursor, big: bool) -> (r: Cursor)
    requires
        in_text(text_of(lines@), from),
    ensures
        r == prev_word(text_of(lines@), from, big),
        in_text(text_of(lines@), r),
{
    let ghost text = text_of(lines@);
    if from.col == 0 {
        if from.row > 0 {
            let row = from.row - 1;
            let len = chars_of(lines[row].as_str()).len();
            return Cursor { row, col: len.saturating_sub(1) };
        }
        return from;
    }
    let cs = chars_of(lines[from.row].as_str());
    let mut i: usize = from.col - 1;
    while i > 0 && classify(cs[i]) == CharClass::Space
        invariant
            i < cs.len(),
            cs@ == text[from.row as int],
            start_at_or_before(cs@, from.col - 1, big) == start_at_or_before(cs@, i as int, big),
        decreases i,
    {
        i = i - 1;
    }
    let class = classify_for(cs[i], big);
    while i > 0 && classify_for(cs[i - 1], big) == class
        invariant
            i < cs.len(),
            cs@ == text[from.row as int],
            class == word_class(cs@[i as int], big),
            i > 0 ==> !(class is Space),
            start_at_or_before(cs@, from.col - 1, big) == start_at_or_before(cs@, i as int, big),
        decreases i,
    {
        i = i - 1;
    }
    Cursor { row: from.row, col: i }
}

/// Steps back over what separates words and on to the start of the word
/// before. From the start of a line, goes to the end of the line above.
pub fn word_back_char_class(lines: &Vec<String>, from: Cursor) -> (r: Cursor)
    requires
        in_text(text_of(lines@), from),
    ensures
        r == prev_word(text_of(lines@), from, false),
        in_text(text_of(lines@), r),
{
    word_back(lines, from, false)
}

/// The same, with everything between white space as one word.
pub fn big_word_back(lines: &Vec<String>, from: Cursor) -> (r: Cursor)
    requires
        in_text(text_of(lines@), from),
    ensures
        r == prev_word(text_of(lines@), from, true),
        in_text(text_of(lines@), r),
{
    word_back(lines, from, true)
}

/// Word motions stay in the text.
pub proof fn law_word_motions_in_text(text: Seq<Seq<char>>, from: Cursor, big: bool)
    requires
        in_text(text, from),
        text.len() <= usize::MAX,
        forall|r: int| 0 <= r < text.len() ==> (#[trigger] text[r]).len() <= usize::MAX,
    ensures
        in_text(text, next_word(text, from, big)),
        in_text(text, next_word_end(text, from, big)),
        in_text(text, prev_word_end(text, from, big)),
        in_text(text, prev_word(text, from, big)),
{
    law_seek(text, Mark::Start { big }, from.row as int, from.col + 1);
    law_seek(text, Mark::End { big }, from.row as int, from.col + 1);
    law_seek_back(text, Mark::End { big }, from.row as int, from.col - 1);
    lemma_start_range(text[from.row as int], from.col - 1, big);
    let a = text[from.row as int];
    let b = text[text.len() - 1];
    if from.row > 0 {
        let c = text[from.row - 1];
    }
}

proof fn lemma_start_range(line: Seq<char>, i: int, big: bool)
    ensures
        0 <= start_at_or_before(line, i, big),
        i >= 0 ==> start_at_or_before(line, i, big) <= i,
    decreases i,
{
    if i > 0 && !word_start(line, i, big) {
        lemma_start_range(line, i - 1, big);
    }
}

} // verus!
