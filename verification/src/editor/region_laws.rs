//! What text objects, replacements and swaps of case promise of every text.
use vstd::prelude::*;
use crate::action::{Object, Scope};
use crate::editor::case::{flip_cols, flips, Span};
use crate::editor::motion::find::{first_at, last_before, law_first_at, law_last_before};
use crate::editor::search::{law_occurrence, occurs};
use crate::editor::substitute::{hits, hits_in, replaced, substitution, SubsArgs, SubsRange};
use crate::editor::text_object::{close_right, closed_by, first_pair, open_left, surrounding};
use crate::editor::{in_text, Cursor, Doc};
use crate::text::{lower_mapping, lowercase, pieces, upper_mapping, uppercase};
use crate::text_laws::{law_pieces_end, law_pieces_whole};

verus! {

/// How many more of the opening than of the closing characters stand among the
/// characters `a..b` of a line.
pub open spec fn surplus(line: Seq<char>, a: int, b: int, open: char, close: char) -> int
    decreases b - a,
{
    if b <= a {
        0
    } else {
        surplus(line, a, b - 1, open, close) + if line[b - 1] == open {
            1int
        } else if line[b - 1] == close {
            -1
        } else {
            0
        }
    }
}

proof fn lemma_surplus_first(line: Seq<char>, a: int, b: int, open: char, close: char)
    requires
        a < b,
    ensures
        surplus(line, a, b, open, close) == surplus(line, a + 1, b, open, close) + if line[a] == open {
            1int
        } else if line[a] == close {
            -1
        } else {
            0
        },
    decreases b - a,
{
    if b > a + 1 {
        lemma_surplus_first(line, a, b - 1, open, close);
    } else {
        assert(surplus(line, a, a, open, close) == 0);
    }
}

/// The bracket that is open at a column: an opening one at or before it, with
/// as many closed as opened between the two, and none nearer.
pub open spec fn open_at(line: Seq<char>, p: int, col: int, open: char, close: char) -> bool {
    &&& 0 <= p <= col < line.len()
    &&& line[p] == open
    &&& surplus(line, p + 1, col + 1, open, close) == 0
    &&& forall|q: int|
        p < q <= col && #[trigger] line[q] == open ==> surplus(line, q + 1, col + 1, open, close) != 0
}

/// The bracket that closes the one at `p`: a closing one behind it, with as
/// many closed as opened between the two, and none nearer.
pub open spec fn closes(line: Seq<char>, p: int, b: int, open: char, close: char) -> bool {
    &&& 0 <= p < b < line.len()
    &&& line[b] == close
    &&& surplus(line, p + 1, b, open, close) == 0
    &&& forall|q: int| p < q < b && #[trigger] line[q] == close ==> surplus(line, p + 1, q, open, close) != 0
}

proof fn lemma_open_left(line: Seq<char>, i: int, open: char, close: char, d: int, p: int)
    requires
        open != close,
        0 <= p <= i < line.len(),
        line[p] == open,
        surplus(line, p + 1, i + 1, open, close) == d,
        forall|q: int| p < q <= i && #[trigger] line[q] == open ==> surplus(line, q + 1, i + 1, open, close) != d,
    ensures
        open_left(line, i, open, close, d) == Some(p),
    decreases i,
{
    assert(surplus(line, i + 1, i + 1, open, close) == 0);
    if p < i {
        let v = if line[i] == open {
            1int
        } else if line[i] == close {
            -1
        } else {
            0
        };
        assert(surplus(line, p + 1, i + 1, open, close) == surplus(line, p + 1, i, open, close) + v);
        assert forall|q: int| p < q <= i - 1 && #[trigger] line[q] == open implies surplus(
            line,
            q + 1,
            i,
            open,
            close,
        ) != d - v by {
            assert(surplus(line, q + 1, i + 1, open, close) == surplus(line, q + 1, i, open, close) + v);
        }
        lemma_open_left(line, i - 1, open, close, d - v, p);
    }
}

proof fn lemma_close_right(line: Seq<char>, i: int, open: char, close: char, d: int, b: int)
    requires
        open != close,
        0 <= i <= b < line.len(),
        line[b] == close,
        surplus(line, i, b, open, close) == -d,
        forall|q: int| i <= q < b && #[trigger] line[q] == close ==> surplus(line, i, q, open, close) != -d,
    ensures
        close_right(line, i, open, close, d) == Some(b),
    decreases b - i,
{
    assert(surplus(line, i, i, open, close) == 0);
    if i < b {
        let v = if line[i] == open {
            1int
        } else if line[i] == close {
            -1
        } else {
            0
        };
        lemma_surplus_first(line, i, b, open, close);
        assert forall|q: int| i + 1 <= q < b && #[trigger] line[q] == close implies surplus(
            line,
            i + 1,
            q,
            open,
            close,
        ) != -d - v by {
            lemma_surplus_first(line, i, q, open, close);
        }
        lemma_close_right(line, i + 1, open, close, d + v, b);
    }
}

/// The two characters of a bracket object.
pub open spec fn brackets(object: Object, open: char, close: char) -> bool {
    match object {
        Object::Paren => open == '(' && close == ')',
        Object::Brace => open == '{' && close == '}',
        Object::Bracket => open == '[' && close == ']',
        _ => false,
    }
}

/// A bracket object is the pair that is open at the cursor and its partner: with
/// both brackets, or what stands between them.
pub proof fn law_bracket_object_surrounds(d: Doc, object: Object, open: char, close: char, p: int, b: int)
    requires
        in_text(d.text, d.cursor),
        d.text[d.cursor.row as int].len() < usize::MAX,
        brackets(object, open, close),
        open_at(d.text[d.cursor.row as int], p, d.cursor.col as int, open, close),
        closes(d.text[d.cursor.row as int], p, b, open, close),
    ensures
        d.text_object(Scope::Around, object) == Some(
            (Cursor { row: d.cursor.row, col: p as usize }, Cursor { row: d.cursor.row, col: (b + 1) as usize }),
        ),
        d.text_object(Scope::Inner, object) == Some(
            (Cursor { row: d.cursor.row, col: (p + 1) as usize }, Cursor { row: d.cursor.row, col: b as usize }),
        ),
{
    let line = d.text[d.cursor.row as int];
    lemma_open_left(line, d.cursor.col as int, open, close, 0, p);
    lemma_close_right(line, p + 1, open, close, 0, b);
}

/// Where no bracket is open at the cursor, a bracket object is the first pair
/// to the right of it.
pub proof fn law_bracket_object_lies_ahead(d: Doc, object: Object, open: char, close: char, p: int, b: int)
    requires
        in_text(d.text, d.cursor),
        d.text[d.cursor.row as int].len() < usize::MAX,
        brackets(object, open, close),
        ({
            let line = d.text[d.cursor.row as int];
            &&& forall|q: int| 0 <= q <= d.cursor.col && q < line.len() ==> #[trigger] line[q] != open
            &&& d.cursor.col < p < line.len()
            &&& line[p] == open
            &&& forall|q: int| d.cursor.col < q < p ==> #[trigger] line[q] != open
            &&& closes(line, p, b, open, close)
        }),
    ensures
        d.text_object(Scope::Around, object) == Some(
            (Cursor { row: d.cursor.row, col: p as usize }, Cursor { row: d.cursor.row, col: (b + 1) as usize }),
        ),
        d.text_object(Scope::Inner, object) == Some(
            (Cursor { row: d.cursor.row, col: (p + 1) as usize }, Cursor { row: d.cursor.row, col: b as usize }),
        ),
{
    let line = d.text[d.cursor.row as int];
    lemma_none_open(line, d.cursor.col as int, open, close, 0);
    lemma_close_right(line, p + 1, open, close, 0, b);
    lemma_first_pair_at(line, d.cursor.col + 1, open, close, p);
}

proof fn lemma_none_open(line: Seq<char>, i: int, open: char, close: char, d: int)
    requires
        forall|q: int| 0 <= q <= i && q < line.len() ==> #[trigger] line[q] != open,
    ensures
        open_left(line, i, open, close, d) is None,
    decreases i + 1,
{
    if 0 <= i < line.len() {
        assert(line[i] != open);
        lemma_none_open(line, i - 1, open, close, d + 1);
        lemma_none_open(line, i - 1, open, close, d);
    }
}

proof fn lemma_first_pair_at(line: Seq<char>, i: int, open: char, close: char, p: int)
    requires
        0 <= i <= p < line.len(),
        line[p] == open,
        closed_by(line, p, open, close) is Some,
        forall|q: int| i <= q < p ==> #[trigger] line[q] != open,
    ensures
        first_pair(line, i, open, close) == Some((p, closed_by(line, p, open, close)->0)),
    decreases p - i,
{
    if i < p {
        assert(line[i] != open);
        lemma_first_pair_at(line, i + 1, open, close, p);
    }
}

/// A quotation runs from the last quote at or before the cursor to the next one
/// behind it: with both quotes, or what stands between them.
pub proof fn law_quotation_surrounds(d: Doc, object: Object, quote: char, p: int, b: int)
    requires
        in_text(d.text, d.cursor),
        d.text[d.cursor.row as int].len() < usize::MAX,
        (object is DoubleQuote && quote == '"') || (object is SingleQuote && quote == '\''),
        ({
            let line = d.text[d.cursor.row as int];
            &&& 0 <= p <= d.cursor.col
            &&& p < b < line.len()
            &&& line[p] == quote
            &&& line[b] == quote
            &&& forall|q: int| p < q <= d.cursor.col && q < line.len() ==> #[trigger] line[q] != quote
            &&& forall|q: int| p < q < b ==> #[trigger] line[q] != quote
        }),
    ensures
        d.text_object(Scope::Around, object) == Some(
            (Cursor { row: d.cursor.row, col: p as usize }, Cursor { row: d.cursor.row, col: (b + 1) as usize }),
        ),
        d.text_object(Scope::Inner, object) == Some(
            (Cursor { row: d.cursor.row, col: (p + 1) as usize }, Cursor { row: d.cursor.row, col: b as usize }),
        ),
{
    let line = d.text[d.cursor.row as int];
    let at: int = if d.cursor.col + 1 < line.len() {
        d.cursor.col + 1
    } else {
        line.len() as int
    };
    law_last_before(line, quote, at);
    assert(line[p] == quote);
    assert(last_before(line, quote, at) == Some(p));
    law_first_at(line, quote, p + 1);
    assert(line[b] == quote);
    assert(first_at(line, quote, p + 1) == Some(b));
}

/// With no quote at or before the cursor, a quotation is the first one to the
/// right of it.
pub proof fn law_quotation_lies_ahead(d: Doc, object: Object, quote: char, p: int, b: int)
    requires
        in_text(d.text, d.cursor),
        d.text[d.cursor.row as int].len() < usize::MAX,
        (object is DoubleQuote && quote == '"') || (object is SingleQuote && quote == '\''),
        ({
            let line = d.text[d.cursor.row as int];
            &&& d.cursor.col < p < b < line.len()
            &&& line[p] == quote
            &&& line[b] == quote
            &&& forall|q: int| 0 <= q < b && q != p ==> #[trigger] line[q] != quote
        }),
    ensures
        d.text_object(Scope::Around, object) == Some(
            (Cursor { row: d.cursor.row, col: p as usize }, Cursor { row: d.cursor.row, col: (b + 1) as usize }),
        ),
        d.text_object(Scope::Inner, object) == Some(
            (Cursor { row: d.cursor.row, col: (p + 1) as usize }, Cursor { row: d.cursor.row, col: b as usize }),
        ),
{
    let line = d.text[d.cursor.row as int];
    law_last_before(line, quote, d.cursor.col + 1);
    assert(surrounding(line, d.cursor.col as int, quote, quote) is None);
    law_first_at(line, quote, p + 1);
    assert(line[b] == quote);
    assert(first_at(line, quote, p + 1) == Some(b));
    lemma_first_pair_at(line, d.cursor.col + 1, quote, quote, p);
}

/// A line without the object's characters has no such object, and there are
/// none for paragraphs, functions, classes and parameters.
pub proof fn law_no_delimiter_no_object(d: Doc, scope: Scope, object: Object, open: char, close: char)
    requires
        in_text(d.text, d.cursor),
        brackets(object, open, close) || (object is DoubleQuote && open == '"') || (object is SingleQuote && open
            == '\'') || object is Paragraph || object is Function || object is Class || object is Parameter,
        object is Paragraph || object is Function || object is Class || object is Parameter || forall|q: int|
            0 <= q < d.text[d.cursor.row as int].len() ==> #[trigger] d.text[d.cursor.row as int][q] != open,
    ensures
        d.text_object(scope, object) is None,
{
    let line = d.text[d.cursor.row as int];
    if brackets(object, open, close) {
        lemma_none_open(line, d.cursor.col as int, open, close, 0);
        lemma_no_pair(line, d.cursor.col + 1, open, close);
    } else if object is DoubleQuote || object is SingleQuote {
        let at: int = if d.cursor.col + 1 < line.len() {
            d.cursor.col + 1
        } else {
            line.len() as int
        };
        law_last_before(line, open, at);
        lemma_no_pair(line, d.cursor.col + 1, open, open);
    }
}

proof fn lemma_no_pair(line: Seq<char>, i: int, open: char, close: char)
    requires
        0 <= i,
        forall|q: int| 0 <= q < line.len() ==> #[trigger] line[q] != open,
    ensures
        first_pair(line, i, open, close) is None,
    decreases line.len() - i,
{
    if i < line.len() {
        assert(line[i] != open);
        lemma_no_pair(line, i + 1, open, close);
    }
}

/// Replacing in a line: what stands before the first occurrence stays, the
/// replacement stands in its place, and what follows stays too, or has its
/// occurrences replaced in turn. A line without an occurrence stays as it is.
pub proof fn law_replace_in_a_line(line: Seq<char>, pat: Seq<char>, repl: Seq<char>, c: int)
    requires
        pat.len() > 0,
        0 <= c <= line.len(),
        forall|j: int| 0 <= j < c ==> !#[trigger] occurs(line, pat, j),
    ensures
        c + pat.len() <= line.len() && line.subrange(c, c + pat.len()) == pat ==> {
            &&& replaced(line, pat, repl, false, 0) == line.take(c) + repl + line.skip(c + pat.len())
            &&& replaced(line, pat, repl, true, 0) == line.take(c) + repl + replaced(
                line.skip(c + pat.len()),
                pat,
                repl,
                true,
                0,
            )
            &&& hits(line, pat, false, 0) == 1
            &&& hits(line, pat, true, 0) == 1 + hits(line.skip(c + pat.len()), pat, true, 0)
        },
        c == line.len() ==> {
            &&& replaced(line, pat, repl, false, 0) == line
            &&& replaced(line, pat, repl, true, 0) == line
            &&& hits(line, pat, false, 0) == 0
            &&& hits(line, pat, true, 0) == 0
        },
{
    lemma_replaced_before(line, pat, repl, false, 0, c);
    lemma_replaced_before(line, pat, repl, true, 0, c);
    assert(line.subrange(0, c) =~= line.take(c));
    if c + pat.len() <= line.len() && line.subrange(c, c + pat.len()) == pat {
        assert(occurs(line, pat, c));
        lemma_replaced_shift(line, pat, repl, true, c + pat.len());
        assert(line.take(c) + (repl + line.skip(c + pat.len())) =~= line.take(c) + repl + line.skip(c + pat.len()));
        let rest = replaced(line.skip(c + pat.len()), pat, repl, true, 0);
        assert(line.take(c) + (repl + rest) =~= line.take(c) + repl + rest);
    }
    if c == line.len() {
        assert(line.take(c) + Seq::<char>::empty() =~= line);
    }
}

proof fn lemma_replaced_before(line: Seq<char>, pat: Seq<char>, repl: Seq<char>, global: bool, i: int, c: int)
    requires
        pat.len() > 0,
        0 <= i <= c <= line.len(),
        forall|j: int| i <= j < c ==> !#[trigger] occurs(line, pat, j),
    ensures
        replaced(line, pat, repl, global, i) == line.subrange(i, c) + replaced(line, pat, repl, global, c),
        hits(line, pat, global, i) == hits(line, pat, global, c),
    decreases c - i,
{
    if i < c {
        lemma_replaced_before(line, pat, repl, global, i + 1, c);
        assert(!occurs(line, pat, i));
        assert(seq![line[i]] + (line.subrange(i + 1, c) + replaced(line, pat, repl, global, c)) =~= line.subrange(i, c)
            + replaced(line, pat, repl, global, c));
    } else {
        assert(line.subrange(i, c) + replaced(line, pat, repl, global, c) =~= replaced(line, pat, repl, global, c));
    }
}

proof fn lemma_replaced_shift(line: Seq<char>, pat: Seq<char>, repl: Seq<char>, global: bool, c: int)
    requires
        pat.len() > 0,
        0 <= c <= line.len(),
    ensures
        replaced(line, pat, repl, global, c) == replaced(line.skip(c), pat, repl, global, 0),
        hits(line, pat, global, c) == hits(line.skip(c), pat, global, 0),
{
    lemma_replaced_shift_from(line, pat, repl, global, c, c);
}

proof fn lemma_replaced_shift_from(line: Seq<char>, pat: Seq<char>, repl: Seq<char>, global: bool, c: int, k: int)
    requires
        pat.len() > 0,
        0 <= c <= k,
        c <= line.len(),
    ensures
        replaced(line, pat, repl, global, k) == replaced(line.skip(c), pat, repl, global, k - c),
        hits(line, pat, global, k) == hits(line.skip(c), pat, global, k - c),
    decreases line.len() - k,
{
    if k < line.len() {
        let s = line.skip(c);
        law_occurrence(line, pat, k);
        law_occurrence(s, pat, k - c);
        assert(occurs(line, pat, k) == occurs(s, pat, k - c)) by {
            if occurs(line, pat, k) {
                assert forall|i: int| 0 <= i < pat.len() implies s[k - c + i] == #[trigger] pat[i] by {
                    assert(line[k + i] == pat[i]);
                }
            }
            if occurs(s, pat, k - c) {
                assert forall|i: int| 0 <= i < pat.len() implies line[k + i] == #[trigger] pat[i] by {
                    assert(s[k - c + i] == pat[i]);
                }
            }
        }
        if occurs(line, pat, k) {
            lemma_replaced_shift_from(line, pat, repl, global, c, k + pat.len());
            assert(line.skip(k + pat.len()) =~= s.skip(k - c + pat.len()));
        } else {
            lemma_replaced_shift_from(line, pat, repl, global, c, k + 1);
        }
    }
}

/// Replacing in the document works on the cursor's line, or on every line where
/// the whole text is meant, and on no other. Where nothing occurs nothing
/// changes at all.
pub proof fn law_replace_in_the_text(d: Doc, s: SubsArgs<Seq<char>>)
    requires
        in_text(d.text, d.cursor),
        d.text.len() <= usize::MAX,
        s.pattern.len() > 0,
    ensures
        ({
            let e = d.substitute(s);
            &&& e.text.len() == d.text.len()
            &&& forall|r: int|
                0 <= r < d.text.len() ==> (#[trigger] e.text[r]) == if s.range is WholeBuffer || r == d.cursor.row {
                    replaced(d.text[r], s.pattern, s.replacement, s.global, 0)
                } else {
                    d.text[r]
                }
            &&& e.text != d.text ==> e.dirty && e.version != d.version
            &&& e.cursor.row == d.cursor.row
            &&& e.yank == d.yank
            &&& (forall|r: int, j: int|
                0 <= r < d.text.len() ==> !#[trigger] occurs(d.text[r], s.pattern, j)) ==> e == d
        }),
{
    assert(d.version.wrapping_add(1) != d.version);
    let (a, b) = crate::editor::substitute::rows_of(d, s.range);
    let e = d.substitute(s);
    if hits_in(d.text, s, a, b) == 0 {
        lemma_no_hits(d.text, s, a, b);
        assert forall|r: int| 0 <= r < d.text.len() implies (#[trigger] e.text[r]) == if s.range is WholeBuffer || r
            == d.cursor.row {
            replaced(d.text[r], s.pattern, s.replacement, s.global, 0)
        } else {
            d.text[r]
        } by {
            if a <= r < b {
                assert(hits(d.text[r], s.pattern, s.global, 0) == 0);
                lemma_unhit(d.text[r], s.pattern, s.replacement, s.global, 0);
                assert(d.text[r].skip(0) =~= d.text[r]);
            }
        }
    }
    if forall|r: int, j: int| 0 <= r < d.text.len() ==> !#[trigger] occurs(d.text[r], s.pattern, j) {
        lemma_nothing_hit(d.text, s, a, b);
    }
}

proof fn lemma_hits_range(line: Seq<char>, pat: Seq<char>, global: bool, c: int)
    ensures
        hits(line, pat, global, c) >= 0,
    decreases line.len() - c,
{
    if c < line.len() {
        if occurs(line, pat, c) {
            lemma_hits_range(line, pat, global, c + pat.len());
        } else {
            lemma_hits_range(line, pat, global, c + 1);
        }
    }
}

proof fn lemma_no_hits(text: Seq<Seq<char>>, s: SubsArgs<Seq<char>>, a: int, b: int)
    ensures
        hits_in(text, s, a, b) >= 0,
        hits_in(text, s, a, b) == 0 ==> forall|r: int|
            a <= r < b ==> hits(#[trigger] text[r], s.pattern, s.global, 0) == 0,
    decreases b - a,
{
    if a < b {
        lemma_no_hits(text, s, a, b - 1);
        lemma_hits_range(text[b - 1], s.pattern, s.global, 0);
    }
}

proof fn lemma_unhit(line: Seq<char>, pat: Seq<char>, repl: Seq<char>, global: bool, c: int)
    requires
        0 <= c <= line.len(),
        hits(line, pat, global, c) == 0,
    ensures
        replaced(line, pat, repl, global, c) == line.skip(c),
    decreases line.len() - c,
{
    if c < line.len() {
        if occurs(line, pat, c) {
            lemma_hits_range(line, pat, global, c + pat.len());
        } else {
            lemma_unhit(line, pat, repl, global, c + 1);
        }
        assert(seq![line[c]] + line.skip(c + 1) =~= line.skip(c));
    } else {
        assert(line.skip(c) =~= Seq::empty());
    }
}

proof fn lemma_nothing_hit(text: Seq<Seq<char>>, s: SubsArgs<Seq<char>>, a: int, b: int)
    requires
        0 <= a,
        b <= text.len(),
        forall|r: int, j: int| 0 <= r < text.len() ==> !#[trigger] occurs(text[r], s.pattern, j),
    ensures
        hits_in(text, s, a, b) == 0,
    decreases b - a,
{
    if a < b {
        lemma_nothing_hit(text, s, a, b - 1);
        lemma_unoccurring(text[b - 1], s.pattern, s.global, 0);
    }
}

proof fn lemma_unoccurring(line: Seq<char>, pat: Seq<char>, global: bool, c: int)
    requires
        forall|j: int| !#[trigger] occurs(line, pat, j),
    ensures
        hits(line, pat, global, c) == 0,
    decreases line.len() - c,
{
    if c < line.len() {
        assert(!occurs(line, pat, c));
        lemma_unoccurring(line, pat, global, c + 1);
    }
}

/// A replacement is spelled `s/pattern/replacement`, with a `%` in front for the
/// whole text and with `/g` behind for every occurrence in a line.
pub proof fn law_replacement_is_spelled(pat: Seq<char>, repl: Seq<char>)
    requires
        forall|i: int| 0 <= i < pat.len() ==> pat[i] != '/',
        forall|i: int| 0 <= i < repl.len() ==> repl[i] != '/',
    ensures
        substitution(seq!['s', '/'] + pat + seq!['/'] + repl) == Some(
            SubsArgs { range: SubsRange::CurrentLine, pattern: pat, replacement: repl, global: false },
        ),
        substitution(seq!['s', '/'] + pat + seq!['/'] + repl + seq!['/', 'g']) == Some(
            SubsArgs { range: SubsRange::CurrentLine, pattern: pat, replacement: repl, global: true },
        ),
        substitution(seq!['%', 's', '/'] + pat + seq!['/'] + repl) == Some(
            SubsArgs { range: SubsRange::WholeBuffer, pattern: pat, replacement: repl, global: false },
        ),
        substitution(seq!['%', 's', '/'] + pat + seq!['/'] + repl + seq!['/', 'g']) == Some(
            SubsArgs { range: SubsRange::WholeBuffer, pattern: pat, replacement: repl, global: true },
        ),
{
    reveal_strlit("s");
    reveal_strlit("%s");
    reveal_strlit("g");
    lemma_spelled(seq!['s'], pat, repl);
    lemma_spelled(seq!['%', 's'], pat, repl);
    assert("s"@ =~= seq!['s']);
    assert("%s"@ =~= seq!['%', 's']);
    assert("g"@ =~= seq!['g']);
    assert(seq!['s', '/'] =~= seq!['s'] + seq!['/']);
    assert(seq!['%', 's', '/'] =~= seq!['%', 's'] + seq!['/']);
    assert(seq!['s'].len() != seq!['%', 's'].len());
    assert(Seq::<char>::empty() != seq!['g']) by {
        assert(seq!['g'].len() == 1);
    }
}

proof fn lemma_spelled(head: Seq<char>, pat: Seq<char>, repl: Seq<char>)
    requires
        forall|i: int| 0 <= i < head.len() ==> head[i] != '/',
        forall|i: int| 0 <= i < pat.len() ==> pat[i] != '/',
        forall|i: int| 0 <= i < repl.len() ==> repl[i] != '/',
    ensures
        pieces(head + seq!['/'] + pat + seq!['/'] + repl, '/') == seq![head, pat, repl],
        pieces(head + seq!['/'] + pat + seq!['/'] + repl + seq!['/', 'g'], '/') == seq![head, pat, repl, seq!['g']],
{
    law_pieces_whole(head, '/');
    law_pieces_end(head, pat, '/');
    assert(head.push('/') + pat =~= head + seq!['/'] + pat);
    let two = head + seq!['/'] + pat;
    law_pieces_end(two, repl, '/');
    assert(two.push('/') + repl =~= two + seq!['/'] + repl);
    let three = two + seq!['/'] + repl;
    assert(pieces(three, '/') =~= seq![head, pat, repl]);
    law_pieces_end(three, seq!['g'], '/');
    assert(three.push('/') + seq!['g'] =~= three + seq!['/', 'g']);
    assert(pieces(three + seq!['/', 'g'], '/') =~= seq![head, pat, repl, seq!['g']]);
}

/// A character in its other case: a capital small, a small letter large, and
/// any other as it is.
pub open spec fn swapped(c: char) -> Seq<char> {
    if uppercase(c) {
        lower_mapping(c)
    } else if lowercase(c) {
        upper_mapping(c)
    } else {
        seq![c]
    }
}

/// Swapping the case of columns swaps that of each character in them, in their
/// order, and leaves what stands before and behind them.
pub proof fn law_case_of_columns(line: Seq<char>, a: int, m: int, b: int)
    requires
        0 <= a <= m < b <= line.len(),
    ensures
        flip_cols(line, a, b) == flip_cols(line, a, m).take(flip_cols(line, a, m).len() - (line.len() - m)) + swapped(
            line[m],
        ) + flip_cols(line, m + 1, b).skip(m + 1),
        flip_cols(line, a, a) == line,
        flip_cols(line, a, a + 1) == line.take(a) + swapped(line[a]) + line.skip(a + 1),
{
    lemma_flips_split(line, a, m, b);
    lemma_flips_split(line, a, a, a + 1);
    let front = flip_cols(line, a, m);
    let back = flip_cols(line, m + 1, b);
    assert(front.take(front.len() - (line.len() - m)) =~= line.take(a) + flips(line, a, m)) by {
        if m <= a {
            assert(flips(line, a, m) =~= Seq::empty());
            assert(line.take(a) + flips(line, a, m) =~= line.take(m));
        }
    }
    assert(back.skip(m + 1) =~= flips(line, m + 1, b) + line.skip(b)) by {
        if b <= m + 1 {
            assert(flips(line, m + 1, b) =~= Seq::empty());
        }
    }
    assert(flip_cols(line, a, b) =~= (line.take(a) + flips(line, a, m)) + swapped(line[m]) + (flips(line, m + 1, b)
        + line.skip(b)));
    assert(flips(line, a, a) =~= Seq::empty());
    assert(flips(line, a + 1, a + 1) =~= Seq::empty());
    assert(flips(line, a, a + 1) =~= swapped(line[a]));
}

proof fn lemma_flips_split(line: Seq<char>, a: int, m: int, b: int)
    requires
        0 <= a <= m < b <= line.len(),
    ensures
        flips(line, a, b) == flips(line, a, m) + swapped(line[m]) + flips(line, m + 1, b),
    decreases b - m,
{
    if b == m + 1 {
        assert(flips(line, m + 1, b) =~= Seq::empty());
        assert(flips(line, a, m) + swapped(line[m]) =~= flips(line, a, m) + swapped(line[m]) + flips(line, m + 1, b));
    } else {
        lemma_flips_split(line, a, m, b - 1);
        assert(flips(line, a, m) + swapped(line[m]) + flips(line, m + 1, b - 1) + swapped(line[b - 1]) =~= flips(
            line,
            a,
            m,
        ) + swapped(line[m]) + (flips(line, m + 1, b - 1) + swapped(line[b - 1])));
    }
}

/// Swapping the case of a part of the text works on the columns that the part
/// has in each row: of a range, from its start in the first row and up to its
/// end in the last; of lines, all; of a block, the same in every row.
pub proof fn law_case_of_a_part(d: Doc, span: Span)
    ensures
        ({
            let e = d.flip_span(span);
            &&& e.text.len() == d.text.len()
            &&& e.cursor == d.cursor
            &&& e.yank == d.yank
            &&& e.dirty
            &&& forall|r: int|
                0 <= r < d.text.len() ==> (#[trigger] e.text[r]) == {
                    let line = d.text[r];
                    let n = line.len() as int;
                    match span {
                        Span::Range { from, to } => if r < from.row || r > to.row {
                            line
                        } else {
                            flip_cols(
                                line,
                                if r == from.row && from.col < n {
                                    from.col as int
                                } else if r == from.row {
                                    n
                                } else {
                                    0
                                },
                                if r == to.row && to.col < n {
                                    to.col as int
                                } else {
                                    n
                                },
                            )
                        },
                        Span::Lines { from_row, to_row } => if r < from_row || r > to_row {
                            line
                        } else {
                            flip_cols(line, 0, n)
                        },
                        Span::Block { r0, c0, r1, c1 } => if r < r0 || r > r1 {
                            line
                        } else {
                            flip_cols(
                                line,
                                if c0 < n {
                                    c0 as int
                                } else {
                                    n
                                },
                                if c1 < n {
                                    c1 + 1
                                } else {
                                    n
                                },
                            )
                        },
                    }
                }
        }),
{
}

} // verus!
