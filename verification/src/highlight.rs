//! What the editor makes of the results of a syntax query: captures in
//! character columns, and the text object around the cursor.
use vstd::prelude::*;
use crate::editor::{least, most};
use crate::text::{chars_of, same_str, split, split_lines, text_of};

verus! {

/// The number of bytes a character takes in UTF-8.
pub open spec fn utf8_len(c: char) -> int {
    if (c as u32) < 0x80 {
        1
    } else if (c as u32) < 0x800 {
        2
    } else if (c as u32) < 0x10000 {
        3
    } else {
        4
    }
}

fn len_utf8(c: char) -> (r: usize)
    ensures
        r == utf8_len(c),
{
    let n = c as u32;
    if n < 0x80 {
        1
    } else if n < 0x800 {
        2
    } else if n < 0x10000 {
        3
    } else {
        4
    }
}

/// The number of bytes of the first `k` characters.
pub open spec fn bytes_before(line: Seq<char>, k: int) -> int
    decreases k,
{
    if k <= 0 {
        0
    } else {
        bytes_before(line, k - 1) + utf8_len(line[k - 1])
    }
}

/// How many characters, counted from `k` on, end within the first `bytes`
/// bytes.
pub open spec fn chars_within(line: Seq<char>, bytes: int, k: int) -> int
    decreases line.len() - k,
{
    if 0 <= k < line.len() && bytes_before(line, k + 1) <= bytes {
        chars_within(line, bytes, k + 1)
    } else {
        k
    }
}

/// A line of a source text. A carriage return before the newline belongs to
/// the line's end. Rows past the end are empty.
pub open spec fn source_line(source: Seq<char>, row: int) -> Seq<char> {
    let pieces = split(source);
    if row < 0 || row >= pieces.len() {
        Seq::empty()
    } else {
        let p = pieces[row];
        if row + 1 < pieces.len() && p.len() > 0 && p.last() == '\r' {
            p.drop_last()
        } else {
            p
        }
    }
}

/// The number of bytes of a text is that of its encoding.
proof fn lemma_encoded_len(s: Seq<char>)
    ensures
        vstd::utf8::encode_utf8(s).len() == bytes_before(s, s.len() as int),
    decreases s.len(),
{
    if s.len() > 0 {
        vstd::utf8::char_is_scalar(s[0]);
        lemma_encoded_len(s.drop_first());
        lemma_bytes_tail(s, s.len() as int);
    }
}

proof fn lemma_bytes_tail(s: Seq<char>, k: int)
    requires
        1 <= k <= s.len(),
    ensures
        bytes_before(s, k) == utf8_len(s[0]) + bytes_before(s.drop_first(), k - 1),
    decreases k,
{
    reveal_with_fuel(bytes_before, 2);
    if k > 1 {
        lemma_bytes_tail(s, k - 1);
    }
}

proof fn lemma_bytes_prefix(a: Seq<char>, b: Seq<char>, k: int)
    requires
        k <= a.len() <= b.len(),
        forall|i: int| 0 <= i < a.len() ==> a[i] == b[i],
    ensures
        bytes_before(a, k) == bytes_before(b, k),
    decreases k,
{
    if k > 0 {
        lemma_bytes_prefix(a, b, k - 1);
    }
}

fn line_of(source: &str, row: usize) -> (r: Vec<char>)
    ensures
        r@ == source_line(source@, row as int),
        bytes_before(r@, r@.len() as int) <= usize::MAX,
{
    let pieces = split_lines(source);
    if row >= pieces.len() {
        return Vec::new();
    }
    let piece = pieces[row].as_str();
    let bytes = piece.as_bytes().len();
    let mut cs = chars_of(piece);
    proof {
        assert(cs@ == split(source@)[row as int]);
        lemma_encoded_len(cs@);
        assert(bytes == bytes_before(cs@, cs@.len() as int));
    }
    if row + 1 < pieces.len() && cs.len() > 0 && cs[cs.len() - 1] == '\r' {
        let ghost full = cs@;
        cs.pop();
        proof {
            assert(cs@ =~= full.drop_last());
            lemma_bytes_prefix(cs@, full, cs@.len() as int);
            lemma_bytes_monotone(full, cs@.len() as int, full.len() as int);
        }
    }
    cs
}

/// The character column of a byte column.
pub open spec fn char_col(source: Seq<char>, row: int, byte_col: int) -> int {
    chars_within(source_line(source, row), byte_col, 0)
}

/// The byte column of a character column; past the end, the line's length.
pub open spec fn byte_col(source: Seq<char>, row: int, col: int) -> int {
    let line = source_line(source, row);
    bytes_before(line, least(col, line.len() as int))
}

/// The number of whole characters in the first `byte_col` bytes of a line.
pub fn byte_to_char_col(source: &str, row: usize, byte_col: usize) -> (r: usize)
    ensures
        r == char_col(source@, row as int, byte_col as int),
{
    let cs = line_of(source, row);
    let mut k: usize = 0;
    let mut acc: usize = 0;
    while k < cs.len() && len_utf8(cs[k]) <= byte_col - acc
        invariant
            k <= cs.len(),
            acc <= byte_col,
            acc == bytes_before(cs@, k as int),
            chars_within(cs@, byte_col as int, 0) == chars_within(cs@, byte_col as int, k as int),
        decreases cs.len() - k,
    {
        acc = acc + len_utf8(cs[k]);
        k = k + 1;
    }
    proof {
        if k < cs.len() {
            assert(bytes_before(cs@, k + 1) == acc + utf8_len(cs@[k as int]));
        }
    }
    k
}

/// The byte offset of a character in its line; past the end, the line's
/// length in bytes.
pub fn char_to_byte_col(source: &str, row: usize, char_col: usize) -> (r: usize)
    ensures
        r == byte_col(source@, row as int, char_col as int),
{
    let cs = line_of(source, row);
    let n = if char_col < cs.len() { char_col } else { cs.len() };
    let mut k: usize = 0;
    let mut acc: usize = 0;
    while k < n
        invariant
            k <= n <= cs.len(),
            acc == bytes_before(cs@, k as int),
            bytes_before(cs@, cs@.len() as int) <= usize::MAX,
        decreases n - k,
    {
        proof {
            lemma_bytes_monotone(cs@, k + 1, cs@.len() as int);
        }
        acc = acc + len_utf8(cs[k]);
        k = k + 1;
    }
    acc
}

/// Converting a character column to bytes and back gives the column, or the
/// line's length where the column lies past its end. The bytes lie within the
/// line's.
pub proof fn law_col_round_trip(source: Seq<char>, row: int, col: int)
    requires
        0 <= col,
    ensures
        char_col(source, row, byte_col(source, row, col)) == least(col, source_line(source, row).len() as int),
        byte_col(source, row, col) <= bytes_before(source_line(source, row), source_line(source, row).len() as int),
{
    let line = source_line(source, row);
    lemma_bytes_monotone(line, least(col, line.len() as int), line.len() as int);
    lemma_chars_within(line, least(col, line.len() as int), 0);
}

proof fn lemma_bytes_monotone(line: Seq<char>, a: int, b: int)
    requires
        0 <= a <= b,
    ensures
        bytes_before(line, a) <= bytes_before(line, b),
        a < b ==> bytes_before(line, a) < bytes_before(line, b),
    decreases b - a,
{
    if a < b {
        lemma_bytes_monotone(line, a, b - 1);
    }
}

proof fn lemma_chars_within(line: Seq<char>, col: int, k: int)
    requires
        0 <= k <= col <= line.len(),
    ensures
        chars_within(line, bytes_before(line, col), k) == col,
    decreases col - k,
{
    if k < col {
        lemma_bytes_monotone(line, k + 1, col);
        lemma_chars_within(line, col, k + 1);
    } else if k < line.len() {
        lemma_bytes_monotone(line, k, k + 1);
    }
}

/// A named range of the text, in characters; the end is exclusive.
#[derive(Debug)]
pub struct Capture {
    pub start_row: usize,
    pub start_col: usize,
    pub end_row: usize,
    pub end_col: usize,
    pub name: String,
}

/// The content of a capture.
pub struct CaptureView {
    pub start_row: int,
    pub start_col: int,
    pub end_row: int,
    pub end_col: int,
    pub name: Seq<char>,
}

impl View for Capture {
    type V = CaptureView;

    open spec fn view(&self) -> CaptureView {
        CaptureView {
            start_row: self.start_row as int,
            start_col: self.start_col as int,
            end_row: self.end_row as int,
            end_col: self.end_col as int,
            name: self.name@,
        }
    }
}

pub open spec fn captures_of(v: Seq<Capture>) -> Seq<CaptureView> {
    Seq::new(v.len(), |i: int| v[i]@)
}

/// One node that a query captured: the number of the capture, the node's
/// bytes, and its ends as rows and byte columns.
#[derive(Debug, Clone, Copy)]
pub struct RawCapture {
    pub index: u32,
    pub lo: usize,
    pub hi: usize,
    pub start: (usize, usize),
    pub end: (usize, usize),
}

/// What a predicate of a query is given.
#[derive(Debug)]
pub enum PredicateArg<S = String> {
    /// A capture, by its number.
    Capture(u32),
    Text(S),
}

impl View for PredicateArg {
    type V = PredicateArg<Seq<char>>;

    open spec fn view(&self) -> PredicateArg<Seq<char>> {
        match self {
            PredicateArg::Capture(n) => PredicateArg::Capture(*n),
            PredicateArg::Text(s) => PredicateArg::Text(s@),
        }
    }
}

/// A predicate of a pattern that the query engine leaves to the editor.
#[derive(Debug)]
pub struct Predicate<S = String, A = Vec<PredicateArg>> {
    pub operator: S,
    pub args: A,
}

pub type PredicateView = Predicate<Seq<char>, Seq<PredicateArg<Seq<char>>>>;

impl View for Predicate {
    type V = PredicateView;

    open spec fn view(&self) -> PredicateView {
        Predicate { operator: self.operator@, args: Seq::new(self.args@.len(), |i: int| self.args@[i]@) }
    }
}

pub open spec fn predicates_of(v: Seq<Predicate>) -> Seq<PredicateView> {
    Seq::new(v.len(), |i: int| v[i]@)
}

pub open spec fn rule_rows(v: Seq<Vec<Predicate>>) -> Seq<Seq<PredicateView>> {
    Seq::new(v.len(), |i: int| predicates_of(v[i]@))
}

/// One match of a query: the number of its pattern, and the nodes it
/// captured.
#[derive(Debug)]
pub struct RawMatch<C = Vec<RawCapture>> {
    pub pattern: usize,
    pub captures: C,
}

pub type MatchView = RawMatch<Seq<RawCapture>>;

impl View for RawMatch {
    type V = MatchView;

    open spec fn view(&self) -> MatchView {
        RawMatch { pattern: self.pattern, captures: self.captures@ }
    }
}

pub open spec fn matches_of(v: Seq<RawMatch>) -> Seq<MatchView> {
    Seq::new(v.len(), |i: int| v[i]@)
}

/// The predicates of a pattern, of those of all patterns.
pub open spec fn rules_of(rules: Seq<Seq<PredicateView>>, pattern: int) -> Seq<PredicateView> {
    if 0 <= pattern < rules.len() {
        rules[pattern]
    } else {
        Seq::empty()
    }
}

/// A rule that names the range from the first node of one capture to the
/// last node of another.
#[derive(Debug)]
pub struct RangeRule<S = String> {
    pub name: S,
    pub first: u32,
    pub last: u32,
}

/// The rule that a predicate states: `make-range!` with a name and two
/// captures. Any other predicate states none.
pub open spec fn range_rule(p: PredicateView) -> Option<RangeRule<Seq<char>>> {
    if p.operator != "make-range!"@ || p.args.len() != 3 {
        None
    } else {
        match (p.args[0], p.args[1], p.args[2]) {
            (PredicateArg::Text(name), PredicateArg::Capture(first), PredicateArg::Capture(last)) => Some(
                RangeRule { name, first, last },
            ),
            _ => None,
        }
    }
}

fn read_rule(p: &Predicate) -> (r: Option<RangeRule>)
    ensures
        match (r, range_rule(p@)) {
            (Some(a), Some(b)) => a.name@ == b.name && a.first == b.first && a.last == b.last,
            (None, None) => true,
            _ => false,
        },
{
    if p.args.len() != 3 || !same_str(p.operator.as_str(), "make-range!") {
        return None;
    }
    proof {
        assert(p@.args[0] == p.args@[0]@);
        assert(p@.args[1] == p.args@[1]@);
        assert(p@.args[2] == p.args@[2]@);
    }
    match (&p.args[0], &p.args[1], &p.args[2]) {
        (PredicateArg::Text(name), PredicateArg::Capture(first), PredicateArg::Capture(last)) => Some(
            RangeRule { name: name.clone(), first: *first, last: *last },
        ),
        _ => None,
    }
}

/// The name of a capture; empty for a number without one.
pub open spec fn name_of(names: Seq<Seq<char>>, index: int) -> Seq<char> {
    if 0 <= index < names.len() {
        names[index]
    } else {
        Seq::empty()
    }
}

pub open spec fn styled(source: Seq<char>, names: Seq<Seq<char>>, c: RawCapture) -> CaptureView {
    CaptureView {
        start_row: c.start.0 as int,
        start_col: char_col(source, c.start.0 as int, c.start.1 as int),
        end_row: c.end.0 as int,
        end_col: char_col(source, c.end.0 as int, c.end.1 as int),
        name: name_of(names, c.index as int),
    }
}

/// Whether a capture touches the rows `a..=b`.
pub open spec fn touches(c: RawCapture, a: int, b: int) -> bool {
    !(c.end.0 < a || c.start.0 > b)
}

/// Puts a capture behind those that start at or before its place.
pub open spec fn place_capture(s: Seq<CaptureView>, x: CaptureView) -> Seq<CaptureView>
    decreases s.len(),
{
    if s.len() == 0 || !starts_before(x, s.last()) {
        s.push(x)
    } else {
        place_capture(s.drop_last(), x).push(s.last())
    }
}

pub open spec fn starts_before(a: CaptureView, b: CaptureView) -> bool {
    a.start_row < b.start_row || (a.start_row == b.start_row && a.start_col < b.start_col)
}

/// The captures among the first `k` that touch the rows, in document order;
/// among those that start at one place in the order of the query.
pub open spec fn row_captures(
    source: Seq<char>,
    names: Seq<Seq<char>>,
    raw: Seq<RawCapture>,
    a: int,
    b: int,
    k: int,
) -> Seq<CaptureView>
    decreases k,
{
    if k <= 0 {
        Seq::empty()
    } else {
        let front = row_captures(source, names, raw, a, b, k - 1);
        if touches(raw[k - 1], a, b) {
            place_capture(front, styled(source, names, raw[k - 1]))
        } else {
            front
        }
    }
}

/// The nodes that the first `k` matches captured, in order.
pub open spec fn captured(ms: Seq<MatchView>, k: int) -> Seq<RawCapture>
    decreases k,
{
    if k <= 0 {
        Seq::empty()
    } else {
        captured(ms, k - 1) + ms[k - 1].captures
    }
}

/// The nodes that a query captured, in the order of its matches.
pub fn all_captures(ms: &Vec<RawMatch>) -> (r: Vec<RawCapture>)
    ensures
        r@ == captured(matches_of(ms@), ms@.len() as int),
{
    let mut out: Vec<RawCapture> = Vec::new();
    let mut i: usize = 0;
    while i < ms.len()
        invariant
            i <= ms.len(),
            out@ == captured(matches_of(ms@), i as int),
        decreases ms.len() - i,
    {
        let caps = &ms[i].captures;
        let ghost before = out@;
        let mut k: usize = 0;
        assert(out@ =~= before + caps@.take(0));
        while k < caps.len()
            invariant
                k <= caps.len(),
                out@ == before + caps@.take(k as int),
            decreases caps.len() - k,
        {
            out.push(caps[k]);
            proof {
                assert(out@ =~= before + caps@.take(k + 1));
            }
            k = k + 1;
        }
        assert(caps@.take(k as int) =~= caps@);
        i = i + 1;
    }
    out
}

/// The captures that touch the rows `start_row..=end_row`, in document
/// order, with character columns.
pub fn captures_in_rows(
    source: &str,
    names: &Vec<String>,
    raw: &Vec<RawCapture>,
    start_row: usize,
    end_row: usize,
) -> (r: Vec<Capture>)
    ensures
        captures_of(r@) == row_captures(
            source@,
            text_of(names@),
            raw@,
            start_row as int,
            end_row as int,
            raw.len() as int,
        ),
{
    let mut out: Vec<Capture> = Vec::new();
    let mut i: usize = 0;
    proof {
        assert(captures_of(out@) =~= Seq::<CaptureView>::empty());
    }
    while i < raw.len()
        invariant
            i <= raw.len(),
            captures_of(out@) == row_captures(
                source@,
                text_of(names@),
                raw@,
                start_row as int,
                end_row as int,
                i as int,
            ),
        decreases raw.len() - i,
    {
        let c = raw[i];
        if !(c.end.0 < start_row || c.start.0 > end_row) {
            let name = capture_name(names, c.index);
            let x = Capture {
                start_row: c.start.0,
                start_col: byte_to_char_col(source, c.start.0, c.start.1),
                end_row: c.end.0,
                end_col: byte_to_char_col(source, c.end.0, c.end.1),
                name,
            };
            insert_capture(&mut out, x);
        }
        i = i + 1;
    }
    out
}

fn capture_name(names: &Vec<String>, index: u32) -> (r: String)
    ensures
        r@ == name_of(text_of(names@), index as int),
{
    let k = index as usize;
    if k < names.len() {
        names[k].clone()
    } else {
        String::new()
    }
}

fn insert_capture(out: &mut Vec<Capture>, x: Capture)
    ensures
        captures_of(final(out)@) == place_capture(captures_of(old(out)@), x@),
{
    let mut at: usize = out.len();
    proof {
        assert(captures_of(out@).take(at as int) =~= captures_of(out@));
        assert(place_capture(captures_of(out@), x@) =~= place_capture(captures_of(out@), x@) + Seq::<
            CaptureView,
        >::empty());
        assert(captures_of(out@).subrange(at as int, out@.len() as int) =~= Seq::<CaptureView>::empty());
    }
    while at > 0 && (x.start_row < out[at - 1].start_row || (x.start_row == out[at - 1].start_row && x.start_col
        < out[at - 1].start_col))
        invariant
            at <= out.len(),
            *out == *old(out),
            place_capture(captures_of(out@), x@) == place_capture(captures_of(out@).take(at as int), x@)
                + captures_of(out@).subrange(at as int, out@.len() as int),
        decreases at,
    {
        proof {
            let h = captures_of(out@);
            let n = out@.len() as int;
            assert(h.take(at as int).drop_last() =~= h.take(at - 1));
            assert(h.take(at as int).last() == h[at - 1]);
            assert(place_capture(h.take(at - 1), x@).push(h[at - 1]) + h.subrange(at as int, n) =~= place_capture(
                h.take(at - 1),
                x@,
            ) + h.subrange(at - 1, n));
        }
        at = at - 1;
    }
    proof {
        let h = captures_of(out@);
        if at > 0 {
            assert(h.take(at as int).last() == h[at - 1]);
        }
        assert(place_capture(h.take(at as int), x@) == h.take(at as int).push(x@));
    }
    out.insert(at, x);
    proof {
        let h = captures_of(old(out)@);
        assert(captures_of(out@) =~= h.take(at as int).push(x@) + h.subrange(at as int, h.len() as int));
    }
}

/// A range that could be the text object: its bytes and its ends as rows and
/// byte columns.
#[derive(Debug, Clone, Copy)]
pub struct Candidate {
    pub lo: usize,
    pub hi: usize,
    pub start: (usize, usize),
    pub end: (usize, usize),
}

/// Whether a candidate holds the cursor; its end is exclusive.
pub open spec fn holds_point(c: Candidate, p: (usize, usize)) -> bool {
    !(p.0 < c.start.0 || (p.0 == c.start.0 && p.1 < c.start.1)) && (p.0 < c.end.0 || (p.0 == c.end.0 && p.1
        < c.end.1))
}

pub open spec fn byte_size(c: Candidate) -> int {
    most(c.hi - c.lo, 0)
}

/// The better of the best so far and one more candidate: the smaller of
/// those that hold the cursor, the earlier among equals.
pub open spec fn better(best: Option<Candidate>, c: Candidate, p: (usize, usize)) -> Option<Candidate> {
    if !holds_point(c, p) {
        best
    } else {
        match best {
            Some(b) => if byte_size(c) < byte_size(b) {
                Some(c)
            } else {
                Some(b)
            },
            None => Some(c),
        }
    }
}

/// The best of the first `k` candidates.
pub open spec fn best_of(s: Seq<Candidate>, p: (usize, usize), k: int) -> Option<Candidate>
    decreases k,
{
    if k <= 0 {
        None
    } else {
        better(best_of(s, p, k - 1), s[k - 1], p)
    }
}

/// The best candidate holds the cursor and none that holds it is smaller;
/// there is one unless no candidate holds the cursor.
pub proof fn law_best_of(s: Seq<Candidate>, p: (usize, usize), k: int)
    requires
        0 <= k <= s.len(),
    ensures
        match best_of(s, p, k) {
            Some(b) => {
                &&& holds_point(b, p)
                &&& exists|i: int| 0 <= i < k && s[i] == b
                &&& forall|i: int| 0 <= i < k && holds_point(#[trigger] s[i], p) ==> byte_size(b) <= byte_size(s[i])
            },
            None => forall|i: int| 0 <= i < k ==> !holds_point(#[trigger] s[i], p),
        },
    decreases k,
{
    if k > 0 {
        law_best_of(s, p, k - 1);
        assert(s[k - 1] == s[k - 1]);
    }
}

/// The captures of one match, among its first `k`, that carry the name.
pub open spec fn direct_candidates(names: Seq<Seq<char>>, caps: Seq<RawCapture>, target: Seq<char>, k: int) -> Seq<
    Candidate,
>
    decreases k,
{
    if k <= 0 {
        Seq::empty()
    } else {
        let front = direct_candidates(names, caps, target, k - 1);
        let c = caps[k - 1];
        if name_of(names, c.index as int) == target {
            front.push(Candidate { lo: c.lo, hi: c.hi, start: c.start, end: c.end })
        } else {
            front
        }
    }
}

/// Among the first `k` nodes of a capture, the one that starts first.
pub open spec fn first_node(caps: Seq<RawCapture>, index: u32, k: int) -> Option<RawCapture>
    decreases k,
{
    if k <= 0 {
        None
    } else {
        let c = caps[k - 1];
        let prev = first_node(caps, index, k - 1);
        if c.index != index {
            prev
        } else {
            match prev {
                None => Some(c),
                Some(q) => if c.lo < q.lo {
                    Some(c)
                } else {
                    Some(q)
                },
            }
        }
    }
}

/// Among the first `k` nodes of a capture, the one that ends last.
pub open spec fn last_node(caps: Seq<RawCapture>, index: u32, k: int) -> Option<RawCapture>
    decreases k,
{
    if k <= 0 {
        None
    } else {
        let c = caps[k - 1];
        let prev = last_node(caps, index, k - 1);
        if c.index != index {
            prev
        } else {
            match prev {
                None => Some(c),
                Some(q) => if c.hi > q.hi {
                    Some(c)
                } else {
                    Some(q)
                },
            }
        }
    }
}

/// The ranges that the first `k` predicates of a match give for the name.
pub open spec fn rule_candidates(caps: Seq<RawCapture>, rules: Seq<PredicateView>, target: Seq<char>, k: int) -> Seq<
    Candidate,
>
    decreases k,
{
    if k <= 0 {
        Seq::empty()
    } else {
        let front = rule_candidates(caps, rules, target, k - 1);
        match range_rule(rules[k - 1]) {
            None => front,
            Some(rule) => match (
                first_node(caps, rule.first, caps.len() as int),
                last_node(caps, rule.last, caps.len() as int),
            ) {
                (Some(s), Some(e)) => if rule.name == target {
                    front.push(Candidate { lo: s.lo, hi: e.hi, start: s.start, end: e.end })
                } else {
                    front
                },
                _ => front,
            },
        }
    }
}

/// All candidates of the first `k` matches, in order.
pub open spec fn candidates(
    names: Seq<Seq<char>>,
    rules: Seq<Seq<PredicateView>>,
    ms: Seq<MatchView>,
    target: Seq<char>,
    k: int,
) -> Seq<Candidate>
    decreases k,
{
    if k <= 0 {
        Seq::empty()
    } else {
        let m = ms[k - 1];
        let preds = rules_of(rules, m.pattern as int);
        candidates(names, rules, ms, target, k - 1) + direct_candidates(
            names,
            m.captures,
            target,
            m.captures.len() as int,
        ) + rule_candidates(m.captures, preds, target, preds.len() as int)
    }
}

/// The smallest range of the given name around the cursor, in characters:
/// start row and column, end row and column; the end is exclusive.
pub open spec fn object_around(
    source: Seq<char>,
    names: Seq<Seq<char>>,
    rules: Seq<Seq<PredicateView>>,
    ms: Seq<MatchView>,
    target: Seq<char>,
    row: int,
    col: int,
) -> Option<(int, int, int, int)> {
    let p = (row as usize, byte_col(source, row, col) as usize);
    let cs = candidates(names, rules, ms, target, ms.len() as int);
    match best_of(cs, p, cs.len() as int) {
        Some(c) => Some(
            (
                c.start.0 as int,
                char_col(source, c.start.0 as int, c.start.1 as int),
                c.end.0 as int,
                char_col(source, c.end.0 as int, c.end.1 as int),
            ),
        ),
        None => None,
    }
}

/// Adds a candidate to the choice of the best one.
pub fn consider(best: Option<Candidate>, c: Candidate, p: (usize, usize)) -> (r: Option<Candidate>)
    ensures
        r == better(best, c, p),
{
    let after_start = !(p.0 < c.start.0 || (p.0 == c.start.0 && p.1 < c.start.1));
    let before_end = p.0 < c.end.0 || (p.0 == c.end.0 && p.1 < c.end.1);
    if !(after_start && before_end) {
        return best;
    }
    match best {
        None => Some(c),
        Some(b) => {
            if c.hi.saturating_sub(c.lo) < b.hi.saturating_sub(b.lo) {
                Some(c)
            } else {
                Some(b)
            }
        },
    }
}

fn span_start(caps: &Vec<RawCapture>, index: u32) -> (r: Option<RawCapture>)
    ensures
        r == first_node(caps@, index, caps.len() as int),
{
    let mut best: Option<RawCapture> = None;
    let mut i: usize = 0;
    while i < caps.len()
        invariant
            i <= caps.len(),
            best == first_node(caps@, index, i as int),
        decreases caps.len() - i,
    {
        let c = caps[i];
        if c.index == index {
            match best {
                None => {
                    best = Some(c);
                },
                Some(q) => {
                    if c.lo < q.lo {
                        best = Some(c);
                    }
                },
            }
        }
        i = i + 1;
    }
    best
}

fn span_end(caps: &Vec<RawCapture>, index: u32) -> (r: Option<RawCapture>)
    ensures
        r == last_node(caps@, index, caps.len() as int),
{
    let mut best: Option<RawCapture> = None;
    let mut i: usize = 0;
    while i < caps.len()
        invariant
            i <= caps.len(),
            best == last_node(caps@, index, i as int),
        decreases caps.len() - i,
    {
        let c = caps[i];
        if c.index == index {
            match best {
                None => {
                    best = Some(c);
                },
                Some(q) => {
                    if c.hi > q.hi {
                        best = Some(c);
                    }
                },
            }
        }
        i = i + 1;
    }
    best
}

/// Choosing among more candidates goes on from the choice among the first
/// ones.
proof fn lemma_best_prefix(s: Seq<Candidate>, t: Seq<Candidate>, p: (usize, usize), k: int)
    requires
        0 <= k <= s.len(),
        s.is_prefix_of(t),
    ensures
        best_of(s, p, k) == best_of(t, p, k),
    decreases k,
{
    if k > 0 {
        lemma_best_prefix(s, t, p, k - 1);
        assert(s[k - 1] == t[k - 1]);
    }
}

/// The smallest text object of the given name that holds the cursor. Both
/// captured nodes and ranges made by rules count. The columns are in
/// characters and the end is exclusive.
pub fn find_text_object(
    source: &str,
    names: &Vec<String>,
    rules: &Vec<Vec<Predicate>>,
    matches: &Vec<RawMatch>,
    target: &str,
    cursor_row: usize,
    cursor_col: usize,
) -> (r: Option<(usize, usize, usize, usize)>)
    ensures
        match (r, object_around(source@, text_of(names@), rule_rows(rules@), matches_of(matches@), target@, cursor_row as int, cursor_col as int)) {
            (Some(a), Some(b)) => a.0 == b.0 && a.1 == b.1 && a.2 == b.2 && a.3 == b.3,
            (None, None) => true,
            _ => false,
        },
{
    let p = (cursor_row, char_to_byte_col(source, cursor_row, cursor_col));
    let mut best: Option<Candidate> = None;
    let ghost mut seen: Seq<Candidate> = Seq::empty();
    let mut i: usize = 0;
    while i < matches.len()
        invariant
            i <= matches.len(),
            seen == candidates(text_of(names@), rule_rows(rules@), matches_of(matches@), target@, i as int),
            best == best_of(seen, p, seen.len() as int),
        decreases matches.len() - i,
    {
        let m = &matches[i];
        let ghost base = seen;
        let mut k: usize = 0;
        proof {
            assert(base + Seq::<Candidate>::empty() =~= base);
        }
        while k < m.captures.len()
            invariant
                k <= m.captures.len(),
                seen == base + direct_candidates(text_of(names@), m.captures@, target@, k as int),
                best == best_of(seen, p, seen.len() as int),
            decreases m.captures.len() - k,
        {
            let c = m.captures[k];
            let name = capture_name(names, c.index);
            if same_str(name.as_str(), target) {
                let cand = Candidate { lo: c.lo, hi: c.hi, start: c.start, end: c.end };
                best = consider(best, cand, p);
                proof {
                    let more = seen.push(cand);
                    lemma_best_prefix(seen, more, p, seen.len() as int);
                    assert(more =~= base + direct_candidates(text_of(names@), m.captures@, target@, k + 1));
                    seen = more;
                }
            }
            k = k + 1;
        }
        let ghost base2 = seen;
        let ghost preds = rules_of(rule_rows(rules@), m.pattern as int);
        let count = if m.pattern < rules.len() {
            rules[m.pattern].len()
        } else {
            0
        };
        let mut q: usize = 0;
        proof {
            assert(base2 + Seq::<Candidate>::empty() =~= base2);
        }
        while q < count
            invariant
                q <= count == preds.len(),
                m.pattern < rules.len() ==> preds == predicates_of(rules@[m.pattern as int]@),
                m.pattern >= rules.len() ==> count == 0,
                seen == base2 + rule_candidates(m.captures@, preds, target@, q as int),
                best == best_of(seen, p, seen.len() as int),
            decreases count - q,
        {
            if let Some(rule) = read_rule(&rules[m.pattern][q]) {
                if same_str(rule.name.as_str(), target) {
                    match (span_start(&m.captures, rule.first), span_end(&m.captures, rule.last)) {
                        (Some(s), Some(e)) => {
                            let cand = Candidate { lo: s.lo, hi: e.hi, start: s.start, end: e.end };
                            best = consider(best, cand, p);
                            proof {
                                let more = seen.push(cand);
                                lemma_best_prefix(seen, more, p, seen.len() as int);
                                assert(more =~= base2 + rule_candidates(
                                    m.captures@,
                                    preds,
                                    target@,
                                    q + 1,
                                ));
                                seen = more;
                            }
                        },
                        _ => {},
                    }
                }
            }
            q = q + 1;
        }
        i = i + 1;
    }
    match best {
        None => None,
        Some(c) => Some(
            (
                c.start.0,
                byte_to_char_col(source, c.start.0, c.start.1),
                c.end.0,
                byte_to_char_col(source, c.end.0, c.end.1),
            ),
        ),
    }
}

} // verus!
