//! What highlighting promises: which column a byte lies in, which captures a
//! view shows and in what order, and which object is the one around the cursor.
use vstd::prelude::*;
use crate::highlight::{
    best_of,
    byte_col,
    byte_size,
    bytes_before,
    candidates,
    captured,
    char_col,
    chars_within,
    direct_candidates,
    first_node,
    holds_point,
    last_node,
    law_best_of,
    name_of,
    object_around,
    place_capture,
    row_captures,
    source_line,
    starts_before,
    styled,
    utf8_len,
    Candidate,
    CaptureView,
    range_rule,
    rule_candidates,
    MatchView,
    PredicateArg,
    PredicateView,
    RangeRule,
    RawCapture,
};
use crate::syntax::{library_names, with_underscores};
use crate::text::split;

verus! {

/// A character takes one byte in ASCII, two up to the end of the next eleven
/// bits, three in the rest of the basic plane and four beyond it.
pub proof fn law_bytes_of_a_character(c: char)
    ensures
        (c as u32) <= 0x7f ==> utf8_len(c) == 1,
        0x80 <= (c as u32) <= 0x7ff ==> utf8_len(c) == 2,
        0x800 <= (c as u32) <= 0xffff ==> utf8_len(c) == 3,
        0x10000 <= (c as u32) ==> utf8_len(c) == 4,
{
}

/// The bytes before a column are those of the characters before it.
pub proof fn law_bytes_before(line: Seq<char>, k: int)
    requires
        0 <= k < line.len(),
    ensures
        bytes_before(line, 0) == 0,
        bytes_before(line, k + 1) == bytes_before(line, k) + utf8_len(line[k]),
{
}

/// The column of a byte is the character that the byte belongs to: all the
/// characters before it end at or before the byte, and it does not.
pub proof fn law_column_of_a_byte(source: Seq<char>, row: int, byte: int)
    requires
        byte >= 0,
    ensures
        ({
            let line = source_line(source, row);
            let k = char_col(source, row, byte);
            &&& 0 <= k <= line.len()
            &&& bytes_before(line, k) <= byte
            &&& k < line.len() ==> bytes_before(line, k + 1) > byte
        }),
{
    lemma_within(source_line(source, row), byte, 0);
}

proof fn lemma_within(line: Seq<char>, byte: int, k: int)
    requires
        0 <= k <= line.len(),
        bytes_before(line, k) <= byte,
    ensures
        ({
            let r = chars_within(line, byte, k);
            &&& k <= r <= line.len()
            &&& bytes_before(line, r) <= byte
            &&& r < line.len() ==> bytes_before(line, r + 1) > byte
        }),
    decreases line.len() - k,
{
    if k < line.len() && bytes_before(line, k + 1) <= byte {
        lemma_within(line, byte, k + 1);
    }
}

/// The byte of a column counts the bytes before it, and no more than the line
/// has.
pub proof fn law_byte_of_a_column(source: Seq<char>, row: int, col: int)
    requires
        col >= 0,
    ensures
        ({
            let line = source_line(source, row);
            &&& col <= line.len() ==> byte_col(source, row, col) == bytes_before(line, col)
            &&& col > line.len() ==> byte_col(source, row, col) == bytes_before(line, line.len() as int)
        }),
{
}

/// A line of the source is what stands between two line breaks, without a
/// carriage return before the second; a row past the end is empty.
pub proof fn law_source_line(source: Seq<char>, row: int)
    ensures
        ({
            let lines = split(source);
            let n = lines.len() as int;
            &&& row < 0 || row >= n ==> source_line(source, row).len() == 0
            &&& 0 <= row == n - 1 ==> source_line(source, row) == lines[row]
            &&& 0 <= row < n - 1 && (lines[row].len() == 0 || lines[row][lines[row].len() - 1] != '\r')
                ==> source_line(source, row) == lines[row]
            &&& 0 <= row < n - 1 && lines[row].len() > 0 && lines[row][lines[row].len() - 1] == '\r' ==> source_line(
                source,
                row,
            ) == lines[row].take(lines[row].len() - 1)
        }),
{
    let lines = split(source);
    if 0 <= row < lines.len() - 1 && lines[row].len() > 0 {
        assert(lines[row].drop_last() =~= lines[row].take(lines[row].len() - 1));
    }
}

/// The captures of a view are those that touch its rows, by where they start;
/// each with its place in characters and its name.
pub proof fn law_captures_of_rows(
    source: Seq<char>,
    names: Seq<Seq<char>>,
    raw: Seq<RawCapture>,
    a: int,
    b: int,
    k: int,
)
    requires
        0 <= k <= raw.len(),
    ensures
        ({
            let s = row_captures(source, names, raw, a, b, k);
            &&& forall|i: int, j: int|
                0 <= i < j < s.len() ==> {
                    let (x, y) = (#[trigger] s[i], #[trigger] s[j]);
                    x.start_row < y.start_row || (x.start_row == y.start_row && x.start_col <= y.start_col)
                }
            &&& forall|i: int|
                0 <= i < k && (#[trigger] raw[i]).end.0 >= a && raw[i].start.0 <= b ==> s.contains(
                    styled(source, names, raw[i]),
                )
            &&& forall|x: CaptureView|
                #[trigger] s.contains(x) ==> exists|i: int|
                    0 <= i < k && (#[trigger] raw[i]).end.0 >= a && raw[i].start.0 <= b && x == styled(
                        source,
                        names,
                        raw[i],
                    )
        }),
    decreases k,
{
    if k > 0 {
        law_captures_of_rows(source, names, raw, a, b, k - 1);
        let t = row_captures(source, names, raw, a, b, k - 1);
        let s = row_captures(source, names, raw, a, b, k);
        let c = raw[k - 1];
        let x = styled(source, names, c);
        if c.end.0 >= a && c.start.0 <= b {
            lemma_placed(t, x);
            assert(s == place_capture(t, x));
        }
        assert forall|i: int| 0 <= i < k && (#[trigger] raw[i]).end.0 >= a && raw[i].start.0 <= b implies s.contains(
            styled(source, names, raw[i]),
        ) by {
            if i < k - 1 {
                assert(t.contains(styled(source, names, raw[i])));
            }
        }
        assert forall|y: CaptureView| #[trigger] s.contains(y) implies exists|i: int|
            0 <= i < k && (#[trigger] raw[i]).end.0 >= a && raw[i].start.0 <= b && y == styled(source, names, raw[i]) by {
            if c.end.0 >= a && c.start.0 <= b && y == x {
                assert(raw[k - 1].end.0 >= a);
            } else {
                assert(t.contains(y));
                let i = choose|i: int|
                    0 <= i < k - 1 && (#[trigger] raw[i]).end.0 >= a && raw[i].start.0 <= b && y == styled(
                        source,
                        names,
                        raw[i],
                    );
                assert(raw[i].end.0 >= a);
            }
        }
    }
}

proof fn lemma_placed(s: Seq<CaptureView>, x: CaptureView)
    requires
        forall|i: int, j: int|
            0 <= i < j < s.len() ==> {
                let (y, z) = (#[trigger] s[i], #[trigger] s[j]);
                y.start_row < z.start_row || (y.start_row == z.start_row && y.start_col <= z.start_col)
            },
    ensures
        ({
            let p = place_capture(s, x);
            &&& p.len() == s.len() + 1
            &&& forall|i: int, j: int|
                0 <= i < j < p.len() ==> {
                    let (y, z) = (#[trigger] p[i], #[trigger] p[j]);
                    y.start_row < z.start_row || (y.start_row == z.start_row && y.start_col <= z.start_col)
                }
            &&& forall|y: CaptureView| #[trigger] p.contains(y) <==> s.contains(y) || y == x
        }),
    decreases s.len(),
{
    let p = place_capture(s, x);
    if s.len() == 0 || !starts_before(x, s.last()) {
        assert(p == s.push(x));
        assert forall|i: int, j: int| 0 <= i < j < p.len() implies ({
            let (y, z) = (#[trigger] p[i], #[trigger] p[j]);
            y.start_row < z.start_row || (y.start_row == z.start_row && y.start_col <= z.start_col)
        }) by {
            if j == s.len() && i < s.len() - 1 {
                let (y, z) = (s[i], s[s.len() - 1]);
                assert(y.start_row < z.start_row || (y.start_row == z.start_row && y.start_col <= z.start_col));
            }
        }
        assert forall|y: CaptureView| #[trigger] p.contains(y) <==> s.contains(y) || y == x by {
            if p.contains(y) {
                let i = choose|i: int| 0 <= i < p.len() && p[i] == y;
                if i < s.len() {
                    assert(s[i] == y);
                }
            }
            if s.contains(y) {
                let i = choose|i: int| 0 <= i < s.len() && s[i] == y;
                assert(p[i] == y);
            }
            if y == x {
                assert(p[s.len() as int] == y);
            }
        }
    } else {
        let t = s.drop_last();
        lemma_placed(t, x);
        let q = place_capture(t, x);
        assert(p == q.push(s.last()));
        assert forall|i: int, j: int| 0 <= i < j < p.len() implies ({
            let (y, z) = (#[trigger] p[i], #[trigger] p[j]);
            y.start_row < z.start_row || (y.start_row == z.start_row && y.start_col <= z.start_col)
        }) by {
            if j == q.len() {
                assert(q.contains(q[i]));
                if q[i] != x {
                    assert(t.contains(q[i]));
                    let h = choose|h: int| 0 <= h < t.len() && t[h] == q[i];
                    let (y, z) = (s[h], s[s.len() - 1]);
                    assert(y.start_row < z.start_row || (y.start_row == z.start_row && y.start_col <= z.start_col));
                }
            }
        }
        assert forall|y: CaptureView| #[trigger] p.contains(y) <==> s.contains(y) || y == x by {
            if p.contains(y) {
                let i = choose|i: int| 0 <= i < p.len() && p[i] == y;
                if i < q.len() {
                    assert(q[i] == y);
                    assert(q.contains(y));
                    if y != x {
                        let h = choose|h: int| 0 <= h < t.len() && t[h] == y;
                        assert(s[h] == y);
                    }
                } else {
                    assert(s[s.len() - 1] == y);
                }
            }
            if s.contains(y) {
                let i = choose|i: int| 0 <= i < s.len() && s[i] == y;
                if i < t.len() {
                    assert(t[i] == y);
                    assert(q.contains(y));
                    let h = choose|h: int| 0 <= h < q.len() && q[h] == y;
                    assert(p[h] == y);
                } else {
                    assert(p[p.len() - 1] == y);
                }
            }
            if y == x {
                assert(q.contains(x));
                let h = choose|h: int| 0 <= h < q.len() && q[h] == x;
                assert(p[h] == x);
            }
        }
    }
}

/// A capture is shown at the characters where its node starts and ends, under
/// the name that the query gives it.
pub proof fn law_styled(source: Seq<char>, names: Seq<Seq<char>>, c: RawCapture)
    ensures
        ({
            let v = styled(source, names, c);
            &&& v.start_row == c.start.0
            &&& v.end_row == c.end.0
            &&& v.start_col == char_col(source, c.start.0 as int, c.start.1 as int)
            &&& v.end_col == char_col(source, c.end.0 as int, c.end.1 as int)
            &&& c.index < names.len() ==> v.name == names[c.index as int]
            &&& c.index >= names.len() ==> v.name.len() == 0
        }),
{
}

/// All that the matches captured is gathered, match by match.
pub proof fn law_captured(ms: Seq<MatchView>, m: MatchView)
    ensures
        captured(Seq::empty(), 0).len() == 0,
        captured(ms.push(m), ms.len() as int + 1) == captured(ms, ms.len() as int) + m.captures,
{
    lemma_captured_take(ms, m, ms.len() as int);
}

proof fn lemma_captured_take(ms: Seq<MatchView>, m: MatchView, k: int)
    requires
        0 <= k <= ms.len(),
    ensures
        captured(ms.push(m), k) == captured(ms, k),
    decreases k,
{
    if k > 0 {
        lemma_captured_take(ms, m, k - 1);
    }
}

/// The object around the cursor is a candidate that holds it, and none that
/// holds it is smaller. There is none only where no candidate holds the cursor.
pub proof fn law_object_is_the_smallest(
    source: Seq<char>,
    names: Seq<Seq<char>>,
    rules: Seq<Seq<PredicateView>>,
    ms: Seq<MatchView>,
    target: Seq<char>,
    row: int,
    col: int,
)
    ensures
        ({
            let cs = candidates(names, rules, ms, target, ms.len() as int);
            let p = (row as usize, byte_col(source, row, col) as usize);
            let inside = |c: Candidate|
                (c.start.0 < p.0 || (c.start.0 == p.0 && c.start.1 <= p.1)) && (p.0 < c.end.0 || (p.0 == c.end.0 && p.1
                    < c.end.1));
            match object_around(source, names, rules, ms, target, row, col) {
                Some((r0, c0, r1, c1)) => exists|i: int|
                    0 <= i < cs.len() && inside(#[trigger] cs[i]) && r0 == cs[i].start.0 && r1 == cs[i].end.0 && c0
                        == char_col(source, r0, cs[i].start.1 as int) && c1 == char_col(source, r1, cs[i].end.1 as int)
                        && forall|j: int|
                        0 <= j < cs.len() && inside(#[trigger] cs[j]) ==> byte_size(cs[i]) <= byte_size(cs[j]),
                None => forall|j: int| 0 <= j < cs.len() ==> !inside(#[trigger] cs[j]),
            }
        }),
{
    let cs = candidates(names, rules, ms, target, ms.len() as int);
    let p = (row as usize, byte_col(source, row, col) as usize);
    let n = cs.len() as int;
    law_best_of(cs, p, n);
    let inside = |c: Candidate|
        (c.start.0 < p.0 || (c.start.0 == p.0 && c.start.1 <= p.1)) && (p.0 < c.end.0 || (p.0 == c.end.0 && p.1
            < c.end.1));
    assert(forall|c: Candidate| #[trigger] inside(c) == holds_point(c, p));
    match best_of(cs, p, n) {
        Some(c) => {
            let i = choose|i: int| 0 <= i < n && cs[i] == c;
            assert(inside(cs[i]));
            assert forall|j: int| 0 <= j < cs.len() && inside(#[trigger] cs[j]) implies byte_size(cs[i]) <= byte_size(
                cs[j],
            ) by {
                assert(holds_point(cs[j], p));
            }
        },
        None => {
            assert forall|j: int| 0 <= j < cs.len() implies !inside(#[trigger] cs[j]) by {
                assert(!holds_point(cs[j], p));
            }
        },
    }
}

/// The size of a candidate is the number of its bytes.
pub proof fn law_size_of_a_candidate(c: Candidate)
    requires
        c.lo <= c.hi,
    ensures
        byte_size(c) == c.hi - c.lo,
{
}

/// The captures of a name are candidates, each with its own range; those of
/// other names are none.
pub proof fn law_named_candidates(names: Seq<Seq<char>>, caps: Seq<RawCapture>, target: Seq<char>, k: int)
    requires
        0 <= k <= caps.len(),
        target.len() > 0,
    ensures
        forall|i: int|
            0 <= i < k && (#[trigger] caps[i]).index < names.len() && names[caps[i].index as int] == target
                ==> direct_candidates(names, caps, target, k).contains(
                Candidate { lo: caps[i].lo, hi: caps[i].hi, start: caps[i].start, end: caps[i].end },
            ),
        forall|c: Candidate|
            #[trigger] direct_candidates(names, caps, target, k).contains(c) ==> exists|i: int|
                0 <= i < k && (#[trigger] caps[i]).index < names.len() && names[caps[i].index as int] == target && c
                    == (Candidate { lo: caps[i].lo, hi: caps[i].hi, start: caps[i].start, end: caps[i].end }),
    decreases k,
{
    if k > 0 {
        law_named_candidates(names, caps, target, k - 1);
        let t = direct_candidates(names, caps, target, k - 1);
        let w = direct_candidates(names, caps, target, k);
        assert forall|i: int|
            0 <= i < k && (#[trigger] caps[i]).index < names.len() && names[caps[i].index as int] == target implies w.contains(
            Candidate { lo: caps[i].lo, hi: caps[i].hi, start: caps[i].start, end: caps[i].end },
        ) by {
            let c = Candidate { lo: caps[i].lo, hi: caps[i].hi, start: caps[i].start, end: caps[i].end };
            if i < k - 1 {
                assert(t.contains(c));
                let j = choose|j: int| 0 <= j < t.len() && t[j] == c;
                assert(w[j] == c);
            } else {
                assert(w[w.len() - 1] == c);
            }
        }
        assert forall|c: Candidate| #[trigger] w.contains(c) implies exists|i: int|
            0 <= i < k && (#[trigger] caps[i]).index < names.len() && names[caps[i].index as int] == target && c == (
            Candidate { lo: caps[i].lo, hi: caps[i].hi, start: caps[i].start, end: caps[i].end }) by {
            let j = choose|j: int| 0 <= j < w.len() && w[j] == c;
            if j < t.len() {
                assert(t[j] == c);
                assert(t.contains(c));
                let i = choose|i: int|
                    0 <= i < k - 1 && (#[trigger] caps[i]).index < names.len() && names[caps[i].index as int] == target && c
                        == (Candidate { lo: caps[i].lo, hi: caps[i].hi, start: caps[i].start, end: caps[i].end });
                assert(caps[i].index < names.len());
            } else {
                assert(name_of(names, caps[k - 1].index as int) == target);
                assert(caps[k - 1].index < names.len());
            }
        }
    } else {
        assert(direct_candidates(names, caps, target, k) =~= Seq::empty());
    }
}

/// Of several nodes of one capture the first is the one that starts earliest,
/// and the last the one that ends latest.
pub proof fn law_first_and_last_node(caps: Seq<RawCapture>, index: u32, k: int)
    requires
        0 <= k <= caps.len(),
    ensures
        match first_node(caps, index, k) {
            Some(c) => c.index == index && forall|j: int|
                0 <= j < k && (#[trigger] caps[j]).index == index ==> c.lo <= caps[j].lo,
            None => forall|j: int| 0 <= j < k ==> (#[trigger] caps[j]).index != index,
        },
        match last_node(caps, index, k) {
            Some(c) => c.index == index && forall|j: int|
                0 <= j < k && (#[trigger] caps[j]).index == index ==> c.hi >= caps[j].hi,
            None => forall|j: int| 0 <= j < k ==> (#[trigger] caps[j]).index != index,
        },
    decreases k,
{
    if k > 0 {
        law_first_and_last_node(caps, index, k - 1);
    }
}

/// A rule that makes a range needs its name and two captures, the first and the
/// last of the range.
pub proof fn law_range_rules(p: PredicateView, name: Seq<char>, first: u32, last: u32)
    ensures
        p.operator == "make-range!"@ && p.args == seq![
            PredicateArg::Text(name),
            PredicateArg::Capture(first),
            PredicateArg::Capture(last),
        ] ==> range_rule(p) == Some(RangeRule { name, first, last }),
        p.operator != "make-range!"@ ==> range_rule(p) is None,
        p.args.len() != 3 ==> range_rule(p) is None,
{
}

/// A range that a rule makes runs from where the first node of the one capture
/// starts to where the last node of the other ends.
pub proof fn law_ranges_of_rules(caps: Seq<RawCapture>, rules: Seq<PredicateView>, target: Seq<char>, k: int, c: Candidate)
    requires
        0 <= k <= rules.len(),
        rule_candidates(caps, rules, target, k).contains(c),
    ensures
        exists|i: int|
            0 <= i < k && (range_rule(#[trigger] rules[i]) matches Some(r) && r.name == target && first_node(
                caps,
                r.first,
                caps.len() as int,
            ) is Some && last_node(caps, r.last, caps.len() as int) is Some && c.lo == (first_node(
                caps,
                r.first,
                caps.len() as int,
            )->0).lo && c.start == (first_node(caps, r.first, caps.len() as int)->0).start && c.hi == (last_node(
                caps,
                r.last,
                caps.len() as int,
            )->0).hi && c.end == (last_node(caps, r.last, caps.len() as int)->0).end),
    decreases k,
{
    let w = rule_candidates(caps, rules, target, k);
    if k > 0 {
        let t = rule_candidates(caps, rules, target, k - 1);
        let j = choose|j: int| 0 <= j < w.len() && w[j] == c;
        if j < t.len() {
            assert(t[j] == c);
            assert(t.contains(c));
            law_ranges_of_rules(caps, rules, target, k - 1, c);
            let i = choose|i: int|
                0 <= i < k - 1 && (range_rule(#[trigger] rules[i]) matches Some(r) && r.name == target && first_node(
                    caps,
                    r.first,
                    caps.len() as int,
                ) is Some && last_node(caps, r.last, caps.len() as int) is Some && c.lo == (first_node(
                    caps,
                    r.first,
                    caps.len() as int,
                )->0).lo && c.start == (first_node(caps, r.first, caps.len() as int)->0).start && c.hi == (last_node(
                    caps,
                    r.last,
                    caps.len() as int,
                )->0).hi && c.end == (last_node(caps, r.last, caps.len() as int)->0).end);
            assert(range_rule(rules[i]) is Some);
        } else {
            assert(range_rule(rules[k - 1]) is Some);
        }
    } else {
        assert(w.len() == 0);
    }
}

/// The candidates are those of each match, first the named captures and then the
/// ranges that the rules of its pattern make.
pub proof fn law_candidates(
    names: Seq<Seq<char>>,
    rules: Seq<Seq<PredicateView>>,
    ms: Seq<MatchView>,
    m: MatchView,
    target: Seq<char>,
)
    requires
        m.pattern < rules.len(),
    ensures
        ({
            let n = ms.len() as int;
            let mine = rules[m.pattern as int];
            candidates(names, rules, ms.push(m), target, n + 1) == candidates(names, rules, ms, target, n)
                + direct_candidates(names, m.captures, target, m.captures.len() as int) + rule_candidates(
                m.captures,
                mine,
                target,
                mine.len() as int,
            )
        }),
        candidates(names, rules, Seq::empty(), target, 0).len() == 0,
{
    lemma_candidates_take(names, rules, ms, m, target, ms.len() as int);
}

proof fn lemma_candidates_take(
    names: Seq<Seq<char>>,
    rules: Seq<Seq<PredicateView>>,
    ms: Seq<MatchView>,
    m: MatchView,
    target: Seq<char>,
    k: int,
)
    requires
        0 <= k <= ms.len(),
    ensures
        candidates(names, rules, ms.push(m), target, k) == candidates(names, rules, ms, target, k),
    decreases k,
{
    if k > 0 {
        lemma_candidates_take(names, rules, ms, m, target, k - 1);
    }
}

/// The library of a grammar is looked for under its name, with the suffixes of
/// libraries and then with the customary start; a symbol spells the name with
/// underscores for hyphens.
pub proof fn law_library_names(name: Seq<char>)
    ensures
        library_names(name).len() == 5,
        library_names(name)[0] == name + ".so"@,
        library_names(name)[1] == name + ".dylib"@,
        library_names(name)[2] == name + ".dll"@,
        library_names(name)[3] == "lib"@ + name + ".so"@,
        library_names(name)[4] == "lib"@ + name + ".dylib"@,
        with_underscores(name).len() == name.len(),
        forall|i: int|
            0 <= i < name.len() ==> (#[trigger] with_underscores(name)[i]) == if name[i] == '-' {
                '_'
            } else {
                name[i]
            },
{
}

} // verus!
