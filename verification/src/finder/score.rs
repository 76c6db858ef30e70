//! Scoring of fuzzy matches.
//!
//! The characters of the needle have to occur in the haystack in order. Each
//! way to place them has a score; the best placement wins. Hits at the start
//! of a word count most, neighbouring hits count more than scattered ones and
//! every skipped character costs a little.
use vstd::prelude::*;
use crate::text::{alphanumeric, ascii_digit, ascii_lower, ascii_upper, chars_of};

verus! {

pub const SCORE_MATCH: i32 = 16;

pub const SCORE_GAP_START: i32 = -3;

pub const SCORE_GAP_EXTEND: i32 = -1;

pub const BONUS_BOUNDARY: i32 = 8;

pub const BONUS_CAMEL: i32 = 7;

pub const BONUS_CONSECUTIVE: i32 = 4;

pub const BONUS_FIRST_CHAR_MULT: i32 = 2;

/// Stands for "no way to get here".
pub const SCORE_NEG_INF: i32 = -536870912;

/// Up to this many characters in the haystack no score reaches the limits of
/// its type.
pub const SAFE_LEN: usize = 80000000;

/// The letter case and word classes that boundaries are judged by.
#[derive(Debug, Copy, Clone, PartialEq, Eq, Structural)]
pub enum CharKind {
    NonWord,
    Lower,
    Upper,
    Number,
}

pub open spec fn kind_of(c: char) -> CharKind {
    if ascii_lower(c) {
        CharKind::Lower
    } else if ascii_upper(c) {
        CharKind::Upper
    } else if ascii_digit(c) {
        CharKind::Number
    } else if alphanumeric(c) {
        CharKind::Lower
    } else {
        CharKind::NonWord
    }
}

/// The class of a character. Letters beyond ASCII count as lower case, so
/// that they form words too.
pub fn char_kind(c: char) -> (r: CharKind)
    ensures
        r == kind_of(c),
{
    if 'a' <= c && c <= 'z' {
        CharKind::Lower
    } else if 'A' <= c && c <= 'Z' {
        CharKind::Upper
    } else if '0' <= c && c <= '9' {
        CharKind::Number
    } else if c.is_alphanumeric() {
        CharKind::Lower
    } else {
        CharKind::NonWord
    }
}

pub open spec fn bonus_between(prev: CharKind, curr: CharKind) -> int {
    match (prev, curr) {
        (CharKind::NonWord, CharKind::NonWord) => 0,
        (CharKind::NonWord, _) => BONUS_BOUNDARY as int,
        (CharKind::Lower, CharKind::Upper) => BONUS_CAMEL as int,
        (CharKind::Lower, CharKind::Number) => BONUS_CAMEL as int,
        (CharKind::Upper, CharKind::Number) => BONUS_CAMEL as int,
        _ => 0,
    }
}

/// What a hit earns for standing at a word boundary.
pub fn boundary_bonus(prev: CharKind, curr: CharKind) -> (r: i32)
    ensures
        r == bonus_between(prev, curr),
{
    match (prev, curr) {
        (CharKind::NonWord, CharKind::NonWord) => 0,
        (CharKind::NonWord, _) => BONUS_BOUNDARY,
        (CharKind::Lower, CharKind::Upper) => BONUS_CAMEL,
        (CharKind::Lower, CharKind::Number) => BONUS_CAMEL,
        (CharKind::Upper, CharKind::Number) => BONUS_CAMEL,
        _ => 0,
    }
}

/// The ASCII lower case of a character.
pub open spec fn folded(c: char) -> char {
    if ascii_upper(c) {
        ((c as u32) + 32) as char
    } else {
        c
    }
}

/// Whether two characters agree up to ASCII case.
pub fn eq_fold(a: char, b: char) -> (r: bool)
    ensures
        r == (folded(a) == folded(b)),
{
    fold(a) == fold(b)
}

fn fold(c: char) -> (r: char)
    ensures
        r == folded(c),
{
    if 'A' <= c && c <= 'Z' {
        ((c as u8) + 32) as char
    } else {
        c
    }
}

/// What a hit at `hay[j]` earns for its place. The text is taken to be
/// preceded by a separator.
pub open spec fn bonus_at(hay: Seq<char>, j: int) -> int {
    bonus_between(
        if j == 0 {
            CharKind::NonWord
        } else {
            kind_of(hay[j - 1])
        },
        kind_of(hay[j]),
    )
}

/// What a hit earns for agreeing in case.
pub open spec fn case_bonus(n: char, h: char) -> int {
    if n == h {
        1
    } else {
        0
    }
}

/// `x` held within the range of `i32`.
pub open spec fn sat(x: int) -> int {
    if x > i32::MAX {
        i32::MAX as int
    } else if x < i32::MIN {
        i32::MIN as int
    } else {
        x
    }
}

fn sat_add(a: i32, b: i32) -> (r: i32)
    ensures
        r == sat(a + b),
{
    let x: i64 = a as i64 + b as i64;
    if x > i32::MAX as i64 {
        i32::MAX
    } else if x < i32::MIN as i64 {
        i32::MIN
    } else {
        x as i32
    }
}

/// The best score for placing `ndl[..=i]` with its last character on
/// `hay[j]`.
pub open spec fn mscore(hay: Seq<char>, ndl: Seq<char>, i: int, j: int) -> int
    decreases j, 0int,
{
    if i < 0 || j < i || j >= hay.len() || i >= ndl.len() || folded(ndl[i]) != folded(hay[j]) {
        SCORE_NEG_INF as int
    } else if i == 0 {
        SCORE_MATCH + bonus_at(hay, j) * BONUS_FIRST_CHAR_MULT + case_bonus(ndl[i], hay[j])
    } else {
        let from_m = mscore(hay, ndl, i - 1, j - 1);
        let from_g = gscore(hay, ndl, i - 1, j - 1);
        if from_m == SCORE_NEG_INF && from_g == SCORE_NEG_INF {
            SCORE_NEG_INF as int
        } else if via_match(hay, ndl, i, j) >= via_gap(hay, ndl, i, j) {
            via_match(hay, ndl, i, j)
        } else {
            via_gap(hay, ndl, i, j)
        }
    }
}

/// The best score for placing `ndl[..=i]` before `hay[j]`, with the skip of
/// `hay[j]` charged.
pub open spec fn gscore(hay: Seq<char>, ndl: Seq<char>, i: int, j: int) -> int
    decreases j, 0int,
{
    if i < 0 || j < i || j == 0 || j >= hay.len() || i >= ndl.len() {
        SCORE_NEG_INF as int
    } else {
        let from_m = mscore(hay, ndl, i, j - 1);
        let from_g = gscore(hay, ndl, i, j - 1);
        let start = sat(from_m + SCORE_GAP_START);
        let extend = sat(from_g + SCORE_GAP_EXTEND);
        if from_m == SCORE_NEG_INF && from_g == SCORE_NEG_INF {
            SCORE_NEG_INF as int
        } else if extend >= start {
            extend
        } else {
            start
        }
    }
}

/// The score of a hit on `hay[j]` that follows a hit on `hay[j - 1]`.
pub open spec fn via_match(hay: Seq<char>, ndl: Seq<char>, i: int, j: int) -> int
    decreases j - 1, 1int,
    when j > 0
{
    sat(mscore(hay, ndl, i - 1, j - 1) + SCORE_MATCH + run_bonus(hay, j) + case_bonus(ndl[i], hay[j]))
}

/// The score of a hit on `hay[j]` that follows a gap.
pub open spec fn via_gap(hay: Seq<char>, ndl: Seq<char>, i: int, j: int) -> int
    decreases j - 1, 1int,
    when j > 0
{
    sat(gscore(hay, ndl, i - 1, j - 1) + SCORE_MATCH + bonus_at(hay, j) + case_bonus(ndl[i], hay[j]))
}

/// What a hit right after another one earns for its place.
pub open spec fn run_bonus(hay: Seq<char>, j: int) -> int {
    if bonus_at(hay, j) > BONUS_CONSECUTIVE {
        bonus_at(hay, j)
    } else {
        BONUS_CONSECUTIVE as int
    }
}

/// Where `ndl[i - 1]` stands in the best placement that `mscore` speaks of.
pub open spec fn mparent(hay: Seq<char>, ndl: Seq<char>, i: int, j: int) -> Option<int> {
    if i <= 0 || j < i || j >= hay.len() || i >= ndl.len() || folded(ndl[i]) != folded(hay[j]) {
        None
    } else if mscore(hay, ndl, i - 1, j - 1) == SCORE_NEG_INF && gscore(hay, ndl, i - 1, j - 1)
        == SCORE_NEG_INF {
        None
    } else if via_match(hay, ndl, i, j) >= via_gap(hay, ndl, i, j) {
        Some(j - 1)
    } else {
        gmatch(hay, ndl, i - 1, j - 1)
    }
}

/// Where `ndl[i]` stands in the best placement that `gscore` speaks of.
pub open spec fn gmatch(hay: Seq<char>, ndl: Seq<char>, i: int, j: int) -> Option<int>
    decreases j,
{
    if i < 0 || j < i || j <= 0 || j >= hay.len() || i >= ndl.len() {
        None
    } else {
        let from_m = mscore(hay, ndl, i, j - 1);
        let from_g = gscore(hay, ndl, i, j - 1);
        if from_m == SCORE_NEG_INF && from_g == SCORE_NEG_INF {
            None
        } else if sat(from_g + SCORE_GAP_EXTEND) >= sat(from_m + SCORE_GAP_START) {
            gmatch(hay, ndl, i, j - 1)
        } else {
            Some(j - 1)
        }
    }
}

/// The first column below `k` in which the last needle character scores
/// highest, with that score.
pub open spec fn best_end(hay: Seq<char>, ndl: Seq<char>, k: int) -> Option<(int, int)>
    decreases k,
{
    if k < ndl.len() || k <= 0 {
        None
    } else {
        let s = mscore(hay, ndl, ndl.len() - 1, k - 1);
        match best_end(hay, ndl, k - 1) {
            Some((b, j)) => if s > b {
                Some((s, k - 1))
            } else {
                Some((b, j))
            },
            None => if s > SCORE_NEG_INF {
                Some((s, k - 1))
            } else {
                None
            },
        }
    }
}

/// The places of `ndl[..=i]` in the best placement that ends on `hay[j]`.
pub open spec fn trace(hay: Seq<char>, ndl: Seq<char>, i: int, j: int) -> Option<Seq<int>>
    decreases i,
{
    if i <= 0 {
        Some(seq![j])
    } else {
        match mparent(hay, ndl, i, j) {
            None => None,
            Some(p) => match trace(hay, ndl, i - 1, p) {
                None => None,
                Some(ps) => Some(ps.push(j)),
            },
        }
    }
}

/// What matching `ndl` against `hay` gives: the best score and the places of
/// the needle's characters.
pub open spec fn best_match(hay: Seq<char>, ndl: Seq<char>) -> Option<(int, Seq<int>)> {
    if ndl.len() == 0 {
        Some((0int, Seq::empty()))
    } else if ndl.len() > hay.len() {
        None
    } else {
        match best_end(hay, ndl, hay.len() as int) {
            None => None,
            Some((s, j)) => match trace(hay, ndl, ndl.len() - 1, j) {
                None => None,
                Some(ps) => Some((s, ps)),
            },
        }
    }
}

/// Whether `ps` places the needle in the haystack: in order, and each
/// character on one that agrees with it up to ASCII case.
pub open spec fn aligned(hay: Seq<char>, ndl: Seq<char>, ps: Seq<int>) -> bool {
    &&& ps.len() == ndl.len()
    &&& forall|i: int| #![trigger ps[i]] 0 <= i < ps.len() ==> 0 <= ps[i] < hay.len() && folded(ndl[i])
        == folded(hay[ps[i]])
    &&& forall|i: int, k: int| 0 <= i < k < ps.len() ==> ps[i] < ps[k]
}

/// What the hit on `hay[p]` adds after one on `hay[q]`.
pub open spec fn step_score(hay: Seq<char>, n: char, q: int, p: int) -> int {
    if q == p - 1 {
        SCORE_MATCH + run_bonus(hay, p) + case_bonus(n, hay[p])
    } else {
        SCORE_MATCH + bonus_at(hay, p) + case_bonus(n, hay[p]) + SCORE_GAP_START + (p - q - 2)
            * SCORE_GAP_EXTEND
    }
}

/// The score of one placement.
pub open spec fn align_score(hay: Seq<char>, ndl: Seq<char>, ps: Seq<int>) -> int
    decreases ps.len(),
{
    if ps.len() == 0 {
        0
    } else if ps.len() == 1 {
        SCORE_MATCH + bonus_at(hay, ps[0]) * BONUS_FIRST_CHAR_MULT + case_bonus(ndl[0], hay[ps[0]])
    } else {
        align_score(hay, ndl, ps.drop_last()) + step_score(
            hay,
            ndl[ps.len() - 1],
            ps[ps.len() - 2],
            ps.last(),
        )
    }
}

/// Parents lie before their children, and far enough in to leave room for the
/// rest of the needle.
proof fn lemma_gmatch_range(hay: Seq<char>, ndl: Seq<char>, i: int, j: int)
    ensures
        gmatch(hay, ndl, i, j) matches Some(p) ==> i <= p < j && 0 <= i,
        gscore(hay, ndl, i, j) != SCORE_NEG_INF ==> 0 <= i < j,
    decreases j,
{
    if !(i < 0 || j < i || j <= 0 || j >= hay.len() || i >= ndl.len()) {
        lemma_gmatch_range(hay, ndl, i, j - 1);
    }
}

/// Whether `ps` places the first `ps.len()` characters of the needle.
pub open spec fn placed(hay: Seq<char>, ndl: Seq<char>, ps: Seq<int>) -> bool {
    ps.len() <= ndl.len() && aligned(hay, ndl.take(ps.len() as int), ps)
}

/// What a hit cell that is reached at all stands for.
spec fn hit_ok(hay: Seq<char>, ndl: Seq<char>, i: int, j: int) -> bool {
    mscore(hay, ndl, i, j) != SCORE_NEG_INF ==> {
        &&& 0 <= i <= j < hay.len() && i < ndl.len()
        &&& -3 * j <= mscore(hay, ndl, i, j) <= 33 + 25 * i
        &&& trace(hay, ndl, i, j) matches Some(ps) && placed(hay, ndl, ps) && ps.len() == i + 1 && ps.last() == j
            && align_score(hay, ndl, ps) == mscore(hay, ndl, i, j)
    }
}

/// What a gap cell that is reached at all stands for.
spec fn gap_ok(hay: Seq<char>, ndl: Seq<char>, i: int, j: int) -> bool {
    gscore(hay, ndl, i, j) != SCORE_NEG_INF ==> {
        &&& 0 <= i < j < hay.len() && i < ndl.len()
        &&& -3 * j <= gscore(hay, ndl, i, j) <= 33 + 25 * i
        &&& gmatch(hay, ndl, i, j) matches Some(q) && i <= q < j && mscore(hay, ndl, i, q) != SCORE_NEG_INF
            && gscore(hay, ndl, i, j) == mscore(hay, ndl, i, q) + SCORE_GAP_START + (j - 1 - q) * SCORE_GAP_EXTEND
    }
}

proof fn lemma_bonus_range(hay: Seq<char>, j: int)
    ensures
        0 <= bonus_at(hay, j) <= 8,
        4 <= run_bonus(hay, j) <= 8,
{
}

/// Extending a placement by one hit.
proof fn lemma_place_one_more(hay: Seq<char>, ndl: Seq<char>, ps: Seq<int>, j: int)
    requires
        placed(hay, ndl, ps),
        ps.len() >= 1,
        ps.len() < ndl.len(),
        ps.last() < j < hay.len(),
        folded(ndl[ps.len() as int]) == folded(hay[j]),
    ensures
        placed(hay, ndl, ps.push(j)),
        align_score(hay, ndl, ps.push(j)) == align_score(hay, ndl, ps) + step_score(
            hay,
            ndl[ps.len() as int],
            ps.last(),
            j,
        ),
{
    let qs = ps.push(j);
    assert(qs.drop_last() =~= ps);
    assert forall|i: int| #![trigger qs[i]] 0 <= i < qs.len() implies 0 <= qs[i] < hay.len() && folded(
        ndl.take(qs.len() as int)[i],
    ) == folded(hay[qs[i]]) by {
        if i < ps.len() {
            assert(ps[i] == qs[i]);
            assert(ndl.take(ps.len() as int)[i] == ndl[i]);
        }
    }
    assert forall|i: int, k: int| 0 <= i < k < qs.len() implies qs[i] < qs[k] by {
        if k == ps.len() && i < ps.len() - 1 {
            assert(ps[i] < ps[ps.len() - 1]);
        }
    }
}

proof fn lemma_gap_cell(hay: Seq<char>, ndl: Seq<char>, i: int, j: int)
    requires
        hay.len() <= SAFE_LEN,
    ensures
        gap_ok(hay, ndl, i, j),
    decreases j, 0int,
{
    if gscore(hay, ndl, i, j) != SCORE_NEG_INF {
        lemma_hit_cell(hay, ndl, i, j - 1);
        lemma_gap_cell(hay, ndl, i, j - 1);
    }
}

proof fn lemma_hit_cell(hay: Seq<char>, ndl: Seq<char>, i: int, j: int)
    requires
        hay.len() <= SAFE_LEN,
    ensures
        hit_ok(hay, ndl, i, j),
    decreases j, 1int,
{
    if mscore(hay, ndl, i, j) != SCORE_NEG_INF {
        lemma_bonus_range(hay, j);
        if i == 0 {
            let ps = seq![j];
            assert(trace(hay, ndl, i, j) == Some(ps));
            assert(ndl.take(1)[0] == ndl[0]);
            assert(placed(hay, ndl, ps));
        } else {
            lemma_hit_cell(hay, ndl, i - 1, j - 1);
            lemma_gap_cell(hay, ndl, i - 1, j - 1);
            if via_match(hay, ndl, i, j) >= via_gap(hay, ndl, i, j) {
                let ps = trace(hay, ndl, i - 1, j - 1)->0;
                lemma_place_one_more(hay, ndl, ps, j);
                assert(trace(hay, ndl, i, j) == Some(ps.push(j)));
            } else {
                let q = gmatch(hay, ndl, i - 1, j - 1)->0;
                lemma_hit_cell(hay, ndl, i - 1, q);
                let ps = trace(hay, ndl, i - 1, q)->0;
                lemma_place_one_more(hay, ndl, ps, j);
                assert(trace(hay, ndl, i, j) == Some(ps.push(j)));
            }
        }
    }
}

/// A gap after a hit is never rated below what it costs.
proof fn lemma_gap_reach(hay: Seq<char>, ndl: Seq<char>, i: int, q: int, j: int)
    requires
        hay.len() <= SAFE_LEN,
        mscore(hay, ndl, i, q) != SCORE_NEG_INF,
        q < j < hay.len(),
    ensures
        gscore(hay, ndl, i, j) != SCORE_NEG_INF,
        gscore(hay, ndl, i, j) >= mscore(hay, ndl, i, q) + SCORE_GAP_START + (j - 1 - q) * SCORE_GAP_EXTEND,
    decreases j,
{
    lemma_hit_cell(hay, ndl, i, q);
    lemma_hit_cell(hay, ndl, i, j - 1);
    lemma_gap_cell(hay, ndl, i, j - 1);
    lemma_gap_cell(hay, ndl, i, j);
    if q < j - 1 {
        lemma_gap_reach(hay, ndl, i, q, j - 1);
    }
}

/// No placement beats the cell it ends in.
proof fn lemma_cell_bounds(hay: Seq<char>, ndl: Seq<char>, ps: Seq<int>)
    requires
        hay.len() <= SAFE_LEN,
        placed(hay, ndl, ps),
        ps.len() >= 1,
    ensures
        mscore(hay, ndl, ps.len() - 1, ps.last()) != SCORE_NEG_INF,
        align_score(hay, ndl, ps) <= mscore(hay, ndl, ps.len() - 1, ps.last()),
        ps.len() - 1 <= ps.last(),
    decreases ps.len(),
{
    let i = ps.len() - 1;
    let j = ps.last();
    lemma_bonus_range(hay, j);
    assert(ndl.take(ps.len() as int)[i] == ndl[i]);
    assert(0 <= ps[i] < hay.len() && folded(ndl[i]) == folded(hay[j]));
    if ps.len() > 1 {
        let qs = ps.drop_last();
        let q = qs.last();
        assert(q == ps[i - 1]);
        assert(ps[i - 1] < ps[i]);
        assert forall|k: int| #![trigger qs[k]] 0 <= k < qs.len() implies 0 <= qs[k] < hay.len() && folded(
            ndl.take(qs.len() as int)[k],
        ) == folded(hay[qs[k]]) by {
            assert(ps[k] == qs[k]);
            assert(ndl.take(ps.len() as int)[k] == ndl[k]);
        }
        assert(placed(hay, ndl, qs));
        lemma_cell_bounds(hay, ndl, qs);
        lemma_hit_cell(hay, ndl, i - 1, q);
        lemma_hit_cell(hay, ndl, i - 1, j - 1);
        lemma_gap_cell(hay, ndl, i - 1, j - 1);
        if q < j - 1 {
            lemma_gap_reach(hay, ndl, i - 1, q, j - 1);
            assert(via_gap(hay, ndl, i, j) >= align_score(hay, ndl, qs) + step_score(hay, ndl[i], q, j));
        } else {
            assert(via_match(hay, ndl, i, j) >= align_score(hay, ndl, qs) + step_score(hay, ndl[i], q, j));
        }
        assert(mscore(hay, ndl, i, j) >= via_match(hay, ndl, i, j));
        assert(mscore(hay, ndl, i, j) >= via_gap(hay, ndl, i, j));
        assert(mscore(hay, ndl, i, j) > SCORE_NEG_INF);
    }
}

/// `best_end` finds the highest score of the last needle character.
proof fn lemma_best_end(hay: Seq<char>, ndl: Seq<char>, k: int)
    requires
        hay.len() <= SAFE_LEN,
        1 <= ndl.len(),
        k <= hay.len(),
    ensures
        match best_end(hay, ndl, k) {
            Some((s, j)) => {
                &&& s == mscore(hay, ndl, ndl.len() - 1, j)
                &&& s > SCORE_NEG_INF
                &&& forall|c: int| c < k ==> #[trigger] mscore(hay, ndl, ndl.len() - 1, c) <= s
            },
            None => forall|c: int| c < k ==> #[trigger] mscore(hay, ndl, ndl.len() - 1, c) == SCORE_NEG_INF,
        },
    decreases k,
{
    if !(k < ndl.len() || k <= 0) {
        lemma_best_end(hay, ndl, k - 1);
        lemma_hit_cell(hay, ndl, ndl.len() - 1, k - 1);
    }
}

/// The match that is reported is the best there is: it places the needle, its
/// score is the score of that placement, and no other placement scores
/// higher. Nothing is reported only where the needle cannot be placed.
pub proof fn law_best_match(hay: Seq<char>, ndl: Seq<char>)
    requires
        hay.len() <= SAFE_LEN,
    ensures
        match best_match(hay, ndl) {
            Some((s, ps)) => {
                &&& aligned(hay, ndl, ps)
                &&& align_score(hay, ndl, ps) == s
                &&& forall|qs: Seq<int>| #[trigger] aligned(hay, ndl, qs) ==> align_score(hay, ndl, qs) <= s
            },
            None => forall|qs: Seq<int>| !#[trigger] aligned(hay, ndl, qs),
        },
{
    let n = ndl.len() as int;
    assert(ndl.take(n) =~= ndl);
    if n == 0 {
        assert forall|qs: Seq<int>| #[trigger] aligned(hay, ndl, qs) implies align_score(hay, ndl, qs) <= 0 by {
            assert(qs.len() == 0);
        }
    } else {
        lemma_best_end(hay, ndl, hay.len() as int);
        assert forall|qs: Seq<int>| #[trigger] aligned(hay, ndl, qs) implies n <= hay.len() && mscore(
            hay,
            ndl,
            n - 1,
            qs.last(),
        ) != SCORE_NEG_INF && align_score(hay, ndl, qs) <= mscore(hay, ndl, n - 1, qs.last()) && qs.last()
            < hay.len() by {
            assert(placed(hay, ndl, qs));
            lemma_cell_bounds(hay, ndl, qs);
            assert(qs[n - 1] < hay.len());
        }
        if n <= hay.len() {
            match best_end(hay, ndl, hay.len() as int) {
                Some((s, j)) => {
                    lemma_hit_cell(hay, ndl, n - 1, j);
                },
                None => {},
            }
        }
    }
}

/// One row of the table: the cells of one needle character.
struct Row {
    m: Vec<i32>,
    g: Vec<i32>,
    mp: Vec<Option<usize>>,
    gm: Vec<Option<usize>>,
}

spec fn same_place(a: Option<usize>, b: Option<int>) -> bool {
    match (a, b) {
        (None, None) => true,
        (Some(x), Some(y)) => x == y,
        _ => false,
    }
}

impl Row {
    spec fn ok(self, hay: Seq<char>, ndl: Seq<char>, i: int, upto: int) -> bool {
        &&& self.m.len() == upto
        &&& self.g.len() == upto
        &&& self.mp.len() == upto
        &&& self.gm.len() == upto
        &&& forall|j: int|
            0 <= j < upto ==> {
                &&& #[trigger] self.m@[j] == mscore(hay, ndl, i, j)
                &&& self.g@[j] == gscore(hay, ndl, i, j)
                &&& same_place(self.mp@[j], mparent(hay, ndl, i, j))
                &&& same_place(self.gm@[j], gmatch(hay, ndl, i, j))
            }
    }
}

/// The bonus of each place of the haystack.
fn bonuses(hay: &Vec<char>) -> (r: Vec<i32>)
    ensures
        r.len() == hay.len(),
        forall|j: int| 0 <= j < hay.len() ==> r@[j] == bonus_at(hay@, j),
{
    let mut out: Vec<i32> = Vec::new();
    let mut prev = CharKind::NonWord;
    let mut j: usize = 0;
    while j < hay.len()
        invariant
            j <= hay.len(),
            out.len() == j,
            j > 0 ==> prev == kind_of(hay@[j - 1]),
            j == 0 ==> prev == CharKind::NonWord,
            forall|k: int| 0 <= k < j ==> out@[k] == bonus_at(hay@, k),
        decreases hay.len() - j,
    {
        let k = char_kind(hay[j]);
        out.push(boundary_bonus(prev, k));
        prev = k;
        j = j + 1;
    }
    out
}

/// The cell of a hit of `ndl[i]` on `hay[j]`.
fn match_cell(hay: &Vec<char>, ndl: &Vec<char>, b: i32, i: usize, j: usize, prev: Option<&Row>) -> (r: (
    i32,
    Option<usize>,
))
    requires
        i < ndl.len() <= hay.len(),
        j < hay.len(),
        b == bonus_at(hay@, j as int),
        i == 0 ==> prev is None,
        i > 0 ==> prev is Some && prev->0.ok(hay@, ndl@, i - 1, hay.len() as int),
    ensures
        r.0 == mscore(hay@, ndl@, i as int, j as int),
        same_place(r.1, mparent(hay@, ndl@, i as int, j as int)),
{
    let nc = ndl[i];
    let hc = hay[j];
    if j < i || !eq_fold(nc, hc) {
        return (SCORE_NEG_INF, None);
    }
    let cb: i32 = if nc == hc { 1 } else { 0 };
    match prev {
        None => (SCORE_MATCH + b * BONUS_FIRST_CHAR_MULT + cb, None),
        Some(p) => {
            let from_m = p.m[j - 1];
            let from_g = p.g[j - 1];
            proof {
                assert(p.m@[j - 1] == mscore(hay@, ndl@, i - 1, j - 1));
            }
            let run: i32 = if b > BONUS_CONSECUTIVE { b } else { BONUS_CONSECUTIVE };
            let via_m = sat_add(from_m, SCORE_MATCH + run + cb);
            let via_g = sat_add(from_g, SCORE_MATCH + b + cb);
            if from_m == SCORE_NEG_INF && from_g == SCORE_NEG_INF {
                (SCORE_NEG_INF, None)
            } else if via_m >= via_g {
                (via_m, Some(j - 1))
            } else {
                (via_g, p.gm[j - 1])
            }
        },
    }
}

/// The cell of a gap after `ndl[i]` that takes in `hay[j]`.
fn gap_cell(hay: &Vec<char>, ndl: &Vec<char>, i: usize, j: usize, row: &Row) -> (r: (i32, Option<usize>))
    requires
        i < ndl.len() <= hay.len(),
        j < hay.len(),
        row.ok(hay@, ndl@, i as int, j as int),
    ensures
        r.0 == gscore(hay@, ndl@, i as int, j as int),
        same_place(r.1, gmatch(hay@, ndl@, i as int, j as int)),
{
    if j == 0 || j < i {
        return (SCORE_NEG_INF, None);
    }
    let from_m = row.m[j - 1];
    let from_g = row.g[j - 1];
    proof {
        assert(row.m@[j - 1] == mscore(hay@, ndl@, i as int, j - 1));
    }
    let start = sat_add(from_m, SCORE_GAP_START);
    let extend = sat_add(from_g, SCORE_GAP_EXTEND);
    if from_m == SCORE_NEG_INF && from_g == SCORE_NEG_INF {
        (SCORE_NEG_INF, None)
    } else if extend >= start {
        (extend, row.gm[j - 1])
    } else {
        (start, Some(j - 1))
    }
}

/// Appends the cells of column `j`.
fn push_cells(hay: &Vec<char>, ndl: &Vec<char>, i: usize, j: usize, row: &mut Row, mc: (i32, Option<usize>), gc: (
    i32,
    Option<usize>,
))
    requires
        old(row).ok(hay@, ndl@, i as int, j as int),
        mc.0 == mscore(hay@, ndl@, i as int, j as int),
        same_place(mc.1, mparent(hay@, ndl@, i as int, j as int)),
        gc.0 == gscore(hay@, ndl@, i as int, j as int),
        same_place(gc.1, gmatch(hay@, ndl@, i as int, j as int)),
    ensures
        final(row).ok(hay@, ndl@, i as int, j + 1),
{
    row.m.push(mc.0);
    row.mp.push(mc.1);
    row.g.push(gc.0);
    row.gm.push(gc.1);
    proof {
        assert forall|k: int| 0 <= k < j + 1 implies {
            &&& #[trigger] row.m@[k] == mscore(hay@, ndl@, i as int, k)
            &&& row.g@[k] == gscore(hay@, ndl@, i as int, k)
            &&& same_place(row.mp@[k], mparent(hay@, ndl@, i as int, k))
            &&& same_place(row.gm@[k], gmatch(hay@, ndl@, i as int, k))
        } by {
            if k < j {
                assert(old(row).m@[k] == mscore(hay@, ndl@, i as int, k));
            }
        }
    }
}

/// The cells of the first needle character, or those of the character after
/// the one whose cells are given.
fn fill_row(hay: &Vec<char>, ndl: &Vec<char>, bonus: &Vec<i32>, i: usize, prev: Option<&Row>) -> (r: Row)
    requires
        i < ndl.len() <= hay.len(),
        bonus.len() == hay.len(),
        forall|j: int| 0 <= j < hay.len() ==> bonus@[j] == bonus_at(hay@, j),
        i == 0 ==> prev is None,
        i > 0 ==> prev is Some && prev->0.ok(hay@, ndl@, i - 1, hay.len() as int),
    ensures
        r.ok(hay@, ndl@, i as int, hay.len() as int),
{
    let mut row = Row { m: Vec::new(), g: Vec::new(), mp: Vec::new(), gm: Vec::new() };
    let mut j: usize = 0;
    while j < hay.len()
        invariant
            j <= hay.len(),
            i < ndl.len() <= hay.len(),
            bonus.len() == hay.len(),
            forall|j: int| 0 <= j < hay.len() ==> bonus@[j] == bonus_at(hay@, j),
            i == 0 ==> prev is None,
            i > 0 ==> prev is Some && prev->0.ok(hay@, ndl@, i - 1, hay.len() as int),
            row.ok(hay@, ndl@, i as int, j as int),
        decreases hay.len() - j,
    {
        let mc = match_cell(hay, ndl, bonus[j], i, j, prev);
        let gc = gap_cell(hay, ndl, i, j, &row);
        push_cells(hay, ndl, i, j, &mut row, mc, gc);
        j = j + 1;
    }
    row
}

/// Fuzzy match of `needle` against `haystack`: the score of the best
/// placement and the index of the haystack character under each needle
/// character, or `None` where the needle does not occur.
pub fn fuzzy_match(haystack: &str, needle: &str) -> (r: Option<(i32, Vec<usize>)>)
    ensures
        match (r, best_match(haystack@, needle@)) {
            (Some((s, ps)), Some((t, qs))) => {
                &&& s == t
                &&& ps.len() == qs.len()
                &&& forall|k: int| 0 <= k < ps.len() ==> ps@[k] == qs[k]
            },
            (None, None) => true,
            _ => false,
        },
{
    let ndl = chars_of(needle);
    if ndl.len() == 0 {
        return Some((0, Vec::new()));
    }
    let hay = chars_of(haystack);
    let n = ndl.len();
    let m = hay.len();
    if n > m {
        return None;
    }
    let bonus = bonuses(&hay);
    let mut rows: Vec<Row> = Vec::new();
    let mut i: usize = 0;
    while i < n
        invariant
            i <= n,
            n == ndl.len(),
            m == hay.len(),
            n <= m,
            bonus.len() == hay.len(),
            forall|j: int| 0 <= j < hay.len() ==> bonus@[j] == bonus_at(hay@, j),
            rows.len() == i,
            forall|k: int| 0 <= k < i ==> (#[trigger] rows@[k]).ok(hay@, ndl@, k, m as int),
        decreases n - i,
    {
        let row = if i == 0 {
            fill_row(&hay, &ndl, &bonus, 0, None)
        } else {
            fill_row(&hay, &ndl, &bonus, i, Some(&rows[i - 1]))
        };
        rows.push(row);
        i = i + 1;
    }
    let mut best: Option<(i32, usize)> = None;
    let mut j: usize = n - 1;
    proof {
        assert(best_end(hay@, ndl@, j as int) is None);
    }
    while j < m
        invariant
            1 <= n <= m,
            n - 1 <= j <= m,
            n == ndl.len(),
            m == hay.len(),
            rows.len() == n,
            forall|k: int| 0 <= k < n ==> (#[trigger] rows@[k]).ok(hay@, ndl@, k, m as int),
            match (best, best_end(hay@, ndl@, j as int)) {
                (Some((s, c)), Some((t, d))) => s == t && c == d && n - 1 <= c < j,
                (None, None) => true,
                _ => false,
            },
            best matches Some((s, c)) ==> s > SCORE_NEG_INF,
        decreases m - j,
    {
        proof {
            assert(rows@[n - 1].ok(hay@, ndl@, n - 1, m as int));
            assert(rows@[n - 1].m@[j as int] == mscore(hay@, ndl@, n - 1, j as int));
        }
        let s = rows[n - 1].m[j];
        match best {
            Some((b, c)) => {
                if s > b {
                    best = Some((s, j));
                }
            },
            None => {
                if s > SCORE_NEG_INF {
                    best = Some((s, j));
                }
            },
        }
        j = j + 1;
    }
    match best {
        None => None,
        Some((score, end)) => {
            match walk_back(&hay, &ndl, &rows, n - 1, end) {
                None => None,
                Some(ps) => Some((score, ps)),
            }
        },
    }
}

/// The places of `ndl[..=i]` that the parent cells lead to from column `j`.
fn walk_back(hay: &Vec<char>, ndl: &Vec<char>, rows: &Vec<Row>, i: usize, j: usize) -> (r: Option<
    Vec<usize>,
>)
    requires
        i < ndl.len() <= hay.len(),
        rows.len() == ndl.len(),
        j < hay.len(),
        forall|k: int| 0 <= k < rows.len() ==> (#[trigger] rows@[k]).ok(hay@, ndl@, k, hay.len() as int),
    ensures
        match (r, trace(hay@, ndl@, i as int, j as int)) {
            (Some(ps), Some(qs)) => {
                &&& ps.len() == qs.len()
                &&& forall|k: int| 0 <= k < ps.len() ==> ps@[k] == qs[k]
            },
            (None, None) => true,
            _ => false,
        },
    decreases i,
{
    if i == 0 {
        let mut v: Vec<usize> = Vec::new();
        v.push(j);
        return Some(v);
    }
    proof {
        assert(rows@[i as int].ok(hay@, ndl@, i as int, hay.len() as int));
        assert(rows@[i as int].m@[j as int] == mscore(hay@, ndl@, i as int, j as int));
        lemma_gmatch_range(hay@, ndl@, i - 1, j - 1);
    }
    match rows[i].mp[j] {
        None => None,
        Some(p) => {
            match walk_back(hay, ndl, rows, i - 1, p) {
                None => None,
                Some(ps) => {
                    let mut ps = ps;
                    ps.push(j);
                    Some(ps)
                },
            }
        },
    }
}

} // verus!
