//! What a picker's list promises of every query and every list of items.
use vstd::prelude::*;
use crate::finder::fuzzy::{law_ranked, line_edit, listed, ranked, Finder, FuzzyKind, Hit, IgnoreOpts};
use crate::finder::listing::{entry_rule, found_of, hidden_path, kept, law_kept, shows, EntryKind, Found, Listing};
use crate::finder::score::{align_score, aligned, best_match, folded, law_best_match};
use crate::keys::{KeyCode, KeyEvent};
use crate::prompt::{Prompt, PromptOutcome};
use crate::text::{alphanumeric, text_of};

verus! {

/// A query lists its matches best first, and among equal scores in the order
/// of the items. Each row stands for an item that the query matches, with the
/// score and the places of that match, and no item has two rows. There are at
/// most five hundred rows; an item that matches and has no row is left out only
/// when the list is full, and no row scores less than it.
pub proof fn law_listed(items: Seq<Seq<char>>, query: Seq<char>)
    requires
        query.len() > 0,
    ensures
        listed(items, query).len() <= 500,
        forall|a: int, b: int|
            0 <= a < b < listed(items, query).len() ==> {
                let (s, t) = (#[trigger] listed(items, query)[a], #[trigger] listed(items, query)[b]);
                s.score > t.score || (s.score == t.score && s.idx < t.idx)
            },
        forall|a: int|
            0 <= a < listed(items, query).len() ==> {
                let h = #[trigger] listed(items, query)[a];
                0 <= h.idx < items.len() && best_match(items[h.idx], query) == Some((h.score, h.positions))
            },
        forall|i: int|
            0 <= i < items.len() ==> (#[trigger] best_match(items[i], query) matches Some((score, positions)) ==> {
                ||| exists|a: int|
                    0 <= a < listed(items, query).len() && (#[trigger] listed(items, query)[a]) == (Hit {
                        idx: i,
                        score,
                        positions,
                    })
                ||| listed(items, query).len() == 500 && forall|a: int|
                    0 <= a < listed(items, query).len() ==> {
                        let h = #[trigger] listed(items, query)[a];
                        h.score > score || (h.score == score && h.idx < i)
                    }
            }),
{
    let all = ranked(items, query, items.len() as int);
    let l = listed(items, query);
    law_ranked(items, query, items.len() as int);
    assert forall|a: int| 0 <= a < l.len() implies #[trigger] l[a] == all[a] && all.contains(l[a]) by {}
    assert forall|i: int| 0 <= i < items.len() implies (#[trigger] best_match(items[i], query) matches Some(
        (score, positions),
    ) ==> {
        ||| exists|a: int| 0 <= a < l.len() && (#[trigger] l[a]) == (Hit { idx: i, score, positions })
        ||| l.len() == 500 && forall|a: int|
            0 <= a < l.len() ==> {
                let h = #[trigger] l[a];
                h.score > score || (h.score == score && h.idx < i)
            }
    }) by {
        if let Some((score, positions)) = best_match(items[i], query) {
            let x = Hit { idx: i, score, positions };
            assert(all.contains(x));
            let k = choose|k: int| 0 <= k < all.len() && all[k] == x;
            if k < l.len() {
                assert(l[k] == x);
            }
        }
    }
}

/// Without a query the items are listed as they are, the first five hundred of
/// them.
pub proof fn law_listed_without_query(items: Seq<Seq<char>>, query: Seq<char>)
    requires
        query.len() == 0,
    ensures
        listed(items, query).len() == if items.len() < 500 {
            items.len() as int
        } else {
            500
        },
        forall|a: int| 0 <= a < listed(items, query).len() ==> (#[trigger] listed(items, query)[a]).idx == a,
{
}

/// An item matches exactly if the characters of the query occur in it in their
/// order, where a letter also stands for its other case.
pub proof fn law_match_is_a_subsequence(item: Seq<char>, query: Seq<char>, at: Seq<int>)
    requires
        item.len() <= 80000000,
        at.len() == query.len(),
        forall|i: int|
            0 <= i < at.len() ==> 0 <= #[trigger] at[i] < item.len() && same_letter(query[i], item[at[i]]),
        forall|i: int, k: int| 0 <= i < k < at.len() ==> #[trigger] at[i] < #[trigger] at[k],
    ensures
        best_match(item, query) is Some,
{
    law_best_match(item, query);
    assert forall|i: int| #![trigger at[i]] 0 <= i < at.len() implies folded(query[i]) == folded(item[at[i]]) by {
        law_same_letter(query[i], item[at[i]]);
    }
    assert(aligned(item, query, at));
}

/// Two characters that are the same, or an ASCII letter in its two cases.
pub open spec fn same_letter(a: char, b: char) -> bool {
    ||| a == b
    ||| 'a' <= a <= 'z' && b as int == a as int - 32
    ||| 'a' <= b <= 'z' && a as int == b as int - 32
}

/// Matching looks past the case of ASCII letters and past nothing else.
pub proof fn law_same_letter(a: char, b: char)
    ensures
        folded(a) == folded(b) <==> same_letter(a, b),
{
}

/// The places of a match are where the query's characters are found in the
/// item: one for each, in their order.
pub proof fn law_match_places(item: Seq<char>, query: Seq<char>)
    requires
        item.len() <= 80000000,
        best_match(item, query) is Some,
    ensures
        ({
            let at = (best_match(item, query)->0).1;
            &&& at.len() == query.len()
            &&& forall|i: int|
                0 <= i < at.len() ==> 0 <= #[trigger] at[i] < item.len() && same_letter(query[i], item[at[i]])
            &&& forall|i: int, k: int| 0 <= i < k < at.len() ==> #[trigger] at[i] < #[trigger] at[k]
        }),
{
    law_best_match(item, query);
    let at = (best_match(item, query)->0).1;
    assert forall|i: int| 0 <= i < at.len() implies same_letter(query[i], item[#[trigger] at[i]]) by {
        law_same_letter(query[i], item[at[i]]);
    }
}

/// Whether a word begins at a place: the character there is a letter or a
/// digit and there is none right before it.
pub open spec fn word_begins(item: Seq<char>, p: int) -> bool {
    in_word(item[p]) && (p == 0 || !in_word(item[p - 1]))
}

pub open spec fn in_word(c: char) -> bool {
    ||| 'a' <= c <= 'z'
    ||| 'A' <= c <= 'Z'
    ||| '0' <= c <= '9'
    ||| alphanumeric(c)
}

/// Whether a hump begins at a place inside a word: a capital after a small
/// letter, or a digit after a letter. Letters beyond ASCII are small ones.
pub open spec fn hump_begins(item: Seq<char>, p: int) -> bool {
    &&& p > 0
    &&& in_word(item[p - 1])
    &&& !('0' <= item[p - 1] <= '9')
    &&& ('0' <= item[p] <= '9') || ('A' <= item[p] <= 'Z' && !('A' <= item[p - 1] <= 'Z'))
}

/// What a place is worth: most at the start of a word, a little less at the
/// start of a hump, and nothing elsewhere.
pub open spec fn worth(item: Seq<char>, p: int) -> int {
    if word_begins(item, p) {
        8
    } else if hump_begins(item, p) {
        7
    } else {
        0
    }
}

/// The score of a placement: sixteen for each character that is found and one
/// more where its case agrees; the worth of the first place, twice; for a
/// character right after the one before, its place's worth and at least four;
/// for one further on, its place's worth less three for the first character
/// passed over and less one for each other.
pub proof fn law_score_of_a_placement(item: Seq<char>, query: Seq<char>, at: Seq<int>)
    requires
        aligned(item, query, at),
    ensures
        at.len() == 0 ==> align_score(item, query, at) == 0,
        at.len() == 1 ==> align_score(item, query, at) == 16 + 2 * worth(item, at[0]) + if query[0] == item[at[0]] {
            1int
        } else {
            0
        },
        at.len() > 1 ==> ({
            let (q, p) = (at[at.len() - 2], at[at.len() - 1]);
            align_score(item, query, at) == align_score(item, query, at.drop_last()) + 16 + (if p == q + 1 {
                if worth(item, p) > 4 {
                    worth(item, p)
                } else {
                    4
                }
            } else {
                worth(item, p) - 3 - (p - q - 2)
            }) + if query[at.len() - 1] == item[p] {
                1int
            } else {
                0
            }
        }),
{
    if at.len() > 0 {
        let p = at[at.len() - 1];
        assert(0 <= p < item.len());
    }
    if at.len() > 1 {
        let q = at[at.len() - 2];
        assert(0 <= q);
    }
    if at.len() == 1 {
        assert(0 <= at[0] < item.len());
    }
}

/// No placement of the query scores higher than the match does, and the match
/// has the score of the placement that it shows.
pub proof fn law_match_is_the_best(item: Seq<char>, query: Seq<char>, at: Seq<int>)
    requires
        item.len() <= 80000000,
        aligned(item, query, at),
    ensures
        best_match(item, query) matches Some((score, places)) && aligned(item, query, places) && score == align_score(
            item,
            query,
            places,
        ) && align_score(item, query, at) <= score,
{
    law_best_match(item, query);
}

/// Entering a picker takes the selected row's item: the file of that name, or
/// the line, the buffer or the place of that number in the list. Where nothing
/// is listed nothing is taken.
pub proof fn law_enter_takes_the_selected_row(f: Finder)
    requires
        f.wf(),
    ensures
        ({
            let rows = listed(text_of(f.items@), f.query@);
            let taken = Prompt::Fuzzy(f).submitted();
            &&& rows.len() == 0 ==> taken is Nothing
            &&& rows.len() > 0 ==> ({
                let i = rows[f.selected as int].idx;
                match f.kind {
                    FuzzyKind::Files { ignore } => taken matches PromptOutcome::OpenRelativeFile(path) && path
                        == f.items@[i]@,
                    FuzzyKind::Lines => taken matches PromptOutcome::GotoLine(n) && n == i,
                    FuzzyKind::Buffers => taken matches PromptOutcome::OpenBuffer(n) && n == i,
                    FuzzyKind::Locations => taken matches PromptOutcome::JumpToLocation(n) && n == i,
                }
            })
        }),
{
    let items = text_of(f.items@);
    let rows = listed(items, f.query@);
    assert(rows.len() == f.matches@.len());
    if rows.len() > 0 {
        assert(rows[f.selected as int] == f.matches@[f.selected as int]@);
        if f.query@.len() > 0 {
            law_listed(items, f.query@);
        } else {
            law_listed_without_query(items, f.query@);
        }
    }
}

/// A character typed into the query stands where the insertion point was, and
/// the point moves behind it. Backspace takes it away again and brings the
/// point back.
pub proof fn law_query_typing(q: Seq<char>, at: int, c: char, key: KeyEvent, back: KeyEvent)
    requires
        0 <= at <= q.len(),
        key.code == KeyCode::Char(c),
        !key.modifiers.control,
        back.code is Backspace,
    ensures
        ({
            let (r, to) = line_edit(q, at, key);
            &&& to == at + 1
            &&& r == q.take(at) + seq![c] + q.skip(at)
            &&& line_edit(r, to, back) == (q, at)
        }),
{
    let (r, to) = line_edit(q, at, key);
    assert(r =~= q.take(at) + seq![c] + q.skip(at));
    assert(r.remove(at) =~= q);
}

/// The keys that move in the query, and the two that take from it.
pub proof fn law_query_keys(q: Seq<char>, at: int, key: KeyEvent)
    requires
        0 <= at <= q.len(),
    ensures
        0 <= line_edit(q, at, key).1 <= line_edit(q, at, key).0.len(),
        key.code is Left || (key.code == KeyCode::Char('b') && key.modifiers.control) ==> line_edit(q, at, key) == (
            q,
            if at > 0 {
                at - 1
            } else {
                0
            },
        ),
        key.code is Right || (key.code == KeyCode::Char('f') && key.modifiers.control) ==> line_edit(q, at, key) == (
            q,
            if at < q.len() {
                at + 1
            } else {
                at
            },
        ),
        key.code is Home || (key.code == KeyCode::Char('a') && key.modifiers.control) ==> line_edit(q, at, key) == (
            q,
            0int,
        ),
        key.code is End || (key.code == KeyCode::Char('e') && key.modifiers.control) ==> line_edit(q, at, key) == (
            q,
            q.len() as int,
        ),
        key.code is Backspace && at > 0 ==> line_edit(q, at, key) == (q.take(at - 1) + q.skip(at), at - 1),
        key.code is Backspace && at == 0 ==> line_edit(q, at, key) == (q, at),
        key.code is Delete && at < q.len() ==> line_edit(q, at, key) == (q.take(at) + q.skip(at + 1), at),
        key.code is Delete && at == q.len() ==> line_edit(q, at, key) == (q, at),
{
    if key.code is Backspace && at > 0 {
        assert(q.remove(at - 1) =~= q.take(at - 1) + q.skip(at));
    }
    if key.code is Delete && at < q.len() {
        assert(q.remove(at) =~= q.take(at) + q.skip(at + 1));
    }
}

/// Whether one of the names of a path starts with a dot.
pub open spec fn has_hidden_part(p: Seq<char>) -> bool {
    ||| p.len() > 0 && p[0] == '.'
    ||| exists|i: int| 0 < i < p.len() && #[trigger] p[i] == '.' && p[i - 1] == '/'
}

/// A file picker lists the files that were found, but for symbolic links and,
/// where they are filtered, hidden files. Of the files that the version control
/// system tracks it lists five thousand at most.
pub proof fn law_listed_files(l: Listing, ignore: IgnoreOpts, path: Seq<char>)
    ensures
        ({
            let all = l.paths(ignore);
            let here = exists|i: int|
                0 <= i < l.found@.len() && (#[trigger] l.found@[i]).path@ == path && !l.found@[i].link && !(ignore.hidden
                    && has_hidden_part(path));
            &&& all.contains(path) ==> here
            &&& !l.from_vcs && here ==> all.contains(path)
            &&& l.from_vcs ==> all.len() <= 5000
            &&& l.found@.len() <= 5000 && here ==> all.contains(path)
        }),
{
    let s = found_of(l.found@);
    let n = l.found@.len() as int;
    law_kept(s, ignore.hidden, n, path);
    lemma_kept_len(s, ignore.hidden, n);
    let whole = kept(s, ignore.hidden, n);
    lemma_hidden(path);
    if whole.contains(path) {
        let i = choose|i: int| 0 <= i < n && (#[trigger] s[i]).path == path && shows(s[i], ignore.hidden);
        assert(l.found@[i].path@ == path);
    }
    if exists|i: int|
        0 <= i < n && (#[trigger] l.found@[i]).path@ == path && !l.found@[i].link && !(ignore.hidden && has_hidden_part(
            path,
        )) {
        let i = choose|i: int|
            0 <= i < n && (#[trigger] l.found@[i]).path@ == path && !l.found@[i].link && !(ignore.hidden
                && has_hidden_part(path));
        assert(s[i].path == path);
    }
    let all = l.paths(ignore);
    if all.contains(path) {
        let i = choose|i: int| 0 <= i < all.len() && all[i] == path;
        assert(whole[i] == path);
    }
}

proof fn lemma_hidden(p: Seq<char>)
    ensures
        hidden_path(p) == has_hidden_part(p),
{
    if p.len() > 0 && p[0] == '.' {
        assert(0 <= 0 < p.len() && p[0] == '.');
    }
}

proof fn lemma_kept_len(s: Seq<Found<Seq<char>>>, hidden: bool, k: int)
    requires
        0 <= k,
    ensures
        kept(s, hidden, k).len() <= k,
    decreases k,
{
    if k > 0 {
        lemma_kept_len(s, hidden, k - 1);
    }
}

/// A walk over directories takes files and goes into directories; it passes
/// over links, over names with a dot in front where hidden ones are filtered,
/// and over directories of build results where the version control system's
/// rules count.
pub proof fn law_walk(name: Seq<char>, kind: EntryKind, ignore: IgnoreOpts)
    ensures
        ({
            let r = entry_rule(name, kind, ignore);
            let built = name == "target"@ || name == "node_modules"@ || name == "dist"@ || name == "build"@;
            let skipped = (ignore.hidden && name.len() > 0 && name[0] == '.') || (ignore.vcs && built);
            &&& skipped ==> r is Skip
            &&& !skipped && kind is File ==> r is Take
            &&& !skipped && kind is Dir ==> r is Descend
            &&& kind is Symlink || kind is Other ==> r is Skip
        }),
{
}

} // verus!
