//! The picker's state: a query, the items it is matched against and the
//! ranked matches.
use vstd::prelude::*;
use crate::finder::listing::{hidden_path, law_listing, sort_strings, sorted_like, Found, Listing};
use crate::finder::score::{best_match, fuzzy_match};
use crate::keys::{KeyCode, KeyEvent};
use crate::text::{chars_of, copy_lines, slice_chars, push_slice, string_of, text_of};

verus! {

/// A picker lists at most this many matches.
pub const MATCH_CAP: usize = 500;

/// A file picker lists at most this many files.
pub const FILE_CAP: usize = 5000;

/// How deep below its root a file picker looks.
pub const DEPTH_CAP: usize = 12;

/// Filters of the file picker.
#[derive(Debug, Clone, Copy, PartialEq, Eq, Hash, Structural)]
pub struct IgnoreOpts {
    /// Honour the version control system's ignore rules.
    pub vcs: bool,
    /// Drop any path with a segment that starts with a dot.
    pub hidden: bool,
}

/// What a picker lists.
#[derive(Debug, Clone, Copy, PartialEq, Eq, Structural)]
pub enum FuzzyKind {
    Files { ignore: IgnoreOpts },
    Lines,
    Locations,
    Buffers,
}

/// An item that matches the query: its index, its score and the places of
/// the query's characters.
#[derive(Debug, Clone)]
pub struct MatchItem {
    pub idx: usize,
    pub score: i32,
    pub positions: Vec<usize>,
}

/// A match as the contracts see it.
#[verifier::ext_equal]
pub struct Hit {
    pub idx: int,
    pub score: int,
    pub positions: Seq<int>,
}

impl View for MatchItem {
    type V = Hit;

    open spec fn view(&self) -> Hit {
        Hit {
            idx: self.idx as int,
            score: self.score as int,
            positions: Seq::new(self.positions.len() as nat, |i: int| self.positions@[i] as int),
        }
    }
}

/// The views of a list of matches.
pub open spec fn hits_of(v: Seq<MatchItem>) -> Seq<Hit> {
    Seq::new(v.len(), |i: int| v[i]@)
}

/// Puts a match behind all those that score at least as high.
pub open spec fn rank_insert(s: Seq<Hit>, x: Hit) -> Seq<Hit>
    decreases s.len(),
{
    if s.len() == 0 || s.last().score >= x.score {
        s.push(x)
    } else {
        rank_insert(s.drop_last(), x).push(s.last())
    }
}

/// The matches among the first `k` items, best score first, and among equal
/// scores in the order of the items.
pub open spec fn ranked(items: Seq<Seq<char>>, query: Seq<char>, k: int) -> Seq<Hit>
    decreases k,
{
    if k <= 0 {
        Seq::empty()
    } else {
        match best_match(items[k - 1], query) {
            Some((score, positions)) => rank_insert(
                ranked(items, query, k - 1),
                Hit { idx: k - 1, score, positions },
            ),
            None => ranked(items, query, k - 1),
        }
    }
}

/// The matches a picker lists: all items in order while the query is empty,
/// the ranked matches otherwise; at most `MATCH_CAP` of them.
pub open spec fn listed(items: Seq<Seq<char>>, query: Seq<char>) -> Seq<Hit> {
    if query.len() == 0 {
        plain_hits(
            if items.len() <= MATCH_CAP {
                items.len()
            } else {
                MATCH_CAP as nat
            },
        )
    } else {
        capped(ranked(items, query, items.len() as int))
    }
}

/// The first `n` items as matches of an empty query.
pub open spec fn plain_hits(n: nat) -> Seq<Hit> {
    Seq::new(n, |i: int| Hit { idx: i, score: 0, positions: Seq::empty() })
}

/// The first `MATCH_CAP` matches.
pub open spec fn capped(s: Seq<Hit>) -> Seq<Hit> {
    if s.len() <= MATCH_CAP {
        s
    } else {
        s.take(MATCH_CAP as int)
    }
}

/// Better matches stand first, and among equal scores the earlier items.
pub open spec fn in_rank_order(s: Seq<Hit>) -> bool {
    forall|a: int, b: int|
        0 <= a < b < s.len() ==> (#[trigger] s[a]).score > (#[trigger] s[b]).score || (s[a].score == s[b].score
            && s[a].idx < s[b].idx)
}

proof fn lemma_rank_insert(s: Seq<Hit>, x: Hit)
    requires
        in_rank_order(s),
        forall|a: int| 0 <= a < s.len() ==> (#[trigger] s[a]).idx < x.idx,
    ensures
        in_rank_order(rank_insert(s, x)),
        rank_insert(s, x).len() == s.len() + 1,
        rank_insert(s, x).contains(x),
        forall|h: Hit| s.contains(h) ==> rank_insert(s, x).contains(h),
        forall|h: Hit| rank_insert(s, x).contains(h) ==> s.contains(h) || h == x,
    decreases s.len(),
{
    let r = rank_insert(s, x);
    if s.len() == 0 || s.last().score >= x.score {
        assert(r == s.push(x));
        assert(r[s.len() as int] == x);
        assert forall|h: Hit| s.contains(h) implies r.contains(h) by {
            let i = choose|i: int| 0 <= i < s.len() && s[i] == h;
            assert(r[i] == h);
        }
        assert forall|a: int, b: int| 0 <= a < b < r.len() implies r[a].score > r[b].score || (r[a].score == r[b].score
            && r[a].idx < r[b].idx) by {
            if b == s.len() && a < s.len() - 1 {
                assert(s[a].score > s[s.len() - 1].score || (s[a].score == s[s.len() - 1].score && s[a].idx
                    < s[s.len() - 1].idx));
            }
        }
    } else {
        let t = s.drop_last();
        lemma_rank_insert(t, x);
        let u = rank_insert(t, x);
        assert(r == u.push(s.last()));
        assert(u.contains(x));
        let i = choose|i: int| 0 <= i < u.len() && u[i] == x;
        assert(r[i] == x);
        assert(r[u.len() as int] == s.last());
        assert forall|h: Hit| s.contains(h) implies r.contains(h) by {
            let k = choose|k: int| 0 <= k < s.len() && s[k] == h;
            if k < s.len() - 1 {
                assert(t[k] == h);
                assert(t.contains(h));
                let q = choose|q: int| 0 <= q < u.len() && u[q] == h;
                assert(r[q] == h);
            }
        }
        assert forall|h: Hit| r.contains(h) implies s.contains(h) || h == x by {
            let k = choose|k: int| 0 <= k < r.len() && r[k] == h;
            if k < u.len() {
                assert(u[k] == h);
                assert(u.contains(h));
                if h != x {
                    assert(t.contains(h));
                    let q = choose|q: int| 0 <= q < t.len() && t[q] == h;
                    assert(s[q] == h);
                }
            } else {
                assert(s[s.len() - 1] == h);
            }
        }
        assert forall|a: int, b: int| 0 <= a < b < r.len() implies r[a].score > r[b].score || (r[a].score == r[b].score
            && r[a].idx < r[b].idx) by {
            if b == u.len() {
                assert(u.contains(u[a]));
                if u[a] != x {
                    assert(t.contains(u[a]));
                    let q = choose|q: int| 0 <= q < t.len() && t[q] == u[a];
                    assert(s[q] == t[q]);
                    assert(s[q].score > s[s.len() - 1].score || (s[q].score == s[s.len() - 1].score && s[q].idx
                        < s[s.len() - 1].idx));
                }
            }
        }
    }
}

/// The ranking holds a match for exactly those items that the query matches,
/// once each, best first and among equals in item order.
pub proof fn law_ranked(items: Seq<Seq<char>>, query: Seq<char>, k: int)
    requires
        0 <= k <= items.len(),
    ensures
        in_rank_order(ranked(items, query, k)),
        forall|h: Hit|
            ranked(items, query, k).contains(h) <==> 0 <= h.idx < k && best_match(items[h.idx], query) == Some(
                (h.score, h.positions),
            ),
    decreases k,
{
    if k > 0 {
        law_ranked(items, query, k - 1);
        let s = ranked(items, query, k - 1);
        assert forall|a: int| 0 <= a < s.len() implies (#[trigger] s[a]).idx < k - 1 by {
            assert(s.contains(s[a]));
        }
        match best_match(items[k - 1], query) {
            Some((score, positions)) => {
                let x = Hit { idx: k - 1, score, positions };
                lemma_rank_insert(s, x);
                let r = ranked(items, query, k);
                assert(r == rank_insert(s, x));
                assert forall|h: Hit|
                    r.contains(h) <==> 0 <= h.idx < k && best_match(items[h.idx], query) == Some(
                        (h.score, h.positions),
                    ) by {
                    if r.contains(h) {
                        assert(s.contains(h) || h == x);
                    }
                    if 0 <= h.idx < k && best_match(items[h.idx], query) == Some((h.score, h.positions)) {
                        if h.idx == k - 1 {
                            assert(h =~= x);
                        } else {
                            assert(s.contains(h));
                        }
                    }
                }
            },
            None => {},
        }
    }
}

#[derive(Debug)]
pub struct Finder {
    pub kind: FuzzyKind,
    pub query: String,
    /// Where the next typed character goes: an index into the query's
    /// characters.
    pub cursor: usize,
    pub items: Vec<String>,
    pub matches: Vec<MatchItem>,
    pub selected: usize,
}

impl Finder {
    /// The list is the one the query asks for, and the insertion point lies
    /// within the query.
    pub open spec fn wf(self) -> bool {
        &&& hits_of(self.matches@) == listed(text_of(self.items@), self.query@)
        &&& self.cursor <= self.query@.len()
        &&& self.selected < self.matches.len() || self.selected == 0
    }

    /// A picker whose query is empty.
    pub open spec fn fresh(self, kind: FuzzyKind, items: Seq<Seq<char>>) -> bool {
        &&& self.wf()
        &&& self.kind == kind
        &&& self.query@.len() == 0
        &&& self.cursor == 0
        &&& text_of(self.items@) == items
        &&& self.selected == 0
    }

    /// What typing a character at the end of the query comes to.
    pub open spec fn pushed(self, c: char, after: Finder) -> bool {
        &&& after.query@ == self.query@.push(c)
        &&& after.cursor == self.query@.len() + 1
        &&& after.kind == self.kind
        &&& after.items == self.items
        &&& after.selected == 0
        &&& after.wf()
    }

    /// What taking away the query's last character comes to.
    pub open spec fn popped(self, after: Finder) -> bool {
        &&& after.query@ == if self.query@.len() == 0 {
            self.query@
        } else {
            self.query@.drop_last()
        }
        &&& after.cursor == after.query@.len()
        &&& after.kind == self.kind
        &&& after.items == self.items
        &&& after.selected == 0
        &&& after.wf()
    }

    fn start(kind: FuzzyKind, items: Vec<String>) -> (r: Finder)
        ensures
            r.fresh(kind, text_of(items@)),
    {
        let mut f = Finder { kind, query: String::new(), cursor: 0, items, matches: Vec::new(), selected: 0 };
        f.refilter();
        f
    }

    /// A picker over the files that a listing shows, in the order of their
    /// names.
    pub fn files(listing: &Listing, ignore: IgnoreOpts) -> (r: Finder)
        ensures
            sorted_like(text_of(r.items@), listing.paths(ignore)),
            r.fresh(FuzzyKind::Files { ignore }, text_of(r.items@)),
            forall|i: int|
                0 <= i < r.items@.len() ==> {
                    &&& ignore.hidden ==> !hidden_path((#[trigger] r.items@[i])@)
                    &&& exists|k: int|
                        0 <= k < listing.found@.len() && (#[trigger] listing.found@[k])@ == (Found {
                            path: r.items@[i]@,
                            link: false,
                        })
                },
    {
        let items = sort_strings(listing.select(ignore));
        let r = Finder::start(FuzzyKind::Files { ignore }, items);
        proof {
            let t = text_of(r.items@);
            assert forall|i: int| 0 <= i < r.items@.len() implies {
                &&& ignore.hidden ==> !hidden_path((#[trigger] r.items@[i])@)
                &&& exists|k: int|
                    0 <= k < listing.found@.len() && (#[trigger] listing.found@[k])@ == (Found {
                        path: r.items@[i]@,
                        link: false,
                    })
            } by {
                assert(t[i] == r.items@[i]@);
                law_listing(*listing, ignore, t, i);
            }
        }
        r
    }

    /// A picker over the lines of a buffer.
    pub fn lines(buffer_lines: &Vec<String>) -> (r: Finder)
        ensures
            r.fresh(FuzzyKind::Lines, text_of(buffer_lines@)),
    {
        let items = copy_lines(buffer_lines);
        Finder::start(FuzzyKind::Lines, items)
    }

    /// A picker over open buffers, by their display strings.
    pub fn buffers(items: Vec<String>) -> (r: Finder)
        ensures
            r.fresh(FuzzyKind::Buffers, text_of(items@)),
    {
        Finder::start(FuzzyKind::Buffers, items)
    }

    /// A picker over places in files, by their display strings.
    pub fn locations(items: Vec<String>) -> (r: Finder)
        ensures
            r.fresh(FuzzyKind::Locations, text_of(items@)),
    {
        Finder::start(FuzzyKind::Locations, items)
    }

    /// The number of characters of the query.
    pub fn char_len(&self) -> (r: usize)
        ensures
            r == self.query@.len(),
    {
        chars_of(self.query.as_str()).len()
    }

    /// Matches the items against the query anew and selects the first match.
    pub fn refilter(&mut self)
        ensures
            *final(self) == (Finder { matches: final(self).matches, selected: 0, ..*old(self) }),
            hits_of(final(self).matches@) == listed(text_of(old(self).items@), old(self).query@),
    {
        let q = chars_of(self.query.as_str());
        let mut out: Vec<MatchItem> = Vec::new();
        let n = self.items.len();
        if q.len() == 0 {
            let mut i: usize = 0;
            while i < n && i < MATCH_CAP
                invariant
                    i <= n,
                    i <= MATCH_CAP,
                    hits_of(out@) == plain_hits(i as nat),
                decreases n - i,
            {
                let m = MatchItem { idx: i, score: 0, positions: Vec::new() };
                proof {
                    assert(m@ =~= Hit { idx: i as int, score: 0, positions: Seq::empty() });
                }
                let ghost before = hits_of(out@);
                out.push(m);
                i = i + 1;
                proof {
                    assert(hits_of(out@) =~= before.push(m@));
                    assert(plain_hits(i as nat) =~= plain_hits((i - 1) as nat).push(m@));
                    assert(hits_of(out@) =~= plain_hits(i as nat));
                }
            }
            proof {
                assert(hits_of(out@) =~= listed(text_of(self.items@), self.query@));
            }
        } else {
            let mut i: usize = 0;
            while i < n
                invariant
                    i <= n,
                    n == self.items.len(),
                    *self == *old(self),
                    hits_of(out@) == ranked(text_of(self.items@), self.query@, i as int),
                decreases n - i,
            {
                proof {
                    assert(text_of(self.items@)[i as int] == self.items@[i as int]@);
                }
                match fuzzy_match(self.items[i].as_str(), self.query.as_str()) {
                    Some((score, positions)) => {
                        let m = MatchItem { idx: i, score, positions };
                        proof {
                            let (t, qs) = best_match(self.items@[i as int]@, self.query@)->0;
                            assert(m@.positions =~= qs);
                        }
                        insert_ranked(&mut out, m);
                    },
                    None => {},
                }
                i = i + 1;
            }
            if out.len() > MATCH_CAP {
                let ghost full = out@;
                out.truncate(MATCH_CAP);
                proof {
                    assert(hits_of(out@) =~= hits_of(full).take(MATCH_CAP as int));
                }
            }
        }
        self.matches = out;
        self.selected = 0;
    }

    /// Types a character at the insertion point.
    pub fn insert(&mut self, c: char)
        requires
            old(self).cursor <= old(self).query@.len(),
        ensures
            final(self).query@ == old(self).query@.insert(old(self).cursor as int, c),
            final(self).cursor == old(self).cursor + 1,
            final(self).kind == old(self).kind,
            final(self).items == old(self).items,
            final(self).selected == 0,
            final(self).wf(),
    {
        let q = chars_of(self.query.as_str());
        let mut out = slice_chars(&q, 0, self.cursor);
        out.push(c);
        push_slice(&mut out, &q, self.cursor, q.len());
        proof {
            assert(out@ =~= old(self).query@.insert(old(self).cursor as int, c));
        }
        self.query = string_of(&out);
        let len = out.len();
        assert(self.cursor < len);
        self.cursor = self.cursor + 1;
        self.refilter();
    }

    /// Removes the character before the insertion point.
    pub fn backspace(&mut self)
        requires
            old(self).cursor <= old(self).query@.len(),
        ensures
            old(self).cursor == 0 ==> *final(self) == *old(self),
            old(self).cursor > 0 ==> {
                &&& final(self).query@ == old(self).query@.remove(old(self).cursor - 1)
                &&& final(self).cursor == old(self).cursor - 1
                &&& final(self).kind == old(self).kind
                &&& final(self).items == old(self).items
                &&& final(self).selected == 0
                &&& final(self).wf()
            },
    {
        if self.cursor == 0 {
            return;
        }
        let q = chars_of(self.query.as_str());
        let mut out = slice_chars(&q, 0, self.cursor - 1);
        push_slice(&mut out, &q, self.cursor, q.len());
        proof {
            assert(out@ =~= old(self).query@.remove(old(self).cursor - 1));
        }
        self.query = string_of(&out);
        self.cursor = self.cursor - 1;
        self.refilter();
    }

    /// Removes the character at the insertion point.
    pub fn delete(&mut self)
        requires
            old(self).cursor <= old(self).query@.len(),
        ensures
            old(self).cursor >= old(self).query@.len() ==> *final(self) == *old(self),
            old(self).cursor < old(self).query@.len() ==> {
                &&& final(self).query@ == old(self).query@.remove(old(self).cursor as int)
                &&& final(self).cursor == old(self).cursor
                &&& final(self).kind == old(self).kind
                &&& final(self).items == old(self).items
                &&& final(self).selected == 0
                &&& final(self).wf()
            },
    {
        let q = chars_of(self.query.as_str());
        if self.cursor >= q.len() {
            return;
        }
        let mut out = slice_chars(&q, 0, self.cursor);
        push_slice(&mut out, &q, self.cursor + 1, q.len());
        proof {
            assert(out@ =~= old(self).query@.remove(old(self).cursor as int));
        }
        self.query = string_of(&out);
        self.refilter();
    }

    /// Adds a character at the end of the query.
    pub fn push(&mut self, c: char)
        ensures
            old(self).pushed(c, *final(self)),
    {
        self.cursor = self.char_len();
        self.insert(c);
        proof {
            let q = old(self).query@;
            assert(q.insert(q.len() as int, c) =~= q.push(c));
        }
    }

    /// Removes the last character of the query.
    pub fn pop(&mut self)
        ensures
            old(self).popped(*final(self)),
    {
        self.cursor = self.char_len();
        if self.cursor == 0 {
            self.refilter();
            return;
        }
        proof {
            let q = self.query@;
            assert(q.remove(q.len() - 1) =~= q.drop_last());
        }
        self.backspace();
    }

    /// Edits the query by one key press. Keys without a meaning for a line of
    /// text change nothing.
    pub fn apply_line_key(&mut self, key: KeyEvent)
        requires
            old(self).wf(),
        ensures
            final(self).wf(),
            final(self).kind == old(self).kind,
            final(self).items == old(self).items,
            (final(self).query@, final(self).cursor as int) == line_edit(
                old(self).query@,
                old(self).cursor as int,
                key,
            ),
            final(self).query@ == old(self).query@ ==> final(self).matches == old(self).matches
                && final(self).selected == old(self).selected,
            final(self).query@ != old(self).query@ ==> final(self).selected == 0,
    {
        let len = self.char_len();
        let ctrl = key.modifiers.control;
        match key.code {
            KeyCode::Left => {
                self.cursor = self.cursor.saturating_sub(1);
            },
            KeyCode::Right => {
                if self.cursor < len {
                    self.cursor = self.cursor + 1;
                }
            },
            KeyCode::Home => {
                self.cursor = 0;
            },
            KeyCode::End => {
                self.cursor = len;
            },
            KeyCode::Backspace => {
                proof {
                    if self.cursor > 0 {
                        let q = self.query@;
                        assert(q.remove(self.cursor - 1).len() != q.len());
                    }
                }
                self.backspace();
            },
            KeyCode::Delete => {
                proof {
                    if self.cursor < self.query@.len() {
                        let q = self.query@;
                        assert(q.remove(self.cursor as int).len() != q.len());
                    }
                }
                self.delete();
            },
            KeyCode::Char(c) => {
                if ctrl {
                    if c == 'b' {
                        self.cursor = self.cursor.saturating_sub(1);
                    } else if c == 'f' {
                        if self.cursor < len {
                            self.cursor = self.cursor + 1;
                        }
                    } else if c == 'a' {
                        self.cursor = 0;
                    } else if c == 'e' {
                        self.cursor = len;
                    }
                } else {
                    proof {
                        let q = self.query@;
                        assert(q.insert(self.cursor as int, c).len() != q.len());
                    }
                    self.insert(c);
                }
            },
            _ => {},
        }
    }

    /// Selects the next match, if there is one.
    pub fn next(&mut self)
        ensures
            *final(self) == (Finder { selected: final(self).selected, ..*old(self) }),
            old(self).matches.len() == 0 ==> final(self).selected == old(self).selected,
            old(self).matches.len() > 0 ==> final(self).selected == if old(self).selected + 1
                < old(self).matches.len() {
                old(self).selected + 1
            } else {
                old(self).matches.len() - 1
            },
    {
        if self.matches.len() > 0 {
            let last = self.matches.len() - 1;
            self.selected = if self.selected < last { self.selected + 1 } else { last };
        }
    }

    /// Selects the previous match, if there is one.
    pub fn prev(&mut self)
        ensures
            *final(self) == (Finder { selected: final(self).selected, ..*old(self) }),
            final(self).selected == if old(self).selected > 0 {
                old(self).selected - 1
            } else {
                0
            },
    {
        self.selected = self.selected.saturating_sub(1);
    }

    /// The match that is selected.
    pub fn selection(&self) -> (r: Option<&MatchItem>)
        ensures
            self.selected < self.matches.len() ==> r == Some(&self.matches@[self.selected as int]),
            self.selected >= self.matches.len() ==> r is None,
    {
        if self.selected < self.matches.len() {
            Some(&self.matches[self.selected])
        } else {
            None
        }
    }
}

/// A line of text and its insertion point after a key press.
pub open spec fn line_edit(q: Seq<char>, at: int, key: KeyEvent) -> (Seq<char>, int) {
    let back = if at > 0 {
        at - 1
    } else {
        0
    };
    let forth = if at < q.len() {
        at + 1
    } else {
        at
    };
    match key.code {
        KeyCode::Left => (q, back),
        KeyCode::Right => (q, forth),
        KeyCode::Home => (q, 0),
        KeyCode::End => (q, q.len() as int),
        KeyCode::Backspace => if at > 0 {
            (q.remove(at - 1), at - 1)
        } else {
            (q, at)
        },
        KeyCode::Delete => if at < q.len() {
            (q.remove(at), at)
        } else {
            (q, at)
        },
        KeyCode::Char(c) => if !key.modifiers.control {
            (q.insert(at, c), at + 1)
        } else if c == 'b' {
            (q, back)
        } else if c == 'f' {
            (q, forth)
        } else if c == 'a' {
            (q, 0)
        } else if c == 'e' {
            (q, q.len() as int)
        } else {
            (q, at)
        },
        _ => (q, at),
    }
}

/// Puts a match behind all those that score at least as high.
fn insert_ranked(out: &mut Vec<MatchItem>, m: MatchItem)
    ensures
        hits_of(final(out)@) == rank_insert(hits_of(old(out)@), m@),
{
    let mut at: usize = out.len();
    proof {
        assert(hits_of(out@).take(at as int) =~= hits_of(out@));
        assert(hits_of(out@).subrange(at as int, out@.len() as int) =~= Seq::<Hit>::empty());
        assert(rank_insert(hits_of(out@), m@) =~= rank_insert(hits_of(out@), m@) + Seq::<Hit>::empty());
    }
    while at > 0 && out[at - 1].score < m.score
        invariant
            at <= out.len(),
            *out == *old(out),
            rank_insert(hits_of(out@), m@) == rank_insert(hits_of(out@).take(at as int), m@) + hits_of(out@).subrange(
                at as int,
                out@.len() as int,
            ),
        decreases at,
    {
        proof {
            let h = hits_of(out@);
            let n = out@.len() as int;
            assert(h.take(at as int).drop_last() =~= h.take(at - 1));
            assert(h.take(at as int).last() == h[at - 1]);
            assert(rank_insert(h.take(at - 1), m@).push(h[at - 1]) + h.subrange(at as int, n) =~= rank_insert(
                h.take(at - 1),
                m@,
            ) + h.subrange(at - 1, n));
        }
        at = at - 1;
    }
    proof {
        let h = hits_of(out@);
        if at > 0 {
            assert(h.take(at as int).last() == h[at - 1]);
        }
        assert(rank_insert(h.take(at as int), m@) == h.take(at as int).push(m@));
    }
    out.insert(at, m);
    proof {
        let h = hits_of(old(out)@);
        assert(hits_of(out@) =~= h.take(at as int).push(m@) + h.subrange(at as int, h.len() as int));
    }
}

/// A character that is typed at the end of the query and taken away again
/// leaves the query, the items and the list as they were, with the first row
/// selected.
pub proof fn law_pop_undoes_push(before: Finder, c: char, pushed: Finder, popped: Finder)
    requires
        before.wf(),
        before.pushed(c, pushed),
        pushed.popped(popped),
    ensures
        popped.query@ == before.query@,
        popped.items == before.items,
        popped.kind == before.kind,
        hits_of(popped.matches@) == hits_of(before.matches@),
        popped.selected == 0,
{
    assert(before.query@.push(c).drop_last() =~= before.query@);
}

/// Taking a character away from an empty query leaves the query, the items and
/// the list as they are.
pub proof fn law_pop_of_nothing(before: Finder, popped: Finder)
    requires
        before.wf(),
        before.query@.len() == 0,
        before.popped(popped),
    ensures
        popped.query@ == before.query@,
        popped.items == before.items,
        hits_of(popped.matches@) == hits_of(before.matches@),
{
}

} // verus!
