//! What a file picker lists, and in what order.
use vstd::prelude::*;
use crate::finder::fuzzy::{DEPTH_CAP, FILE_CAP, IgnoreOpts};
use crate::text::{chars_of, same_str, text_of};

verus! {

/// Lexicographic order by code point.
pub open spec fn seq_le(a: Seq<char>, b: Seq<char>) -> bool
    decreases a.len(),
{
    if a.len() == 0 {
        true
    } else if b.len() == 0 {
        false
    } else if a[0] != b[0] {
        a[0] < b[0]
    } else {
        seq_le(a.drop_first(), b.drop_first())
    }
}

pub proof fn lemma_seq_le_total(a: Seq<char>, b: Seq<char>)
    ensures
        seq_le(a, b) || seq_le(b, a),
        seq_le(a, b) && seq_le(b, a) ==> a == b,
        seq_le(a, a),
    decreases a.len(),
{
    if a.len() > 0 {
        if b.len() > 0 {
            lemma_seq_le_total(a.drop_first(), b.drop_first());
            if a[0] == b[0] && a.drop_first() == b.drop_first() {
                assert(a =~= seq![a[0]] + a.drop_first());
                assert(b =~= seq![b[0]] + b.drop_first());
            }
        }
        lemma_seq_le_total(a.drop_first(), a.drop_first());
    } else {
        if b.len() == 0 {
            assert(a =~= b);
        }
    }
}

pub proof fn lemma_seq_le_trans(a: Seq<char>, b: Seq<char>, c: Seq<char>)
    requires
        seq_le(a, b),
        seq_le(b, c),
    ensures
        seq_le(a, c),
    decreases a.len(),
{
    if a.len() > 0 && b.len() > 0 && c.len() > 0 && a[0] == b[0] && b[0] == c[0] {
        lemma_seq_le_trans(a.drop_first(), b.drop_first(), c.drop_first());
    }
}

/// Whether each element is at most the next ones.
pub open spec fn sorted(s: Seq<Seq<char>>) -> bool {
    forall|i: int, k: int| 0 <= i < k < s.len() ==> seq_le(#[trigger] s[i], #[trigger] s[k])
}

/// `r` holds the elements of `s` in order.
pub open spec fn sorted_like(r: Seq<Seq<char>>, s: Seq<Seq<char>>) -> bool {
    sorted(r) && r.to_multiset() == s.to_multiset()
}

/// Compares two strings by code point.
pub fn str_le(a: &str, b: &str) -> (r: bool)
    ensures
        r == seq_le(a@, b@),
{
    let x = chars_of(a);
    let y = chars_of(b);
    let mut i: usize = 0;
    proof {
        assert(x@.skip(0) =~= x@);
        assert(y@.skip(0) =~= y@);
    }
    while i < x.len()
        invariant
            i <= x.len(),
            i <= y.len(),
            x@ == a@,
            y@ == b@,
            seq_le(a@, b@) == seq_le(x@.skip(i as int), y@.skip(i as int)),
        decreases x.len() - i,
    {
        if i >= y.len() {
            return false;
        }
        if x[i] != y[i] {
            return x[i] < y[i];
        }
        proof {
            assert(x@.skip(i as int).drop_first() =~= x@.skip(i + 1));
            assert(y@.skip(i as int).drop_first() =~= y@.skip(i + 1));
        }
        i = i + 1;
    }
    true
}

/// Sorts strings by code point.
pub fn sort_strings(items: Vec<String>) -> (r: Vec<String>)
    ensures
        sorted_like(text_of(r@), text_of(items@)),
{
    let mut out: Vec<String> = Vec::new();
    let mut i: usize = 0;
    proof {
        assert(text_of(out@) =~= text_of(items@).take(0));
    }
    while i < items.len()
        invariant
            i <= items.len(),
            sorted_like(text_of(out@), text_of(items@).take(i as int)),
        decreases items.len() - i,
    {
        insert_sorted(&mut out, items[i].clone());
        proof {
            let t = text_of(items@);
            assert(t.take(i + 1) =~= t.take(i as int).push(t[i as int]));
            assert(t.take(i + 1).drop_last() =~= t.take(i as int));
            broadcast use vstd::seq_lib::group_to_multiset_ensures;

            assert(t.take(i as int).push(t[i as int]).to_multiset() =~= t.take(i as int).to_multiset().insert(
                t[i as int],
            ));
        }
        i = i + 1;
    }
    proof {
        assert(text_of(items@).take(i as int) =~= text_of(items@));
    }
    out
}

/// Puts a string at its place among sorted ones.
fn insert_sorted(out: &mut Vec<String>, s: String)
    requires
        sorted(text_of(old(out)@)),
    ensures
        sorted(text_of(final(out)@)),
        text_of(final(out)@).to_multiset() == text_of(old(out)@).to_multiset().insert(s@),
{
    let mut lo: usize = 0;
    let mut hi: usize = out.len();
    while lo < hi
        invariant
            lo <= hi <= out.len(),
            *out == *old(out),
            sorted(text_of(out@)),
            forall|k: int| 0 <= k < lo ==> seq_le(#[trigger] text_of(out@)[k], s@),
            forall|k: int| hi <= k < out.len() ==> seq_le(s@, #[trigger] text_of(out@)[k]),
        decreases hi - lo,
    {
        let mid = lo + (hi - lo) / 2;
        proof {
            lemma_seq_le_total(out@[mid as int]@, s@);
            assert(text_of(out@)[mid as int] == out@[mid as int]@);
        }
        if str_le(out[mid].as_str(), s.as_str()) {
            proof {
                assert forall|k: int| 0 <= k < mid + 1 implies seq_le(#[trigger] text_of(out@)[k], s@) by {
                    if lo <= k < mid {
                        assert(seq_le(text_of(out@)[k], text_of(out@)[mid as int]));
                        lemma_seq_le_trans(text_of(out@)[k], text_of(out@)[mid as int], s@);
                    }
                }
            }
            lo = mid + 1;
        } else {
            proof {
                assert forall|k: int| mid <= k < out.len() implies seq_le(s@, #[trigger] text_of(out@)[k]) by {
                    if mid < k < hi {
                        assert(seq_le(text_of(out@)[mid as int], text_of(out@)[k]));
                        lemma_seq_le_trans(s@, text_of(out@)[mid as int], text_of(out@)[k]);
                    }
                }
            }
            hi = mid;
        }
    }
    let ghost sv = s@;
    out.insert(lo, s);
    proof {
        let t = text_of(old(out)@);
        let u = text_of(out@);
        assert(u =~= t.insert(lo as int, sv));
        broadcast use vstd::seq_lib::group_to_multiset_ensures;

        assert(u.to_multiset() =~= t.to_multiset().insert(sv));
        assert forall|i: int, k: int| 0 <= i < k < u.len() implies seq_le(#[trigger] u[i], #[trigger] u[k]) by {
            if k < lo {
                assert(seq_le(t[i], t[k]));
            } else if k == lo {
                assert(seq_le(t[i], sv));
            } else if i < lo {
                assert(seq_le(t[i], t[k - 1]));
            } else if i == lo {
                assert(seq_le(sv, t[k - 1]));
            } else {
                assert(seq_le(t[i - 1], t[k - 1]));
            }
        }
    }
}

/// Whether a path has a segment that starts with a dot.
pub open spec fn hidden_path(p: Seq<char>) -> bool {
    exists|i: int| 0 <= i < p.len() && #[trigger] p[i] == '.' && (i == 0 || p[i - 1] == '/')
}

/// Whether any segment of a relative path starts with a dot.
pub fn is_hidden_path(rel: &str) -> (r: bool)
    ensures
        r == hidden_path(rel@),
{
    let cs = chars_of(rel);
    let mut i: usize = 0;
    while i < cs.len()
        invariant
            i <= cs.len(),
            cs@ == rel@,
            forall|k: int| 0 <= k < i ==> !(#[trigger] cs@[k] == '.' && (k == 0 || cs@[k - 1] == '/')),
        decreases cs.len() - i,
    {
        if cs[i] == '.' && (i == 0 || cs[i - 1] == '/') {
            return true;
        }
        i = i + 1;
    }
    false
}

/// A file that was found: its path below the root, and whether it is a
/// symbolic link.
#[derive(Debug)]
pub struct Found<S = String> {
    pub path: S,
    pub link: bool,
}

impl View for Found {
    type V = Found<Seq<char>>;

    open spec fn view(&self) -> Found<Seq<char>> {
        Found { path: self.path@, link: self.link }
    }
}

pub open spec fn found_of(v: Seq<Found>) -> Seq<Found<Seq<char>>> {
    Seq::new(v.len(), |i: int| v[i]@)
}

/// The files below a directory: those that version control tracks, or those
/// that a walk found.
#[derive(Debug)]
pub struct Listing {
    pub found: Vec<Found>,
    /// Whether version control lists them.
    pub from_vcs: bool,
}

/// Whether a file is shown: symbolic links are not, nor are hidden files where
/// those are filtered.
pub open spec fn shows(f: Found<Seq<char>>, hidden: bool) -> bool {
    !f.link && !(hidden && hidden_path(f.path))
}

/// The paths of those of the first `k` files that are shown.
pub open spec fn kept(s: Seq<Found<Seq<char>>>, hidden: bool, k: int) -> Seq<Seq<char>>
    decreases k,
{
    if k <= 0 {
        Seq::empty()
    } else if shows(s[k - 1], hidden) {
        kept(s, hidden, k - 1).push(s[k - 1].path)
    } else {
        kept(s, hidden, k - 1)
    }
}

/// What is kept of the files found is shown, and all that is shown is kept.
pub proof fn law_kept(s: Seq<Found<Seq<char>>>, hidden: bool, k: int, path: Seq<char>)
    requires
        0 <= k <= s.len(),
    ensures
        kept(s, hidden, k).contains(path) <==> exists|i: int|
            0 <= i < k && (#[trigger] s[i]).path == path && shows(s[i], hidden),
    decreases k,
{
    if k > 0 {
        law_kept(s, hidden, k - 1, path);
        let front = kept(s, hidden, k - 1);
        let all = kept(s, hidden, k);
        if shows(s[k - 1], hidden) {
            assert(all[front.len() as int] == s[k - 1].path);
            if front.contains(path) {
                let q = choose|q: int| 0 <= q < front.len() && front[q] == path;
                assert(all[q] == path);
            }
            if all.contains(path) && s[k - 1].path != path {
                let q = choose|q: int| 0 <= q < all.len() && all[q] == path;
                assert(front[q] == path);
            }
        }
    }
}

impl Listing {
    /// The paths that a picker lists. Of the tracked files it lists `FILE_CAP`
    /// at most.
    pub open spec fn paths(self, ignore: IgnoreOpts) -> Seq<Seq<char>> {
        let all = kept(found_of(self.found@), ignore.hidden, self.found@.len() as int);
        if self.from_vcs && all.len() > FILE_CAP {
            all.take(FILE_CAP as int)
        } else {
            all
        }
    }

    /// The paths that a picker lists.
    pub fn select(&self, ignore: IgnoreOpts) -> (r: Vec<String>)
        ensures
            text_of(r@) == self.paths(ignore),
    {
        let ghost s = found_of(self.found@);
        let mut out: Vec<String> = Vec::new();
        let mut i: usize = 0;
        proof {
            assert(text_of(out@) =~= Seq::<Seq<char>>::empty());
        }
        while i < self.found.len()
            invariant
                i <= self.found.len(),
                s == found_of(self.found@),
                text_of(out@) == kept(s, ignore.hidden, i as int),
            decreases self.found.len() - i,
        {
            let f = &self.found[i];
            assert(s[i as int] == f@);
            if !f.link && !(ignore.hidden && is_hidden_path(f.path.as_str())) {
                let ghost before = text_of(out@);
                out.push(f.path.clone());
                proof {
                    assert(text_of(out@) =~= before.push(f.path@));
                }
            }
            i = i + 1;
        }
        if self.from_vcs && out.len() > FILE_CAP {
            let ghost full = text_of(out@);
            out.truncate(FILE_CAP);
            proof {
                assert(text_of(out@) =~= full.take(FILE_CAP as int));
            }
        }
        out
    }
}

/// What a picker lists is shown: no symbolic link, and no hidden file where
/// those are filtered.
pub proof fn law_listing(l: Listing, ignore: IgnoreOpts, items: Seq<Seq<char>>, i: int)
    requires
        sorted_like(items, l.paths(ignore)),
        0 <= i < items.len(),
    ensures
        ignore.hidden ==> !hidden_path(items[i]),
        exists|k: int| 0 <= k < l.found@.len() && (#[trigger] l.found@[k])@ == (Found { path: items[i], link: false }),
{
    broadcast use vstd::seq_lib::group_to_multiset_ensures;

    let s = found_of(l.found@);
    let all = kept(s, ignore.hidden, s.len() as int);
    let shown = l.paths(ignore);
    assert(items.contains(items[i]));
    assert(items.to_multiset().count(items[i]) > 0);
    assert(shown.contains(items[i]));
    let q = choose|q: int| 0 <= q < shown.len() && shown[q] == items[i];
    assert(all[q] == items[i]);
    law_kept(s, ignore.hidden, s.len() as int, items[i]);
    let k = choose|k: int| 0 <= k < s.len() && (#[trigger] s[k]).path == items[i] && shows(s[k], ignore.hidden);
    assert(l.found@[k]@ == s[k]);
}

/// What a directory entry is.
#[derive(Debug, Clone, Copy, PartialEq, Eq, Structural)]
pub enum EntryKind {
    File,
    Dir,
    Symlink,
    Other,
}

/// What the walk does with a directory entry.
#[derive(Debug, Clone, Copy, PartialEq, Eq, Structural)]
pub enum EntryAction {
    Skip,
    Descend,
    Take,
}

/// Directories that hold build results.
pub open spec fn build_dir(name: Seq<char>) -> bool {
    name == "target"@ || name == "node_modules"@ || name == "dist"@ || name == "build"@
}

/// What the walk does with an entry of the given name and kind.
pub open spec fn entry_rule(name: Seq<char>, kind: EntryKind, ignore: IgnoreOpts) -> EntryAction {
    if ignore.hidden && name.len() > 0 && name[0] == '.' {
        EntryAction::Skip
    } else if ignore.vcs && build_dir(name) {
        EntryAction::Skip
    } else {
        match kind {
            EntryKind::Dir => EntryAction::Descend,
            EntryKind::File => EntryAction::Take,
            EntryKind::Symlink => EntryAction::Skip,
            EntryKind::Other => EntryAction::Skip,
        }
    }
}

/// Decides on one entry of a directory. Symbolic links are never followed
/// nor listed.
pub fn entry_action(name: &str, kind: EntryKind, ignore: IgnoreOpts) -> (r: EntryAction)
    ensures
        r == entry_rule(name@, kind, ignore),
{
    let cs = chars_of(name);
    if ignore.hidden && cs.len() > 0 && cs[0] == '.' {
        return EntryAction::Skip;
    }
    if ignore.vcs && (same_str(name, "target") || same_str(name, "node_modules") || same_str(name, "dist")
        || same_str(name, "build")) {
        return EntryAction::Skip;
    }
    match kind {
        EntryKind::Dir => EntryAction::Descend,
        EntryKind::File => EntryAction::Take,
        EntryKind::Symlink => EntryAction::Skip,
        EntryKind::Other => EntryAction::Skip,
    }
}

/// Whether the walk reads a directory `depth` levels below the root when
/// `found` files are listed already.
pub fn walk_reads(depth: usize, found: usize) -> (r: bool)
    ensures
        r == (depth <= DEPTH_CAP && found < FILE_CAP),
{
    depth <= DEPTH_CAP && found < FILE_CAP
}

} // verus!
