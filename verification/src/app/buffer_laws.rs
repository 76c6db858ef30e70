//! What going from buffer to buffer promises: which one is shown, which ones
//! are remembered and in what state they sleep.
use vstd::prelude::*;
use crate::app::buffers::{
    asleep,
    law_stash,
    law_without,
    latest_other,
    neighbour,
    place_of,
    without_first,
    without_ref,
    RefView,
    Sleepers,
};
use crate::app::input::{shown_below, PickerFacts};
use crate::app::Desk;
use crate::buffer_ref::BufferRef;
use crate::editor::{Cursor, Doc};
use crate::text::{opt_str, split, text_of};

verus! {

/// The list of the buffers without one: the others, in their order.
pub proof fn law_leaving_one_out(s: Seq<RefView>, r: RefView, x: RefView, y: RefView)
    requires
        x != r,
        y != r,
    ensures
        !without_ref(s, r).contains(r),
        without_ref(s.push(r), r) == without_ref(s, r),
        without_ref(s.push(x), r) == without_ref(s, r).push(x),
        !s.contains(r) ==> without_ref(s, r) == s,
        without_ref(Seq::<RefView>::empty(), r).len() == 0,
{
    crate::app::buffers::law_without_ref(s, r);
    assert(s.push(r).drop_last() =~= s);
    assert(s.push(x).drop_last() =~= s);
    lemma_without_absent(s, r);
}

proof fn lemma_without_absent(s: Seq<RefView>, r: RefView)
    ensures
        !s.contains(r) ==> without_ref(s, r) == s,
    decreases s.len(),
{
    if s.len() > 0 && !s.contains(r) {
        assert(s[s.len() - 1] != r);
        assert(!s.drop_last().contains(r)) by {
            if s.drop_last().contains(r) {
                let i = choose|i: int| 0 <= i < s.drop_last().len() && s.drop_last()[i] == r;
                assert(s[i] == r);
            }
        }
        lemma_without_absent(s.drop_last(), r);
        assert(s.drop_last().push(s.last()) =~= s);
    }
}

/// A buffer that is opened is the latest of the list, in which it stands once;
/// the others stay in their order, and of more than sixty-four the oldest are
/// dropped, together with what sleeps of them.
pub proof fn law_opened_is_the_latest(desk: Desk, r: RefView)
    ensures
        ({
            let e = desk.opened_now(r);
            let others = without_ref(desk.opened, r);
            let n = others.len() as int;
            &&& n < 64 ==> e.opened == others.push(r) && e.sleeping == desk.sleeping
            &&& n >= 64 ==> e.opened == others.skip(n - 63).push(r)
            &&& forall|i: int| 0 <= i < n - 63 ==> asleep(e.sleeping, #[trigger] others[i]) is None
            &&& e.doc == desk.doc
            &&& e.mode == desk.mode
        }),
{
    reveal(Desk::opened_now);
    let others = without_ref(desk.opened, r);
    let n = others.len() as int;
    let list = others.push(r);
    if n >= 64 {
        assert(list.skip(n - 63) =~= others.skip(n - 63).push(r));
        lemma_dropped(desk.sleeping, list, n - 63);
        assert forall|i: int| 0 <= i < n - 63 implies asleep(
            desk.opened_now(r).sleeping,
            #[trigger] others[i],
        ) is None by {
            assert(list[i] == others[i]);
        }
    } else {
        assert(list.skip(0) =~= list);
        assert(without_first(desk.sleeping, list, 0) == desk.sleeping);
    }
}

proof fn lemma_dropped(s: Sleepers, opened: Seq<RefView>, k: int)
    requires
        0 <= k <= opened.len(),
    ensures
        forall|i: int| 0 <= i < k ==> asleep(without_first(s, opened, k), #[trigger] opened[i]) is None,
    decreases k,
{
    if k > 0 {
        lemma_dropped(s, opened, k - 1);
        let t = without_first(s, opened, k - 1);
        assert forall|i: int| 0 <= i < k implies asleep(without_first(s, opened, k), #[trigger] opened[i]) is None by {
            law_without(t, opened[k - 1], opened[i]);
        }
    }
}

/// A sleeping buffer is found under its own name only.
pub proof fn law_found_asleep(s: Sleepers, r: RefView, d: Doc, other: RefView)
    requires
        other != r,
    ensures
        asleep(s.push((r, d)), r) == Some(d),
        asleep(s.push((r, d)), other) == asleep(s, other),
        asleep(Seq::<(RefView, Doc)>::empty(), r) is None,
{
    assert(s.push((r, d)).drop_last() =~= s);
}

/// Showing another buffer shows that one, and lays the one that was shown down
/// under its own name: with its text, its cursor and its history.
#[verifier::rlimit(60)]
pub proof fn law_switching(desk: Desk, current: RefView, key: RefView, doc: Doc, path: Seq<char>, is_new: bool)
    requires
        current != key,
        without_ref(desk.opened, key).len() < 64,
    ensures
        ({
            let e = desk.loaded(current, key, doc, path, is_new);
            let f = desk.restored(current, key, doc, path);
            &&& e.doc == doc
            &&& e.opened.last() == key
            &&& asleep(e.sleeping, key) is None
            &&& f.doc == doc
            &&& f.opened.last() == key
            &&& asleep(f.sleeping, key) is None
            &&& asleep(e.sleeping, current) matches Some(d) && d == (Doc { tokens: Seq::empty(), ..desk.doc })
            &&& asleep(f.sleeping, current) matches Some(d) && d == (Doc { tokens: Seq::empty(), ..desk.doc })
            &&& e.said.0 is Info
            &&& e.mode == desk.mode
            &&& e.query == desk.query
        }),
{
    reveal(Desk::opened_now);
    law_stash(desk, current, doc, key);
    let a = desk.stashed(current, doc);
    law_without(a.sleeping, key, current);
    law_opened_is_the_latest(a.woken(key), key);
    let b = desk.woken(key);
    law_without(desk.sleeping, key, current);
    law_stash(b, current, doc, key);
    law_opened_is_the_latest(b.stashed(current, doc), key);
}

/// The scratch buffer is shown as it was left, or empty the first time. Where it
/// is shown already nothing happens.
pub proof fn law_scratch(desk: Desk, current: RefView)
    ensures
        desk.doc.path is None ==> desk.to_scratch(current) == desk,
        desk.doc.path is Some ==> ({
            let e = desk.to_scratch(current);
            &&& e.opened.last() is Scratch
            &&& match asleep(desk.sleeping, BufferRef::Scratch) {
                Some(d) => e.doc == d,
                None => e.doc.text == seq![Seq::<char>::empty()] && e.doc.path is None && !e.doc.dirty
                    && e.doc.undo.len() == 0,
            }
        }),
{
    reveal(Desk::opened_now);
}

/// The buffer of a file holds the lines of its text and has nothing to save;
/// that of a file which does not exist is empty.
pub proof fn law_file_buffer(path: Seq<char>, text: Seq<char>)
    ensures
        ({
            let d = crate::app::buffers::file_doc(path, Some(text));
            let n = crate::app::buffers::file_doc(path, None);
            &&& d.text == split(text)
            &&& d.path == Some(path)
            &&& d.cursor == (Cursor { row: 0, col: 0 })
            &&& !d.dirty
            &&& d.undo.len() == 0
            &&& n.text == seq![Seq::<char>::empty()]
            &&& n.path == Some(path)
            &&& !n.dirty
        }),
{
}

/// The buffer after another in the list is the next entry, and after the last
/// the first; before it, the other way round. One step forward and one back
/// lead to the same buffer.
pub proof fn law_cycling(s: Seq<RefView>, i: int)
    requires
        0 <= i < s.len(),
        forall|a: int, b: int| 0 <= a < b < s.len() ==> s[a] != s[b],
    ensures
        neighbour(s, s[i], true) == if i + 1 < s.len() {
            s[i + 1]
        } else {
            s[0]
        },
        neighbour(s, s[i], false) == if i > 0 {
            s[i - 1]
        } else {
            s[s.len() - 1]
        },
        neighbour(s, neighbour(s, s[i], true), false) == s[i],
        neighbour(s, neighbour(s, s[i], false), true) == s[i],
{
    let n = s.len() as int;
    lemma_steps(s, i);
    if i + 1 < n {
        lemma_steps(s, i + 1);
    } else {
        lemma_steps(s, 0);
    }
    if i > 0 {
        lemma_steps(s, i - 1);
    } else {
        lemma_steps(s, n - 1);
    }
}

proof fn lemma_steps(s: Seq<RefView>, i: int)
    requires
        0 <= i < s.len(),
        forall|a: int, b: int| 0 <= a < b < s.len() ==> s[a] != s[b],
    ensures
        neighbour(s, s[i], true) == if i + 1 < s.len() {
            s[i + 1]
        } else {
            s[0]
        },
        neighbour(s, s[i], false) == if i > 0 {
            s[i - 1]
        } else {
            s[s.len() - 1]
        },
{
    let n = s.len() as int;
    lemma_place_of(s, s[i], 0, i);
    if i + 1 < n {
        assert((i + 1) % n == i + 1) by (nonlinear_arith)
            requires
                0 <= i,
                i + 1 < n,
        ;
    } else {
        assert(n % n == 0) by (nonlinear_arith)
            requires
                n > 0,
        ;
    }
    if i > 0 {
        assert((i + n - 1) % n == i - 1) by (nonlinear_arith)
            requires
                0 < i < n,
        ;
    } else {
        assert((n - 1) % n == n - 1) by (nonlinear_arith)
            requires
                n > 0,
        ;
    }
}

proof fn lemma_place_of(s: Seq<RefView>, r: RefView, k: int, i: int)
    requires
        0 <= k <= i < s.len(),
        s[i] == r,
        forall|a: int| k <= a < i ==> s[a] != r,
    ensures
        place_of(s, r, k) == i,
    decreases i - k,
{
    if k < i {
        lemma_place_of(s, r, k + 1, i);
    }
}

/// The latest other buffer is the last entry of the list that is not the given
/// one; there is none only where there is no other entry.
pub proof fn law_latest_other(s: Seq<RefView>, r: RefView, k: int)
    requires
        0 <= k <= s.len(),
    ensures
        match latest_other(s, r, k) {
            Some(x) => x != r && exists|i: int|
                0 <= i < k && #[trigger] s[i] == x && forall|j: int| i < j < k ==> #[trigger] s[j] == r,
            None => forall|j: int| 0 <= j < k ==> #[trigger] s[j] == r,
        },
    decreases k,
{
    if k > 0 {
        if s[k - 1] == r {
            law_latest_other(s, r, k - 1);
            if let Some(x) = latest_other(s, r, k - 1) {
                let i = choose|i: int|
                    0 <= i < k - 1 && #[trigger] s[i] == x && forall|j: int| i < j < k - 1 ==> #[trigger] s[j] == r;
                assert(s[i] == x && forall|j: int| i < j < k ==> #[trigger] s[j] == r);
            }
        } else {
            assert(s[k - 1] == s[k - 1] && forall|j: int| k - 1 < j < k ==> #[trigger] s[j] == r);
        }
    }
}

/// A deleted buffer is gone from the list and from the sleepers, and the latest
/// other one is shown: awake where it slept, and else to be read from its file.
#[verifier::rlimit(60)]
pub proof fn law_deleting(desk: Desk, current: RefView)
    requires
        without_ref(desk.opened, current).len() < 64,
    ensures
        ({
            let (e, load) = desk.deleted(current);
            &&& match latest_other(desk.opened, current, desk.opened.len() as int) {
                Some(BufferRef::File(p)) => {
                    let key = BufferRef::File(p);
                    if asleep(desk.sleeping, key) is Some {
                        e.doc == asleep(desk.sleeping, key)->0 && load is None && e.opened.last() == key && asleep(
                            e.sleeping,
                            key,
                        ) is None
                    } else {
                        load == Some(p)
                    }
                },
                Some(BufferRef::Scratch) => load is None && e.opened.last() is Scratch && (asleep(
                    desk.sleeping,
                    BufferRef::Scratch,
                ) matches Some(d) ==> e.doc == d),
                None => load is None && e.opened.last() is Scratch && e.doc.text == seq![Seq::<char>::empty()]
                    && e.doc.path is None,
            }
            &&& latest_other(desk.opened, current, desk.opened.len() as int) is Some ==> !e.opened.contains(current)
                && asleep(e.sleeping, current) is None
        }),
{
    reveal(Desk::opened_now);
    reveal(Desk::dropped);
    reveal(Desk::replaced);
    let n = desk.opened.len() as int;
    law_latest_other(desk.opened, current, n);
    let d = desk.dropped(current);
    crate::app::buffers::law_without_ref(desk.opened, current);
    match latest_other(desk.opened, current, n) {
        None => {},
        Some(key) => {
            law_without(desk.sleeping, current, key);
            law_without(d.sleeping, key, current);
            crate::app::buffers::law_without_ref(d.opened, key);
            let w = d.woken(key);
            law_opened_is_the_latest(w, key);
            assert(!without_ref(d.opened, key).contains(current));
            let list = without_ref(d.opened, key).push(key);
            assert(!list.contains(current)) by {
                if list.contains(current) {
                    let i = choose|i: int| 0 <= i < list.len() && list[i] == current;
                    assert(i < list.len() - 1);
                    assert(without_ref(d.opened, key)[i] == current);
                }
            }
            assert(list.skip(0) =~= list);
            lemma_without_len(d.opened, key);
        },
    }
}

proof fn lemma_without_len(s: Seq<RefView>, r: RefView)
    ensures
        without_ref(s, r).len() <= s.len(),
{
    crate::app::buffers::law_without_ref(s, r);
}

/// The picker lists the buffers from the latest to the oldest. A line shows
/// with a percent sign that it is the one that is shown, with a tilde that it
/// differs from the version control system's, with a plus sign that it has
/// unsaved changes, and then its name.
pub proof fn law_picker_lines(desk: Desk, facts: PickerFacts, i: int)
    requires
        0 <= i < desk.opened.len(),
    ensures
        ({
            let lines = desk.picker_lines(facts);
            let r = desk.opened[desk.opened.len() - 1 - i];
            let current = opt_str(facts.current_path);
            let shown = match r {
                BufferRef::Scratch => desk.doc.path is None,
                BufferRef::File(p) => current == Some(p),
            };
            let unsaved = if shown {
                desk.doc.dirty
            } else {
                asleep(desk.sleeping, r) matches Some(d) && d.dirty
            };
            let changed = match r {
                BufferRef::Scratch => false,
                BufferRef::File(p) => if shown {
                    facts.active_changed
                } else {
                    text_of(facts.changed@).contains(p) || unsaved
                },
            };
            &&& lines.len() == desk.opened.len()
            &&& lines[i].len() >= 4
            &&& lines[i][0] == if shown {
                '%'
            } else {
                ' '
            }
            &&& lines[i][1] == if changed {
                '~'
            } else {
                ' '
            }
            &&& lines[i][2] == if unsaved {
                '+'
            } else {
                ' '
            }
            &&& lines[i][3] == ' '
            &&& lines[i].skip(4) == match r {
                BufferRef::Scratch => "[scratch]"@,
                BufferRef::File(p) => shown_below(desk.cwd, p),
            }
        }),
{
    let r = desk.opened[desk.opened.len() - 1 - i];
    let line = desk.picker_line(r, facts);
    assert(desk.picker_lines(facts)[i] == line);
    assert(line.skip(4) =~= match r {
        BufferRef::Scratch => "[scratch]"@,
        BufferRef::File(p) => shown_below(desk.cwd, p),
    });
}

/// A path below a directory is shown from there on, any other whole.
pub proof fn law_shown_below(dir: Seq<char>, rest: Seq<char>, path: Seq<char>)
    requires
        dir.len() > 0,
        dir.last() != '/',
    ensures
        shown_below(dir, dir + seq!['/'] + rest) == rest,
        shown_below(dir.push('/'), dir.push('/') + rest) == rest,
        !(dir.len() <= path.len() && path.take(dir.len() as int) == dir) ==> shown_below(dir, path) == path,
{
    let p = dir + seq!['/'] + rest;
    let n = dir.len() as int;
    assert(dir =~= p.subrange(0, n));
    assert(p.skip(n + 1) =~= rest);
    let d = dir.push('/');
    let q = d + rest;
    assert(d =~= q.subrange(0, d.len() as int));
    assert(q.skip(d.len() as int) =~= rest);
    if dir.is_prefix_of(path) {
        assert(path.take(n) =~= dir);
    }
}

} // verus!
