//! The open buffers: which one is shown, which ones sleep, and the order in
//! which they were opened.
use vstd::prelude::*;
use crate::app::status::Level;
use crate::app::{refs_of, sleepers_of, sleepers_wf, App, Desk, MRU_CAP};
use crate::buffer_ref::BufferRef;
use crate::editor::{Buffer, Cursor, Doc};
use crate::text::{copy_str, opt_str, push_str, split};

verus! {

pub type RefView = BufferRef<Seq<char>>;

pub type Sleepers = Seq<(RefView, Doc)>;

/// A list of buffers without one of them.
pub open spec fn without_ref(s: Seq<RefView>, r: RefView) -> Seq<RefView>
    decreases s.len(),
{
    if s.len() == 0 {
        s
    } else {
        let t = without_ref(s.drop_last(), r);
        if s.last() == r {
            t
        } else {
            t.push(s.last())
        }
    }
}

/// The sleeping buffers without one of them.
pub open spec fn without(s: Sleepers, r: RefView) -> Sleepers
    decreases s.len(),
{
    if s.len() == 0 {
        s
    } else {
        let t = without(s.drop_last(), r);
        if s.last().0 == r {
            t
        } else {
            t.push(s.last())
        }
    }
}

/// The sleeping buffer that a reference names.
pub open spec fn asleep(s: Sleepers, r: RefView) -> Option<Doc>
    decreases s.len(),
{
    if s.len() == 0 {
        None
    } else if s.last().0 == r {
        Some(s.last().1)
    } else {
        asleep(s.drop_last(), r)
    }
}

/// A buffer as it goes to sleep: the tokens of its syntax tree are found anew
/// when it wakes.
pub open spec fn laid_down(d: Doc) -> Doc {
    Doc { tokens: Seq::empty(), ..d }
}

/// The document of an empty buffer without a path.
pub open spec fn blank_doc() -> Doc {
    Doc {
        text: seq![Seq::empty()],
        cursor: Cursor { row: 0, col: 0 },
        extra: Seq::empty(),
        path: None,
        dirty: false,
        yank: Seq::empty(),
        version: 0,
        scroll: 0,
        height: 0,
        visual_y: 0,
        undo: Seq::empty(),
        redo: Seq::empty(),
        tokens: Seq::empty(),
    }
}

/// The document of a file with the given text, or of one that is yet to be
/// written.
pub open spec fn file_doc(path: Seq<char>, text: Option<Seq<char>>) -> Doc {
    Doc {
        text: match text {
            Some(t) => split(t),
            None => seq![Seq::empty()],
        },
        path: Some(path),
        ..blank_doc()
    }
}

/// What switching to a buffer comes to: nothing, another buffer shown, or a
/// file that has to be opened.
#[derive(Debug)]
pub enum Switch {
    Stay,
    Done,
    Open(String),
}

/// The sleeping buffers without the first `k` of a list.
pub open spec fn without_first(s: Sleepers, opened: Seq<RefView>, k: int) -> Sleepers
    decreases k,
{
    if k <= 0 {
        s
    } else {
        without(without_first(s, opened, k - 1), opened[k - 1])
    }
}

impl Desk {
    /// Notes a buffer as the latest. The oldest fall off a long list, and
    /// what slept of them is lost.
    #[verifier::opaque]
    pub open spec fn opened_now(self, r: RefView) -> Desk {
        let list = without_ref(self.opened, r).push(r);
        let over = if list.len() > MRU_CAP {
            list.len() - MRU_CAP
        } else {
            0
        };
        Desk { opened: list.skip(over), sleeping: without_first(self.sleeping, list, over), ..self }
    }

    /// Lays the buffer that is shown down to sleep and shows another.
    pub open spec fn stashed(self, key: RefView, next: Doc) -> Desk {
        Desk { sleeping: without(self.sleeping, key).push((key, laid_down(self.doc))), doc: next, ..self }
    }

    /// Takes a sleeping buffer out.
    pub open spec fn woken(self, r: RefView) -> Desk {
        Desk { sleeping: without(self.sleeping, r), ..self }
    }

    /// Counts another opened buffer.
    pub open spec fn next_gen(self) -> Desk {
        Desk { gen: self.gen.wrapping_add(1), ..self }
    }

    /// The sleeping scratch buffer, or an empty one.
    pub open spec fn scratch_doc(self) -> Doc {
        match asleep(self.sleeping, BufferRef::Scratch) {
            Some(d) => d,
            None => blank_doc(),
        }
    }

    /// Shows the scratch buffer. Nothing happens where it is shown already.
    pub open spec fn to_scratch(self, current: RefView) -> Desk {
        if self.doc.path is None {
            self
        } else {
            self.woken(BufferRef::Scratch).stashed(current, self.scratch_doc()).next_gen().opened_now(
                BufferRef::Scratch,
            ).saying(Level::Info, "scratch"@)
        }
    }

    /// Shows a sleeping buffer again.
    pub open spec fn restored(self, current: RefView, key: RefView, doc: Doc, path: Seq<char>) -> Desk {
        self.woken(key).stashed(current, doc).opened_now(key).next_gen().saying(Level::Info, "restored "@ + path)
    }

    /// Shows a buffer that was read from its file, or that starts a new one.
    pub open spec fn loaded(self, current: RefView, key: RefView, doc: Doc, path: Seq<char>, is_new: bool) -> Desk {
        self.stashed(current, doc).woken(key).opened_now(key).next_gen().saying(
            Level::Info,
            if is_new {
                path + " [new file]"@
            } else {
                "opened "@ + path
            },
        )
    }
}

/// Where the first entry for a buffer stands in a list; the start where there
/// is none.
pub open spec fn place_of(s: Seq<RefView>, r: RefView, i: int) -> int
    decreases s.len() - i,
{
    if i < 0 || i >= s.len() {
        0
    } else if s[i] == r {
        i
    } else {
        place_of(s, r, i + 1)
    }
}

/// The buffer after or before another one in the list, round its ends.
pub open spec fn neighbour(s: Seq<RefView>, r: RefView, forward: bool) -> RefView {
    let n = s.len() as int;
    let i = place_of(s, r, 0);
    if forward {
        s[(i + 1) % n]
    } else {
        s[(i + n - 1) % n]
    }
}

/// The latest buffer among the first `k` that is not the given one.
pub open spec fn latest_other(s: Seq<RefView>, r: RefView, k: int) -> Option<RefView>
    decreases k,
{
    if k <= 0 {
        None
    } else if s[k - 1] != r {
        Some(s[k - 1])
    } else {
        latest_other(s, r, k - 1)
    }
}

/// A list that was noted anew holds the buffer last, and only there, and all
/// the others in their order.
pub proof fn law_without_ref(s: Seq<RefView>, r: RefView)
    ensures
        !without_ref(s, r).contains(r),
        without_ref(s, r).len() <= s.len(),
        forall|x: RefView|
            #![trigger without_ref(s, r).contains(x)]
            #![trigger s.contains(x)]
            x != r ==> (without_ref(s, r).contains(x) <==> s.contains(x)),
    decreases s.len(),
{
    if s.len() > 0 {
        law_without_ref(s.drop_last(), r);
        let t = without_ref(s.drop_last(), r);
        let w = without_ref(s, r);
        assert forall|x: RefView| x != r implies (w.contains(x) <==> s.contains(x)) by {
            if s.contains(x) {
                let i = choose|i: int| 0 <= i < s.len() && s[i] == x;
                if i < s.len() - 1 {
                    assert(s.drop_last()[i] == x);
                    assert(s.drop_last().contains(x));
                    assert(t.contains(x));
                    let j = choose|j: int| 0 <= j < t.len() && t[j] == x;
                    assert(w[j] == x);
                } else {
                    assert(w[w.len() - 1] == x);
                }
            }
            if w.contains(x) {
                let j = choose|j: int| 0 <= j < w.len() && w[j] == x;
                if j < t.len() {
                    assert(t.contains(x));
                    assert(s.drop_last().contains(x));
                    let i = choose|i: int| 0 <= i < s.drop_last().len() && s.drop_last()[i] == x;
                    assert(s[i] == x);
                } else {
                    assert(s[s.len() - 1] == x);
                }
            }
        }
    }
}

/// The list of opened buffers stays short, and the buffer that was noted is
/// its last entry.
pub proof fn law_opened(desk: Desk, r: RefView)
    ensures
        desk.opened_now(r).opened.len() <= MRU_CAP,
        desk.opened_now(r).opened.len() > 0,
        desk.opened_now(r).opened.last() == r,
        desk.opened_now(r).doc == desk.doc,
{
    reveal(Desk::opened_now);
}

/// A buffer that was laid down to sleep is found again as it was, and laying
/// it down leaves the other sleepers alone.
pub proof fn law_stash(desk: Desk, key: RefView, next: Doc, other: RefView)
    ensures
        asleep(desk.stashed(key, next).sleeping, key) == Some(laid_down(desk.doc)),
        other != key ==> asleep(desk.stashed(key, next).sleeping, other) == asleep(desk.sleeping, other),
{
    let s = desk.stashed(key, next).sleeping;
    assert(s.drop_last() =~= without(desk.sleeping, key));
    law_without(desk.sleeping, key, other);
}

/// Taking one sleeper out takes out that one alone.
pub proof fn law_without(s: Sleepers, r: RefView, other: RefView)
    ensures
        asleep(without(s, r), r) is None,
        other != r ==> asleep(without(s, r), other) == asleep(s, other),
        sleepers_wf(s) ==> sleepers_wf(without(s, r)),
    decreases s.len(),
{
    if s.len() > 0 {
        law_without(s.drop_last(), r, other);
        let t = without(s.drop_last(), r);
        assert(t.push(s.last()).drop_last() =~= t);
        if sleepers_wf(s) {
            assert forall|i: int| 0 <= i < s.drop_last().len() implies (#[trigger] s.drop_last()[i]).1.wf() by {
                assert(s[i].1.wf());
            }
            assert(s[s.len() - 1].1.wf());
        }
    }
}

proof fn lemma_without_first(s: Sleepers, opened: Seq<RefView>, k: int, r: RefView)
    requires
        0 <= k <= opened.len(),
        forall|i: int| 0 <= i < k ==> opened[i] != r,
    ensures
        asleep(without_first(s, opened, k), r) == asleep(s, r),
    decreases k,
{
    if k > 0 {
        lemma_without_first(s, opened, k - 1, r);
        law_without(without_first(s, opened, k - 1), opened[k - 1], r);
    }
}

/// A buffer that another one was opened over sleeps as it was left, with what
/// was not saved of it, its history and its cursor; and it is shown that way
/// when it is gone back to.
pub proof fn law_round_trip(desk: Desk, a: RefView, b: RefView, next: Doc, path: Seq<char>, is_new: bool, back: Seq<char>)
    requires
        a != b,
        desk.opened.len() > 0,
        desk.opened.last() == a,
        forall|i: int| 0 <= i < desk.opened.len() - 1 ==> desk.opened[i] != a,
    ensures
        ({
            let away = desk.loaded(a, b, next, path, is_new);
            &&& away.doc == next
            &&& asleep(away.sleeping, a) == Some(laid_down(desk.doc))
            &&& away.restored(b, a, laid_down(desk.doc), back).doc == laid_down(desk.doc)
        }),
{
    reveal(Desk::opened_now);
    let stashed = desk.stashed(a, next);
    law_stash(desk, a, next, b);
    law_without(stashed.sleeping, b, a);
    let woken = stashed.woken(b);
    let t = without_ref(desk.opened.drop_last(), b);
    let list = without_ref(desk.opened, b).push(b);
    assert(without_ref(desk.opened, b) == t.push(a));
    let over = if list.len() > MRU_CAP {
        list.len() - MRU_CAP
    } else {
        0
    };
    law_without_ref(desk.opened.drop_last(), b);
    assert forall|i: int| 0 <= i < over implies list[i] != a by {
        assert(list[i] == t[i]);
        assert(t.contains(t[i]));
        if t[i] == a {
            assert(desk.opened.drop_last().contains(a));
            let j = choose|j: int| 0 <= j < desk.opened.drop_last().len() && desk.opened.drop_last()[j] == a;
            assert(desk.opened[j] == a);
        }
    }
    lemma_without_first(woken.sleeping, list, over, a);
}

proof fn lemma_asleep_wf(s: Sleepers, r: RefView)
    requires
        sleepers_wf(s),
    ensures
        asleep(s, r) matches Some(d) ==> d.wf(),
    decreases s.len(),
{
    if s.len() > 0 {
        assert(s[s.len() - 1].1.wf());
        if s.last().0 != r {
            assert forall|i: int| 0 <= i < s.drop_last().len() implies (#[trigger] s.drop_last()[i]).1.wf() by {
                assert(s[i].1.wf());
            }
            lemma_asleep_wf(s.drop_last(), r);
        }
    }
}

impl App {
    /// Takes a sleeping buffer out, the latest where there are several by
    /// that name.
    fn wake(&mut self, r: &BufferRef) -> (b: Option<Buffer>)
        requires
            sleepers_wf(old(self)@.sleeping),
        ensures
            final(self)@ == old(self)@.woken(r@),
            match (b, asleep(old(self)@.sleeping, r@)) {
                (Some(b), Some(d)) => b@ == d && b@.wf(),
                (None, None) => true,
                _ => false,
            },
            sleepers_wf(final(self)@.sleeping),
    {
        let ghost s = self@.sleeping;
        let ghost desk = self@;
        proof {
            lemma_asleep_wf(s, r@);
            law_without(s, r@, r@);
            assert(s.take(s.len() as int) =~= s);
        }
        let mut kept: Vec<(BufferRef, Buffer)> = Vec::new();
        let mut found: Option<Buffer> = None;
        let mut all: Vec<(BufferRef, Buffer)> = Vec::new();
        std::mem::swap(&mut all, &mut self.sleeping);
        let mut rest: Vec<(BufferRef, Buffer)> = Vec::new();
        while all.len() > 0
            invariant
                sleepers_of(all@) + sleepers_of(rest@).reverse() == s,
            decreases all.len(),
        {
            let ghost a = all@;
            let ghost b = rest@;
            if let Some(e) = all.pop() {
                rest.push(e);
                proof {
                    assert(a =~= all@.push(e));
                    assert(sleepers_of(all@) + sleepers_of(rest@).reverse() =~= sleepers_of(a) + sleepers_of(b).reverse());
                }
            }
        }
        let ghost mut k: int = 0;
        proof {
            assert(sleepers_of(all@) =~= Seq::empty());
            assert(sleepers_of(rest@).reverse() =~= s);
            assert(sleepers_of(kept@) =~= without(s.take(0), r@));
        }
        while rest.len() > 0
            invariant
                0 <= k <= s.len(),
                rest@.len() == s.len() - k,
                forall|i: int|
                    0 <= i < rest@.len() ==> (#[trigger] rest@[i]).0@ == s[s.len() - 1 - i].0 && rest@[i].1@ == s[s.len()
                        - 1 - i].1,
                sleepers_of(kept@) == without(s.take(k), r@),
                match (found, asleep(s.take(k), r@)) {
                    (Some(b), Some(d)) => b@ == d,
                    (None, None) => true,
                    _ => false,
                },
            decreases rest.len(),
        {
            let ghost before = kept@;
            if let Some(e) = rest.pop() {
                proof {
                    let t = s.take(k + 1);
                    assert(t.drop_last() =~= s.take(k));
                    assert(t.last() == s[k]);
                    assert(s[k] == (e.0@, e.1@));
                    k = k + 1;
                }
                if e.0.same(r) {
                    found = Some(e.1);
                } else {
                    kept.push(e);
                    proof {
                        assert(sleepers_of(kept@) =~= sleepers_of(before).push((e.0@, e.1@)));
                    }
                }
            }
        }
        self.sleeping = kept;
        proof {
            assert(s.take(k) =~= s);
        }
        found
    }

    /// Notes a buffer as the latest. The oldest fall off a long list, and
    /// what slept of them is lost.
    pub fn record_opened(&mut self, r: BufferRef)
        requires
            old(self).wf(),
        ensures
            final(self)@ == old(self)@.opened_now(r@),
            final(self).wf(),
    {
        reveal(Desk::opened_now);
        let ghost desk = self@;
        let ghost old_list = self@.opened;
        let mut list: Vec<BufferRef> = Vec::new();
        let mut i: usize = 0;
        proof {
            assert(refs_of(list@) =~= without_ref(old_list.take(0), r@));
        }
        while i < self.opened_paths.len()
            invariant
                i <= self.opened_paths.len(),
                *self == *old(self),
                old_list == refs_of(self.opened_paths@),
                refs_of(list@) == without_ref(old_list.take(i as int), r@),
            decreases self.opened_paths.len() - i,
        {
            proof {
                let t = old_list.take(i + 1);
                assert(t.drop_last() =~= old_list.take(i as int));
                assert(t.last() == self.opened_paths@[i as int]@);
            }
            if !self.opened_paths[i].same(&r) {
                let c = self.opened_paths[i].copy();
                let ghost before = list@;
                list.push(c);
                proof {
                    assert(refs_of(list@) =~= refs_of(before).push(c@));
                }
            }
            i = i + 1;
        }
        proof {
            assert(old_list.take(i as int) =~= old_list);
        }
        let ghost before = list@;
        list.push(r);
        let ghost full = refs_of(list@);
        proof {
            assert(full =~= without_ref(old_list, r@).push(r@));
        }
        let over: usize = if list.len() > MRU_CAP { list.len() - MRU_CAP } else { 0 };
        let mut k: usize = 0;
        proof {
            assert(full.len() == list@.len());
        }
        while k < over
            invariant
                k <= over <= list.len(),
                full == refs_of(list@),
                self.wf(),
                self@ == (Desk { sleeping: without_first(desk.sleeping, full, k as int), ..desk }),
            decreases over - k,
        {
            assert(full[k as int] == list@[k as int]@);
            let gone = self.wake(&list[k]);
            k = k + 1;
        }
        let mut kept: Vec<BufferRef> = Vec::new();
        let mut j: usize = over;
        while j < list.len()
            invariant
                over <= j <= list.len(),
                full == refs_of(list@),
                refs_of(kept@) == full.subrange(over as int, j as int),
            decreases list.len() - j,
        {
            let c = list[j].copy();
            let ghost before = kept@;
            kept.push(c);
            proof {
                assert(refs_of(kept@) =~= refs_of(before).push(c@));
                assert(full.subrange(over as int, j + 1) =~= full.subrange(over as int, j as int).push(full[j as int]));
            }
            j = j + 1;
        }
        self.opened_paths = kept;
        proof {
            assert(full.subrange(over as int, full.len() as int) =~= full.skip(over as int));
        }
    }

    fn stash_and_install(&mut self, key: BufferRef, next: Buffer)
        requires
            old(self).wf(),
            old(self)@.anchor is None,
            next@.wf(),
        ensures
            final(self)@ == old(self)@.stashed(key@, next@),
            final(self).wf(),
    {
        let gone = self.wake(&key);
        let ghost desk = self@;
        let mut prev = next;
        std::mem::swap(&mut self.buffer, &mut prev);
        prev.token_starts = Vec::new();
        let ghost before = self.sleeping@;
        self.sleeping.push((key, prev));
        proof {
            assert(sleepers_of(self.sleeping@) =~= sleepers_of(before).push((key@, prev@)));
            assert(prev@ =~= laid_down(desk.doc));
            let s = self@.sleeping;
            assert forall|i: int| 0 <= i < s.len() implies (#[trigger] s[i]).1.wf() by {
                if i < s.len() - 1 {
                    assert(sleepers_of(before)[i].1.wf());
                }
            }
        }
    }

    fn bump_gen(&mut self)
        ensures
            final(self)@ == old(self)@.next_gen(),
            old(self).wf() ==> final(self).wf(),
    {
        self.open_gen = self.open_gen.wrapping_add(1);
    }

    /// The sleeping scratch buffer, or an empty one.
    fn wake_scratch(&mut self) -> (b: Buffer)
        requires
            old(self).wf(),
        ensures
            final(self)@ == old(self)@.woken(BufferRef::Scratch),
            b@ == old(self)@.scratch_doc(),
            b@.wf(),
            final(self).wf(),
    {
        match self.wake(&BufferRef::Scratch) {
            Some(b) => b,
            None => {
                let b = Buffer::new();
                assert(b@ =~= blank_doc());
                b
            },
        }
    }

    /// Switches to a buffer. `current` names the one that is shown. The
    /// scratch buffer is shown at once; a file is left to be opened.
    pub fn switch_to_buffer(&mut self, current: BufferRef, r: BufferRef) -> (s: Switch)
        requires
            old(self).wf(),
            old(self)@.anchor is None,
        ensures
            match r@ {
                BufferRef::Scratch => {
                    &&& final(self)@ == old(self)@.to_scratch(current@)
                    &&& if old(self)@.doc.path is None {
                        s is Stay
                    } else {
                        s is Done
                    }
                },
                BufferRef::File(p) => {
                    &&& final(self)@ == old(self)@
                    &&& if current@ == r@ {
                        s is Stay
                    } else {
                        s matches Switch::Open(q) && q@ == p
                    }
                },
            },
            final(self).wf(),
    {
        if r.same(&current) {
            if let BufferRef::File(_) = r {
                return Switch::Stay;
            }
        }
        match r {
            BufferRef::File(p) => Switch::Open(p),
            BufferRef::Scratch => {
                if self.buffer.path.is_none() {
                    return Switch::Stay;
                }
                let next = self.wake_scratch();
                self.stash_and_install(current, next);
                self.bump_gen();
                self.record_opened(BufferRef::Scratch);
                self.say(Level::Info, "scratch");
                Switch::Done
            },
        }
    }

    /// Opens a file whose buffer sleeps, as it was left. `key` names that
    /// buffer. Where none sleeps by that name nothing is shown, and the file
    /// has to be read.
    pub fn open_path(&mut self, current: BufferRef, key: BufferRef, path: &str) -> (r: bool)
        requires
            old(self).wf(),
            old(self)@.anchor is None,
        ensures
            match asleep(old(self)@.sleeping, key@) {
                Some(d) => r && final(self)@ == old(self)@.restored(current@, key@, d, path@),
                None => !r && final(self)@ == old(self)@.woken(key@),
            },
            final(self).wf(),
    {
        match self.wake(&key) {
            Some(b) => {
                self.stash_and_install(current, b);
                self.record_opened(key);
                self.bump_gen();
                let mut m = copy_str("restored ");
                push_str(&mut m, path);
                self.say(Level::Info, m.as_str());
                true
            },
            None => false,
        }
    }

    /// Opens a file from its text, whatever sleeps by its name. Without a
    /// text there is no such file yet, and an empty buffer starts it.
    pub fn open_path_force(&mut self, current: BufferRef, key: BufferRef, path: &str, text: Option<String>)
        requires
            old(self).wf(),
            old(self)@.anchor is None,
        ensures
            final(self)@ == old(self)@.loaded(
                current@,
                key@,
                file_doc(path@, opt_str(text)),
                path@,
                text is None,
            ),
            final(self).wf(),
    {
        let is_new = text.is_none();
        let loaded = match &text {
            Some(t) => Buffer::load(path, t.as_str()),
            None => {
                let mut b = Buffer::new();
                b.path = Some(copy_str(path));
                b
            },
        };
        proof {
            assert(loaded@ =~= file_doc(path@, opt_str(text)));
        }
        self.stash_and_install(current, loaded);
        let gone = self.wake(&key);
        self.record_opened(key);
        self.bump_gen();
        if is_new {
            let mut m = copy_str(path);
            push_str(&mut m, " [new file]");
            self.say(Level::Info, m.as_str());
        } else {
            let mut m = copy_str("opened ");
            push_str(&mut m, path);
            self.say(Level::Info, m.as_str());
        }
    }

    /// The buffer to show next: the one after or before the one that is
    /// shown, round the ends of the list. With one buffer only there is a
    /// message instead.
    pub fn buffer_cycle(&mut self, current: &BufferRef, forward: bool) -> (r: Option<BufferRef>)
        requires
            old(self).wf(),
        ensures
            match r {
                Some(t) => old(self)@.opened.len() > 1 && t@ == neighbour(old(self)@.opened, current@, forward)
                    && final(self)@ == old(self)@,
                None => old(self)@.opened.len() <= 1 && final(self)@ == old(self)@.saying(
                    Level::Info,
                    "only one buffer"@,
                ),
            },
            final(self).wf(),
    {
        let ghost list = self@.opened;
        assert(list.len() == self.opened_paths@.len());
        let n = self.opened_paths.len();
        if n <= 1 {
            self.say(Level::Info, "only one buffer");
            return None;
        }
        let mut i: usize = 0;
        while i < n
            invariant
                i <= n,
                n == self.opened_paths.len(),
                n > 1,
                list == refs_of(self.opened_paths@),
                place_of(list, current@, 0) == place_of(list, current@, i as int),
            ensures
                i <= n,
                i < n ==> place_of(list, current@, 0) == i,
                i == n ==> place_of(list, current@, 0) == 0,
            decreases n - i,
        {
            assert(list[i as int] == self.opened_paths@[i as int]@);
            if self.opened_paths[i].same(current) {
                break;
            }
            i = i + 1;
        }
        let at = if i < n { i } else { 0 };
        let t = if forward {
            if at + 1 < n { at + 1 } else { 0 }
        } else if at > 0 {
            at - 1
        } else {
            n - 1
        };
        proof {
            if forward {
                if at + 1 < n {
                    assert((at + 1) % (n as int) == at + 1) by {
                        vstd::arithmetic::div_mod::lemma_small_mod((at + 1) as nat, n as nat);
                    }
                } else {
                    vstd::arithmetic::div_mod::lemma_mod_self_0(n as int);
                }
            } else if at > 0 {
                assert((at + n - 1) % (n as int) == at - 1) by {
                    vstd::arithmetic::div_mod::lemma_mod_add_multiples_vanish(at - 1, n as int);
                    vstd::arithmetic::div_mod::lemma_small_mod((at - 1) as nat, n as nat);
                }
            } else {
                vstd::arithmetic::div_mod::lemma_small_mod((n - 1) as nat, n as nat);
            }
            assert(list[t as int] == self.opened_paths@[t as int]@);
        }
        Some(self.opened_paths[t].copy())
    }
}

/// What is left to do once a buffer is deleted.
#[derive(Debug)]
pub enum Deletion {
    /// The buffer has unsaved changes and stays.
    Refused,
    /// Another buffer is shown.
    Done,
    /// Another buffer is to be shown, and its file has to be read.
    Load(String),
}

impl Desk {
    /// The list and the sleepers without the buffer that is deleted.
    #[verifier::opaque]
    pub open spec fn dropped(self, current: RefView) -> Desk {
        Desk {
            opened: without_ref(self.opened, current),
            sleeping: without(self.sleeping, current),
            ..self
        }
    }

    /// Shows another buffer in place of one that is deleted.
    #[verifier::opaque]
    pub open spec fn replaced(self, doc: Doc, key: RefView, text: Seq<char>) -> Desk {
        self.with_doc(doc).next_gen().opened_now(key).saying(Level::Info, text)
    }

    /// Deletes the buffer that is shown: the latest other one takes its
    /// place. Where its file has to be read, that is left to do.
    pub open spec fn deleted(self, current: RefView) -> (Desk, Option<Seq<char>>) {
        let d = self.dropped(current);
        match latest_other(self.opened, current, self.opened.len() as int) {
            Some(BufferRef::Scratch) => (
                d.woken(BufferRef::Scratch).replaced(d.scratch_doc(), BufferRef::Scratch, "deleted, [scratch]"@),
                None,
            ),
            Some(BufferRef::File(p)) => match asleep(d.sleeping, BufferRef::File(p)) {
                Some(doc) => (
                    d.woken(BufferRef::File(p)).replaced(doc, BufferRef::File(p), "deleted, restored "@ + p),
                    None,
                ),
                None => (d.woken(BufferRef::File(p)), Some(p)),
            },
            None => (d.replaced(blank_doc(), BufferRef::Scratch, "deleted, [scratch]"@), None),
        }
    }
}

impl App {
    fn show_instead(&mut self, next: Buffer, key: BufferRef, text: &str)
        requires
            old(self).wf(),
            old(self)@.anchor is None,
            next@.wf(),
        ensures
            final(self)@ == old(self)@.replaced(next@, key@, text@),
            final(self).wf(),
    {
        reveal(Desk::replaced);
        self.buffer = next;
        self.bump_gen();
        self.record_opened(key);
        self.say(Level::Info, text);
    }

    fn find_latest_other(&self, current: &BufferRef) -> (r: Option<BufferRef>)
        ensures
            match (r, latest_other(self@.opened, current@, self@.opened.len() as int)) {
                (Some(a), Some(b)) => a@ == b,
                (None, None) => true,
                _ => false,
            },
    {
        let ghost list = self@.opened;
        let mut k: usize = self.opened_paths.len();
        assert(list.len() == self.opened_paths@.len());
        while k > 0
            invariant
                k <= self.opened_paths.len(),
                list == refs_of(self.opened_paths@),
                latest_other(list, current@, list.len() as int) == latest_other(list, current@, k as int),
                list == self@.opened,
            decreases k,
        {
            assert(list[k - 1] == self.opened_paths@[k - 1]@);
            if !self.opened_paths[k - 1].same(current) {
                return Some(self.opened_paths[k - 1].copy());
            }
            k = k - 1;
        }
        None
    }

    fn drop_refs(&mut self, current: &BufferRef)
        requires
            old(self).wf(),
        ensures
            final(self)@ == old(self)@.dropped(current@),
            final(self).wf(),
            final(self)@.anchor == old(self)@.anchor,
    {
        reveal(Desk::dropped);
        let ghost old_list = self@.opened;
        let gone = self.wake(current);
        let mut list: Vec<BufferRef> = Vec::new();
        let mut i: usize = 0;
        proof {
            assert(refs_of(list@) =~= without_ref(old_list.take(0), current@));
        }
        while i < self.opened_paths.len()
            invariant
                i <= self.opened_paths.len(),
                old_list == refs_of(self.opened_paths@),
                refs_of(list@) == without_ref(old_list.take(i as int), current@),
            decreases self.opened_paths.len() - i,
        {
            proof {
                let t = old_list.take(i + 1);
                assert(t.drop_last() =~= old_list.take(i as int));
                assert(t.last() == self.opened_paths@[i as int]@);
            }
            if !self.opened_paths[i].same(current) {
                let c = self.opened_paths[i].copy();
                let ghost before = list@;
                list.push(c);
                proof {
                    assert(refs_of(list@) =~= refs_of(before).push(c@));
                }
            }
            i = i + 1;
        }
        proof {
            assert(old_list.take(i as int) =~= old_list);
        }
        self.opened_paths = list;
    }

    /// Deletes the buffer that is shown, which `current` names. Unsaved
    /// changes are refused without `force`. Where the file of the buffer that
    /// takes its place has to be read, that is left to the caller, who goes on
    /// with `finish_delete`.
    pub fn buffer_delete(&mut self, current: BufferRef, force: bool) -> (r: Deletion)
        requires
            old(self).wf(),
            old(self)@.anchor is None,
        ensures
            !force && old(self)@.doc.dirty ==> r is Refused && final(self)@ == old(self)@.saying(
                Level::Error,
                "unsaved changes (use :bd!)"@,
            ),
            force || !old(self)@.doc.dirty ==> final(self)@ == old(self)@.deleted(current@).0 && match old(
                self,
            )@.deleted(current@).1 {
                Some(p) => r matches Deletion::Load(q) && q@ == p,
                None => r is Done,
            },
            final(self).wf(),
    {
        if !force && self.buffer.dirty {
            self.say(Level::Error, "unsaved changes (use :bd!)");
            return Deletion::Refused;
        }
        let target = self.find_latest_other(&current);
        self.drop_refs(&current);
        match target {
            Some(BufferRef::Scratch) => {
                let b = self.wake_scratch();
                self.show_instead(b, BufferRef::Scratch, "deleted, [scratch]");
                Deletion::Done
            },
            Some(BufferRef::File(p)) => {
                let key = BufferRef::File(p.clone());
                match self.wake(&key) {
                    Some(b) => {
                        let mut m = copy_str("deleted, restored ");
                        push_str(&mut m, p.as_str());
                        self.show_instead(b, key, m.as_str());
                        Deletion::Done
                    },
                    None => Deletion::Load(p),
                }
            },
            None => {
                let b = Buffer::new();
                assert(b@ =~= blank_doc());
                self.show_instead(b, BufferRef::Scratch, "deleted, [scratch]");
                Deletion::Done
            },
        }
    }

    /// Goes on with a deletion once the file was read, or could not be: then
    /// an empty buffer is shown.
    pub fn finish_delete(&mut self, path: String, text: Result<String, String>)
        requires
            old(self).wf(),
            old(self)@.anchor is None,
        ensures
            final(self)@ == match text {
                Ok(t) => old(self)@.replaced(
                    file_doc(path@, Some(t@)),
                    BufferRef::File(path@),
                    "deleted, opened "@ + path@,
                ),
                Err(cause) => old(self)@.with_doc(blank_doc()).next_gen().opened_now(BufferRef::Scratch).saying(
                    Level::Error,
                    "deleted; failed to open "@ + path@ + ": "@ + cause@ + " — using scratch"@,
                ),
            },
            final(self).wf(),
    {
        match text {
            Ok(t) => {
                let b = Buffer::load(path.as_str(), t.as_str());
                assert(b@ =~= file_doc(path@, Some(t@)));
                let mut m = copy_str("deleted, opened ");
                push_str(&mut m, path.as_str());
                self.show_instead(b, BufferRef::File(path), m.as_str());
            },
            Err(cause) => {
                let b = Buffer::new();
                assert(b@ =~= blank_doc());
                self.buffer = b;
                self.bump_gen();
                self.record_opened(BufferRef::Scratch);
                let mut m = copy_str("deleted; failed to open ");
                push_str(&mut m, path.as_str());
                push_str(&mut m, ": ");
                push_str(&mut m, cause.as_str());
                push_str(&mut m, " — using scratch");
                self.say(Level::Error, m.as_str());
            },
        }
    }

    /// Whether what was started for a count of opened buffers still belongs
    /// to the one that is shown.
    pub fn is_current_gen(&self, generation: u64) -> (r: bool)
        ensures
            r == (generation == self@.gen),
    {
        generation == self.open_gen
    }
}

} // verus!
