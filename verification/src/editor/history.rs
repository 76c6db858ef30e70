//! Undo and redo.
use vstd::prelude::*;
use crate::editor::{Buffer, Cursor, Doc, Shot, Snapshot};
use crate::text::copy_lines;

verus! {

/// The undo history holds at most this many states.
pub const MAX_UNDO_DEPTH: usize = 200;

impl Doc {
    /// What a snapshot of this state holds.
    pub open spec fn shot(self) -> Shot {
        Shot { text: self.text, cursor: self.cursor, extra: self.extra, dirty: self.dirty }
    }

    /// This document with the state of a snapshot.
    pub open spec fn restored(self, s: Shot) -> Doc {
        Doc {
            text: s.text,
            cursor: s.cursor,
            extra: s.extra,
            dirty: s.dirty,
            version: self.version.wrapping_add(1),
            ..self
        }
    }

    pub open spec fn snapshot(self) -> Doc {
        let u = self.undo.push(self.shot());
        Doc {
            undo: if u.len() > MAX_UNDO_DEPTH {
                u.remove(0)
            } else {
                u
            },
            redo: Seq::empty(),
            ..self
        }
    }

    pub open spec fn undone(self) -> Doc {
        if self.undo.len() == 0 {
            self
        } else {
            Doc {
                undo: self.undo.drop_last(),
                redo: self.redo.push(self.shot()),
                ..self.restored(self.undo.last())
            }
        }
    }

    pub open spec fn redone(self) -> Doc {
        if self.redo.len() == 0 {
            self
        } else {
            Doc {
                redo: self.redo.drop_last(),
                undo: self.undo.push(self.shot()),
                ..self.restored(self.redo.last())
            }
        }
    }

    /// The undo and redo stacks together hold at most `MAX_UNDO_DEPTH`
    /// states.
    pub open spec fn history_bounded(self) -> bool {
        self.undo.len() + self.redo.len() <= MAX_UNDO_DEPTH
    }
}

/// Undoing right after any number of edits that followed a snapshot brings
/// the text, the cursors and the dirty mark of the snapshot back.
pub proof fn law_undo_restores(before: Doc, after: Doc)
    requires
        after.undo == before.snapshot().undo,
    ensures
        after.undone().shot() == before.shot(),
{
    let u = before.undo.push(before.shot());
    if u.len() > MAX_UNDO_DEPTH {
        assert(u.remove(0).last() == u.last());
    }
}

/// Redo takes an undo back; only the version tells the two states apart.
pub proof fn law_redo_after_undo(d: Doc)
    requires
        d.undo.len() > 0,
    ensures
        d.undone().redone() == (Doc {
            version: d.version.wrapping_add(1).wrapping_add(1),
            ..d
        }),
{
    let e = d.undone().redone();
    assert(d.redo.push(d.shot()).drop_last() =~= d.redo);
    assert(d.undo.drop_last().push(d.undo.last()) =~= d.undo);
    assert(e =~= (Doc { version: e.version, ..d }));
}

/// Undo takes a redo back; only the version tells the two states apart.
pub proof fn law_undo_after_redo(d: Doc)
    requires
        d.redo.len() > 0,
    ensures
        d.redone().undone() == (Doc {
            version: d.version.wrapping_add(1).wrapping_add(1),
            ..d
        }),
{
    let e = d.redone().undone();
    assert(d.undo.push(d.shot()).drop_last() =~= d.undo);
    assert(d.redo.drop_last().push(d.redo.last()) =~= d.redo);
    assert(e =~= (Doc { version: e.version, ..d }));
}

/// The history stays within its bound, whatever is recorded, undone or
/// redone.
pub proof fn law_history_bounded(d: Doc)
    requires
        d.history_bounded(),
    ensures
        d.snapshot().history_bounded(),
        d.undone().history_bounded(),
        d.redone().history_bounded(),
{
}

/// Recording, undoing and redoing keep a document well formed.
pub proof fn law_history_wf(d: Doc)
    requires
        d.wf(),
    ensures
        d.snapshot().wf(),
        d.undone().wf(),
        d.redone().wf(),
{
    assert(d.shot().wf());
    let u = d.undo.push(d.shot());
    assert forall|i: int| 0 <= i < u.len() implies (#[trigger] u[i]).wf() by {
        if i < d.undo.len() {
            assert(d.undo[i].wf());
        }
    }
    let v = d.redo.push(d.shot());
    assert forall|i: int| 0 <= i < v.len() implies (#[trigger] v[i]).wf() by {
        if i < d.redo.len() {
            assert(d.redo[i].wf());
        }
    }
    let w = u.remove(0);
    assert forall|i: int| 0 <= i < w.len() implies (#[trigger] w[i]).wf() by {
        assert(u[i + 1].wf());
    }
    if d.undo.len() > 0 {
        assert(d.undo[d.undo.len() - 1].wf());
        let x = d.undo.drop_last();
        assert forall|i: int| 0 <= i < x.len() implies (#[trigger] x[i]).wf() by {
            assert(d.undo[i].wf());
        }
    }
    if d.redo.len() > 0 {
        assert(d.redo[d.redo.len() - 1].wf());
        let x = d.redo.drop_last();
        assert forall|i: int| 0 <= i < x.len() implies (#[trigger] x[i]).wf() by {
            assert(d.redo[i].wf());
        }
    }
}

/// A copy of a list of cursors.
pub fn copy_cursors(cs: &Vec<Cursor>) -> (r: Vec<Cursor>)
    ensures
        r@ == cs@,
{
    let mut out: Vec<Cursor> = Vec::new();
    let mut i: usize = 0;
    while i < cs.len()
        invariant
            i <= cs.len(),
            out@ == cs@.take(i as int),
        decreases cs.len() - i,
    {
        out.push(cs[i]);
        i = i + 1;
        proof {
            assert(out@ =~= cs@.take(i as int));
        }
    }
    proof {
        assert(cs@.take(i as int) =~= cs@);
    }
    out
}

impl Buffer {
    /// Records the current state for undo and forgets what could be redone.
    pub fn snapshot(&mut self)
        ensures
            old(self)@.wf() ==> final(self)@.wf(),
            final(self)@ == old(self)@.snapshot(),
            final(self).lines == old(self).lines,
    {
        let ghost d = self@;
        let shot = Snapshot {
            lines: copy_lines(&self.lines),
            cursor: self.cursor,
            extra_cursors: copy_cursors(&self.extra_cursors),
            dirty: self.dirty,
        };
        self.undo_stack.push(shot);
        self.redo_stack.clear();
        proof {
            assert(shot@ =~= d.shot());
            assert(self@.undo =~= d.undo.push(d.shot()));
            assert(self@.redo =~= Seq::<Shot>::empty());
        }
        if self.undo_stack.len() > MAX_UNDO_DEPTH {
            let ghost u = self@.undo;
            self.undo_stack.remove(0);
            proof {
                assert(self@.undo =~= u.remove(0));
            }
        }
    }

    /// The current state, exchanged for that of a snapshot.
    fn exchange(&mut self, s: Snapshot) -> (r: Snapshot)
        ensures
            r@ == old(self)@.shot(),
            final(self)@ == old(self)@.restored(s@),
    {
        let ghost d = self@;
        let Snapshot { lines, cursor, extra_cursors, dirty } = s;
        let mut lines = lines;
        let mut extra_cursors = extra_cursors;
        std::mem::swap(&mut self.lines, &mut lines);
        std::mem::swap(&mut self.extra_cursors, &mut extra_cursors);
        let r = Snapshot { lines, cursor: self.cursor, extra_cursors, dirty: self.dirty };
        self.cursor = cursor;
        self.dirty = dirty;
        self.version = self.version.wrapping_add(1);
        r
    }

    /// Goes back one state; false when there is none.
    pub fn undo(&mut self) -> (r: bool)
        ensures
            old(self)@.wf() ==> final(self)@.wf(),
            r == (old(self)@.undo.len() > 0),
            final(self)@ == old(self)@.undone(),
    {
        let ghost d = self@;
        match self.undo_stack.pop() {
            None => false,
            Some(prev) => {
                proof {
                    assert(self@.undo =~= d.undo.drop_last());
                }
                let cur = self.exchange(prev);
                self.redo_stack.push(cur);
                proof {
                    assert(self@.redo =~= d.redo.push(d.shot()));
                    assert(self@ =~= d.undone());
                }
                true
            },
        }
    }

    /// Takes the last undo back; false when there is none.
    pub fn redo(&mut self) -> (r: bool)
        ensures
            old(self)@.wf() ==> final(self)@.wf(),
            r == (old(self)@.redo.len() > 0),
            final(self)@ == old(self)@.redone(),
    {
        let ghost d = self@;
        match self.redo_stack.pop() {
            None => false,
            Some(next) => {
                proof {
                    assert(self@.redo =~= d.redo.drop_last());
                }
                let cur = self.exchange(next);
                self.undo_stack.push(cur);
                proof {
                    assert(self@.undo =~= d.undo.push(d.shot()));
                    assert(self@ =~= d.redone());
                }
                true
            },
        }
    }
}

} // verus!
