//! Searching a character in the line.
use vstd::prelude::*;
use crate::editor::{last_col, least, Cursor};
use crate::text::chars_of;

verus! {

/// The first place at or after `i` that holds `ch`.
pub open spec fn first_at(line: Seq<char>, ch: char, i: int) -> Option<int>
    decreases line.len() - i,
{
    if i < 0 || i >= line.len() {
        None
    } else if line[i] == ch {
        Some(i)
    } else {
        first_at(line, ch, i + 1)
    }
}

/// The last place before `i` that holds `ch`.
pub open spec fn last_before(line: Seq<char>, ch: char, i: int) -> Option<int>
    decreases i,
{
    if i <= 0 || i > line.len() {
        None
    } else if line[i - 1] == ch {
        Some(i - 1)
    } else {
        last_before(line, ch, i - 1)
    }
}

/// The target of a character search: the next hit after the cursor, or the
/// previous one before it; with `till`, one short of the hit.
pub open spec fn find_target(line: Seq<char>, from: Cursor, ch: char, forward: bool, till: bool) -> Cursor {
    if forward {
        match first_at(line, ch, from.col + 1) {
            Some(i) => Cursor {
                row: from.row,
                col: if till {
                    (i - 1) as usize
                } else {
                    i as usize
                },
            },
            None => from,
        }
    } else {
        match last_before(line, ch, from.col as int) {
            Some(i) => Cursor {
                row: from.row,
                col: if till {
                    least(i + 1, last_col(line)) as usize
                } else {
                    i as usize
                },
            },
            None => from,
        }
    }
}

/// Searches `ch` in the line, after or before the cursor. Where it does not
/// occur the cursor stays.
pub fn find_char(line: &str, from: Cursor, ch: char, forward: bool, till: bool) -> (r: Cursor)
    requires
        !forward ==> from.col <= line@.len(),
    ensures
        r == find_target(line@, from, ch, forward, till),
        r.row == from.row,
        from.col <= line@.len() ==> r.col <= line@.len(),
{
    let cs = chars_of(line);
    if forward {
        if from.col >= cs.len() {
            return from;
        }
        let mut i: usize = from.col + 1;
        while i < cs.len()
            invariant
                from.col < i <= cs.len(),
                cs@ == line@,
                forward,
                first_at(line@, ch, from.col + 1) == first_at(line@, ch, i as int),
            decreases cs.len() - i,
        {
            if cs[i] == ch {
                return Cursor { row: from.row, col: if till { i - 1 } else { i } };
            }
            i = i + 1;
        }
        from
    } else {
        let mut i: usize = from.col;
        while i > 0
            invariant
                i <= from.col <= cs.len(),
                cs@ == line@,
                !forward,
                last_before(line@, ch, from.col as int) == last_before(line@, ch, i as int),
            decreases i,
        {
            let k = i - 1;
            if cs[k] == ch {
                let last = cs.len() - 1;
                let col = if till {
                    if k + 1 < last { k + 1 } else { last }
                } else {
                    k
                };
                return Cursor { row: from.row, col };
            }
            i = k;
        }
        from
    }
}

/// `first_at` finds the first hit.
pub proof fn law_first_at(line: Seq<char>, ch: char, i: int)
    requires
        0 <= i,
    ensures
        match first_at(line, ch, i) {
            Some(k) => i <= k < line.len() && line[k] == ch && forall|q: int| i <= q < k ==> line[q] != ch,
            None => forall|q: int| i <= q < line.len() ==> line[q] != ch,
        },
    decreases line.len() - i,
{
    if i < line.len() && line[i] != ch {
        law_first_at(line, ch, i + 1);
    }
}

/// `last_before` finds the last hit.
pub proof fn law_last_before(line: Seq<char>, ch: char, i: int)
    requires
        i <= line.len(),
    ensures
        match last_before(line, ch, i) {
            Some(k) => 0 <= k < i && line[k] == ch && forall|q: int| k < q < i ==> line[q] != ch,
            None => forall|q: int| 0 <= q < i ==> line[q] != ch,
        },
    decreases i,
{
    if i > 0 && line[i - 1] != ch {
        law_last_before(line, ch, i - 1);
    }
}

} // verus!
