//! The visual selection.
use vstd::prelude::*;
use crate::editor::{least, most, Cursor};
use crate::mode::Mode;

verus! {

/// What is selected.
#[derive(Debug, Clone, Copy, PartialEq, Eq, Structural)]
pub enum Selection {
    /// The characters from one position to another, both included.
    Char { from: Cursor, to: Cursor },
    /// Whole rows, both ends included.
    Line { from_row: usize, to_row: usize },
    /// A rectangle of columns, both corners included.
    Block { r0: usize, c0: usize, r1: usize, c1: usize },
}

/// The selection between the anchor and the cursor. There is none outside the
/// visual modes, nor without an anchor.
pub open spec fn selected(mode: Mode, anchor: Option<Cursor>, cursor: Cursor) -> Option<Selection> {
    match anchor {
        None => None,
        Some(a) => match mode {
            Mode::Visual => Some(
                if cursor.before(a) {
                    Selection::Char { from: cursor, to: a }
                } else {
                    Selection::Char { from: a, to: cursor }
                },
            ),
            Mode::VisualLine => Some(
                Selection::Line {
                    from_row: least(a.row as int, cursor.row as int) as usize,
                    to_row: most(a.row as int, cursor.row as int) as usize,
                },
            ),
            Mode::VisualBlock => Some(
                Selection::Block {
                    r0: least(a.row as int, cursor.row as int) as usize,
                    c0: least(a.col as int, cursor.col as int) as usize,
                    r1: most(a.row as int, cursor.row as int) as usize,
                    c1: most(a.col as int, cursor.col as int) as usize,
                },
            ),
            _ => None,
        },
    }
}

fn lower(a: usize, b: usize) -> (r: usize)
    ensures
        r == least(a as int, b as int),
{
    if a <= b {
        a
    } else {
        b
    }
}

fn upper(a: usize, b: usize) -> (r: usize)
    ensures
        r == most(a as int, b as int),
{
    if a <= b {
        b
    } else {
        a
    }
}

/// The selection between the anchor and the cursor.
pub fn selection(mode: Mode, anchor: Option<Cursor>, cursor: Cursor) -> (r: Option<Selection>)
    ensures
        r == selected(mode, anchor, cursor),
{
    let a = match anchor {
        Some(a) => a,
        None => return None,
    };
    match mode {
        Mode::Visual => Some(
            if cursor.is_before(a) {
                Selection::Char { from: cursor, to: a }
            } else {
                Selection::Char { from: a, to: cursor }
            },
        ),
        Mode::VisualLine => Some(
            Selection::Line { from_row: lower(a.row, cursor.row), to_row: upper(a.row, cursor.row) },
        ),
        Mode::VisualBlock => Some(
            Selection::Block {
                r0: lower(a.row, cursor.row),
                c0: lower(a.col, cursor.col),
                r1: upper(a.row, cursor.row),
                c1: upper(a.col, cursor.col),
            },
        ),
        _ => None,
    }
}

/// Which end is the anchor and which the cursor makes no difference to what
/// is selected.
pub proof fn law_selection_symmetric(mode: Mode, a: Cursor, b: Cursor)
    ensures
        selected(mode, Some(a), b) == selected(mode, Some(b), a),
{
}

} // verus!
