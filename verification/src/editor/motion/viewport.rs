//! Motions relative to the viewport.
use vstd::prelude::*;
use crate::action::MotionKind;
use crate::editor::{in_text, last_col, least, most, Buffer, Cursor, Doc};

verus! {

impl Doc {
    /// A row, and the column of `from` as far as that row has it.
    pub open spec fn keep_col(self, from: Cursor, row: int) -> Cursor {
        Cursor { row: row as usize, col: least(from.col as int, last_col(self.text[row])) as usize }
    }

    /// The top, middle and bottom row of the viewport, within the text.
    pub open spec fn viewport_row(self, motion: MotionKind) -> Option<int> {
        let last = self.text.len() - 1;
        let bottom = least(self.scroll + self.height - 1, last);
        match motion {
            MotionKind::ViewportTop => Some(least(self.scroll as int, last)),
            MotionKind::ViewportBottom => Some(bottom),
            MotionKind::ViewportMiddle => Some(
                least(self.scroll + most(bottom - self.scroll, 0) / 2, last),
            ),
            _ => None,
        }
    }

    pub open spec fn viewport_target(self, from: Cursor, motion: MotionKind) -> Cursor {
        match self.viewport_row(motion) {
            Some(row) => if self.height == 0 {
                from
            } else {
                self.keep_col(from, row)
            },
            None => from,
        }
    }

    /// The row a page motion goes to: half a page or a whole one, at least
    /// one row, within the text.
    pub open spec fn page_row(self, from: Cursor, motion: MotionKind) -> Option<int> {
        let last = self.text.len() - 1;
        let page = most(self.height as int, 1);
        let half = most(page / 2, 1);
        match motion {
            MotionKind::HalfPageDown => Some(least(from.row + half, last)),
            MotionKind::HalfPageUp => Some(most(from.row - half, 0)),
            MotionKind::PageDown => Some(least(from.row + page, last)),
            MotionKind::PageUp => Some(most(from.row - page, 0)),
            _ => None,
        }
    }

    pub open spec fn page_target(self, from: Cursor, motion: MotionKind) -> Cursor {
        match self.page_row(from, motion) {
            Some(row) => self.keep_col(from, row),
            None => from,
        }
    }
}

/// A row, and the column of `from` as far as that row has it.
pub fn keep_col(buf: &Buffer, from: Cursor, row: usize) -> (r: Cursor)
    requires
        row < buf.lines.len(),
    ensures
        r == buf@.keep_col(from, row as int),
        in_text(buf@.text, r),
{
    let max_col = buf.line_chars(row).len().saturating_sub(1);
    Cursor { row, col: if from.col < max_col { from.col } else { max_col } }
}

/// The top, middle or bottom row of the viewport. Before the viewport is
/// first drawn the cursor stays.
pub fn viewport_target(buf: &Buffer, from: Cursor, motion: MotionKind) -> (r: Cursor)
    requires
        buf.lines.len() >= 1,
    ensures
        r == buf@.viewport_target(from, motion),
        r == from || in_text(buf@.text, r),
{
    let height = buf.viewport_height;
    if height == 0 {
        return from;
    }
    let top = buf.scroll;
    let last_row = buf.lines.len() - 1;
    let end = top.saturating_add(height - 1);
    let bottom = if end < last_row { end } else { last_row };
    let row = match motion {
        MotionKind::ViewportTop => if top < last_row { top } else { last_row },
        MotionKind::ViewportBottom => bottom,
        MotionKind::ViewportMiddle => {
            let mid = top + bottom.saturating_sub(top) / 2;
            if mid < last_row { mid } else { last_row }
        },
        _ => return from,
    };
    keep_col(buf, from, row)
}

/// The row half a page or a page away. The step is at least one row.
pub fn page_target(buf: &Buffer, from: Cursor, motion: MotionKind) -> (r: Cursor)
    requires
        from.row < buf.lines.len(),
    ensures
        r == buf@.page_target(from, motion),
        r == from || in_text(buf@.text, r),
{
    let height = if buf.viewport_height > 1 { buf.viewport_height } else { 1 };
    let half = if height / 2 > 1 { height / 2 } else { 1 };
    let last_row = buf.lines.len() - 1;
    let row = match motion {
        MotionKind::HalfPageDown => if half < last_row - from.row { from.row + half } else { last_row },
        MotionKind::HalfPageUp => from.row.saturating_sub(half),
        MotionKind::PageDown => if height < last_row - from.row { from.row + height } else { last_row },
        MotionKind::PageUp => from.row.saturating_sub(height),
        _ => return from,
    };
    keep_col(buf, from, row)
}

} // verus!
