//! Editing modes.
use vstd::prelude::*;

verus! {

/// The modal state of the editor.
#[derive(Debug, Clone, Copy, PartialEq, Eq, Structural)]
pub enum Mode {
    Normal,
    Insert,
    Visual,
    VisualLine,
    VisualBlock,
}

impl Mode {
    /// The three selection modes.
    pub open spec fn visual(self) -> bool {
        self is Visual || self is VisualLine || self is VisualBlock
    }

    /// Whether this is one of the selection modes.
    pub fn is_visual(self) -> (r: bool)
        ensures
            r == self.visual(),
    {
        matches!(self, Mode::Visual | Mode::VisualLine | Mode::VisualBlock)
    }
}

impl Default for Mode {
    fn default() -> (r: Mode)
        ensures
            r == Mode::Normal,
    {
        Mode::Normal
    }
}

} // verus!
