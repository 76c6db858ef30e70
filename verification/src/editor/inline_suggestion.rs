//! The life of an inline completion that is shown as ghost text.
//!
//! A suggestion is only good while the cursor stands where it was asked for.
use vstd::prelude::*;
use crate::editor::Cursor;

verus! {

/// Tells the requests for suggestions apart.
#[derive(Debug, Clone, Copy, PartialEq, Eq, Hash, Structural)]
pub struct RequestId(pub u64);

/// A text that could be inserted at `anchor`.
#[derive(Debug)]
pub struct Suggestion {
    pub text: String,
    pub anchor: Cursor,
}

impl Suggestion {
    /// Whether the suggestion belongs to this position.
    pub fn is_anchored_at(&self, cursor: Cursor) -> (r: bool)
        ensures
            r == (self.anchor == cursor),
    {
        self.anchor == cursor
    }
}

#[derive(Debug)]
pub enum SuggestionState {
    Idle,
    Pending { id: RequestId, anchor: Cursor },
    Showing { id: RequestId, suggestion: Suggestion },
}

impl Default for SuggestionState {
    fn default() -> (r: SuggestionState)
        ensures
            r is Idle,
    {
        SuggestionState::Idle
    }
}

impl SuggestionState {
    /// The suggestion that is shown, if one is.
    pub fn showing(&self) -> (r: Option<&Suggestion>)
        ensures
            match *self {
                SuggestionState::Showing { id, suggestion } => r == Some(&suggestion),
                _ => r is None,
            },
    {
        match self {
            SuggestionState::Showing { suggestion, .. } => Some(suggestion),
            _ => None,
        }
    }

    /// Drops whatever is shown or awaited.
    pub fn dismiss(&mut self)
        ensures
            *final(self) == SuggestionState::Idle,
    {
        *self = SuggestionState::Idle;
    }
}

} // verus!
