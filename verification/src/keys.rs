//! Key presses as the editor sees them.
use vstd::prelude::*;

verus! {

/// A key, without its modifiers.
#[derive(Debug, Clone, Copy, PartialEq, Eq, Hash, Structural)]
pub enum KeyCode {
    Char(char),
    Enter,
    Esc,
    Backspace,
    Tab,
    BackTab,
    Left,
    Right,
    Up,
    Down,
    Home,
    End,
    PageUp,
    PageDown,
    Insert,
    Delete,
    F(u8),
    /// Any other key of the terminal, by a number of its own.
    Other(u32),
}

/// The modifiers held down with a key. `rest` holds the bits of those that
/// have no field.
#[derive(Debug, Clone, Copy, PartialEq, Eq, Hash, Structural)]
pub struct KeyModifiers {
    pub shift: bool,
    pub control: bool,
    pub alt: bool,
    pub rest: u8,
}

impl KeyModifiers {
    /// No modifier at all.
    pub open spec fn spec_none() -> KeyModifiers {
        KeyModifiers { shift: false, control: false, alt: false, rest: 0 }
    }

    /// No modifier at all.
    pub fn none() -> (r: KeyModifiers)
        ensures
            r == KeyModifiers::spec_none(),
    {
        KeyModifiers { shift: false, control: false, alt: false, rest: 0 }
    }

    /// Control alone.
    pub fn ctrl() -> (r: KeyModifiers)
        ensures
            r == (KeyModifiers { control: true, ..KeyModifiers::spec_none() }),
    {
        KeyModifiers { shift: false, control: true, alt: false, rest: 0 }
    }
}

/// One key press.
#[derive(Debug, Clone, Copy, PartialEq, Eq, Hash, Structural)]
pub struct KeyEvent {
    pub code: KeyCode,
    pub modifiers: KeyModifiers,
}

} // verus!
