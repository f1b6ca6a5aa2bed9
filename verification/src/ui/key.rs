//! Keys, as far as the interface tells them apart.
use vstd::prelude::*;

verus! {

/// A key.
#[derive(Debug, Clone, Copy, PartialEq, Eq, Structural)]
pub enum Key {
    Char(char),
    Enter,
    Esc,
    Tab,
    Backspace,
    Delete,
    Left,
    Right,
    Up,
    Down,
    Home,
    End,
    PageUp,
    PageDown,
    /// Any other key.
    Other,
}

/// A key that was pressed, with what was held down.
#[derive(Debug, Clone, Copy, PartialEq, Eq, Structural)]
pub struct KeyPress {
    pub code: Key,
    pub control: bool,
    pub alt: bool,
    /// Whether anything else was held down, such as the shift key.
    pub other: bool,
}

impl KeyPress {
    /// A key with nothing held down.
    pub fn plain(code: Key) -> (r: KeyPress)
        ensures
            r == (KeyPress { code, control: false, alt: false, other: false }),
    {
        KeyPress { code, control: false, alt: false, other: false }
    }

    /// A key with the control key, and nothing else, held down.
    pub fn with_control(code: Key) -> (r: KeyPress)
        ensures
            r == (KeyPress { code, control: true, alt: false, other: false }),
    {
        KeyPress { code, control: true, alt: false, other: false }
    }

    /// Whether the control key, and nothing else, was held down.
    pub open spec fn only_control(self) -> bool {
        self.control && !self.alt && !self.other
    }
}

} // verus!
