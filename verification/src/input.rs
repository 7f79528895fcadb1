//! Key presses, as the screens read them.
use vstd::prelude::*;

verus! {

/// The key pressed.
#[derive(Debug, Clone, Copy, PartialEq, Eq, Structural)]
pub enum KeyCode {
    Char(char),
    Enter,
    Esc,
    Up,
    Down,
    Left,
    Right,
    Backspace,
    Delete,
    /// Any other key.
    Other,
}

/// The bit of the Control modifier.
pub const CONTROL: u8 = 0b0000_0010;

/// A key press: the key and the modifier bits held with it.
#[derive(Debug, Clone, Copy, PartialEq, Eq, Structural)]
pub struct KeyInput {
    pub code: KeyCode,
    pub modifiers: u8,
}

impl KeyInput {
    /// A key press with these modifiers.
    pub fn new(code: KeyCode, modifiers: u8) -> (r: Self)
        ensures
            r.code == code,
            r.modifiers == modifiers,
    {
        KeyInput { code, modifiers }
    }

    /// Control and nothing else is held.
    pub open spec fn control_only(&self) -> bool {
        self.modifiers == CONTROL
    }
}

} // verus!
