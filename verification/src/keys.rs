//! Keyboard events as the input handlers see them.
use vstd::prelude::*;

verus! {

/// The key of a key press.
#[derive(Clone, Copy, PartialEq, Eq, Debug)]
pub enum Key {
    Char(char),
    Enter,
    Backspace,
    Delete,
    Left,
    Right,
    Up,
    Down,
    Home,
    End,
    Tab,
    Esc,
    /// Any key the handlers do not react to.
    Other,
}

/// A key press with its modifier keys.
#[derive(Clone, Copy, PartialEq, Eq, Debug)]
pub struct KeyPress {
    pub key: Key,
    pub shift: bool,
    pub ctrl: bool,
    pub alt: bool,
}

impl KeyPress {
    /// A key pressed without modifiers.
    pub fn plain(key: Key) -> (k: KeyPress)
        ensures
            k.key == key,
            !k.shift && !k.ctrl && !k.alt,
    {
        KeyPress { key, shift: false, ctrl: false, alt: false }
    }

    /// A key pressed with Ctrl.
    pub fn ctrl(key: Key) -> (k: KeyPress)
        ensures
            k.key == key,
            !k.shift && k.ctrl && !k.alt,
    {
        KeyPress { key, shift: false, ctrl: true, alt: false }
    }

    /// A key pressed with Alt.
    pub fn alt(key: Key) -> (k: KeyPress)
        ensures
            k.key == key,
            !k.shift && !k.ctrl && k.alt,
    {
        KeyPress { key, shift: false, ctrl: false, alt: true }
    }

    /// A key pressed with Shift.
    pub fn shift(key: Key) -> (k: KeyPress)
        ensures
            k.key == key,
            k.shift && !k.ctrl && !k.alt,
    {
        KeyPress { key, shift: true, ctrl: false, alt: false }
    }
}

} // verus!
