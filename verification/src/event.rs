//! User input: the events that the event loop works on.

use vstd::prelude::*;

verus! {

/// A key of the keyboard that is no character.
#[derive(Clone, Copy, Debug, PartialEq, Eq, Structural, Hash)]
pub enum Key {
    /// Both Enter and numpad Enter.
    Enter,
    /// Tabulation key.
    Tab,
    /// Backspace key.
    Backspace,
    /// Escape key.
    Esc,
    /// Left arrow.
    Left,
    /// Right arrow.
    Right,
    /// Up arrow.
    Up,
    /// Down arrow.
    Down,
    /// Insert key.
    Ins,
    /// Delete key.
    Del,
    /// Home key.
    Home,
    /// End key.
    End,
    /// Page Up key.
    PageUp,
    /// Page Down key.
    PageDown,
    /// F0 key.
    F0,
    /// F1 key.
    F1,
    /// F2 key.
    F2,
    /// F3 key.
    F3,
    /// F4 key.
    F4,
    /// F5 key.
    F5,
    /// F6 key.
    F6,
    /// F7 key.
    F7,
    /// F8 key.
    F8,
    /// F9 key.
    F9,
    /// F10 key.
    F10,
    /// F11 key.
    F11,
    /// F12 key.
    F12,
}

impl Key {
    /// The function key with the number `n`, for the numbers up to 12.
    pub open spec fn function_key(n: u8) -> Key {
        if n == 0 {
            Key::F0
        } else if n == 1 {
            Key::F1
        } else if n == 2 {
            Key::F2
        } else if n == 3 {
            Key::F3
        } else if n == 4 {
            Key::F4
        } else if n == 5 {
            Key::F5
        } else if n == 6 {
            Key::F6
        } else if n == 7 {
            Key::F7
        } else if n == 8 {
            Key::F8
        } else if n == 9 {
            Key::F9
        } else if n == 10 {
            Key::F10
        } else if n == 11 {
            Key::F11
        } else {
            Key::F12
        }
    }

    /// The function key with the number `n`: F1 for 1, and so on up to F12.
    pub fn from_f(n: u8) -> (key: Key)
        requires
            n <= 12,
        ensures
            key == Key::function_key(n),
    {
        match n {
            0 => Key::F0,
            1 => Key::F1,
            2 => Key::F2,
            3 => Key::F3,
            4 => Key::F4,
            5 => Key::F5,
            6 => Key::F6,
            7 => Key::F7,
            8 => Key::F8,
            9 => Key::F9,
            10 => Key::F10,
            11 => Key::F11,
            _ => Key::F12,
        }
    }
}

/// What the user did, or what the event loop has to do next.
#[derive(Clone, Copy, Debug, PartialEq, Eq, Structural, Hash)]
pub enum Event {
    /// The screen is due to be drawn again.
    Refresh,
    /// A character was entered.
    Char(char),
    /// A character was entered with the Ctrl key pressed.
    CtrlChar(char),
    /// A character was entered with the Alt key pressed.
    AltChar(char),
    /// A key that is no character was pressed.
    Key(Key),
    /// Input that the backend could not name, with its code.
    Unknown(i32),
    /// The user asked to leave.
    Exit,
}

} // verus!
