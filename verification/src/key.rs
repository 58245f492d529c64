//! Keys.
use vstd::prelude::*;

verus! {

/// A key.
#[derive(Debug, Clone, Copy, PartialEq, Eq, Structural)]
pub enum KeyCode {
    Esc,
    F(u8),
    Char(char),
    Tab,
    BackTab,
    Enter,
    Backspace,
    Delete,
    Left,
    Right,
    Up,
    Down,
    PageUp,
    PageDown,
    Home,
    End,
    /// Any other key.
    Other,
}

/// What is held down with a key.
#[derive(Debug, Clone, Copy, PartialEq, Eq, Structural)]
pub enum KeyModifiers {
    Plain,
    Shift,
    Control,
    /// Anything else, or several of them.
    Other,
}

/// A key that was pressed.
#[derive(Debug, Clone, Copy, PartialEq, Eq, Structural)]
pub struct KeyEvent {
    pub code: KeyCode,
    pub modifiers: KeyModifiers,
}

impl KeyEvent {
    /// The character that the key types, if it types one.
    pub open spec fn typed_spec(self) -> Option<char> {
        match self.code {
            KeyCode::Char(c) => if self.modifiers == KeyModifiers::Plain || self.modifiers
                == KeyModifiers::Shift {
                Some(c)
            } else {
                None
            },
            _ => None,
        }
    }

    /// Whether the key asks to save: F2, or control and `s`.
    pub open spec fn saves_spec(self) -> bool {
        self.code == KeyCode::F(2) || (self.code == KeyCode::Char('s') && self.modifiers
            == KeyModifiers::Control)
    }

    /// The character that the key types, if it types one.
    pub fn typed(self) -> (r: Option<char>)
        ensures
            r == self.typed_spec(),
    {
        match self.code {
            KeyCode::Char(c) => match self.modifiers {
                KeyModifiers::Plain | KeyModifiers::Shift => Some(c),
                _ => None,
            },
            _ => None,
        }
    }

    /// Whether the key asks to save.
    pub fn saves(self) -> (r: bool)
        ensures
            r == self.saves_spec(),
    {
        match self.code {
            KeyCode::F(n) => n == 2,
            KeyCode::Char(c) => c == 's' && self.modifiers == KeyModifiers::Control,
            _ => false,
        }
    }
}

} // verus!
