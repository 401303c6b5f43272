//! The events that the modes take: keys with their modifiers, and resizes.

use vstd::prelude::*;

verus! {

/// The key that was pressed.
#[derive(Clone, Copy, Debug, PartialEq, Eq, Structural)]
pub enum KeyCode {
    Backspace,
    Enter,
    Left,
    Right,
    Up,
    Down,
    Home,
    End,
    PageUp,
    PageDown,
    Tab,
    BackTab,
    Delete,
    Insert,
    F(u8),
    Char(char),
    Null,
    Esc,
}

/// The modifier keys that were held.
#[derive(Clone, Copy, Debug, PartialEq, Eq, Structural)]
pub struct KeyModifiers {
    pub shift: bool,
    pub control: bool,
    pub alt: bool,
}

/// A key with the modifiers that were held.
#[derive(Clone, Copy, Debug, PartialEq, Eq, Structural)]
pub struct KeyEvent {
    pub code: KeyCode,
    pub modifiers: KeyModifiers,
}

/// What the terminal reports.
#[derive(Clone, Copy, Debug, PartialEq, Eq, Structural)]
pub enum Event {
    Key(KeyEvent),
    Mouse,
    Resize(u16, u16),
}

/// What a keymap looks up: a key, and whether control or alt was held. Shift
/// is left out: it shows in the character.
#[derive(Clone, Copy, Debug, PartialEq, Eq, Structural)]
pub enum Chord {
    /// A key alone.
    Plain(KeyCode),
    /// A key with alt.
    Alt(KeyCode),
    /// A key with control.
    Control(KeyCode),
    /// A key with control and alt.
    ControlAlt(KeyCode),
}

impl KeyModifiers {
    pub open spec fn spec_none() -> KeyModifiers {
        KeyModifiers { shift: false, control: false, alt: false }
    }

    /// No modifier.
    #[verifier::when_used_as_spec(spec_none)]
    pub fn none() -> (modifiers: KeyModifiers)
        ensures
            modifiers == KeyModifiers::spec_none(),
    {
        KeyModifiers { shift: false, control: false, alt: false }
    }
}

impl KeyEvent {
    pub open spec fn spec_chord(self) -> Chord {
        if self.modifiers.control && self.modifiers.alt {
            Chord::ControlAlt(self.code)
        } else if self.modifiers.control {
            Chord::Control(self.code)
        } else if self.modifiers.alt {
            Chord::Alt(self.code)
        } else {
            Chord::Plain(self.code)
        }
    }

    /// The key `code` without modifiers.
    pub fn plain(code: KeyCode) -> (key: KeyEvent)
        ensures
            key == (KeyEvent { code, modifiers: KeyModifiers::none() }),
    {
        KeyEvent { code, modifiers: KeyModifiers::none() }
    }

    /// The character `c` as it is typed, without modifiers.
    pub fn char(c: char) -> (key: KeyEvent)
        ensures
            key == (KeyEvent { code: KeyCode::Char(c), modifiers: KeyModifiers::none() }),
    {
        KeyEvent { code: KeyCode::Char(c), modifiers: KeyModifiers::none() }
    }

    /// What a keymap looks up for this key.
    #[verifier::when_used_as_spec(spec_chord)]
    pub fn chord(self) -> (chord: Chord)
        ensures
            chord == self.spec_chord(),
    {
        if self.modifiers.control && self.modifiers.alt {
            Chord::ControlAlt(self.code)
        } else if self.modifiers.control {
            Chord::Control(self.code)
        } else if self.modifiers.alt {
            Chord::Alt(self.code)
        } else {
            Chord::Plain(self.code)
        }
    }
}

impl Event {
    pub open spec fn spec_typed(self) -> Option<char> {
        match self {
            Event::Key(key) => match key.chord() {
                Chord::Plain(KeyCode::Char(c)) => Some(c),
                _ => None,
            },
            _ => None,
        }
    }

    /// The character that the event types, if it is a character key without
    /// control or alt.
    #[verifier::when_used_as_spec(spec_typed)]
    pub fn typed(self) -> (c: Option<char>)
        ensures
            c == self.spec_typed(),
    {
        match self {
            Event::Key(key) => match key.chord() {
                Chord::Plain(KeyCode::Char(c)) => Some(c),
                _ => None,
            },
            _ => None,
        }
    }
}

} // verus!
