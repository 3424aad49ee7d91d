//! Key presses and what they ask of a session.

use vstd::prelude::*;

verus! {

/// The phase of a key's travel that a terminal reports.
#[derive(Clone, Copy, Debug, PartialEq, Eq, Structural)]
pub enum KeyKind {
    /// The key went down.
    Press,
    /// The key is held down and repeats.
    Repeat,
    /// The key came up.
    Release,
}

/// A key of the keyboard, as far as a session tells keys apart.
#[derive(Clone, Copy, Debug, PartialEq, Eq, Structural)]
pub enum Key {
    /// The key that types the given character.
    Char(char),
    /// The backspace key.
    Backspace,
    /// The enter key.
    Enter,
    /// The escape key.
    Esc,
    /// Any other key.
    Other,
}

/// What the user asks of a session.
#[derive(Clone, Copy, Debug, PartialEq, Eq, Structural)]
pub enum InputEvent {
    /// Type the given character.
    Insert(char),
    /// Take back the last character.
    Backspace,
    /// Give up the attempt.
    Cancel,
    /// Hand in the attempt.
    Submit,
}

/// The request that a reported key stands for: only a key that goes down
/// counts, and only a character, backspace, escape or enter.
pub open spec fn request_of(kind: KeyKind, key: Key) -> Option<InputEvent> {
    if kind != KeyKind::Press {
        None
    } else {
        match key {
            Key::Char(c) => Some(InputEvent::Insert(c)),
            Key::Backspace => Some(InputEvent::Backspace),
            Key::Esc => Some(InputEvent::Cancel),
            Key::Enter => Some(InputEvent::Submit),
            Key::Other => None,
        }
    }
}

/// Reads a reported key as a request to the session, if it is one.
pub fn interpret(kind: KeyKind, key: Key) -> (event: Option<InputEvent>)
    ensures
        event == request_of(kind, key),
{
    match kind {
        KeyKind::Press => match key {
            Key::Char(c) => Some(InputEvent::Insert(c)),
            Key::Backspace => Some(InputEvent::Backspace),
            Key::Esc => Some(InputEvent::Cancel),
            Key::Enter => Some(InputEvent::Submit),
            Key::Other => None,
        },
        _ => None,
    }
}

} // verus!
