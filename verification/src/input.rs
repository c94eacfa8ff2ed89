//! Keyboard commands: which key asks for which action.
use vstd::prelude::*;

verus! {

#[derive(Clone, Copy, Debug, PartialEq, Eq, Structural)]
pub enum Action {
    Quit,
    Redraw,
    TogglePause,
    SpeedUp,
    SlowDown,
    /// No key, or a key without a meaning.
    Idle,
}

/// A key press, as far as the aquarium tells keys apart.
#[derive(Clone, Copy, Debug, PartialEq, Eq, Structural)]
pub enum Key {
    Char(char),
    Right,
    Left,
    Other,
}

/// The action a key asks for: `q` (or Ctrl-C) quits, `r` redraws, `p`
/// pauses or resumes, `f` or Right speeds up, `s` or Left slows down.
pub open spec fn key_action(key: Key, ctrl: bool) -> Action {
    match key {
        Key::Char('q') => Action::Quit,
        Key::Char('c') => if ctrl {
            Action::Quit
        } else {
            Action::Idle
        },
        Key::Char('r') => Action::Redraw,
        Key::Char('p') => Action::TogglePause,
        Key::Char('f') => Action::SpeedUp,
        Key::Right => Action::SpeedUp,
        Key::Char('s') => Action::SlowDown,
        Key::Left => Action::SlowDown,
        _ => Action::Idle,
    }
}

/// The action for a key press; `ctrl` tells whether Control was held.
pub fn action_for_key(key: Key, ctrl: bool) -> (a: Action)
    ensures
        a == key_action(key, ctrl),
{
    match key {
        Key::Char('q') => Action::Quit,
        Key::Char('c') if ctrl => Action::Quit,
        Key::Char('r') => Action::Redraw,
        Key::Char('p') => Action::TogglePause,
        Key::Char('f') | Key::Right => Action::SpeedUp,
        Key::Char('s') | Key::Left => Action::SlowDown,
        _ => Action::Idle,
    }
}

} // verus!
