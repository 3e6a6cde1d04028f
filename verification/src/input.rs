//! Terminal events as the screensaver sees them.
use vstd::prelude::*;
use crossterm::event::{KeyCode, KeyModifiers};

verus! {

/// Declares `crossterm::event::KeyCode` to Verus as an opaque type: key codes are
/// carried through, never inspected.
#[verifier::external_type_specification]
#[verifier::external_body]
pub struct ExKeyCode(crossterm::event::KeyCode);

/// Declares `crossterm::event::KeyModifiers` to Verus as an opaque type: modifier
/// keys are carried through, never inspected.
#[verifier::external_type_specification]
#[verifier::external_body]
pub struct ExKeyModifiers(crossterm::event::KeyModifiers);

/// What the screensaver reacts to.
pub enum InputEvent {
    /// A key was pressed (repeats and releases are not key presses).
    KeyPress(KeyCode, KeyModifiers),
    /// The terminal now has the given number of columns and rows.
    Resize(u16, u16),
    /// Nothing happened before the poll timed out, or an event of no interest arrived.
    Idle,
}

/// Whether a key event reports a press, a repeat or a release.
#[derive(Clone, Copy, Debug, PartialEq, Eq, Structural)]
pub enum KeyKind {
    Press,
    Repeat,
    Release,
}

/// A terminal event, holding what the screensaver reads of it.
pub enum TerminalEvent {
    Key(KeyCode, KeyModifiers, KeyKind),
    Resize(u16, u16),
    /// Any other event (mouse, focus, paste).
    Other,
}

/// The screensaver's view of a terminal event: key presses and resizes count,
/// everything else (key repeats, key releases, other events) is nothing.
pub fn classify_event(event: TerminalEvent) -> (r: InputEvent)
    ensures
        match event {
            TerminalEvent::Key(code, modifiers, kind) => if kind == KeyKind::Press {
                r == InputEvent::KeyPress(code, modifiers)
            } else {
                r is Idle
            },
            TerminalEvent::Resize(w, h) => r == InputEvent::Resize(w, h),
            TerminalEvent::Other => r is Idle,
        },
{
    match event {
        TerminalEvent::Key(code, modifiers, kind) => {
            if kind == KeyKind::Press {
                InputEvent::KeyPress(code, modifiers)
            } else {
                InputEvent::Idle
            }
        },
        TerminalEvent::Resize(width, height) => InputEvent::Resize(width, height),
        TerminalEvent::Other => InputEvent::Idle,
    }
}

} // verus!
