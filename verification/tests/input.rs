use crossterm::event::{KeyCode, KeyModifiers};
use tide::input::{classify_event, InputEvent, KeyKind, TerminalEvent};

#[test]
fn key_press_is_reported() {
    let e = classify_event(TerminalEvent::Key(KeyCode::Esc, KeyModifiers::SHIFT, KeyKind::Press));
    assert!(matches!(e, InputEvent::KeyPress(KeyCode::Esc, m) if m == KeyModifiers::SHIFT));
}

#[test]
fn key_repeat_and_release_are_ignored() {
    let e = classify_event(TerminalEvent::Key(KeyCode::Char('a'), KeyModifiers::NONE, KeyKind::Repeat));
    assert!(matches!(e, InputEvent::Idle));
    let e = classify_event(TerminalEvent::Key(KeyCode::Char('a'), KeyModifiers::NONE, KeyKind::Release));
    assert!(matches!(e, InputEvent::Idle));
}

#[test]
fn resize_is_reported() {
    assert!(matches!(classify_event(TerminalEvent::Resize(100, 40)), InputEvent::Resize(100, 40)));
}

#[test]
fn other_events_are_ignored() {
    assert!(matches!(classify_event(TerminalEvent::Other), InputEvent::Idle));
}
