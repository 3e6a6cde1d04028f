use crossterm::event::{KeyCode, KeyModifiers};
use tide::app::App;
use tide::input::InputEvent;
use tide::life::Board;
use tide::render::render_frame;

/// The frame a freshly seeded `w` by `h` board shows after one generation.
fn expected_first_frame(w: usize, h: usize) -> String {
    let mut b = Board::new(w, h);
    let (cx, cy) = (w / 2, h / 2);
    for &(dx, dy) in &[(1, 0), (2, 1), (0, 2), (1, 2), (2, 2)] {
        b.set((cx + dx) % w, (cy + dy) % h, true);
    }
    b.step();
    render_frame(&b)
}

#[test]
fn key_press_ends_the_screensaver() {
    let mut app = App::new(Some((20, 10)));
    let r = app.tick(InputEvent::KeyPress(KeyCode::Char('q'), KeyModifiers::NONE));
    assert!(r.is_none());
    // nothing changed: the next idle tick shows the first generation
    assert_eq!(app.tick(InputEvent::Idle), Some(expected_first_frame(19, 20)));
}

#[test]
fn idle_tick_steps_and_draws() {
    let mut app = App::new(Some((20, 10)));
    let frame = app.tick(InputEvent::Idle).unwrap();
    assert_eq!(frame, expected_first_frame(19, 20));
    assert_eq!(frame.matches("\r\n").count(), 9);
}

#[test]
fn unknown_size_defaults_to_80_by_24() {
    let mut app = App::new(None);
    let frame = app.tick(InputEvent::Idle).unwrap();
    assert_eq!(frame, expected_first_frame(79, 48));
    assert_eq!(frame.chars().count(), 79 * 24 + 2 * 23);
}

#[test]
fn one_column_terminal_gives_one_cell_wide_board() {
    let mut app = App::new(Some((1, 3)));
    let frame = app.tick(InputEvent::Idle).unwrap();
    assert_eq!(frame, expected_first_frame(1, 6));
    assert_eq!(frame.chars().count(), 3 + 2 * 2);
}

#[test]
fn resize_reseeds_at_the_new_size() {
    let mut app = App::new(Some((20, 10)));
    app.tick(InputEvent::Idle);
    app.tick(InputEvent::Idle);
    let frame = app.tick(InputEvent::Resize(31, 7)).unwrap();
    assert_eq!(frame, expected_first_frame(30, 14));
}

#[test]
fn glider_keeps_flying() {
    let mut app = App::new(Some((41, 20)));
    let mut b = Board::new(40, 40);
    for &(dx, dy) in &[(1, 0), (2, 1), (0, 2), (1, 2), (2, 2)] {
        b.set(20 + dx, 20 + dy, true);
    }
    for _ in 0..10 {
        b.step();
        assert_eq!(app.tick(InputEvent::Idle), Some(render_frame(&b)));
    }
}

#[test]
fn resize_forgets_the_past() {
    let mut a = App::new(Some((20, 10)));
    let mut b = App::new(None);
    for _ in 0..5 {
        a.tick(InputEvent::Idle);
    }
    let fa = a.tick(InputEvent::Resize(25, 8));
    let fb = b.tick(InputEvent::Resize(25, 8));
    assert_eq!(fa, fb);
    let fa2 = a.tick(InputEvent::Resize(25, 8));
    assert_eq!(fa2, fb);
}
