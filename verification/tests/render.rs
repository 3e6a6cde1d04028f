use tide::life::Board;
use tide::render::render_frame;

#[test]
fn frame_packs_two_rows_per_line() {
    let mut b = Board::new(3, 3);
    b.set(0, 0, true);
    b.set(1, 1, true);
    b.set(2, 2, true);
    b.set(0, 2, true);
    assert_eq!(render_frame(&b), "\u{2580}\u{2584} \r\n\u{2580} \u{2580}");
}

#[test]
fn full_block_for_two_live_cells() {
    let mut b = Board::new(2, 2);
    b.set(1, 0, true);
    b.set(1, 1, true);
    assert_eq!(render_frame(&b), " \u{2588}");
}

#[test]
fn empty_board_is_spaces_without_trailing_break() {
    let b = Board::new(4, 4);
    assert_eq!(render_frame(&b), "    \r\n    ");
}

#[test]
fn board_without_rows_renders_nothing() {
    let b = Board::new(5, 0);
    assert_eq!(render_frame(&b), "");
}

#[test]
fn frame_length_formula() {
    // lines = ceil(h / 2); chars = lines * w + 2 * (lines - 1)
    for &(w, h) in &[(1usize, 1usize), (7, 5), (10, 8), (3, 2)] {
        let b = Board::new(w, h);
        let lines = (h + 1) / 2;
        assert_eq!(render_frame(&b).chars().count(), lines * w + 2 * (lines - 1));
        assert_eq!(render_frame(&b).matches("\r\n").count(), lines - 1);
    }
}

#[test]
fn different_boards_give_different_frames() {
    let mut a = Board::new(3, 3);
    let mut b = Board::new(3, 3);
    a.set(1, 1, true);
    b.set(1, 0, true);
    assert_ne!(render_frame(&a), render_frame(&b));
    b.set(1, 0, false);
    b.set(1, 1, true);
    assert_eq!(render_frame(&a), render_frame(&b));
}
