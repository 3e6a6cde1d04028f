use tide::life::{Board, Rules};

fn board_with(width: usize, height: usize, live: &[(usize, usize)]) -> Board {
    let mut b = Board::new(width, height);
    for &(x, y) in live {
        b.set(x, y, true);
    }
    b
}

fn live_cells(b: &Board) -> Vec<(usize, usize)> {
    let mut out = Vec::new();
    for y in 0..b.height() {
        for x in 0..b.width() {
            if b.is_alive(x, y) {
                out.push((x, y));
            }
        }
    }
    out
}

#[test]
fn default_rules_are_b3_s23() {
    let r = Rules::default();
    assert_eq!(r.birth, vec![3]);
    assert_eq!(r.survive, vec![2, 3]);
}

#[test]
fn new_board_is_dead_and_sized() {
    let b = Board::new(7, 4);
    assert_eq!(b.width(), 7);
    assert_eq!(b.height(), 4);
    assert!(live_cells(&b).is_empty());
}

#[test]
fn zero_sized_board() {
    let mut b = Board::new(0, 5);
    assert_eq!(b.width(), 0);
    assert_eq!(b.height(), 5);
    b.step();
    assert_eq!(b.height(), 5);
}

#[test]
fn set_then_read_back() {
    let mut b = Board::new(4, 3);
    b.set(2, 1, true);
    assert!(b.is_alive(2, 1));
    assert!(!b.is_alive(1, 2));
    b.set(2, 1, false);
    assert!(!b.is_alive(2, 1));
}

#[test]
fn positions_are_row_major() {
    // x past the row end addresses the next row: index y * width + x.
    let mut b = Board::new(4, 3);
    b.set(5, 0, true);
    assert!(b.is_alive(1, 1));
}

#[test]
fn neighbours_wrap_around_the_torus() {
    let b = board_with(5, 5, &[(4, 4), (0, 4), (4, 0)]);
    assert_eq!(b.count_live_neighbors(0, 0), 3);
    assert_eq!(b.count_live_neighbors(2, 2), 0);
    assert_eq!(b.count_live_neighbors(4, 4), 2);
}

#[test]
fn cell_does_not_count_itself() {
    let b = board_with(5, 5, &[(2, 2)]);
    assert_eq!(b.count_live_neighbors(2, 2), 0);
    assert_eq!(b.count_live_neighbors(1, 1), 1);
}

#[test]
fn full_board_has_eight_neighbours() {
    let mut b = Board::new(4, 4);
    for y in 0..4 {
        for x in 0..4 {
            b.set(x, y, true);
        }
    }
    assert_eq!(b.count_live_neighbors(0, 3), 8);
}

#[test]
fn single_cell_torus_sees_itself_eight_times() {
    let b = board_with(1, 1, &[(0, 0)]);
    assert_eq!(b.count_live_neighbors(0, 0), 8);
}

#[test]
fn coordinates_past_the_edge_wrap() {
    let b = board_with(5, 5, &[(1, 1)]);
    // (5, 5) wraps to (0, 0) whose neighbour (1, 1) is alive.
    assert_eq!(b.count_live_neighbors(5, 5), 1);
}

#[test]
fn blinker_oscillates() {
    let mut b = board_with(5, 5, &[(1, 2), (2, 2), (3, 2)]);
    b.step();
    assert_eq!(live_cells(&b), vec![(2, 1), (2, 2), (2, 3)]);
    b.step();
    assert_eq!(live_cells(&b), vec![(1, 2), (2, 2), (3, 2)]);
}

#[test]
fn block_is_still() {
    let mut b = board_with(6, 6, &[(2, 2), (3, 2), (2, 3), (3, 3)]);
    b.step();
    assert_eq!(live_cells(&b), vec![(2, 2), (3, 2), (2, 3), (3, 3)]);
}

#[test]
fn lonely_cell_dies() {
    let mut b = board_with(5, 5, &[(2, 2)]);
    b.step();
    assert!(live_cells(&b).is_empty());
}

#[test]
fn empty_board_stays_empty() {
    let mut b = Board::new(6, 4);
    b.step();
    b.step();
    assert!(live_cells(&b).is_empty());
}

#[test]
fn glider_moves_diagonally_every_four_generations() {
    let glider = [(1, 0), (2, 1), (0, 2), (1, 2), (2, 2)];
    let mut b = board_with(8, 8, &glider);
    for _ in 0..4 {
        b.step();
    }
    let mut expected: Vec<(usize, usize)> = glider.iter().map(|&(x, y)| (x + 1, y + 1)).collect();
    expected.sort_by_key(|&(x, y)| (y, x));
    assert_eq!(live_cells(&b), expected);
}

#[test]
fn glider_wraps_across_the_edges() {
    let glider = [(1, 0), (2, 1), (0, 2), (1, 2), (2, 2)];
    let mut b = board_with(5, 5, &glider);
    for _ in 0..20 {
        b.step();
    }
    // 20 generations move it 5 cells right and 5 down: back where it started.
    let mut expected: Vec<(usize, usize)> = glider.to_vec();
    expected.sort_by_key(|&(x, y)| (y, x));
    assert_eq!(live_cells(&b), expected);
}

#[test]
fn custom_rule_is_used() {
    // B1/S: every cell with exactly one live neighbour is born, nothing survives.
    let rules = Rules { birth: vec![1], survive: vec![] };
    let mut b = Board::with_rules(5, 5, rules);
    b.set(2, 2, true);
    b.step();
    let live = live_cells(&b);
    assert_eq!(live.len(), 8);
    assert!(!live.contains(&(2, 2)));
}

#[test]
fn birth_at_zero_fills_an_empty_board() {
    let rules = Rules { birth: vec![0], survive: vec![] };
    let mut b = Board::with_rules(3, 2, rules);
    b.step();
    assert_eq!(live_cells(&b).len(), 6);
}

#[test]
fn stepping_commutes_with_moving_on_the_torus() {
    let pattern = [(0, 0), (1, 0), (4, 1), (0, 4), (2, 2), (3, 2), (2, 3)];
    let (w, h, a, b) = (6usize, 5usize, 4usize, 3usize);
    let mut unmoved = board_with(w, h, &pattern);
    let moved: Vec<(usize, usize)> = pattern.iter().map(|&(x, y)| ((x + a) % w, (y + b) % h)).collect();
    let mut shifted = board_with(w, h, &moved);
    unmoved.step();
    shifted.step();
    let mut expected: Vec<(usize, usize)> =
        live_cells(&unmoved).iter().map(|&(x, y)| ((x + a) % w, (y + b) % h)).collect();
    expected.sort_by_key(|&(x, y)| (y, x));
    assert_eq!(live_cells(&shifted), expected);
}

#[test]
fn step_depends_only_on_visible_cells() {
    // one board reaches the blinker's vertical phase by stepping, the other is drawn so
    let mut stepped = board_with(5, 5, &[(1, 2), (2, 2), (3, 2)]);
    stepped.step();
    let mut drawn = board_with(5, 5, &[(2, 1), (2, 2), (2, 3)]);
    stepped.step();
    drawn.step();
    assert_eq!(live_cells(&stepped), live_cells(&drawn));
}

#[test]
fn new_is_with_rules_b3_s23() {
    let pattern = [(1, 1), (2, 1), (3, 1), (3, 0), (2, 3)];
    let mut a = board_with(6, 6, &pattern);
    let mut b = Board::with_rules(6, 6, Rules::default());
    for &(x, y) in &pattern {
        b.set(x, y, true);
    }
    for _ in 0..6 {
        a.step();
        b.step();
        assert_eq!(live_cells(&a), live_cells(&b));
    }
    assert_eq!((a.width(), a.height()), (b.width(), b.height()));
}

#[test]
fn sizes_survive_writes_and_steps() {
    let mut b = Board::new(7, 3);
    b.set(6, 2, true);
    b.step();
    b.set(0, 0, true);
    b.step();
    assert_eq!((b.width(), b.height()), (7, 3));
    assert_eq!(live_cells(&b).len(), 0);
}
