use life_engine::sparse::{next_cell_state, SparseBoard};

/// Birth: a dead cell with exactly 3 live neighbors becomes alive.
#[test]
fn dead_cell_with_three_neighbors_is_born() {
    let mut board = SparseBoard::new();
    board.set(0, 0, true);
    board.set(1, 0, true);
    board.set(2, 0, true);
    assert_eq!(board.count_adjacent(1, 1), 3);
    assert!(!board.get(1, 1));
    board.step();
    assert!(board.get(1, 1));
}

/// A dead cell with 2 live neighbors stays dead: 3 is the only birth count.
#[test]
fn dead_cell_with_two_neighbors_stays_dead() {
    let mut board = SparseBoard::new();
    board.set(0, 0, true);
    board.set(2, 0, true);
    assert_eq!(board.count_adjacent(1, 1), 2);
    board.step();
    assert!(!board.get(1, 1));
}

/// Underpopulation: a live cell with fewer than 2 live neighbors dies.
#[test]
fn live_cell_with_one_neighbor_dies() {
    let mut board = SparseBoard::new();
    board.set(0, 0, true);
    board.set(0, 1, true);
    assert_eq!(board.count_adjacent(0, 0), 1);
    board.step();
    assert!(!board.get(0, 0));
    assert!(!board.get(0, 1));
}

/// Survival: a live cell with 2 or 3 live neighbors stays alive.
#[test]
fn live_cell_with_two_or_three_neighbors_survives() {
    let mut board = SparseBoard::new();
    // a 2x2 block: every cell has exactly 3 live neighbors
    board.set(0, 0, true);
    board.set(1, 0, true);
    board.set(0, 1, true);
    board.set(1, 1, true);
    assert_eq!(board.count_adjacent(0, 0), 3);
    board.step();
    assert!(board.get(0, 0));
    assert!(board.get(1, 0));
    assert!(board.get(0, 1));
    assert!(board.get(1, 1));
}

/// Overpopulation: a live cell with more than 3 live neighbors dies.
#[test]
fn live_cell_with_four_neighbors_dies() {
    let mut board = SparseBoard::new();
    board.set(0, 0, true);
    board.set(1, 0, true);
    board.set(2, 0, true);
    board.set(0, 1, true);
    board.set(1, 1, true);
    assert_eq!(board.count_adjacent(1, 0), 4);
    board.step();
    assert!(!board.get(1, 0));
}

/// The pure rule table: B3/S23 exactly.
#[test]
fn rule_table_is_b3_s23() {
    for n in 0..=8 {
        assert_eq!(next_cell_state(true, n), n == 2 || n == 3);
        assert_eq!(next_cell_state(false, n), n == 3);
    }
}

/// The 2x2 block is a still life: unchanged after many generations.
#[test]
fn block_still_life_is_stable() {
    let mut board = SparseBoard::new();
    board.set(10, 10, true);
    board.set(11, 10, true);
    board.set(10, 11, true);
    board.set(11, 11, true);
    for _ in 0..25 {
        board.step();
        let alive = board.iterate_alive();
        assert_eq!(alive.len(), 4);
        assert!(board.get(10, 10));
        assert!(board.get(11, 10));
        assert!(board.get(10, 11));
        assert!(board.get(11, 11));
    }
}

/// The blinker oscillates: horizontal to vertical and back.
#[test]
fn blinker_oscillates_with_period_two() {
    let mut board = SparseBoard::new();
    board.set(1, 0, true);
    board.set(1, 1, true);
    board.set(1, 2, true);
    board.step();
    let alive = board.iterate_alive();
    assert_eq!(alive.len(), 3);
    assert!(board.get(0, 1));
    assert!(board.get(1, 1));
    assert!(board.get(2, 1));
    board.step();
    let alive = board.iterate_alive();
    assert_eq!(alive.len(), 3);
    assert!(board.get(1, 0));
    assert!(board.get(1, 1));
    assert!(board.get(1, 2));
}

/// Set, get, clear and iteration on the sparse board.
#[test]
fn sparse_board_set_get_clear() {
    let mut board = SparseBoard::new();
    assert!(!board.get(-5, 7));
    board.set(-5, 7, true);
    assert!(board.get(-5, 7));
    // setting the same cell twice stores it once
    board.set(-5, 7, true);
    assert_eq!(board.iterate_alive().len(), 1);
    board.set(-5, 7, false);
    assert!(!board.get(-5, 7));
    // removing an absent cell is a no-op
    board.set(-5, 7, false);
    assert_eq!(board.iterate_alive().len(), 0);
    board.set(3, 4, true);
    board.set(8, 9, true);
    board.clear();
    assert_eq!(board.iterate_alive().len(), 0);
    assert!(!board.get(3, 4));
}

/// A live cell at the edge of the coordinate range blocks the guarded
/// step: the world is left unchanged instead of overflowing neighbor
/// arithmetic.
#[test]
fn try_step_skips_at_coordinate_edge() {
    let mut board = life_engine::sparse::SparseBoard::new();
    board.set(i32::MAX, 0, true);
    board.set(0, 0, true);
    assert!(!board.try_step());
    assert!(board.get(i32::MAX, 0));
    assert!(board.get(0, 0));
    board.set(i32::MAX, 0, false);
    // far from the edge the guarded step runs: a lone cell dies
    assert!(board.try_step());
    assert!(!board.get(0, 0));
}

/// An empty world stays empty.
#[test]
fn empty_world_stays_empty() {
    let mut board = SparseBoard::new();
    board.step();
    assert_eq!(board.iterate_alive().len(), 0);
}
