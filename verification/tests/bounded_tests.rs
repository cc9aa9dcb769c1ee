use life_engine::bounded::{wrap_index, BoundedBoard};

/// Toroidal wraparound at the corner: on a 5x4 board, the cell at
/// (4, 3) is diagonally adjacent to (0, 0).
#[test]
fn corner_wraps_to_opposite_corner() {
    let mut board = BoundedBoard::new(5, 4);
    board.set(0, 0, true);
    assert_eq!(board.count_adjacent(4, 3), 1);
    board.clear();
    board.set(4, 3, true);
    assert_eq!(board.count_adjacent(0, 0), 1);
}

/// The canonical modulo wrap holds for any offset, not only one step.
#[test]
fn wrap_index_is_canonical_modulo() {
    assert_eq!(wrap_index(-1, 5), 4);
    assert_eq!(wrap_index(5, 5), 0);
    assert_eq!(wrap_index(-7, 5), 3);
    assert_eq!(wrap_index(12, 5), 2);
    assert_eq!(wrap_index(0, 5), 0);
}

/// Out-of-range get and set wrap onto the torus.
#[test]
fn bounded_get_and_set_wrap() {
    let mut board = BoundedBoard::new(6, 6);
    board.set(-1, -1, true);
    assert!(board.get(5, 5));
    assert!(board.get(-1, -1));
    assert!(!board.get(0, 0));
}

/// A blinker inside a bounded board oscillates exactly as in the
/// unbounded world.
#[test]
fn bounded_blinker_oscillates() {
    let mut board = BoundedBoard::new(9, 9);
    board.set(4, 3, true);
    board.set(4, 4, true);
    board.set(4, 5, true);
    board.step();
    assert!(board.get(3, 4));
    assert!(board.get(4, 4));
    assert!(board.get(5, 4));
    assert!(!board.get(4, 3));
    assert!(!board.get(4, 5));
    board.step();
    assert!(board.get(4, 3));
    assert!(board.get(4, 4));
    assert!(board.get(4, 5));
    assert!(!board.get(3, 4));
    assert!(!board.get(5, 4));
}

/// Every cell of a bounded board is evaluated: a row spanning the full
/// width wraps into itself, so each live cell keeps exactly 2 neighbors.
#[test]
fn full_ring_row_is_stable() {
    let mut board = BoundedBoard::new(5, 7);
    for x in 0..5 {
        board.set(x, 3, true);
    }
    assert_eq!(board.count_adjacent(0, 3), 2);
    board.step();
    // the ring survives; the rows above and below each saw 3 neighbors
    for x in 0..5 {
        assert!(board.get(x, 3));
        assert!(board.get(x, 2));
        assert!(board.get(x, 4));
    }
}

/// Iteration lists every live cell exactly once.
#[test]
fn bounded_iterate_alive_lists_live_cells() {
    let mut board = BoundedBoard::new(7, 5);
    board.set(0, 0, true);
    board.set(6, 4, true);
    board.set(3, 2, true);
    let mut alive = board.iterate_alive();
    alive.sort();
    assert_eq!(alive, vec![(0, 0), (3, 2), (6, 4)]);
}

/// Clear resets every cell and keeps the dimensions.
#[test]
fn bounded_clear_kills_all() {
    let mut board = BoundedBoard::new(4, 4);
    board.set(1, 2, true);
    board.set(3, 3, true);
    board.clear();
    for x in 0..4 {
        for y in 0..4 {
            assert!(!board.get(x, y));
        }
    }
}
