use life_engine::viewport::Viewport;

/// Viewport round trip: for any pan offset, the top-left corner of a
/// cell's screen rectangle maps back to the same cell.
#[test]
fn screen_world_round_trip() {
    let origins = [(0, 0), (35, -17), (-1000, 999), (123456, -654321)];
    let cells = [(0, 0), (5, 7), (-3, -9), (-1, 2), (1000, -1000)];
    for &(ox, oy) in origins.iter() {
        let vp = Viewport::new(ox, oy, 20, 2);
        for &(cx, cy) in cells.iter() {
            let rect = vp.world_to_screen(cx, cy);
            let (wx, wy) = vp.screen_to_world(rect.x, rect.y);
            assert_eq!((wx, wy), (cx, cy));
        }
    }
}

/// World-to-screen places the tile by the pan origin and insets it by
/// the gutter on every side.
#[test]
fn world_to_screen_applies_origin_and_inset() {
    let vp = Viewport::new(40, -10, 20, 2);
    let rect = vp.world_to_screen(3, -2);
    assert_eq!(rect.x, 3 * 20 - 40 + 2);
    assert_eq!(rect.y, -2 * 20 + 10 + 2);
    assert_eq!(rect.width, 16);
    assert_eq!(rect.height, 16);
}

/// Screen-to-world uses floor division, so negative world pixels fall
/// into the correct cell instead of collapsing toward zero.
#[test]
fn screen_to_world_floors_negative_coordinates() {
    let vp = Viewport::new(-50, -50, 20, 2);
    // world pixel -41 lies in cell -3 ([-60, -40))
    assert_eq!(vp.screen_to_world(9, 9), (-3, -3));
    // world pixel -40 lies in cell -2 ([-40, -20))
    assert_eq!(vp.screen_to_world(10, 10), (-2, -2));
    // world pixel 0 lies in cell 0
    assert_eq!(vp.screen_to_world(50, 50), (0, 0));
}

/// Panning moves the origin opposite to the pointer motion and is
/// incremental from the latest drag point.
#[test]
fn pan_moves_origin_by_pointer_delta() {
    let mut vp = Viewport::new(0, 0, 20, 2);
    vp.pan(100, 100, 90, 120);
    assert_eq!(vp.origin_x, 10);
    assert_eq!(vp.origin_y, -20);
    vp.pan(90, 120, 90, 120);
    assert_eq!(vp.origin_x, 10);
    assert_eq!(vp.origin_y, -20);
}

/// The culling predicate keeps exactly the cells whose tile corner lies
/// inside the window.
#[test]
fn cell_visible_culls_by_window() {
    let vp = Viewport::new(0, 0, 20, 2);
    assert!(vp.cell_visible(0, 0, 1600, 900));
    assert!(vp.cell_visible(79, 44, 1600, 900));
    assert!(!vp.cell_visible(80, 0, 1600, 900));
    assert!(!vp.cell_visible(0, 45, 1600, 900));
    assert!(!vp.cell_visible(-1, 0, 1600, 900));
    let panned = Viewport::new(-20, -20, 20, 2);
    assert!(panned.cell_visible(-1, -1, 1600, 900));
}
