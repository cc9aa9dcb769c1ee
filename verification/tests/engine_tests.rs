use life_engine::engine::{Button, InputEvent, Key, SimulationState};

/// Clicking a dead cell while paused makes it alive; clicking it again
/// makes it dead.
#[test]
fn click_toggles_cell_while_paused() {
    let mut state = SimulationState::new(10);
    // pixel (45, 30) with origin 0 and tile 20 is cell (2, 1)
    state.handle_event(InputEvent::ButtonDown(Button::Left, 45, 30));
    state.frame(45, 30);
    assert!(state.board.get(2, 1));
    state.handle_event(InputEvent::ButtonUp(Button::Left));
    state.handle_event(InputEvent::ButtonDown(Button::Left, 45, 30));
    state.frame(45, 30);
    assert!(!state.board.get(2, 1));
}

/// Clicking while running is a no-op on the board.
#[test]
fn click_while_running_is_ignored() {
    let mut state = SimulationState::new(10);
    state.handle_event(InputEvent::KeyDown(Key::Space));
    assert!(state.running);
    state.handle_event(InputEvent::ButtonDown(Button::Left, 45, 30));
    state.frame(45, 30);
    assert!(!state.board.get(2, 1));
    assert_eq!(state.board.iterate_alive().len(), 0);
}

/// Dragging with the left button held paints every cell under the
/// pointer with the latched mode.
#[test]
fn drag_paints_cells_with_latched_mode() {
    let mut state = SimulationState::new(10);
    state.handle_event(InputEvent::ButtonDown(Button::Left, 5, 5));
    state.frame(5, 5);
    state.frame(25, 5);
    state.frame(45, 5);
    assert!(state.board.get(0, 0));
    assert!(state.board.get(1, 0));
    assert!(state.board.get(2, 0));
}

/// Space toggles running; Escape and Quit request termination.
#[test]
fn keyboard_controls_run_state_and_quit() {
    let mut state = SimulationState::new(10);
    assert!(!state.running);
    state.handle_event(InputEvent::KeyDown(Key::Space));
    assert!(state.running);
    state.handle_event(InputEvent::KeyDown(Key::Space));
    assert!(!state.running);
    assert!(!state.quit);
    state.handle_event(InputEvent::KeyDown(Key::Escape));
    assert!(state.quit);
    let mut other = SimulationState::new(10);
    other.handle_event(InputEvent::Quit);
    assert!(other.quit);
}

/// R clears the board, pauses the simulation, and rewinds clock and pan.
#[test]
fn reset_clears_everything() {
    let mut state = SimulationState::new(10);
    state.handle_event(InputEvent::ButtonDown(Button::Left, 5, 5));
    state.frame(5, 5);
    state.handle_event(InputEvent::ButtonUp(Button::Left));
    state.handle_event(InputEvent::KeyDown(Key::Space));
    state.handle_event(InputEvent::ButtonDown(Button::Middle, 0, 0));
    state.frame(-30, -40);
    assert_eq!(state.viewport.origin_x, 30);
    assert_eq!(state.viewport.origin_y, 40);
    state.handle_event(InputEvent::KeyDown(Key::R));
    assert_eq!(state.board.iterate_alive().len(), 0);
    assert!(!state.running);
    assert_eq!(state.clock.frame_count, 0);
    assert_eq!(state.viewport.origin_x, 0);
    assert_eq!(state.viewport.origin_y, 0);
}

/// The middle button pans the viewport frame by frame while held.
#[test]
fn middle_drag_pans_incrementally() {
    let mut state = SimulationState::new(10);
    state.handle_event(InputEvent::ButtonDown(Button::Middle, 100, 100));
    state.frame(90, 120);
    assert_eq!(state.viewport.origin_x, 10);
    assert_eq!(state.viewport.origin_y, -20);
    state.frame(90, 120);
    assert_eq!(state.viewport.origin_x, 10);
    assert_eq!(state.viewport.origin_y, -20);
    state.handle_event(InputEvent::ButtonUp(Button::Middle));
    state.frame(0, 0);
    assert_eq!(state.viewport.origin_x, 10);
    assert_eq!(state.viewport.origin_y, -20);
}

/// A pan that would push the origin past the integer range leaves the
/// origin where it is; the drag still re-bases to the pointer.
#[test]
fn pan_stops_at_integer_edge() {
    let mut state = SimulationState::new(10);
    state.viewport = life_engine::viewport::Viewport::new(i32::MAX - 5, 0, 20, 2);
    state.handle_event(InputEvent::ButtonDown(Button::Middle, 0, 0));
    state.frame(-100, 0);
    assert_eq!(state.viewport.origin_x, i32::MAX - 5);
    state.frame(-100, 0);
    // the re-based drag start equals the pointer, so a fitting pan of
    // zero distance leaves the origin alone as well
    assert_eq!(state.viewport.origin_x, i32::MAX - 5);
}

/// While running at rate 10, the generation advances on every sixth
/// frame: a blinker flips on a stepping frame and not before.
#[test]
fn simulation_steps_on_stepping_frames_only() {
    let mut state = SimulationState::new(10);
    // paint a blinker by clicks
    for y in 0..3 {
        state.handle_event(InputEvent::ButtonDown(Button::Left, 25, 5 + 20 * y));
        state.frame(25, 5 + 20 * y);
        state.handle_event(InputEvent::ButtonUp(Button::Left));
    }
    assert!(state.board.get(1, 0));
    assert!(state.board.get(1, 1));
    assert!(state.board.get(1, 2));
    state.handle_event(InputEvent::KeyDown(Key::Space));
    // three paint frames already passed; stepping resumes when the
    // counter reaches 6
    let mut steps = 0;
    for _ in 0..3 {
        if state.frame(0, 500) {
            steps += 1;
        }
    }
    assert_eq!(steps, 1);
    assert!(state.board.get(0, 1));
    assert!(state.board.get(1, 1));
    assert!(state.board.get(2, 1));
    // no step for five more frames; the sixth steps back
    for _ in 0..5 {
        assert!(!state.frame(0, 500));
    }
    assert!(state.frame(0, 500));
    assert!(state.board.get(1, 0));
    assert!(state.board.get(1, 1));
    assert!(state.board.get(1, 2));
}

/// The rendering output holds one tile rectangle per live cell inside
/// the window, placed by the viewport transform.
#[test]
fn visible_tiles_lists_live_cells_in_window() {
    let mut state = SimulationState::new(10);
    state.handle_event(InputEvent::ButtonDown(Button::Left, 5, 5));
    state.frame(5, 5);
    state.handle_event(InputEvent::ButtonUp(Button::Left));
    // one live cell at (0, 0), visible in a 1600x900 window
    let (tiles, _) = state.visible_tiles(1600, 900);
    assert_eq!(tiles.len(), 1);
    assert_eq!(tiles[0].x, 2);
    assert_eq!(tiles[0].y, 2);
    assert_eq!(tiles[0].width, 16);
    assert_eq!(tiles[0].height, 16);
    // panned far away, the cell is culled
    state.handle_event(InputEvent::ButtonDown(Button::Middle, 0, 0));
    state.frame(-2000, 0);
    let (tiles, _) = state.visible_tiles(1600, 900);
    assert_eq!(tiles.len(), 0);
}
