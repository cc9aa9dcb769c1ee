//! The interactive engine: one state record for the whole simulation,
//! an input controller that turns decoded host events into state
//! transitions, and the per-frame update that paints, pans and advances
//! the generation on the stepping frames of the clock.

use crate::clock::{steps_on_frame, SimulationClock};
use crate::sparse::{step_spec, world_steppable, SparseBoard};
use crate::viewport::{TileRect, Viewport};
use crate::{TILE_INSET, TILE_SIZE};
use vstd::prelude::*;

verus! {

/// A key the engine recognizes.
#[derive(Clone, Copy, PartialEq, Eq, Structural)]
pub enum Key {
    Escape,
    Space,
    R,
    Other,
}

/// A mouse button the engine recognizes.
#[derive(Clone, Copy, PartialEq, Eq, Structural)]
pub enum Button {
    Left,
    Middle,
    Other,
}

/// One decoded input event from the host event layer; button events
/// carry the pointer position in screen pixels.
#[derive(Clone, Copy, PartialEq, Eq, Structural)]
pub enum InputEvent {
    Quit,
    KeyDown(Key),
    ButtonDown(Button, i32, i32),
    ButtonUp(Button),
}

/// The whole simulation: board, viewport, clock, and the run/drag flags
/// of the input controller.
pub struct SimulationState {
    pub board: SparseBoard,
    pub viewport: Viewport,
    pub clock: SimulationClock,
    pub running: bool,
    pub quit: bool,
    pub hold_left: bool,
    pub hold_middle: bool,
    pub add_cell: bool,
    pub drag_start_x: i32,
    pub drag_start_y: i32,
}

impl SimulationState {
    /// Every component invariant holds and the viewport carries the
    /// configured tile geometry.
    pub open spec fn well_formed(self) -> bool {
        &&& self.board.well_formed()
        &&& self.viewport.well_formed()
        &&& self.clock.well_formed()
        &&& self.viewport.tile_size == TILE_SIZE
        &&& self.viewport.inset == TILE_INSET
    }

    /// The world cell under the screen pixel (px, py).
    pub open spec fn cell_under(self, px: int, py: int) -> (int, int) {
        (self.viewport.world_x_spec(px), self.viewport.world_y_spec(py))
    }

    /// The paint mode a left press latches: add when the cell under the
    /// pointer is dead, remove when it is alive.
    pub open spec fn latched_add(self, px: int, py: int) -> bool {
        !self.board@.contains(self.cell_under(px, py))
    }

    /// The board after the held left button is applied at the pointer:
    /// while paused it writes the latched paint mode into the cell under
    /// the pointer; while running, or with the button up, edits are
    /// ignored.
    pub open spec fn painted_board(self, px: int, py: int) -> Set<(int, int)> {
        if self.hold_left && !self.running {
            if self.add_cell {
                self.board@.insert(self.cell_under(px, py))
            } else {
                self.board@.remove(self.cell_under(px, py))
            }
        } else {
            self.board@
        }
    }

    /// Whether the held middle button can move the origin this frame
    /// without leaving the signed pixel range.
    pub open spec fn pan_fits(self, px: int, py: int) -> bool {
        &&& i32::MIN <= self.viewport.origin_x + (self.drag_start_x - px) <= i32::MAX
        &&& i32::MIN <= self.viewport.origin_y + (self.drag_start_y - py) <= i32::MAX
    }

    /// A fresh engine: empty board, origin at the window's top-left,
    /// paused, nothing held, counting from frame 0 at `rate` generations
    /// per second.
    pub fn new(rate: u32) -> (state: SimulationState)
        requires
            0 < rate <= 60,
        ensures
            state.well_formed(),
            state.board@ == Set::<(int, int)>::empty(),
            state.viewport.origin_x == 0,
            state.viewport.origin_y == 0,
            state.clock.frame_count == 0,
            state.clock.rate == rate,
            !state.running,
            !state.quit,
            !state.hold_left,
            !state.hold_middle,
    {
        SimulationState {
            board: SparseBoard::new(),
            viewport: Viewport::new(0, 0, TILE_SIZE, TILE_INSET),
            clock: SimulationClock::new(rate),
            running: false,
            quit: false,
            hold_left: false,
            hold_middle: false,
            add_cell: true,
            drag_start_x: 0,
            drag_start_y: 0,
        }
    }

    /// The pixel sums that screen-to-world divides stay well inside the
    /// range whose quotient by the tile size fits in i32.
    proof fn lemma_pointer_maps(self, px: int, py: int)
        requires
            self.well_formed(),
            i32::MIN <= px <= i32::MAX,
            i32::MIN <= py <= i32::MAX,
        ensures
            i32::MIN <= self.viewport.world_x_spec(px) <= i32::MAX,
            i32::MIN <= self.viewport.world_y_spec(py) <= i32::MAX,
    {
        crate::viewport::lemma_div_between(
            i32::MIN as int,
            i32::MAX as int,
            px + self.viewport.origin_x,
            self.viewport.tile_size as int,
        );
        crate::viewport::lemma_div_between(
            i32::MIN as int,
            i32::MAX as int,
            py + self.viewport.origin_y,
            self.viewport.tile_size as int,
        );
    }

    /// The input controller: apply one decoded event to the state.
    ///
    /// Quit and Escape request termination; Space toggles running; R
    /// clears the board, pauses, rewinds the clock and the pan; the
    /// middle button starts and stops a pan drag; the left button starts
    /// and stops painting, latching the paint mode from the cell under
    /// the press.
    pub fn handle_event(&mut self, event: InputEvent)
        requires
            old(self).well_formed(),
        ensures
            final(self).well_formed(),
            final(self).board@ == (match event {
                InputEvent::KeyDown(Key::R) => Set::<(int, int)>::empty(),
                _ => old(self).board@,
            }),
            final(self).running == (match event {
                InputEvent::KeyDown(Key::Space) => !old(self).running,
                InputEvent::KeyDown(Key::R) => false,
                _ => old(self).running,
            }),
            final(self).quit == (match event {
                InputEvent::Quit => true,
                InputEvent::KeyDown(Key::Escape) => true,
                _ => old(self).quit,
            }),
            final(self).hold_left == (match event {
                InputEvent::ButtonDown(Button::Left, _, _) => true,
                InputEvent::ButtonUp(Button::Left) => false,
                _ => old(self).hold_left,
            }),
            final(self).hold_middle == (match event {
                InputEvent::ButtonDown(Button::Middle, _, _) => true,
                InputEvent::ButtonUp(Button::Middle) => false,
                _ => old(self).hold_middle,
            }),
            final(self).add_cell == (match event {
                InputEvent::ButtonDown(Button::Left, x, y) => old(self).latched_add(
                    x as int,
                    y as int,
                ),
                _ => old(self).add_cell,
            }),
            (final(self).drag_start_x, final(self).drag_start_y) == (match event {
                InputEvent::ButtonDown(Button::Middle, x, y) => (x, y),
                _ => (old(self).drag_start_x, old(self).drag_start_y),
            }),
            final(self).viewport == (match event {
                InputEvent::KeyDown(Key::R) => Viewport {
                    origin_x: 0,
                    origin_y: 0,
                    ..old(self).viewport
                },
                _ => old(self).viewport,
            }),
            final(self).clock.rate == old(self).clock.rate,
            final(self).clock.frame_count == (match event {
                InputEvent::KeyDown(Key::R) => 0int,
                _ => old(self).clock.frame_count as int,
            }),
    {
        match event {
            InputEvent::Quit => {
                self.quit = true;
            },
            InputEvent::KeyDown(Key::Escape) => {
                self.quit = true;
            },
            InputEvent::KeyDown(Key::Space) => {
                self.running = !self.running;
            },
            InputEvent::KeyDown(Key::R) => {
                self.board.clear();
                self.running = false;
                self.viewport.origin_x = 0;
                self.viewport.origin_y = 0;
                self.clock.reset();
            },
            InputEvent::KeyDown(Key::Other) => {},
            InputEvent::ButtonDown(Button::Left, x, y) => {
                self.hold_left = true;
                proof {
                    self.lemma_pointer_maps(x as int, y as int);
                }
                let cell = self.viewport.screen_to_world(x, y);
                self.add_cell = !self.board.get(cell.0, cell.1);
            },
            InputEvent::ButtonUp(Button::Left) => {
                self.hold_left = false;
            },
            InputEvent::ButtonDown(Button::Middle, x, y) => {
                self.hold_middle = true;
                self.drag_start_x = x;
                self.drag_start_y = y;
            },
            InputEvent::ButtonUp(Button::Middle) => {
                self.hold_middle = false;
            },
            InputEvent::ButtonDown(Button::Other, _, _) => {},
            InputEvent::ButtonUp(Button::Other) => {},
        }
    }

    /// One frame, run after this frame's events: count the frame, apply
    /// a held paint at the pointer, apply a held pan, and advance one
    /// generation on a stepping frame while running. Reports
    /// whether a generation was computed; the step is skipped (only)
    /// when a live cell sits at the edge of the coordinate range, where
    /// neighbor arithmetic would overflow.
    pub fn frame(&mut self, pointer_x: i32, pointer_y: i32) -> (stepped: bool)
        requires
            old(self).well_formed(),
        ensures
            final(self).well_formed(),
            final(self).clock.rate == old(self).clock.rate,
            final(self).clock.frame_count == (if old(self).clock.frame_count + 1 == 60 {
                0int
            } else {
                old(self).clock.frame_count + 1
            }),
            stepped == (old(self).running && steps_on_frame(
                final(self).clock.frame_count as int,
                old(self).clock.rate as int,
            ) && world_steppable(old(self).painted_board(pointer_x as int, pointer_y as int))),
            final(self).board@ == (if stepped {
                step_spec(old(self).painted_board(pointer_x as int, pointer_y as int))
            } else {
                old(self).painted_board(pointer_x as int, pointer_y as int)
            }),
            final(self).viewport.origin_x == (if old(self).hold_middle && old(self).pan_fits(
                pointer_x as int,
                pointer_y as int,
            ) {
                old(self).viewport.origin_x + (old(self).drag_start_x - pointer_x)
            } else {
                old(self).viewport.origin_x as int
            }),
            final(self).viewport.origin_y == (if old(self).hold_middle && old(self).pan_fits(
                pointer_x as int,
                pointer_y as int,
            ) {
                old(self).viewport.origin_y + (old(self).drag_start_y - pointer_y)
            } else {
                old(self).viewport.origin_y as int
            }),
            final(self).viewport.tile_size == old(self).viewport.tile_size,
            final(self).viewport.inset == old(self).viewport.inset,
            (final(self).drag_start_x, final(self).drag_start_y) == (if old(self).hold_middle {
                (pointer_x, pointer_y)
            } else {
                (old(self).drag_start_x, old(self).drag_start_y)
            }),
            final(self).running == old(self).running,
            final(self).quit == old(self).quit,
            final(self).hold_left == old(self).hold_left,
            final(self).hold_middle == old(self).hold_middle,
            final(self).add_cell == old(self).add_cell,
    {
        self.clock.tick();
        if self.hold_left && !self.running {
            proof {
                self.lemma_pointer_maps(pointer_x as int, pointer_y as int);
            }
            let cell = self.viewport.screen_to_world(pointer_x, pointer_y);
            self.board.set(cell.0, cell.1, self.add_cell);
        }
        if self.hold_middle {
            let new_ox: i64 = self.viewport.origin_x as i64 + (self.drag_start_x as i64
                - pointer_x as i64);
            let new_oy: i64 = self.viewport.origin_y as i64 + (self.drag_start_y as i64
                - pointer_y as i64);
            if i32::MIN as i64 <= new_ox && new_ox <= i32::MAX as i64 && i32::MIN as i64 <= new_oy
                && new_oy <= i32::MAX as i64 {
                self.viewport.pan(self.drag_start_x, self.drag_start_y, pointer_x, pointer_y);
            }
            self.drag_start_x = pointer_x;
            self.drag_start_y = pointer_y;
        }
        if self.clock.should_step(self.running) {
            self.board.try_step()
        } else {
            false
        }
    }
}

/// The screen rectangle that draws the world cell `p`.
pub open spec fn rect_for(vp: Viewport, p: (int, int)) -> TileRect {
    TileRect {
        x: vp.screen_x_spec(p.0) as i32,
        y: vp.screen_y_spec(p.1) as i32,
        width: (vp.tile_size - 2 * vp.inset) as u32,
        height: (vp.tile_size - 2 * vp.inset) as u32,
    }
}

impl SimulationState {
    /// Whether the live cell `p` is drawn this frame: alive, and its
    /// tile corner falls inside the window.
    pub open spec fn drawn(self, p: (int, int), window_width: int, window_height: int) -> bool {
        self.board@.contains(p) && self.viewport.cell_visible_spec(
            p.0,
            p.1,
            window_width,
            window_height,
        )
    }

    /// The rendering output of a frame: one screen rectangle per live
    /// cell inside the window, in unspecified order, together with the
    /// (ghost) cell each rectangle draws. Every rectangle belongs to a
    /// drawn cell, and every drawn cell gets a rectangle; the host
    /// renderer clears the background, fills each rectangle, and
    /// presents.
    #[verifier::loop_isolation(false)]
    #[verifier::rlimit(100)]
    pub fn visible_tiles(&self, window_width: u32, window_height: u32) -> (out: (
        Vec<TileRect>,
        Ghost<Seq<(int, int)>>,
    ))
        requires
            self.well_formed(),
            window_width <= 0x4000_0000,
            window_height <= 0x4000_0000,
        ensures
            out.1@.len() == out.0@.len(),
            forall|t: int| #![trigger out.0@[t]] #![trigger out.1@[t]]
                0 <= t < out.0@.len() ==> self.drawn(
                    out.1@[t],
                    window_width as int,
                    window_height as int,
                ) && out.0@[t] == rect_for(self.viewport, out.1@[t]),
            forall|p: (int, int)|
                self.drawn(p, window_width as int, window_height as int)
                    ==> #[trigger] out.1@.contains(p),
    {
        let ghost ww = window_width as int;
        let ghost wh = window_height as int;
        let alive = self.board.iterate_alive();
        let mut tiles: Vec<TileRect> = Vec::new();
        let ghost mut drawn_cells: Seq<(int, int)> = Seq::empty();
        let mut k: usize = 0;
        while k < alive.len()
            invariant
                k <= alive@.len(),
                drawn_cells.len() == tiles@.len(),
                forall|t: int| #![trigger tiles@[t]] #![trigger drawn_cells[t]]
                    0 <= t < tiles@.len() ==> self.drawn(drawn_cells[t], ww, wh) && tiles@[t]
                        == rect_for(self.viewport, drawn_cells[t]),
                forall|j: int| #![trigger alive@[j]]
                    0 <= j < k && self.drawn(crate::sparse::cell_of(alive@[j]), ww, wh)
                        ==> drawn_cells.contains(crate::sparse::cell_of(alive@[j])),
            decreases alive@.len() - k,
        {
            let c = alive[k];
            if self.viewport.cell_visible(c.0, c.1, window_width, window_height) {
                let r = self.viewport.world_to_screen(c.0, c.1);
                let ghost prev = tiles@;
                let ghost prev_cells = drawn_cells;
                tiles.push(r);
                proof {
                    let p = crate::sparse::cell_of(alive@[k as int]);
                    drawn_cells = drawn_cells.push(p);
                    assert(drawn_cells[prev_cells.len() as int] == p);
                    assert(self.drawn(p, ww, wh));
                    assert(tiles@[prev.len() as int] == rect_for(self.viewport, p));
                    assert forall|j: int| #![trigger alive@[j]]
                        0 <= j < k + 1 && self.drawn(crate::sparse::cell_of(alive@[j]), ww, wh)
                        implies drawn_cells.contains(crate::sparse::cell_of(alive@[j])) by {
                        if j < k {
                            let t0 = choose|t: int|
                                0 <= t < prev_cells.len() && prev_cells[t]
                                    == crate::sparse::cell_of(alive@[j]);
                            assert(drawn_cells[t0] == crate::sparse::cell_of(alive@[j]));
                        } else {
                            assert(drawn_cells[prev_cells.len() as int] == crate::sparse::cell_of(
                                alive@[j],
                            ));
                        }
                    }
                }
            } else {
                proof {
                    let p = crate::sparse::cell_of(alive@[k as int]);
                    assert(!self.drawn(p, ww, wh));
                }
            }
            k = k + 1;
        }
        proof {
            assert forall|p: (int, int)| self.drawn(p, ww, wh) implies drawn_cells.contains(
                p,
            ) by {
                let j = choose|j: int|
                    0 <= j < alive@.len() && crate::sparse::cell_of(#[trigger] alive@[j]) == p;
                assert(self.drawn(crate::sparse::cell_of(alive@[j]), ww, wh));
            }
        }
        (tiles, Ghost(drawn_cells))
    }
}

/// Manual edit toggling, as one law over the input controller's latch
/// and the frame's paint: a left press latches the paint mode from the
/// cell under the pointer, so the paint of the same frame makes a dead
/// cell alive and a live cell dead; while running, painting leaves the
/// board untouched.
pub proof fn lemma_click_toggles(before: SimulationState, held: SimulationState, px: int, py: int)
    requires
        held.board@ == before.board@,
        held.running == before.running,
        held.viewport == before.viewport,
        held.hold_left,
        held.add_cell == before.latched_add(px, py),
    ensures
        !held.running && !before.board@.contains(before.cell_under(px, py))
            ==> held.painted_board(px, py).contains(before.cell_under(px, py)),
        !held.running && before.board@.contains(before.cell_under(px, py)) ==> !held.painted_board(
            px,
            py,
        ).contains(before.cell_under(px, py)),
        held.running ==> held.painted_board(px, py) == held.board@,
{
}

} // verus!
