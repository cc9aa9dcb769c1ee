//! A verified engine for Conway's Game of Life.
//!
//! The engine keeps an unbounded sparse world (only live cells are stored)
//! as well as a dense bounded world with toroidal wraparound, applies the
//! standard B3/S23 transition rule generation by generation, times its
//! steps by a frame clock, and maps world cells to screen pixels through a
//! pannable viewport. A host windowing layer feeds decoded input events in
//! and draws the live cells that the engine hands out.

pub mod bounded;
pub mod clock;
pub mod engine;
pub mod patterns;
pub mod sparse;
pub mod viewport;

use vstd::prelude::*;

verus! {

/// Width of the host window in pixels.
pub const WINDOW_WIDTH: u32 = 1600;

/// Height of the host window in pixels.
pub const WINDOW_HEIGHT: u32 = 900;

/// Side length of one world cell on screen, in pixels.
pub const TILE_SIZE: u32 = 20;

/// Gutter kept around each drawn tile, in pixels.
pub const TILE_INSET: u32 = 2;

/// Logical frames per second supplied by the host loop.
pub const FRAME_RATE: u32 = 60;

} // verus!
