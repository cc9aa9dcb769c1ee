//! Tick gating: the simulation advances on a fixed subset of the host
//! loop's frames, derived from a frame counter and a configured rate in
//! generations per second.

use vstd::prelude::*;

verus! {

/// True when a frame counter lands on a stepping frame: with `frames`
/// generations per 60-frame cycle, the simulation advances on every
/// `60 / frames`-th frame.
pub open spec fn steps_on_frame(frame_count: int, frames: int) -> bool
    recommends
        0 < frames <= 60,
{
    frame_count % (60int / frames) == 0
}

/// Tick test of the host loop: the simulation advances only on the frames
/// where this returns true. `frames` is the configured rate in generations
/// per second and must not exceed the 60-frame cycle.
pub fn frames_per_second(frame_count: u32, frames: u32) -> (step: bool)
    requires
        0 < frames <= 60,
    ensures
        step == steps_on_frame(frame_count as int, frames as int),
{
    let period: u32 = 60 / frames;
    assert(period >= 1) by {
        vstd::arithmetic::div_mod::lemma_div_non_zero(60int, frames as int);
    }
    frame_count % period == 0
}

/// With a rate of 10 generations per second the simulation steps exactly
/// on the frames divisible by 6 — within one 60-frame cycle, the frame
/// counter values 0, 6, 12, ..., 54 and no others.
pub proof fn lemma_rate_ten_steps_every_sixth_frame(frame_count: int)
    ensures
        steps_on_frame(frame_count, 10) <==> frame_count % 6 == 0,
{
    assert(60int / 10 == 6);
}

/// The frame clock: a frame counter that wraps at the end of each
/// 60-frame cycle, and the configured stepping rate.
pub struct SimulationClock {
    /// Frames counted so far in the current 60-frame cycle.
    pub frame_count: u32,
    /// Generations per second; expected to divide the frame rate evenly.
    pub rate: u32,
}

impl SimulationClock {
    /// The counter stays inside the cycle and the rate inside (0, 60].
    pub open spec fn well_formed(self) -> bool {
        0 < self.rate <= 60 && self.frame_count < 60
    }

    /// A clock at the start of its cycle.
    pub fn new(rate: u32) -> (clock: Self)
        requires
            0 < rate <= 60,
        ensures
            clock.well_formed(),
            clock.frame_count == 0,
            clock.rate == rate,
    {
        SimulationClock { frame_count: 0, rate }
    }

    /// Count one rendered frame, wrapping the counter when the cycle ends.
    pub fn tick(&mut self)
        requires
            old(self).well_formed(),
        ensures
            final(self).well_formed(),
            final(self).rate == old(self).rate,
            final(self).frame_count == if old(self).frame_count + 1 == 60 {
                0int
            } else {
                old(self).frame_count + 1
            },
    {
        self.frame_count = self.frame_count + 1;
        if self.frame_count == 60 {
            self.frame_count = 0;
        }
    }

    /// Rewind to the start of the cycle, as an explicit reset does.
    pub fn reset(&mut self)
        ensures
            final(self).rate == old(self).rate,
            final(self).frame_count == 0,
    {
        self.frame_count = 0;
    }

    /// Whether the simulation advances this frame: only while running, and
    /// only when the counter lands on a stepping frame.
    pub fn should_step(&self, running: bool) -> (step: bool)
        requires
            self.well_formed(),
        ensures
            step == (running && steps_on_frame(self.frame_count as int, self.rate as int)),
    {
        running && frames_per_second(self.frame_count, self.rate)
    }
}

} // verus!
