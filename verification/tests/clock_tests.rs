use life_engine::clock::{frames_per_second, SimulationClock};

/// Tick timing at 10 generations per second: the simulation steps exactly
/// on the frames 0, 6, 12, ..., 54 of the 60-frame cycle.
#[test]
fn rate_ten_steps_every_sixth_frame() {
    let expected = [0u32, 6, 12, 18, 24, 30, 36, 42, 48, 54];
    for frame in 0..60u32 {
        assert_eq!(frames_per_second(frame, 10), expected.contains(&frame));
    }
}

/// The other observed rates: every 30th frame at rate 2, every 15th at
/// rate 4.
#[test]
fn rates_two_and_four() {
    for frame in 0..60u32 {
        assert_eq!(frames_per_second(frame, 2), frame % 30 == 0);
        assert_eq!(frames_per_second(frame, 4), frame % 15 == 0);
    }
}

/// The frame counter wraps at the end of the 60-frame cycle.
#[test]
fn clock_counter_wraps_at_sixty() {
    let mut clock = SimulationClock::new(10);
    for expected in 1..60u32 {
        clock.tick();
        assert_eq!(clock.frame_count, expected);
    }
    clock.tick();
    assert_eq!(clock.frame_count, 0);
}

/// Stepping happens only while running, and only on stepping frames.
#[test]
fn should_step_requires_running_and_timing() {
    let mut clock = SimulationClock::new(10);
    assert!(clock.should_step(true));
    assert!(!clock.should_step(false));
    clock.tick();
    assert!(!clock.should_step(true));
    clock.reset();
    assert_eq!(clock.frame_count, 0);
    assert!(clock.should_step(true));
}
