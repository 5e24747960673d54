//! Tick scheduler behaviour: stop handling, tick caps, timing rate.

use antigen_core::tick::{spin_loop, Countdown, Step};
use std::time::Instant;

struct CountingStep {
    steps: u64,
    stop_at: Option<u64>,
}

impl Step for CountingStep {
    fn next(self) -> Self {
        CountingStep {
            steps: self.steps + 1,
            stop_at: self.stop_at,
        }
    }

    fn stops(self) -> bool {
        match self.stop_at {
            Some(n) => self.steps + 1 >= n,
            None => false,
        }
    }

    fn step(&mut self) -> bool {
        self.steps += 1;
        match self.stop_at {
            Some(n) => self.steps >= n,
            None => false,
        }
    }
}

#[test]
fn shutdown_stops_loop_after_inflight_step() {
    // The stop condition holds from the very first step: the in-flight step
    // completes, and no further iteration runs.
    let mut step = CountingStep {
        steps: 0,
        stop_at: Some(1),
    };
    let ticks = spin_loop(1_000_000, u64::MAX, &mut step);
    assert_eq!(ticks, 1);
    assert_eq!(step.steps, 1);
}

#[test]
fn loop_stops_midway_when_step_signals() {
    let mut step = CountingStep {
        steps: 0,
        stop_at: Some(3),
    };
    let ticks = spin_loop(1_000, u64::MAX, &mut step);
    assert_eq!(ticks, 3);
    assert_eq!(step.steps, 3);
}

#[test]
fn tick_cap_bounds_the_run() {
    let mut step = CountingStep {
        steps: 0,
        stop_at: None,
    };
    let ticks = spin_loop(1_000, 5, &mut step);
    assert_eq!(ticks, 5);
    assert_eq!(step.steps, 5);
}

#[test]
fn zero_ticks_runs_no_step() {
    let mut step = CountingStep {
        steps: 0,
        stop_at: None,
    };
    let ticks = spin_loop(1_000, 0, &mut step);
    assert_eq!(ticks, 0);
    assert_eq!(step.steps, 0);
}

#[test]
fn countdown_runs_its_ticks_and_the_stopping_step() {
    let mut step = Countdown { remaining: 2 };
    let ticks = spin_loop(1_000, u64::MAX, &mut step);
    assert_eq!(ticks, 3);
    assert_eq!(step.remaining, 0);
}

#[test]
fn countdown_at_zero_stops_on_the_first_step() {
    let mut step = Countdown { remaining: 0 };
    let ticks = spin_loop(1_000, u64::MAX, &mut step);
    assert_eq!(ticks, 1);
    assert_eq!(step.remaining, 0);
}

#[test]
fn countdown_respects_a_tighter_cap() {
    let mut step = Countdown { remaining: 10 };
    let ticks = spin_loop(1_000, 4, &mut step);
    assert_eq!(ticks, 4);
    assert_eq!(step.remaining, 6);
}

#[test]
fn tick_rate_stays_near_the_target_period() {
    // 100 ticks at 2 ms each: the spin wait guarantees at least 200 ms in
    // total, and a sustained run should stay within a loose upper window.
    let period_ns: u64 = 2_000_000;
    let ticks: u64 = 100;
    let mut step = CountingStep {
        steps: 0,
        stop_at: None,
    };
    let started = Instant::now();
    let ran = spin_loop(period_ns, ticks, &mut step);
    let elapsed = started.elapsed();
    assert_eq!(ran, ticks);
    assert!(elapsed.as_nanos() >= (period_ns as u128) * (ticks as u128));
    // Mean rate within tolerance: allow generous slack for a loaded machine.
    assert!(elapsed.as_millis() < 4_000);
}
