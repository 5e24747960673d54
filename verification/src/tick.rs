//! The tick scheduler: drives one thread's main loop at an approximately
//! fixed period.
//!
//! Timing uses a busy-wait (spin) strategy: after each step the driver spins
//! until the configured period has elapsed since the step began.  That buys
//! sub-millisecond scheduling precision at the documented cost of one fully
//! occupied core — a deliberate trade-off for a fixed-rate simulation loop,
//! not a general-purpose timer.
//!
//! What the driver does with the step function is pinned exactly: it calls
//! the step repeatedly and returns at the first step that signals stop (or
//! at the tick cap), having run [`run_count`] steps and left the step state
//! at [`run_state`].  Only the wall-clock pacing itself is outside the
//! model.

use vstd::prelude::*;

verus! {

#[verifier::external_type_specification]
#[verifier::external_body]
pub struct ExInstant(std::time::Instant);

/// Relies on std::time::Instant::now: an opaque timestamp of the monotonic
/// clock.
#[verifier::external_body]
fn clock_now() -> std::time::Instant {
    std::time::Instant::now()
}

/// Relies on std::time::Instant::elapsed: the time that has passed since
/// `start` on the monotonic clock.
#[verifier::external_body]
fn clock_elapsed(start: &std::time::Instant) -> core::time::Duration {
    start.elapsed()
}

/// Relies on core::time::Duration::as_nanos: the whole duration in
/// nanoseconds.
#[verifier::external_body]
fn duration_nanos(d: &core::time::Duration) -> u128 {
    d.as_nanos()
}

/// Relies on std::hint::spin_loop: the processor's spin-wait hint, with no
/// observable effect.
#[verifier::external_body]
fn relax() {
    std::hint::spin_loop()
}

/// One thread's per-tick work, supplied by whoever runs the loop.  The
/// simulation thread's step drains remote responses, executes the schedule,
/// exports a snapshot and reports the stop flag; other threads run whatever
/// their loop needs.
///
/// The two spec functions pin what one invocation does, so the driver's
/// contract can say exactly how many steps run and where the state ends up.
pub trait Step: Sized {
    /// The state after one invocation.
    spec fn next(self) -> Self;

    /// Whether the invocation made from this state signals stop.
    spec fn stops(self) -> bool;

    /// Run one tick's work; return true to request that the loop stop.
    fn step(&mut self) -> (stop: bool)
        ensures
            *final(self) == old(self).next(),
            stop == old(self).stops(),
    ;
}

/// How many steps the driver performs from state `s` with `cap` ticks
/// allowed: it runs steps until one signals stop, that step included, or
/// until the cap is spent.
pub open spec fn run_count<S: Step>(s: S, cap: u64) -> int
    decreases cap,
{
    if cap == 0 {
        0
    } else if s.stops() {
        1
    } else {
        1 + run_count(s.next(), (cap - 1) as u64)
    }
}

/// The step state the driver leaves behind from state `s` with `cap` ticks
/// allowed.
pub open spec fn run_state<S: Step>(s: S, cap: u64) -> S
    decreases cap,
{
    if cap == 0 {
        s
    } else if s.stops() {
        s.next()
    } else {
        run_state(s.next(), (cap - 1) as u64)
    }
}

/// The driver runs between one step (when any is allowed) and the cap.
pub proof fn lemma_run_count_bounds<S: Step>(s: S, cap: u64)
    ensures
        0 <= run_count(s, cap) <= cap,
        cap > 0 ==> run_count(s, cap) >= 1,
    decreases cap,
{
    if cap > 0 && !s.stops() {
        lemma_run_count_bounds(s.next(), (cap - 1) as u64);
    }
}

/// Upper bound on busy-wait iterations in one tick, far beyond any real
/// tick period; it only makes the wait provably finite.
pub const SPIN_BOUND: u64 = 0xffff_ffff_ffff_ffff;

/// Busy-wait until `period_ns` nanoseconds have passed since `start`.
fn spin_until(start: &std::time::Instant, period_ns: u64) {
    let mut spins: u64 = 0;
    loop
        invariant
            spins <= SPIN_BOUND,
        decreases SPIN_BOUND - spins,
    {
        if spins >= SPIN_BOUND {
            break ;
        }
        let d = clock_elapsed(start);
        let elapsed = duration_nanos(&d);
        if elapsed >= period_ns as u128 {
            break ;
        }
        relax();
        spins += 1;
    }
}

/// Call `step` at a set interval until it signals stop.
///
/// Each iteration records a start timestamp, runs the step once, and exits
/// the loop immediately — before any wait, with no further iteration — if
/// the step signalled stop; otherwise it busy-waits until `period_ns`
/// nanoseconds have elapsed since the timestamp and repeats.  At most
/// `max_ticks` steps run (pass `u64::MAX` for an effectively unbounded
/// loop); the cap makes the driver provably finite and lets a caller run an
/// exact number of ticks.
///
/// The contract pins the loop's whole behaviour toward the step: exactly
/// [`run_count`] steps run — the first stopping step is the last one, the
/// cap permitting — and the step state ends at [`run_state`].
pub fn spin_loop<S: Step>(period_ns: u64, max_ticks: u64, step: &mut S) -> (ticks: u64)
    ensures
        ticks == run_count(*old(step), max_ticks),
        *final(step) == run_state(*old(step), max_ticks),
        ticks <= max_ticks,
        max_ticks > 0 ==> ticks >= 1,
{
    let ghost s0 = *step;
    proof {
        lemma_run_count_bounds(s0, max_ticks);
    }
    let mut ticks: u64 = 0;
    loop
        invariant_except_break
            ticks <= max_ticks,
            run_count(s0, max_ticks) == ticks + run_count(*step, (max_ticks - ticks) as u64),
            run_state(s0, max_ticks) == run_state(*step, (max_ticks - ticks) as u64),
        ensures
            ticks == run_count(s0, max_ticks),
            *step == run_state(s0, max_ticks),
        decreases max_ticks - ticks,
    {
        if ticks == max_ticks {
            proof {
                assert(run_count(*step, 0) == 0);
                assert(run_state(*step, 0) == *step);
            }
            break ;
        }
        let ghost pre = *step;
        let ghost rem = (max_ticks - ticks) as u64;
        let started = clock_now();
        let stop = step.step();
        proof {
            if pre.stops() {
                assert(run_count(pre, rem) == 1);
                assert(run_state(pre, rem) == pre.next());
            } else {
                assert(run_count(pre, rem) == 1 + run_count(pre.next(), (rem - 1) as u64));
                assert(run_state(pre, rem) == run_state(pre.next(), (rem - 1) as u64));
            }
        }
        ticks += 1;
        if stop {
            proof {
                assert(run_count(s0, max_ticks) == ticks);
                assert(run_state(s0, max_ticks) == *step);
            }
            break ;
        }
        spin_until(&started, period_ns);
    }
    proof {
        if max_ticks > 0 {
            lemma_run_count_bounds(s0, max_ticks);
        }
    }
    ticks
}

/// The simplest step: continue for a set number of ticks, then signal stop
/// on the tick after them.  Driving it through [`spin_loop`] with a cap of
/// at least `remaining + 1` runs exactly `remaining + 1` steps.
#[derive(Clone, Copy, Debug, PartialEq, Eq, Structural)]
pub struct Countdown {
    pub remaining: u64,
}

impl Step for Countdown {
    open spec fn next(self) -> Countdown {
        if self.remaining > 0 {
            Countdown { remaining: (self.remaining - 1) as u64 }
        } else {
            self
        }
    }

    open spec fn stops(self) -> bool {
        self.remaining == 0
    }

    fn step(&mut self) -> (stop: bool) {
        if self.remaining > 0 {
            self.remaining = self.remaining - 1;
            false
        } else {
            true
        }
    }
}

} // verus!
