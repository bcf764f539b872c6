//! The wall-clock source behind idle-staleness tracking, taken from the
//! `quanta` crate.  A reading depends on when it is made, so nothing is
//! promised of the returned value; all timing logic takes the reading as a
//! plain argument and is verified for every value of it.

use vstd::prelude::*;

verus! {

/// Declares `quanta::Clock` so that it can stand in fields and signatures;
/// the value is opaque to the verifier.
#[verifier::external_type_specification]
#[verifier::external_body]
pub struct ExClock(quanta::Clock);

/// Relies on `quanta::Clock::new`: builds a clock over the machine's best
/// available monotonic source.
#[verifier::external_body]
pub(crate) fn new_clock() -> quanta::Clock {
    quanta::Clock::new()
}

/// Relies on `quanta::Clock::now`, `quanta::Clock::scaled` and
/// `quanta::Instant::saturating_duration_since`: one reading of the clock,
/// in nanoseconds from the clock's own origin.  The reading depends on the
/// moment of the call, so nothing is promised of it.
#[verifier::external_body]
pub(crate) fn clock_now_nanos(clock: &quanta::Clock) -> u64 {
    let origin = clock.scaled(0);
    let now = clock.now();
    now.saturating_duration_since(origin).as_nanos() as u64
}

} // verus!
