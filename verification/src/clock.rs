//! The clock: what is taken on trust of the `clocksource` crate.

use vstd::prelude::*;
use clocksource::Clocksource;

verus! {

/// The clock of the `clocksource` crate: a counter and its calibration
/// against a reference clock.
#[verifier::external_type_specification]
#[verifier::external_body]
pub struct ExClocksource(Clocksource);

/// The time, in whole nanoseconds of the reference clock, that `clock` gives
/// for the counter reading `tick`.
pub uninterp spec fn nanoseconds_at(clock: Clocksource, tick: u64) -> u64;

/// `Clocksource::default`: a clock calibrated against the monotonic
/// reference. Nothing is claimed of its calibration.
#[verifier::external_body]
pub(crate) fn clock_new() -> (clock: Clocksource) {
    Clocksource::default()
}

/// `Clocksource::counter`: the present reading of the counter. Nothing is
/// claimed of the reading.
#[verifier::external_body]
pub(crate) fn clock_counter(clock: &Clocksource) -> (now: u64) {
    clock.counter()
}

/// `Clocksource::frequency`, in whole counts per second. Nothing is claimed
/// of the frequency.
#[verifier::external_body]
pub(crate) fn clock_frequency(clock: &Clocksource) -> (hz: u64) {
    clock.frequency() as u64
}

/// `Clocksource::convert`, in whole nanoseconds. The conversion reads the
/// calibration and the reading and nothing else, so equal clocks give equal
/// times for equal readings.
#[verifier::external_body]
pub(crate) fn clock_convert(clock: &Clocksource, tick: u64) -> (ns: u64)
    ensures
        ns == nanoseconds_at(*clock, tick),
{
    clock.convert(tick) as u64
}

/// `Clocksource::clone`: a clock with the same calibration.
#[verifier::external_body]
pub(crate) fn clock_clone(clock: &Clocksource) -> (copy: Clocksource)
    ensures
        copy == *clock,
{
    clock.clone()
}

} // verus!
