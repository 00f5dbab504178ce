//! Timestamps of the operating system.

use std::time::Duration;
use vstd::prelude::*;

verus! {

/// `std::time::Instant`, opaque.
#[verifier::external_type_specification]
#[verifier::external_body]
pub struct ExInstant(std::time::Instant);

/// `std::time::Instant::now`: the current time, of which nothing is known.
#[verifier::external_body]
fn std_now() -> (now: std::time::Instant) {
    std::time::Instant::now()
}

/// `std::time::Instant::elapsed`: the time since `start`, of which nothing is known.
#[verifier::external_body]
fn std_elapsed(start: &std::time::Instant) -> (elapsed: Duration) {
    start.elapsed()
}

/// `Duration::as_nanos`: the whole nanoseconds of a time that depends on the clock, of which
/// nothing is known.
#[verifier::external_body]
fn std_nanos(elapsed: &Duration) -> (nanos: u128) {
    elapsed.as_nanos()
}

/// What a count of nanoseconds is in units of `unit` nanoseconds, cut to 64 bits.
fn whole_units(nanos: u128, unit: u128) -> (result: u64)
    requires
        unit > 0,
    ensures
        result == (nanos / unit) % 0x1_0000_0000_0000_0000,
{
    let whole: u128 = nanos / unit;
    let low: u128 = whole % 0x1_0000_0000_0000_0000;
    low as u64
}

/// The whole milliseconds of a count of nanoseconds, cut to 64 bits.
pub fn whole_ms(nanos: u128) -> (result: u64)
    ensures
        result == (nanos / 1_000_000) % 0x1_0000_0000_0000_0000,
{
    whole_units(nanos, 1_000_000)
}

/// The whole microseconds of a count of nanoseconds, cut to 64 bits.
pub fn whole_us(nanos: u128) -> (result: u64)
    ensures
        result == (nanos / 1_000) % 0x1_0000_0000_0000_0000,
{
    whole_units(nanos, 1_000)
}

/// A count of nanoseconds, cut to 64 bits.
pub fn whole_ns(nanos: u128) -> (result: u64)
    ensures
        result == nanos % 0x1_0000_0000_0000_0000,
{
    whole_units(nanos, 1)
}

/// Nothing needs to be measured for timestamps of the operating system.
pub fn calibrate() {
}

/// A timestamp of the operating system.
#[derive(Clone, Copy)]
pub struct Instant(std::time::Instant);

impl Instant {
    /// Captures the current timestamp.
    pub fn now() -> (result: Self) {
        Instant(std_now())
    }

    /// Returns the milliseconds elapsed since this timestamp.
    pub fn elapsed_ms(self) -> (result: u64) {
        whole_ms(std_nanos(&std_elapsed(&self.0)))
    }

    /// Returns the microseconds elapsed since this timestamp.
    pub fn elapsed_us(self) -> (result: u64) {
        whole_us(std_nanos(&std_elapsed(&self.0)))
    }

    /// Returns the nanoseconds elapsed since this timestamp.
    pub fn elapsed_ns(self) -> (result: u64) {
        whole_ns(std_nanos(&std_elapsed(&self.0)))
    }
}

} // verus!
