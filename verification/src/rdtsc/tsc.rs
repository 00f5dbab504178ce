//! Timestamps of the processor's cycle counter.

use vstd::prelude::*;

verus! {

/// How long a cycle takes, each times 2^64.
#[derive(Clone, Copy, Debug, PartialEq, Eq, Structural)]
pub struct Scales {
    /// Milliseconds.
    pub ms_per_cycle: u64,
    /// Microseconds.
    pub us_per_cycle: u64,
    /// Nanoseconds; cut off where the counter runs at less than 1 GHz.
    pub ns_per_cycle: u64,
}

/// A reading of the cycle counter.
#[derive(Clone, Copy, Debug, PartialEq, Eq, Structural)]
pub struct Instant(pub u64);

/// The number of cycles from `start` to `now` on a counter that wraps around.
pub open spec fn cycles(start: u64, now: u64) -> int {
    if now >= start {
        now - start
    } else {
        now - start + 0x1_0000_0000_0000_0000
    }
}

/// The whole units that `delta` cycles take, where one takes `scale` / 2^64.
pub open spec fn scaled(delta: int, scale: u64) -> int {
    (delta * scale) / 0x1_0000_0000_0000_0000
}

impl Instant {
    /// Returns the milliseconds from this reading to `now`.
    pub fn elapsed_ms(self, now: Instant, scales: &Scales) -> (result: u64)
        ensures
            result == scaled(cycles(self.0, now.0), scales.ms_per_cycle),
    {
        self.elapsed_scaled(now, scales.ms_per_cycle)
    }

    /// Returns the microseconds from this reading to `now`.
    pub fn elapsed_us(self, now: Instant, scales: &Scales) -> (result: u64)
        ensures
            result == scaled(cycles(self.0, now.0), scales.us_per_cycle),
    {
        self.elapsed_scaled(now, scales.us_per_cycle)
    }

    /// Returns the nanoseconds from this reading to `now`.
    pub fn elapsed_ns(self, now: Instant, scales: &Scales) -> (result: u64)
        ensures
            result == scaled(cycles(self.0, now.0), scales.ns_per_cycle),
    {
        self.elapsed_scaled(now, scales.ns_per_cycle)
    }

    /// The cycles from this reading to `now` times `scale`, without the lower 64 bits.
    pub fn elapsed_scaled(self, now: Instant, scale: u64) -> (result: u64)
        ensures
            result == scaled(cycles(self.0, now.0), scale),
    {
        let delta: u64 = now.0.wrapping_sub(self.0);
        assert(delta == cycles(self.0, now.0));
        assert(delta * scale <= 0xffff_ffff_ffff_ffff * 0xffff_ffff_ffff_ffff) by (nonlinear_arith)
            requires
                delta <= 0xffff_ffff_ffff_ffff,
                scale <= 0xffff_ffff_ffff_ffff,
        ;
        let product: u128 = delta as u128 * scale as u128;
        (product / 0x1_0000_0000_0000_0000) as u64
    }
}

/// Time does not run backwards: a later reading, less than one round of the counter after this
/// one, gives no smaller result.
pub proof fn law_elapsed_grows(start: u64, now: u64, later: u64, scale: u64)
    requires
        cycles(start, now) <= cycles(start, later),
    ensures
        0 <= scaled(cycles(start, now), scale) <= scaled(cycles(start, later), scale),
        scaled(cycles(start, start), scale) == 0,
{
    let a = cycles(start, now);
    let b = cycles(start, later);
    assert(0 <= a * scale <= b * scale) by (nonlinear_arith)
        requires
            0 <= a <= b,
            scale >= 0,
    ;
    assert(0 * scale == 0);
}

/// The counter wraps around at 2^64, and what is given are whole units, rounded down.
pub proof fn law_elapsed_counts_whole_units(start: u64, now: u64, delta: int, scale: u64)
    requires
        0 <= delta,
    ensures
        0 <= cycles(start, now) < 0x1_0000_0000_0000_0000,
        cycles(start, now) == now - start || cycles(start, now) == now - start
            + 0x1_0000_0000_0000_0000,
        scaled(delta, scale) * 0x1_0000_0000_0000_0000 <= delta * scale,
        delta * scale < (scaled(delta, scale) + 1) * 0x1_0000_0000_0000_0000,
{
}

} // verus!
