//! Kernel time, counted in ticks of the timer (100 Hz).

use vstd::prelude::*;

verus! {

/// Milliseconds per tick.
pub const TICK_MS: u64 = 10;

/// Nanoseconds per tick.
pub const TICK_NS: u64 = 10_000_000;

/// The tick counter, advanced by the timer interrupt.
pub struct TickCounter {
    pub count: u64,
}

impl TickCounter {
    pub fn new() -> (r: Self)
        ensures
            r.count == 0,
    {
        TickCounter { count: 0 }
    }

    /// One more tick. The counter starts over behind the largest `u64`.
    pub fn advance(&mut self)
        ensures
            final(self).count == if old(self).count == u64::MAX {
                0
            } else {
                old(self).count + 1
            },
    {
        self.count = self.count.wrapping_add(1);
    }
}

/// Number of timer ticks since boot.
pub fn ticks(clock: &TickCounter) -> (r: u64)
    ensures
        r == clock.count,
{
    clock.count
}

/// Approximate milliseconds since boot.
pub fn milliseconds(clock: &TickCounter) -> (r: u64)
    requires
        clock.count * TICK_MS <= u64::MAX,
    ensures
        r == clock.count * TICK_MS,
{
    ticks(clock) * TICK_MS
}

/// Approximate nanoseconds since boot.
pub fn nanoseconds(clock: &TickCounter) -> (r: u64)
    requires
        clock.count * TICK_NS <= u64::MAX,
    ensures
        r == clock.count * TICK_NS,
{
    ticks(clock) * TICK_NS
}

/// Whether a wait of `ms` milliseconds that began at `start_ms` has to go on.
pub fn still_waiting(clock: &TickCounter, start_ms: u64, ms: u64) -> (r: bool)
    requires
        clock.count * TICK_MS <= u64::MAX,
        start_ms + ms <= u64::MAX,
    ensures
        r == (clock.count * TICK_MS < start_ms + ms),
{
    milliseconds(clock) < start_ms + ms
}

} // verus!
