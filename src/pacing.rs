//! Frame pacing: the least time between two generations at a given speed,
//! and the check that lets a step through only once that time is up.
use vstd::prelude::*;

verus! {

/// Milliseconds between generations at `fps` frames per second: the period
/// is first taken in whole nanoseconds, then in whole milliseconds.
pub open spec fn frame_interval(fps: int) -> int {
    (1_000_000_000int / fps) / 1_000_000int
}

/// Milliseconds that have passed from `last` to `now`, or zero if `now` is
/// earlier.
pub open spec fn elapsed(last: int, now: int) -> int {
    if now >= last {
        now - last
    } else {
        0
    }
}

/// Whether an advance at `now` is due, the last one having happened at `last`.
pub open spec fn gate_open(last: int, now: int, interval: int) -> bool {
    elapsed(last, now) >= interval
}

/// The minimum interval, in milliseconds, for a rate of `fps` frames per
/// second.
pub fn frame_interval_ms(fps: u32) -> (r: u128)
    requires
        fps >= 1,
    ensures
        r == frame_interval(fps as int),
{
    let nanos: u32 = 1_000_000_000u32 / fps;
    (nanos / 1_000_000u32) as u128
}

/// Whether an advance at `now` is due; see [`gate_open`].
pub fn is_due(last: u128, now: u128, interval: u128) -> (r: bool)
    ensures
        r == gate_open(last as int, now as int, interval as int),
{
    let passed: u128 = if now >= last {
        now - last
    } else {
        0
    };
    passed >= interval
}

} // verus!
