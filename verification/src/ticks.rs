//! Arithmetic on a tick counter that wraps.
//!
//! The counter is a `u32` that starts again at zero after `u32::MAX`. Times are
//! therefore never compared directly: what counts is how far the counter has
//! moved since a starting point, taken modulo the counter's range.

use vstd::prelude::*;

verus! {

/// The number of values the tick counter runs through before it wraps.
pub open spec fn tick_range() -> int {
    0x1_0000_0000
}

/// The ticks that passed between the reading `start` and the reading `now`,
/// on the assumption that the counter wrapped at most once in between.
pub open spec fn elapsed(now: u32, start: u32) -> int {
    (now - start) % tick_range()
}

/// Whether a wait of `interval` ticks that began at `start` is over at `now`.
/// The boundary counts: the wait is over as soon as exactly `interval` ticks
/// have passed.
pub open spec fn due(now: u32, start: u32, interval: u32) -> bool {
    elapsed(now, start) >= interval
}

/// What the counter shows `by` ticks after it showed `t`.
pub open spec fn ticks_after(t: u32, by: int) -> u32 {
    ((t + by) % tick_range()) as u32
}

/// Computes the ticks that passed between two readings of the counter.
pub fn ticks_between(now: u32, start: u32) -> (e: u32)
    ensures
        e == elapsed(now, start),
{
    now.wrapping_sub(start)
}

/// Decides whether a wait of `interval` ticks that began at `start` is over
/// at `now`.
pub fn is_due(now: u32, start: u32, interval: u32) -> (d: bool)
    ensures
        d == due(now, start, interval),
{
    ticks_between(now, start) >= interval
}

/// Moves a reading of the counter forward by `by` ticks, wrapping at the end
/// of its range.
pub fn advance(t: u32, by: u32) -> (r: u32)
    ensures
        r == ticks_after(t, by as int),
{
    t.wrapping_add(by)
}

/// The elapsed time is measured correctly across a wrap of the counter: if
/// `e` ticks pass after `start`, with `e` below the counter's range, then the
/// ticks elapsed at the new reading are exactly `e`, wherever `start` lies.
pub proof fn lemma_elapsed_after(start: u32, e: int)
    requires
        0 <= e < tick_range(),
    ensures
        elapsed(ticks_after(start, e), start) == e,
{
}

/// A wait of `interval` ticks that began at `start` is over `e` ticks later
/// if and only if `e` has reached `interval`. In particular it is not over
/// one tick before the interval has passed, and it is over at the very tick
/// at which it has.
pub proof fn lemma_due_after(start: u32, interval: u32, e: int)
    requires
        0 <= e < tick_range(),
    ensures
        due(ticks_after(start, e), start, interval) <==> e >= interval,
{
    lemma_elapsed_after(start, e);
}

/// Moving forward in two steps is moving forward by their sum.
pub proof fn lemma_ticks_after_twice(t: u32, a: int, b: int)
    requires
        0 <= a,
        0 <= b,
    ensures
        ticks_after(ticks_after(t, a), b) == ticks_after(t, a + b),
{
}

/// A wait whose beginning was set `delay` ticks ahead of the reading `t0`
/// runs from that later point: `e` ticks after it, the wait is over if and
/// only if `e` has reached `interval`.
pub proof fn lemma_due_after_delay(t0: u32, delay: int, interval: u32, e: int)
    requires
        0 <= delay,
        0 <= e < tick_range(),
    ensures
        due(ticks_after(t0, delay + e), ticks_after(t0, delay), interval) <==> e >= interval,
{
    lemma_ticks_after_twice(t0, delay, e);
    lemma_due_after(ticks_after(t0, delay), interval, e);
}

/// A wait whose beginning was set `delay` ticks ahead of the reading `t0`
/// is measured modulo the counter's range also before that point is
/// reached: `x` ticks after `t0`, with `x` short of `delay`, the counter
/// seems to have run almost once around, and the wait counts as over unless
/// `interval` exceeds even that.
pub proof fn lemma_due_before_delay(t0: u32, delay: int, interval: u32, x: int)
    requires
        0 <= x < delay < tick_range(),
    ensures
        elapsed(ticks_after(t0, x), ticks_after(t0, delay)) == tick_range() - (delay - x),
        due(ticks_after(t0, x), ticks_after(t0, delay), interval) <==> interval <= tick_range() - (
        delay - x),
{
}

} // verus!
