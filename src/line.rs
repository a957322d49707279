//! The signal line: its levels, its directions, and the timed wait that
//! measures how long it holds a level.
use vstd::prelude::*;

verus! {

/// The logic level of the line.
#[derive(Debug, Clone, Copy, PartialEq, Eq, Structural)]
pub enum Level {
    Low,
    High,
}

/// The direction of the line: sensed by the host, or driven by it.
#[derive(Debug, Clone, Copy, PartialEq, Eq, Structural)]
pub enum Mode {
    Input,
    Output,
}

/// How long, in nanoseconds, the line may hold one level before a wait for
/// it to change gives up.
pub const WAIT_CEILING_NS: u64 = 250_000_000;

/// The longest high pulse, in nanoseconds, that still stands for a `0` bit.
pub const BIT_THRESHOLD_NS: u64 = 30_000;

/// The time from `since` to `at`, both in nanoseconds on one monotonic clock;
/// none if the clock went backwards.
pub open spec fn elapsed(since: u64, at: u64) -> u64 {
    if at >= since {
        (at - since) as u64
    } else {
        0
    }
}

/// What one sample tells a wait for the line to leave a level.
#[derive(Debug, Clone, Copy, PartialEq, Eq, Structural)]
pub enum Poll {
    /// The line still holds the level and there is time left: sample again.
    Pending,
    /// The line has left the level; it held it for this many nanoseconds.
    Changed(u64),
    /// The line held the level for longer than the ceiling.
    TimedOut,
}

/// The time from `since` to `at`, or zero if the clock went backwards.
pub fn time_between(since: u64, at: u64) -> (r: u64)
    ensures
        r == elapsed(since, at),
{
    if at >= since {
        at - since
    } else {
        0
    }
}

/// Judges one sample of a wait that began at `since` for the line to leave
/// `level`: the line was seen at `seen` at time `at`.
pub fn poll(level: Level, since: u64, seen: Level, at: u64) -> (r: Poll)
    ensures
        seen != level ==> r == Poll::Changed(elapsed(since, at)),
        seen == level && elapsed(since, at) > WAIT_CEILING_NS ==> r == Poll::TimedOut,
        seen == level && elapsed(since, at) <= WAIT_CEILING_NS ==> r == Poll::Pending,
{
    let held = time_between(since, at);
    if seen != level {
        Poll::Changed(held)
    } else if held > WAIT_CEILING_NS {
        Poll::TimedOut
    } else {
        Poll::Pending
    }
}

/// The bit that a high pulse of `high_ns` nanoseconds stands for.
pub fn bit_of(high_ns: u64) -> (r: bool)
    ensures
        r == (high_ns > BIT_THRESHOLD_NS),
{
    high_ns > BIT_THRESHOLD_NS
}

} // verus!
