//! Replaying a packet dump at the pace it was captured.

use vstd::prelude::*;

verus! {

/// How long a replay waits before handing over a packet captured at `ts`:
/// the replay began at monotonic time `start` with a packet captured at
/// `start_ts`, and a packet is due once as much time has passed since then
/// as passed between the two captures (all in nanoseconds).
pub open spec fn replay_wait_spec(start: u64, start_ts: i64, now: u64, ts: i64) -> int {
    let due = start + (ts - start_ts);
    if due > now { due - now } else { 0 }
}

/// The time to wait before handing over a packet captured at `ts`; the
/// packet was not captured before the first one, and its due time fits on
/// the monotonic clock.
pub fn replay_wait(start: u64, start_ts: i64, now: u64, ts: i64) -> (r: u64)
    requires
        ts >= start_ts,
        start + (ts - start_ts) <= u64::MAX,
    ensures
        r == replay_wait_spec(start, start_ts, now, ts),
{
    let diff = (ts as i128 - start_ts as i128) as u64;
    let due = start + diff;
    if due > now { due - now } else { 0 }
}

} // verus!
