//! Constants of the rolling windows and the age test that evicts from them.

use vstd::prelude::*;

verus! {

/// Span of the rolling windows for latencies and agent histories: 2 s.
pub const AVERAGE_WINDOW: u64 = 2_000_000_000;

/// Deadline of one forwarded request: 500 ms.
pub const TIMEOUT_THRESHOLD: u64 = 500_000_000;

/// Wait attributed to a request that timed out, when means are computed: 500 ms.
pub const TIMEOUT_PENALTY: u64 = 500_000_000;

/// Requests an agent may have in its history before its share is measured.
pub const GRACE_REQUESTS: usize = 1;

/// Time from `then` to `now`; zero when `then` is the later one.
pub open spec fn age(now: u64, then: u64) -> int {
    if now >= then {
        now - then
    } else {
        0
    }
}

/// An entry stamped `then` has left the rolling window that ends at `now`.
pub open spec fn aged(now: u64, then: u64) -> bool {
    age(now, then) >= AVERAGE_WINDOW
}

/// Tells whether an entry stamped `then` is at least `AVERAGE_WINDOW` old at `now`.
pub fn is_aged(now: u64, then: u64) -> (b: bool)
    ensures
        b == aged(now, then),
{
    now >= then && now - then >= AVERAGE_WINDOW
}

} // verus!
