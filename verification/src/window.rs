//! The rolling latency window of one backend and its moving average.

use crate::clock::{aged, is_aged, TIMEOUT_PENALTY};
use std::collections::VecDeque;
use vstd::prelude::*;

verus! {

/// What one forwarded request measured: the instant it was issued and the time
/// the backend took to answer. `wait` is `None` for a request that ran into the
/// deadline.
#[derive(Clone, Copy, Debug, PartialEq, Eq)]
pub struct ResponseInfo {
    pub start: u64,
    pub wait: Option<u64>,
}

/// What a record contributes to the mean: its wait, or the penalty if it has none.
pub open spec fn counted_wait(r: ResponseInfo) -> int {
    match r.wait {
        Some(w) => w as int,
        None => TIMEOUT_PENALTY as int,
    }
}

/// Sum of the counted waits of `s`.
pub open spec fn total_wait(s: Seq<ResponseInfo>) -> int
    decreases s.len(),
{
    if s.len() == 0 {
        0
    } else {
        total_wait(s.drop_last()) + counted_wait(s.last())
    }
}

/// Arithmetic mean of the counted waits of `s`, rounded down to whole
/// nanoseconds; zero for an empty window.
pub open spec fn mean_wait(s: Seq<ResponseInfo>) -> int {
    if s.len() == 0 {
        0
    } else {
        total_wait(s) / (s.len() as int)
    }
}

/// Number of records at the head of `s` that are aged at `now`, up to the first
/// one that is not.
pub open spec fn stale_prefix(s: Seq<ResponseInfo>, now: u64) -> nat
    decreases s.len(),
{
    if s.len() > 0 && aged(now, s[0].start) {
        1 + stale_prefix(s.drop_first(), now)
    } else {
        0
    }
}

/// `s` without its stale prefix: what eviction at `now` leaves.
pub open spec fn evicted(s: Seq<ResponseInfo>, now: u64) -> Seq<ResponseInfo> {
    s.skip(stale_prefix(s, now) as int)
}

/// The window after `r` was appended to `s` and the head was evicted at `now`.
pub open spec fn recorded(s: Seq<ResponseInfo>, r: ResponseInfo, now: u64) -> Seq<ResponseInfo> {
    evicted(s.push(r), now)
}

/// Change in the number of records that `recorded` makes: one appended, the
/// stale prefix removed.
pub open spec fn net_change(s: Seq<ResponseInfo>, r: ResponseInfo, now: u64) -> int {
    1 - stale_prefix(s.push(r), now)
}

/// No record of `s` is aged at `now`.
pub open spec fn fresh(s: Seq<ResponseInfo>, now: u64) -> bool {
    forall|i: int| 0 <= i < s.len() ==> !aged(now, #[trigger] s[i].start)
}

/// The records of `s` stand in the order of their starts.
pub open spec fn ordered(s: Seq<ResponseInfo>) -> bool {
    forall|i: int, j: int| 0 <= i <= j < s.len() ==> (#[trigger] s[i]).start <= (#[trigger] s[j]).start
}

/// The window that results when the records of `log` are submitted one after
/// the other to an empty window, each with its own start as the current time.
pub open spec fn window_after(log: Seq<ResponseInfo>) -> Seq<ResponseInfo>
    decreases log.len(),
{
    if log.len() == 0 {
        Seq::empty()
    } else {
        recorded(window_after(log.drop_last()), log.last(), log.last().start)
    }
}

/// The stale prefix has length `k` exactly when the first `k` records are aged
/// and the one after them, if there is one, is not.
pub proof fn lemma_stale_prefix_is(s: Seq<ResponseInfo>, now: u64, k: int)
    requires
        0 <= k <= s.len(),
        forall|i: int| 0 <= i < k ==> aged(now, #[trigger] s[i].start),
        k < s.len() ==> !aged(now, s[k].start),
    ensures
        stale_prefix(s, now) == k,
    decreases k,
{
    if k > 0 {
        let rest = s.drop_first();
        assert forall|i: int| 0 <= i < k - 1 implies aged(now, #[trigger] rest[i].start) by {
            assert(rest[i] == s[i + 1]);
        }
        lemma_stale_prefix_is(rest, now, k - 1);
    }
}

/// The stale prefix lies within the window, holds aged records only, and ends
/// before a record that is not aged.
pub proof fn lemma_stale_prefix_bounds(s: Seq<ResponseInfo>, now: u64)
    ensures
        stale_prefix(s, now) <= s.len(),
        forall|i: int| 0 <= i < stale_prefix(s, now) ==> aged(now, #[trigger] s[i].start),
        stale_prefix(s, now) < s.len() ==> !aged(now, s[stale_prefix(s, now) as int].start),
    decreases s.len(),
{
    if s.len() > 0 && aged(now, s[0].start) {
        let rest = s.drop_first();
        lemma_stale_prefix_bounds(rest, now);
        let k = stale_prefix(rest, now) as int;
        assert forall|i: int| 0 <= i < k + 1 implies aged(now, #[trigger] s[i].start) by {
            if i > 0 {
                assert(s[i] == rest[i - 1]);
            }
        }
        if k + 1 < s.len() {
            assert(s[k + 1] == rest[k]);
        }
    }
}

/// The counted waits of `n` records sum to at most `n` times the largest wait.
pub proof fn lemma_total_wait_bound(s: Seq<ResponseInfo>)
    ensures
        0 <= total_wait(s) <= s.len() * u64::MAX,
    decreases s.len(),
{
    if s.len() > 0 {
        lemma_total_wait_bound(s.drop_last());
        assert((s.len() - 1) * u64::MAX + u64::MAX == s.len() * u64::MAX) by (nonlinear_arith);
    }
}

/// In a window whose records are in the order of their starts, the aged
/// records are all at the head: eviction leaves none, and keeps the order.
pub proof fn lemma_eviction_of_ordered(s: Seq<ResponseInfo>, now: u64)
    requires
        ordered(s),
    ensures
        ordered(evicted(s, now)),
        fresh(evicted(s, now), now),
{
    lemma_stale_prefix_bounds(s, now);
    let k = stale_prefix(s, now) as int;
    let rest = evicted(s, now);
    assert forall|i: int| 0 <= i < rest.len() implies !aged(now, #[trigger] rest[i].start) by {
        assert(rest[i] == s[k + i]);
        assert(s[k].start <= s[k + i].start);
    }
    assert forall|i: int, j: int| 0 <= i <= j < rest.len() implies (#[trigger] rest[i]).start <= (
    #[trigger] rest[j]).start by {
        assert(rest[i] == s[k + i]);
        assert(rest[j] == s[k + j]);
    }
}

/// When a record reaches a window whose records are in the order of their
/// starts, and its own start is not before theirs, then every record that the
/// window holds after the update is less than `AVERAGE_WINDOW` older than the
/// new one, which is the last of them.
pub proof fn lemma_record_keeps_fresh(s: Seq<ResponseInfo>, r: ResponseInfo)
    requires
        ordered(s),
        s.len() > 0 ==> s.last().start <= r.start,
    ensures
        ordered(recorded(s, r, r.start)),
        fresh(recorded(s, r, r.start), r.start),
        recorded(s, r, r.start).len() > 0,
        recorded(s, r, r.start).last() == r,
{
    let full = s.push(r);
    assert forall|i: int, j: int| 0 <= i <= j < full.len() implies (#[trigger] full[i]).start <= (
    #[trigger] full[j]).start by {
        if j < s.len() {
            assert(full[i] == s[i] && full[j] == s[j]);
        } else if i < s.len() {
            assert(full[i] == s[i]);
            assert(s[i].start <= s[s.len() - 1].start);
        }
    }
    lemma_eviction_of_ordered(full, r.start);
    lemma_stale_prefix_bounds(full, r.start);
    let k = stale_prefix(full, r.start) as int;
    if k == full.len() {
        assert(aged(r.start, full[k - 1].start));
    }
}

/// After any run of updates whose starts do not decrease, every record in the
/// window is less than `AVERAGE_WINDOW` older than the latest start submitted.
/// Where a start lies before an earlier one, a record behind a younger head
/// can outstay the window.
pub proof fn lemma_window_fresh_after(log: Seq<ResponseInfo>)
    requires
        ordered(log),
        log.len() > 0,
    ensures
        ordered(window_after(log)),
        fresh(window_after(log), log.last().start),
        window_after(log).len() > 0,
        window_after(log).last() == log.last(),
    decreases log.len(),
{
    let before = log.drop_last();
    if before.len() > 0 {
        assert forall|i: int, j: int| 0 <= i <= j < before.len() implies (#[trigger] before[i]).start
            <= (#[trigger] before[j]).start by {
            assert(before[i] == log[i] && before[j] == log[j]);
        }
        lemma_window_fresh_after(before);
        assert(before.last() == log[log.len() - 2]);
        assert(log[log.len() - 2].start <= log[log.len() - 1].start);
    }
    lemma_record_keeps_fresh(window_after(before), log.last());
}

/// What an update of a window yields for the rest of the load state.
#[derive(Clone, Copy, Debug, PartialEq, Eq)]
pub struct WindowUpdate {
    /// Records appended less records evicted.
    pub net: isize,
    /// Mean wait over the records that remain.
    pub average: u64,
}

/// Response records of one backend in the order of their arrival.
pub struct LatencyWindow {
    records: VecDeque<ResponseInfo>,
}

impl View for LatencyWindow {
    type V = Seq<ResponseInfo>;

    closed spec fn view(&self) -> Seq<ResponseInfo> {
        self.records@
    }
}

impl LatencyWindow {
    /// A window without records.
    pub fn new() -> (w: Self)
        ensures
            w@ == Seq::<ResponseInfo>::empty(),
    {
        LatencyWindow { records: VecDeque::new() }
    }

    /// Number of records in the window.
    pub fn len(&self) -> (n: usize)
        ensures
            n == self@.len(),
    {
        self.records.len()
    }

    /// The record at position `i`, counted from the oldest.
    pub fn get(&self, i: usize) -> (r: Option<ResponseInfo>)
        ensures
            r == if i < self@.len() {
                Some(self@[i as int])
            } else {
                None
            },
    {
        if i < self.records.len() {
            Some(self.records[i])
        } else {
            None
        }
    }

    /// Mean wait over the window, timed-out records counted at the penalty.
    pub fn average(&self) -> (mean: u64)
        ensures
            mean == mean_wait(self@),
    {
        let n = self.records.len();
        if n == 0 {
            return 0;
        }
        let mut sum: u128 = 0;
        let mut i: usize = 0;
        while i < n
            invariant
                i <= n,
                n == self.records@.len(),
                sum == total_wait(self.records@.take(i as int)),
            decreases n - i,
        {
            let r = self.records[i];
            let w: u64 = match r.wait {
                Some(v) => v,
                None => TIMEOUT_PENALTY,
            };
            proof {
                let next = self.records@.take(i + 1);
                assert(next.drop_last() == self.records@.take(i as int));
                assert(next.last() == r);
                lemma_total_wait_bound(next);
                assert(next.len() * u64::MAX <= usize::MAX * u64::MAX) by (nonlinear_arith)
                    requires
                        next.len() <= usize::MAX,
                ;
            }
            sum = sum + w as u128;
            i = i + 1;
        }
        proof {
            assert(self.records@.take(n as int) == self.records@);
            lemma_total_wait_bound(self.records@);
            assert(sum / (n as u128) <= u64::MAX) by (nonlinear_arith)
                requires
                    0 < n,
                    sum <= n * u64::MAX,
            ;
        }
        (sum / (n as u128)) as u64
    }

    /// Appends `request_time`, then removes records from the head while the
    /// head is at least `AVERAGE_WINDOW` older than `request_start`, and
    /// reports the change in length and the mean over what remains.
    pub fn record(&mut self, request_time: ResponseInfo, request_start: u64) -> (out: WindowUpdate)
        requires
            old(self)@.len() < isize::MAX,
        ensures
            final(self)@ == recorded(old(self)@, request_time, request_start),
            out.net == net_change(old(self)@, request_time, request_start),
            out.net == final(self)@.len() - old(self)@.len(),
            out.average == mean_wait(final(self)@),
    {
        self.records.push_back(request_time);
        let ghost full = self.records@;
        let mut net: isize = 1;
        loop
            invariant
                full.len() <= isize::MAX,
                0 <= 1 - net <= full.len(),
                self.records@ == full.skip(1 - net),
                forall|i: int| 0 <= i < 1 - net ==> aged(request_start, #[trigger] full[i].start),
            ensures
                1 - net < full.len() ==> !aged(request_start, full[1 - net].start),
            decreases self.records@.len(),
        {
            if self.records.len() == 0 {
                break ;
            }
            let head = self.records[0];
            if !is_aged(request_start, head.start) {
                break ;
            }
            self.records.pop_front();
            proof {
                assert(full.skip(1 - net).subrange(1, full.len() - (1 - net)) == full.skip(
                    1 - net + 1,
                ));
            }
            net = net - 1;
        }
        proof {
            lemma_stale_prefix_is(full, request_start, 1 - net);
        }
        let average = self.average();
        WindowUpdate { net, average }
    }
}

} // verus!
