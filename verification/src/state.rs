//! The load state of the pool: a latency window and its cached mean for every
//! host, the count of recorded responses, and the histories of the agents.

use crate::agents::{history_of, noted, seen, AgentRegistry};
use crate::hashing::key_hash;
use crate::picker::{
    average_route, hash_route, lowest_average, pick_host_from_hash, pick_host_lowest_average,
    NO_AVERAGE,
};
use crate::probe::first_free;
use crate::strategy::{known_requests, strategy_of, RoutingStrategy};
use crate::window::{mean_wait, net_change, recorded, LatencyWindow, ResponseInfo};
use vstd::prelude::*;

verus! {

/// Number of records in all the windows together.
pub open spec fn total_records(windows: Seq<Seq<ResponseInfo>>) -> int
    decreases windows.len(),
{
    if windows.len() == 0 {
        0
    } else {
        total_records(windows.drop_last()) + windows.last().len()
    }
}

/// The cached mean `average` is right for `window`: it is the mean of its
/// records, or the window never held a record and nothing is known.
pub open spec fn mean_is_current(average: u64, window: Seq<ResponseInfo>) -> bool {
    average == mean_wait(window) || (window.len() == 0 && average == NO_AVERAGE)
}

/// Replacing one window changes the total by the change of its length.
pub proof fn lemma_total_records_update(
    windows: Seq<Seq<ResponseInfo>>,
    h: int,
    window: Seq<ResponseInfo>,
)
    requires
        0 <= h < windows.len(),
    ensures
        total_records(windows.update(h, window)) == total_records(windows) - windows[h].len()
            + window.len(),
    decreases windows.len(),
{
    let after = windows.update(h, window);
    if h == windows.len() - 1 {
        assert(after.drop_last() == windows.drop_last());
    } else {
        assert(after.drop_last() == windows.drop_last().update(h, window));
        lemma_total_records_update(windows.drop_last(), h, window);
    }
}

/// No window holds more records than all of them together.
pub proof fn lemma_total_records_bounds(windows: Seq<Seq<ResponseInfo>>, h: int)
    requires
        0 <= h < windows.len(),
    ensures
        0 <= windows[h].len() <= total_records(windows),
    decreases windows.len(),
{
    lemma_total_records_nonnegative(windows.drop_last());
    if h < windows.len() - 1 {
        lemma_total_records_bounds(windows.drop_last(), h);
    }
}

/// The total is never negative.
pub proof fn lemma_total_records_nonnegative(windows: Seq<Seq<ResponseInfo>>)
    ensures
        0 <= total_records(windows),
    decreases windows.len(),
{
    if windows.len() > 0 {
        lemma_total_records_nonnegative(windows.drop_last());
    }
}

/// Empty windows hold no record.
pub proof fn lemma_total_records_of_empty(windows: Seq<Seq<ResponseInfo>>)
    requires
        forall|h: int| 0 <= h < windows.len() ==> (#[trigger] windows[h]).len() == 0,
    ensures
        total_records(windows) == 0,
    decreases windows.len(),
{
    if windows.len() > 0 {
        let fewer = windows.drop_last();
        assert forall|h: int| 0 <= h < fewer.len() implies (#[trigger] fewer[h]).len() == 0 by {
            assert(fewer[h] == windows[h]);
        }
        lemma_total_records_of_empty(fewer);
    }
}

/// In a consistent state, the cached mean of every host that holds a record is
/// the mean over its window, timed-out records counted at the penalty; the
/// mean of a host without records is zero, or `NO_AVERAGE` if it never held
/// one.
pub proof fn lemma_means_are_current(state: LoadState, h: int)
    requires
        state.wf(),
        0 <= h < state.windows().len(),
    ensures
        state.windows()[h].len() > 0 ==> state.means()[h] == mean_wait(state.windows()[h]),
        state.windows()[h].len() == 0 ==> state.means()[h] == 0 || state.means()[h] == NO_AVERAGE,
{
    assert(mean_is_current(state.means()[h], state.windows()[h]));
}

/// In a consistent state, the pool counter is the number of records in all
/// the windows, and so never negative.
pub proof fn lemma_pool_counts_records(state: LoadState)
    requires
        state.wf(),
    ensures
        state.pool() == total_records(state.windows()),
        state.pool() >= 0,
{
    lemma_total_records_nonnegative(state.windows());
}

/// What the router knows of the load on its pool.
pub struct LoadState {
    times: Vec<LatencyWindow>,
    averages: Vec<u64>,
    pool_count: isize,
    agent_requests: AgentRegistry,
}

impl LoadState {
    /// The latency windows, one for each host.
    pub closed spec fn windows(&self) -> Seq<Seq<ResponseInfo>> {
        Seq::new(self.times@.len(), |h: int| self.times@[h]@)
    }

    /// The cached mean of each host.
    pub closed spec fn means(&self) -> Seq<u64> {
        self.averages@
    }

    /// The pool counter.
    pub closed spec fn pool(&self) -> int {
        self.pool_count as int
    }

    /// The agents seen so far, each with its history.
    pub closed spec fn agents(&self) -> Map<Seq<char>, Seq<u64>> {
        self.agent_requests@
    }

    /// The parts of the state are sound each by itself.
    pub closed spec fn sound(&self) -> bool {
        self.agent_requests.wf()
    }

    /// The state is consistent: every host has a window and a mean, each
    /// cached mean is the mean of its window, and the pool counter is the
    /// number of records in all the windows.
    pub open spec fn wf(&self) -> bool {
        &&& self.sound()
        &&& self.means().len() == self.windows().len()
        &&& self.pool() == total_records(self.windows())
        &&& forall|h: int|
            0 <= h < self.windows().len() ==> mean_is_current(
                #[trigger] self.means()[h],
                self.windows()[h],
            )
    }

    /// The state of a pool of `hosts` hosts before the first request: empty
    /// windows, no average known, nothing counted and no agent seen.
    pub fn new(hosts: usize) -> (state: Self)
        ensures
            state.wf(),
            state.windows() == Seq::new(hosts as nat, |h: int| Seq::<ResponseInfo>::empty()),
            state.means() == Seq::new(hosts as nat, |h: int| NO_AVERAGE),
            state.pool() == 0,
            state.agents() == Map::<Seq<char>, Seq<u64>>::empty(),
    {
        let mut times: Vec<LatencyWindow> = Vec::new();
        let mut averages: Vec<u64> = Vec::new();
        let mut h: usize = 0;
        while h < hosts
            invariant
                h <= hosts,
                times@.len() == h,
                averages@.len() == h,
                forall|k: int| 0 <= k < h ==> (#[trigger] times@[k])@ == Seq::<ResponseInfo>::empty(),
                forall|k: int| 0 <= k < h ==> #[trigger] averages@[k] == NO_AVERAGE,
            decreases hosts - h,
        {
            times.push(LatencyWindow::new());
            averages.push(NO_AVERAGE);
            h = h + 1;
        }
        let state = LoadState { times, averages, pool_count: 0, agent_requests: AgentRegistry::new() };
        proof {
            assert(state.windows() =~= Seq::new(hosts as nat, |h: int| Seq::<ResponseInfo>::empty()));
            assert(state.means() =~= Seq::new(hosts as nat, |h: int| NO_AVERAGE));
            lemma_total_records_of_empty(state.windows());
        }
        state
    }

    /// Number of hosts in the pool.
    pub fn hosts(&self) -> (n: usize)
        ensures
            n == self.windows().len(),
    {
        self.times.len()
    }

    /// The pool counter: the number of recorded responses within the windows.
    pub fn pool_count(&self) -> (count: isize)
        ensures
            count == self.pool(),
    {
        self.pool_count
    }

    /// The cached mean of every host, `NO_AVERAGE` where nothing is known.
    pub fn averages(&self) -> (averages: &Vec<u64>)
        ensures
            averages@ == self.means(),
    {
        &self.averages
    }

    /// The latency window of host `h`, or `None` if there is no such host.
    pub fn window(&self, h: usize) -> (window: Option<&LatencyWindow>)
        ensures
            match window {
                Some(w) => h < self.windows().len() && w@ == self.windows()[h as int],
                None => h >= self.windows().len(),
            },
    {
        if h < self.times.len() {
            Some(&self.times[h])
        } else {
            None
        }
    }

    /// The agents seen so far.
    pub fn agent_requests(&self) -> (registry: &AgentRegistry)
        requires
            self.wf(),
        ensures
            registry.wf(),
            registry@ == self.agents(),
    {
        &self.agent_requests
    }

    /// Chooses the strategy for a request of `agent`: an agent that was never
    /// seen is registered with an empty history and balanced by latency; a
    /// known one is pinned by hash exactly when the requests in its history,
    /// less the grace, exceed the pool counter divided by the number of hosts.
    pub fn pick_strategy(&mut self, agent: &str) -> (strategy: RoutingStrategy)
        requires
            old(self).wf(),
        ensures
            final(self).wf(),
            final(self).windows() == old(self).windows(),
            final(self).means() == old(self).means(),
            final(self).pool() == old(self).pool(),
            final(self).agents() == seen(old(self).agents(), agent@),
            strategy == strategy_of(
                known_requests(old(self).agents(), agent@),
                old(self).pool(),
                old(self).windows().len() as int,
            ),
    {
        crate::strategy::pick_strategy(
            agent,
            &mut self.agent_requests,
            self.pool_count,
            self.times.len(),
        )
    }

    /// Picks the host for a request of `agent` by `strategy`, passing over the
    /// excluded indices.
    pub fn pick_host(
        &self,
        strategy: RoutingStrategy,
        agent: &str,
        exclude_indexes: &Vec<usize>,
    ) -> (out: usize)
        requires
            self.wf(),
            self.windows().len() > exclude_indexes.len(),
        ensures
            out < self.windows().len(),
            !exclude_indexes@.contains(out),
            strategy == RoutingStrategy::Hash ==> out == hash_route(
                key_hash(agent@),
                self.windows().len() as int,
                exclude_indexes@,
            ),
            strategy == RoutingStrategy::MovingAverage ==> exists|fallback: u64|
                out == average_route(self.means(), exclude_indexes@, fallback),
            strategy == RoutingStrategy::MovingAverage ==> (lowest_average(self.means()) matches Some(
                i,
            ) ==> out == first_free(i, self.windows().len() as int, exclude_indexes@)),
    {
        match strategy {
            RoutingStrategy::Hash => pick_host_from_hash(&self.times, agent, exclude_indexes),
            RoutingStrategy::MovingAverage => pick_host_lowest_average(
                &self.averages,
                exclude_indexes,
            ),
        }
    }

    /// Records the outcome of a request that was sent to host `target_index`.
    ///
    /// The record is appended to the host's window and the window's stale head
    /// is evicted; the host's cached mean becomes the mean of what remains; the
    /// pool counter moves by the change in the window's length; and the
    /// request's start is noted in the agent's history, after its stale head
    /// was evicted.
    pub fn update_load_state(
        &mut self,
        target_index: usize,
        request_time: ResponseInfo,
        request_start: u64,
        agent: &str,
    )
        requires
            old(self).wf(),
            target_index < old(self).windows().len(),
            old(self).pool() < isize::MAX,
        ensures
            final(self).wf(),
            final(self).windows() == old(self).windows().update(
                target_index as int,
                recorded(old(self).windows()[target_index as int], request_time, request_start),
            ),
            final(self).means() == old(self).means().update(
                target_index as int,
                mean_wait(final(self).windows()[target_index as int]) as u64,
            ),
            final(self).means()[target_index as int] == mean_wait(
                final(self).windows()[target_index as int],
            ),
            final(self).pool() == old(self).pool() + net_change(
                old(self).windows()[target_index as int],
                request_time,
                request_start,
            ),
            final(self).pool() == total_records(final(self).windows()),
            final(self).agents() == old(self).agents().insert(
                agent@,
                noted(history_of(old(self).agents(), agent@), request_start),
            ),
    {
        let ghost before = self.windows();
        proof {
            lemma_total_records_bounds(before, target_index as int);
        }
        let update = self.times[target_index].record(request_time, request_start);
        let ghost after = before.update(
            target_index as int,
            recorded(before[target_index as int], request_time, request_start),
        );
        proof {
            assert(self.windows() =~= after);
            lemma_total_records_update(before, target_index as int, after[target_index as int]);
        }
        self.averages[target_index] = update.average;
        self.pool_count = self.pool_count + update.net;
        self.agent_requests.record(agent, request_start);
        proof {
            assert(self.windows() =~= after);
            assert forall|h: int| 0 <= h < self.windows().len() implies mean_is_current(
                #[trigger] self.means()[h],
                self.windows()[h],
            ) by {
                if h != target_index {
                    assert(self.means()[h] == old(self).means()[h]);
                    assert(self.windows()[h] == old(self).windows()[h]);
                }
            }
        }
    }
}

} // verus!
