//! The choice between the two routing strategies: an agent within its fair
//! share of the pool's traffic is balanced by latency, one above it is pinned
//! by hash.

use crate::agents::{seen, AgentRegistry};
use crate::clock::GRACE_REQUESTS;
use vstd::arithmetic::div_mod::{lemma_fundamental_div_mod, lemma_mod_bound};
use vstd::prelude::*;

verus! {

/// How the backend of a request is chosen.
#[derive(Clone, Copy, Debug, PartialEq, Eq)]
pub enum RoutingStrategy {
    /// The backend is fixed by a hash of the agent's identifier.
    Hash,
    /// The backend is the one with the lowest moving-average latency.
    MovingAverage,
}

/// An agent with `requests` requests in its history is above its fair share
/// when `requests - GRACE_REQUESTS` is greater than `pool / hosts`, taken as an
/// exact fraction. With no host at all this is the case only for a negative
/// pool count.
pub open spec fn over_fair_share(requests: int, pool: int, hosts: int) -> bool {
    (requests - GRACE_REQUESTS) * hosts > pool
}

/// The strategy for an agent whose history holds `history_len` requests;
/// `None` stands for an agent that was never seen.
pub open spec fn strategy_of(history_len: Option<int>, pool: int, hosts: int) -> RoutingStrategy {
    match history_len {
        Some(n) => if over_fair_share(n, pool, hosts) {
            RoutingStrategy::Hash
        } else {
            RoutingStrategy::MovingAverage
        },
        None => RoutingStrategy::MovingAverage,
    }
}

/// Number of requests in the history of `agent`, `None` if it was never seen.
pub open spec fn known_requests(agents: Map<Seq<char>, Seq<u64>>, agent: Seq<char>) -> Option<int> {
    if agents.contains_key(agent) {
        Some(agents[agent].len() as int)
    } else {
        None
    }
}

/// Over at least one host, an agent is above its fair share exactly when its
/// requests, less the grace, exceed the pool count divided by the number of
/// hosts. The quotient may be rounded down: the left side is whole.
pub proof fn lemma_fair_share_is_quotient(requests: int, pool: int, hosts: int)
    requires
        hosts > 0,
    ensures
        over_fair_share(requests, pool, hosts) <==> requests - GRACE_REQUESTS > pool / hosts,
{
    let above = requests - GRACE_REQUESTS;
    let share = pool / hosts;
    lemma_fundamental_div_mod(pool, hosts);
    lemma_mod_bound(pool, hosts);
    if above > share {
        assert(above * hosts >= (share + 1) * hosts) by (nonlinear_arith)
            requires
                above >= share + 1,
                hosts > 0,
        ;
        assert((share + 1) * hosts == hosts * share + hosts) by (nonlinear_arith);
    } else {
        assert(above * hosts <= share * hosts) by (nonlinear_arith)
            requires
                above <= share,
                hosts > 0,
        ;
        assert(share * hosts == hosts * share) by (nonlinear_arith);
    }
}

/// A known agent is pinned by hash exactly when it is above its fair share,
/// and balanced by latency otherwise.
pub proof fn lemma_strategy_of_known(requests: int, pool: int, hosts: int)
    ensures
        strategy_of(Some(requests), pool, hosts) == RoutingStrategy::Hash <==> over_fair_share(
            requests,
            pool,
            hosts,
        ),
        strategy_of(Some(requests), pool, hosts) == RoutingStrategy::MovingAverage
            <==> !over_fair_share(requests, pool, hosts),
{
}

proof fn lemma_product_fits(a: usize, b: usize)
    ensures
        0 <= a * b <= u128::MAX,
{
    assert(0 <= a * b <= 0xffff_ffff_ffff_ffff * 0xffff_ffff_ffff_ffff) by (nonlinear_arith)
        requires
            0 <= a <= 0xffff_ffff_ffff_ffff,
            0 <= b <= 0xffff_ffff_ffff_ffff,
    ;
}

/// Tells whether an agent with `requests` requests in its history is above its
/// fair share of a pool of `pool_count` recorded responses over `hosts` hosts.
pub fn exceeds_fair_share(requests: usize, pool_count: isize, hosts: usize) -> (over: bool)
    ensures
        over == over_fair_share(requests as int, pool_count as int, hosts as int),
{
    if requests >= GRACE_REQUESTS {
        let above: usize = requests - GRACE_REQUESTS;
        proof {
            lemma_product_fits(above, hosts);
        }
        if pool_count < 0 {
            true
        } else {
            (above as u128) * (hosts as u128) > pool_count as u128
        }
    } else {
        let below: usize = GRACE_REQUESTS - requests;
        proof {
            lemma_product_fits(below, hosts);
            assert((requests - GRACE_REQUESTS) * hosts == -(below * hosts)) by (nonlinear_arith)
                requires
                    below == GRACE_REQUESTS - requests,
            ;
        }
        if pool_count >= 0 {
            false
        } else {
            let deficit: u128 = (-(pool_count as i128)) as u128;
            (below as u128) * (hosts as u128) < deficit
        }
    }
}

/// The strategy for an agent whose history holds `history_len` requests,
/// `None` standing for an agent that was never seen: such an agent is balanced
/// by latency, a known one is pinned by hash exactly when it is above its fair
/// share.
pub fn strategy_for(history_len: Option<usize>, pool_count: isize, hosts: usize) -> (strategy:
    RoutingStrategy)
    ensures
        strategy == strategy_of(
            match history_len {
                Some(n) => Some(n as int),
                None => None,
            },
            pool_count as int,
            hosts as int,
        ),
{
    match history_len {
        Some(n) => if exceeds_fair_share(n, pool_count, hosts) {
            RoutingStrategy::Hash
        } else {
            RoutingStrategy::MovingAverage
        },
        None => RoutingStrategy::MovingAverage,
    }
}

/// Chooses the strategy for a request of `agent`. An agent that was never seen
/// is registered with an empty history and balanced by latency.
pub fn pick_strategy(
    agent: &str,
    agent_requests: &mut AgentRegistry,
    pool_count: isize,
    hosts: usize,
) -> (strategy: RoutingStrategy)
    requires
        old(agent_requests).wf(),
    ensures
        final(agent_requests).wf(),
        final(agent_requests)@ == seen(old(agent_requests)@, agent@),
        strategy == strategy_of(
            known_requests(old(agent_requests)@, agent@),
            pool_count as int,
            hosts as int,
        ),
{
    let history_len = agent_requests.history_len(agent);
    if history_len.is_none() {
        agent_requests.register(agent);
    }
    strategy_for(history_len, pool_count, hosts)
}

} // verus!
