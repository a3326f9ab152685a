//! Request histories of the agents: who was seen, and when each one last asked.

use crate::clock::{aged, is_aged};
use std::collections::VecDeque;
use vstd::hash_map::StringHashMap;
use vstd::prelude::*;

verus! {

/// Number of starts at the head of `s` that are aged at `now`, up to the first
/// one that is not.
pub open spec fn stale_starts(s: Seq<u64>, now: u64) -> nat
    decreases s.len(),
{
    if s.len() > 0 && aged(now, s[0]) {
        1 + stale_starts(s.drop_first(), now)
    } else {
        0
    }
}

/// The history after a request issued at `now` was noted in `s`: the stale
/// head is evicted first, then `now` is appended.
pub open spec fn noted(s: Seq<u64>, now: u64) -> Seq<u64> {
    s.skip(stale_starts(s, now) as int).push(now)
}

/// The history of `agent`, empty for one that was never seen.
pub open spec fn history_of(agents: Map<Seq<char>, Seq<u64>>, agent: Seq<char>) -> Seq<u64> {
    if agents.contains_key(agent) {
        agents[agent]
    } else {
        Seq::empty()
    }
}

/// The agents once `agent` has been seen: unchanged if it was known, else with
/// an empty history for it.
pub open spec fn seen(agents: Map<Seq<char>, Seq<u64>>, agent: Seq<char>) -> Map<
    Seq<char>,
    Seq<u64>,
> {
    if agents.contains_key(agent) {
        agents
    } else {
        agents.insert(agent, Seq::empty())
    }
}

/// No start of `s` is aged at `now`.
pub open spec fn recent(s: Seq<u64>, now: u64) -> bool {
    forall|i: int| 0 <= i < s.len() ==> !aged(now, #[trigger] s[i])
}

/// The starts of `s` do not decrease.
pub open spec fn ascending(s: Seq<u64>) -> bool {
    forall|i: int, j: int| 0 <= i <= j < s.len() ==> s[i] <= s[j]
}

/// The stale head has length `k` exactly when the first `k` starts are aged and
/// the one after them, if there is one, is not.
pub proof fn lemma_stale_starts_is(s: Seq<u64>, now: u64, k: int)
    requires
        0 <= k <= s.len(),
        forall|i: int| 0 <= i < k ==> aged(now, #[trigger] s[i]),
        k < s.len() ==> !aged(now, s[k]),
    ensures
        stale_starts(s, now) == k,
    decreases k,
{
    if k > 0 {
        let rest = s.drop_first();
        assert forall|i: int| 0 <= i < k - 1 implies aged(now, #[trigger] rest[i]) by {
            assert(rest[i] == s[i + 1]);
        }
        lemma_stale_starts_is(rest, now, k - 1);
    }
}

/// The stale head lies within the history, holds aged starts only, and ends
/// before a start that is not aged.
pub proof fn lemma_stale_starts_bounds(s: Seq<u64>, now: u64)
    ensures
        stale_starts(s, now) <= s.len(),
        forall|i: int| 0 <= i < stale_starts(s, now) ==> aged(now, #[trigger] s[i]),
        stale_starts(s, now) < s.len() ==> !aged(now, s[stale_starts(s, now) as int]),
    decreases s.len(),
{
    if s.len() > 0 && aged(now, s[0]) {
        let rest = s.drop_first();
        lemma_stale_starts_bounds(rest, now);
        let k = stale_starts(rest, now) as int;
        assert forall|i: int| 0 <= i < k + 1 implies aged(now, #[trigger] s[i]) by {
            if i > 0 {
                assert(s[i] == rest[i - 1]);
            }
        }
        if k + 1 < s.len() {
            assert(s[k + 1] == rest[k]);
        }
    }
}

/// When an agent's requests are noted in the order of their starts, every
/// start in its history after an update is less than `AVERAGE_WINDOW` older
/// than the start just noted.
pub proof fn lemma_note_keeps_recent(s: Seq<u64>, now: u64)
    requires
        ascending(s),
        s.len() > 0 ==> s.last() <= now,
    ensures
        ascending(noted(s, now)),
        recent(noted(s, now), now),
        noted(s, now).last() == now,
{
    lemma_stale_starts_bounds(s, now);
    let k = stale_starts(s, now) as int;
    let kept = s.skip(k);
    let after = noted(s, now);
    assert forall|i: int| 0 <= i < after.len() implies !aged(now, #[trigger] after[i]) by {
        if i < kept.len() {
            assert(after[i] == s[k + i]);
            assert(s[k] <= s[k + i]);
        }
    }
    assert forall|i: int, j: int| 0 <= i <= j < after.len() implies after[i] <= after[j] by {
        if j < kept.len() {
            assert(after[i] == s[k + i] && after[j] == s[k + j]);
        } else if i < kept.len() {
            assert(after[i] == s[k + i]);
            assert(s[k + i] <= s[s.len() - 1]);
        }
    }
}

/// Starts of the requests of one agent, oldest first.
pub struct AgentHistory {
    starts: VecDeque<u64>,
}

impl View for AgentHistory {
    type V = Seq<u64>;

    closed spec fn view(&self) -> Seq<u64> {
        self.starts@
    }
}

impl AgentHistory {
    /// A history without requests.
    pub fn new() -> (h: Self)
        ensures
            h@ == Seq::<u64>::empty(),
    {
        AgentHistory { starts: VecDeque::new() }
    }

    /// Number of requests in the history.
    pub fn len(&self) -> (n: usize)
        ensures
            n == self@.len(),
    {
        self.starts.len()
    }

    /// The start at position `i`, counted from the oldest.
    pub fn get(&self, i: usize) -> (t: Option<u64>)
        ensures
            t == if i < self@.len() {
                Some(self@[i as int])
            } else {
                None
            },
    {
        if i < self.starts.len() {
            Some(self.starts[i])
        } else {
            None
        }
    }

    /// Removes starts from the head while the head is at least
    /// `AVERAGE_WINDOW` older than `request_start`, then appends
    /// `request_start`.
    pub fn record(&mut self, request_start: u64)
        ensures
            final(self)@ == noted(old(self)@, request_start),
    {
        let ghost before = self.starts@;
        let ghost mut k: int = 0;
        loop
            invariant
                0 <= k <= before.len(),
                self.starts@ == before.skip(k),
                forall|i: int| 0 <= i < k ==> aged(request_start, #[trigger] before[i]),
            ensures
                k < before.len() ==> !aged(request_start, before[k]),
            decreases self.starts@.len(),
        {
            if self.starts.len() == 0 {
                break ;
            }
            let head = self.starts[0];
            if !is_aged(request_start, head) {
                break ;
            }
            self.starts.pop_front();
            proof {
                assert(before.skip(k).subrange(1, before.len() - k) == before.skip(k + 1));
                k = k + 1;
            }
        }
        proof {
            lemma_stale_starts_is(before, request_start, k);
        }
        self.starts.push_back(request_start);
    }
}

/// The agents seen so far, each with its history.
pub struct AgentRegistry {
    slots: StringHashMap<usize>,
    histories: Vec<AgentHistory>,
}

impl View for AgentRegistry {
    type V = Map<Seq<char>, Seq<u64>>;

    closed spec fn view(&self) -> Map<Seq<char>, Seq<u64>> {
        Map::new(
            |a: Seq<char>| self.slots@.contains_key(a),
            |a: Seq<char>| self.histories@[self.slots@[a] as int]@,
        )
    }
}

impl AgentRegistry {
    /// Every known agent has a history of its own.
    pub closed spec fn wf(&self) -> bool {
        &&& forall|a: Seq<char>| #[trigger]
            self.slots@.contains_key(a) ==> self.slots@[a] < self.histories@.len()
        &&& forall|a: Seq<char>, b: Seq<char>|
            self.slots@.contains_key(a) && self.slots@.contains_key(b) && a != b
                ==> #[trigger] self.slots@[a] != #[trigger] self.slots@[b]
    }

    /// A registry that has seen no agent.
    pub fn new() -> (r: Self)
        ensures
            r.wf(),
            r@ == Map::<Seq<char>, Seq<u64>>::empty(),
    {
        let r = AgentRegistry { slots: StringHashMap::new(), histories: Vec::new() };
        assert(r@ =~= Map::<Seq<char>, Seq<u64>>::empty());
        r
    }

    /// Number of requests in the history of `agent`, or `None` for an agent
    /// that was never seen.
    pub fn history_len(&self, agent: &str) -> (n: Option<usize>)
        requires
            self.wf(),
        ensures
            match n {
                Some(requests) => self@.contains_key(agent@) && requests == self@[agent@].len(),
                None => !self@.contains_key(agent@),
            },
    {
        match self.slots.get(agent) {
            Some(slot) => Some(self.histories[*slot].len()),
            None => None,
        }
    }

    /// The history of `agent`, or `None` for an agent that was never seen.
    pub fn history(&self, agent: &str) -> (h: Option<&AgentHistory>)
        requires
            self.wf(),
        ensures
            match h {
                Some(found) => self@.contains_key(agent@) && found@ == self@[agent@],
                None => !self@.contains_key(agent@),
            },
    {
        match self.slots.get(agent) {
            Some(slot) => Some(&self.histories[*slot]),
            None => None,
        }
    }

    /// Makes `agent` known, with an empty history, unless it is known already.
    pub fn register(&mut self, agent: &str)
        requires
            old(self).wf(),
        ensures
            final(self).wf(),
            final(self)@ == seen(old(self)@, agent@),
    {
        if !self.slots.contains_key(agent) {
            let slot = self.histories.len();
            self.histories.push(AgentHistory::new());
            self.slots.insert(agent.to_owned(), slot);
            assert(self@ =~= old(self)@.insert(agent@, Seq::<u64>::empty()));
        }
    }

    /// Notes a request of `agent` issued at `request_start` in its history; an
    /// agent that was never seen starts from an empty history.
    pub fn record(&mut self, agent: &str, request_start: u64)
        requires
            old(self).wf(),
        ensures
            final(self).wf(),
            final(self)@ == old(self)@.insert(
                agent@,
                noted(history_of(old(self)@, agent@), request_start),
            ),
    {
        self.register(agent);
        let ghost registered = self@;
        let ghost slots = self.slots@;
        assert(registered.contains_key(agent@));
        let slot = match self.slots.get(agent) {
            Some(slot) => *slot,
            None => 0,
        };
        self.histories[slot].record(request_start);
        proof {
            let goal = old(self)@.insert(
                agent@,
                noted(history_of(old(self)@, agent@), request_start),
            );
            assert forall|a: Seq<char>| goal.contains_key(a) implies #[trigger] self@.contains_key(a)
                && self@[a] == goal[a] by {
                assert(registered.contains_key(a));
                assert(slots.contains_key(a));
                if a != agent@ {
                    assert(slots[a] != slots[agent@]);
                    assert(self@[a] == registered[a]);
                } else {
                    assert(registered[a] == history_of(old(self)@, a));
                    assert(self@[a] == noted(registered[a], request_start));
                }
            }
            assert forall|a: Seq<char>| #[trigger] self@.contains_key(a) implies goal.contains_key(
                a,
            ) by {
                assert(registered.contains_key(a));
            }
            assert(self@ =~= goal);
        }
    }
}

} // verus!
