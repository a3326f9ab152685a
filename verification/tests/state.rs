use router::hashing::hash_key;
use router::picker::NO_AVERAGE;
use router::state::LoadState;
use router::strategy::RoutingStrategy;
use router::window::ResponseInfo;

const MS: u64 = 1_000_000;

fn answered(start: u64, wait: u64) -> ResponseInfo {
    ResponseInfo { start, wait: Some(wait) }
}

fn window_lengths(state: &LoadState) -> Vec<usize> {
    (0..state.hosts()).map(|h| state.window(h).unwrap().len()).collect()
}

#[test]
fn a_new_state_knows_nothing() {
    let state = LoadState::new(3);
    assert_eq!(state.hosts(), 3);
    assert_eq!(state.pool_count(), 0);
    assert_eq!(state.averages(), &vec![NO_AVERAGE, NO_AVERAGE, NO_AVERAGE]);
    assert_eq!(window_lengths(&state), vec![0, 0, 0]);
    assert!(state.window(3).is_none());
    assert_eq!(state.agent_requests().history_len("1.2.3.4"), None);
}

#[test]
fn a_state_without_hosts_is_empty() {
    let state = LoadState::new(0);
    assert_eq!(state.hosts(), 0);
    assert!(state.averages().is_empty());
    assert!(state.window(0).is_none());
}

#[test]
fn a_cold_pool_balances_a_new_agent_onto_some_host() {
    let mut state = LoadState::new(3);
    let strategy = state.pick_strategy("1.2.3.4");
    assert_eq!(strategy, RoutingStrategy::MovingAverage);
    assert_eq!(state.agent_requests().history_len("1.2.3.4"), Some(0));
    let index = state.pick_host(strategy, "1.2.3.4", &vec![]);
    assert!(index < 3);
    assert_eq!(state.pool_count(), 0);
    assert_eq!(state.averages(), &vec![NO_AVERAGE, NO_AVERAGE, NO_AVERAGE]);
}

#[test]
fn a_hot_agent_is_pinned_to_the_host_of_its_hash() {
    let mut state = LoadState::new(2);
    let t = 50_000 * MS;
    for i in 0..8u64 {
        state.update_load_state((i % 2) as usize, answered(t + i, 5 * MS), t + i, "A");
    }
    state.update_load_state(0, answered(t + 8, 5 * MS), t + 8, "B");
    state.update_load_state(1, answered(t + 9, 5 * MS), t + 9, "B");
    assert_eq!(state.pool_count(), 10);
    assert_eq!(state.agent_requests().history_len("A"), Some(8));
    let strategy = state.pick_strategy("A");
    assert_eq!(strategy, RoutingStrategy::Hash);
    let index = state.pick_host(strategy, "A", &vec![]);
    assert_eq!(index, (hash_key("A") % 2) as usize);
    for _ in 0..5 {
        assert_eq!(state.pick_strategy("A"), RoutingStrategy::Hash);
        assert_eq!(state.pick_host(RoutingStrategy::Hash, "A", &vec![]), index);
    }
    assert_eq!(state.pick_host(RoutingStrategy::Hash, "A", &vec![index]), 1 - index);
}

#[test]
fn a_fair_agent_stays_balanced() {
    let mut state = LoadState::new(2);
    let t = 1_000 * MS;
    state.update_load_state(0, answered(t, 9 * MS), t, "X");
    state.update_load_state(1, answered(t + 1, 3 * MS), t + 1, "X");
    state.update_load_state(0, answered(t + 2, 9 * MS), t + 2, "Y");
    state.update_load_state(1, answered(t + 3, 3 * MS), t + 3, "Y");
    assert_eq!(state.pool_count(), 4);
    assert_eq!(state.agent_requests().history_len("X"), Some(2));
    let strategy = state.pick_strategy("X");
    assert_eq!(strategy, RoutingStrategy::MovingAverage);
    assert_eq!(state.pick_host(strategy, "X", &vec![]), 1);
    assert_eq!(state.pick_host(strategy, "X", &vec![1]), 0);
}

#[test]
fn a_timeout_counts_at_the_penalty_in_the_next_mean() {
    let mut state = LoadState::new(2);
    state.update_load_state(1, ResponseInfo { start: 10, wait: None }, 10, "c");
    assert_eq!(state.averages(), &vec![NO_AVERAGE, 500 * MS]);
    assert_eq!(state.window(1).unwrap().get(0), Some(ResponseInfo { start: 10, wait: None }));
    state.update_load_state(1, answered(20, 100 * MS), 20, "c");
    assert_eq!(state.averages(), &vec![NO_AVERAGE, 300 * MS]);
}

#[test]
fn an_update_touches_one_host_and_one_agent() {
    let mut state = LoadState::new(3);
    state.update_load_state(2, answered(5, 70), 5, "a");
    state.update_load_state(0, answered(6, 90), 6, "b");
    assert_eq!(window_lengths(&state), vec![1, 0, 1]);
    assert_eq!(state.averages(), &vec![90, NO_AVERAGE, 70]);
    assert_eq!(state.pool_count(), 2);
    assert_eq!(state.agent_requests().history_len("a"), Some(1));
    assert_eq!(state.agent_requests().history_len("b"), Some(1));
    assert_eq!(state.agent_requests().history("a").unwrap().get(0), Some(5));
}

#[test]
fn the_third_update_evicts_the_first_and_leaves_the_pool_count() {
    let mut state = LoadState::new(1);
    let t = 7_000 * MS;
    state.update_load_state(0, answered(t, 10), t, "d");
    state.update_load_state(0, answered(t + 500 * MS, 20), t + 500 * MS, "d");
    assert_eq!(state.pool_count(), 2);
    state.update_load_state(0, answered(t + 2_100 * MS, 30), t + 2_100 * MS, "d");
    assert_eq!(state.pool_count(), 2);
    let window = state.window(0).unwrap();
    assert_eq!(window.len(), 2);
    assert_eq!(window.get(0), Some(answered(t + 500 * MS, 20)));
    assert_eq!(window.get(1), Some(answered(t + 2_100 * MS, 30)));
    assert_eq!(state.averages(), &vec![25]);
    assert_eq!(state.agent_requests().history_len("d"), Some(2));
}

#[test]
fn the_pool_count_is_the_number_of_records_after_every_update() {
    let mut state = LoadState::new(4);
    let mut now = 0;
    for step in 0..300u64 {
        now += (step % 11) * 90 * MS;
        let host = ((step * 7 + step / 3) % 4) as usize;
        let agent = ["a", "b", "c"][(step % 3) as usize];
        state.update_load_state(host, answered(now, step * 1_000 + 1), now, agent);
        let total: usize = window_lengths(&state).iter().sum();
        assert_eq!(state.pool_count(), total as isize);
    }
}

#[test]
fn every_cached_mean_is_the_mean_of_its_window() {
    let mut state = LoadState::new(3);
    let mut now = 0;
    for step in 0..200u64 {
        now += (step % 9) * 120 * MS;
        let host = (step % 3) as usize;
        let record = if step % 4 == 0 {
            ResponseInfo { start: now, wait: None }
        } else {
            answered(now, step * 3 * MS + 7)
        };
        state.update_load_state(host, record, now, "agent");
        for h in 0..3 {
            let window = state.window(h).unwrap();
            if window.len() == 0 {
                assert_eq!(state.averages()[h], NO_AVERAGE);
            } else {
                assert_eq!(state.averages()[h], window.average());
            }
        }
    }
}

#[test]
fn an_update_registers_an_agent_that_never_asked_for_a_strategy() {
    let mut state = LoadState::new(1);
    state.update_load_state(0, answered(1, 1), 1, "stranger");
    assert_eq!(state.agent_requests().history_len("stranger"), Some(1));
}
