use router::agents::{AgentHistory, AgentRegistry};
use router::clock::{is_aged, AVERAGE_WINDOW, GRACE_REQUESTS, TIMEOUT_PENALTY, TIMEOUT_THRESHOLD};
use router::window::{LatencyWindow, ResponseInfo, WindowUpdate};

const MS: u64 = 1_000_000;

fn answered(start: u64, wait: u64) -> ResponseInfo {
    ResponseInfo { start, wait: Some(wait) }
}

fn starts_of(window: &LatencyWindow) -> Vec<u64> {
    let mut out = Vec::new();
    let mut i = 0;
    while let Some(r) = window.get(i) {
        out.push(r.start);
        i += 1;
    }
    out
}

fn entries_of(history: &AgentHistory) -> Vec<u64> {
    let mut out = Vec::new();
    let mut i = 0;
    while let Some(t) = history.get(i) {
        out.push(t);
        i += 1;
    }
    out
}

#[test]
fn constants_are_in_nanoseconds() {
    assert_eq!(AVERAGE_WINDOW, 2_000_000_000);
    assert_eq!(TIMEOUT_THRESHOLD, 500_000_000);
    assert_eq!(TIMEOUT_PENALTY, 500_000_000);
    assert_eq!(GRACE_REQUESTS, 1);
}

#[test]
fn an_entry_is_aged_from_the_full_window_on() {
    assert!(!is_aged(5_000 * MS, 5_000 * MS));
    assert!(!is_aged(5_000 * MS, 3_000 * MS + 1));
    assert!(is_aged(5_000 * MS, 3_000 * MS));
    assert!(is_aged(5_000 * MS, 0));
}

#[test]
fn an_entry_from_the_future_is_not_aged() {
    assert!(!is_aged(0, 10_000 * MS));
    assert!(!is_aged(1, u64::MAX));
}

#[test]
fn a_new_window_is_empty_with_mean_zero() {
    let window = LatencyWindow::new();
    assert_eq!(window.len(), 0);
    assert_eq!(window.get(0), None);
    assert_eq!(window.average(), 0);
}

#[test]
fn the_first_record_stays_and_counts_one() {
    let mut window = LatencyWindow::new();
    let update = window.record(answered(7 * MS, 40 * MS), 7 * MS);
    assert_eq!(update, WindowUpdate { net: 1, average: 40 * MS });
    assert_eq!(window.len(), 1);
    assert_eq!(window.get(0), Some(answered(7 * MS, 40 * MS)));
    assert_eq!(window.get(1), None);
}

#[test]
fn the_third_record_evicts_the_first_and_nets_zero() {
    let t = 10_000 * MS;
    let mut window = LatencyWindow::new();
    assert_eq!(window.record(answered(t, 10 * MS), t).net, 1);
    assert_eq!(window.record(answered(t + 500 * MS, 20 * MS), t + 500 * MS).net, 1);
    let update = window.record(answered(t + 2_100 * MS, 30 * MS), t + 2_100 * MS);
    assert_eq!(update.net, 0);
    assert_eq!(starts_of(&window), vec![t + 500 * MS, t + 2_100 * MS]);
    assert_eq!(update.average, 25 * MS);
}

#[test]
fn eviction_stops_at_the_first_record_within_the_window() {
    let mut window = LatencyWindow::new();
    window.record(answered(5_000 * MS, 1), 5_000 * MS);
    window.record(answered(0, 1), 0);
    let update = window.record(answered(6_500 * MS, 1), 6_500 * MS);
    assert_eq!(update.net, 1);
    assert_eq!(starts_of(&window), vec![5_000 * MS, 0, 6_500 * MS]);
}

#[test]
fn a_late_update_can_evict_every_record() {
    let mut window = LatencyWindow::new();
    window.record(answered(0, 8), 0);
    window.record(answered(100 * MS, 8), 100 * MS);
    let update = window.record(answered(200 * MS, 8), 9_000 * MS);
    assert_eq!(update, WindowUpdate { net: -2, average: 0 });
    assert_eq!(window.len(), 0);
}

#[test]
fn the_mean_counts_a_timeout_at_the_penalty() {
    let mut window = LatencyWindow::new();
    let update = window.record(ResponseInfo { start: 3, wait: None }, 3);
    assert_eq!(update.average, 500 * MS);
    let update = window.record(answered(4, 100 * MS), 4);
    assert_eq!(update.average, 300 * MS);
    let update = window.record(answered(5, 300 * MS), 5);
    assert_eq!(update.average, 300 * MS);
    assert_eq!(window.average(), 300 * MS);
}

#[test]
fn the_mean_is_rounded_down() {
    let mut window = LatencyWindow::new();
    window.record(answered(0, 1), 0);
    let update = window.record(answered(0, 2), 0);
    assert_eq!(update.average, 1);
    let update = window.record(answered(0, 5), 0);
    assert_eq!(update.average, 2);
}

#[test]
fn the_mean_of_the_largest_waits_does_not_overflow() {
    let mut window = LatencyWindow::new();
    window.record(answered(0, u64::MAX), 0);
    window.record(answered(0, u64::MAX), 0);
    let update = window.record(answered(0, u64::MAX - 3), 0);
    assert_eq!(update.average, u64::MAX - 1);
}

#[test]
fn records_in_order_stay_within_the_window_of_the_latest() {
    let mut window = LatencyWindow::new();
    let mut now = 0;
    for step in 0..200u64 {
        now += (step % 7) * 150 * MS;
        window.record(answered(now, step), now);
        let starts = starts_of(&window);
        assert_eq!(starts.last(), Some(&now));
        for start in starts {
            assert!(now - start < AVERAGE_WINDOW);
        }
    }
}

#[test]
fn the_mean_follows_the_window_through_many_updates() {
    let mut window = LatencyWindow::new();
    let mut now = 0;
    for step in 0..100u64 {
        now += 300 * MS;
        let record = if step % 5 == 0 {
            ResponseInfo { start: now, wait: None }
        } else {
            answered(now, step * MS + step)
        };
        let update = window.record(record, now);
        let mut sum: u128 = 0;
        let mut count: u128 = 0;
        let mut i = 0;
        while let Some(r) = window.get(i) {
            sum += r.wait.unwrap_or(TIMEOUT_PENALTY) as u128;
            count += 1;
            i += 1;
        }
        assert_eq!(update.average as u128, sum / count);
        assert_eq!(window.average(), update.average);
    }
}

#[test]
fn a_history_evicts_before_it_appends() {
    let mut history = AgentHistory::new();
    history.record(0);
    history.record(500 * MS);
    history.record(1_999 * MS);
    assert_eq!(entries_of(&history), vec![0, 500 * MS, 1_999 * MS]);
    history.record(2_000 * MS);
    assert_eq!(entries_of(&history), vec![500 * MS, 1_999 * MS, 2_000 * MS]);
    history.record(9_000 * MS);
    assert_eq!(entries_of(&history), vec![9_000 * MS]);
    assert_eq!(history.len(), 1);
    assert_eq!(history.get(1), None);
}

#[test]
fn a_history_keeps_entries_behind_a_recent_head() {
    let mut history = AgentHistory::new();
    history.record(5_000 * MS);
    history.record(0);
    history.record(6_500 * MS);
    assert_eq!(entries_of(&history), vec![5_000 * MS, 0, 6_500 * MS]);
}

#[test]
fn a_history_in_order_stays_within_the_window() {
    let mut history = AgentHistory::new();
    let mut now = 0;
    for step in 0..200u64 {
        now += (step % 5) * 250 * MS;
        history.record(now);
        for start in entries_of(&history) {
            assert!(now - start < AVERAGE_WINDOW);
        }
    }
}

#[test]
fn a_registry_knows_only_registered_agents() {
    let mut registry = AgentRegistry::new();
    assert_eq!(registry.history_len("10.0.0.1"), None);
    assert!(registry.history("10.0.0.1").is_none());
    registry.register("10.0.0.1");
    assert_eq!(registry.history_len("10.0.0.1"), Some(0));
    assert_eq!(registry.history_len("10.0.0.2"), None);
    assert_eq!(registry.history_len(""), None);
}

#[test]
fn registering_twice_keeps_the_history() {
    let mut registry = AgentRegistry::new();
    registry.record("a", 1);
    registry.record("a", 2);
    registry.register("a");
    assert_eq!(registry.history_len("a"), Some(2));
    assert_eq!(entries_of(registry.history("a").unwrap()), vec![1, 2]);
}

#[test]
fn agents_have_histories_of_their_own() {
    let mut registry = AgentRegistry::new();
    registry.record("a", 10);
    registry.record("b", 20);
    registry.record("a", 30);
    registry.record("anonymous", 40);
    assert_eq!(entries_of(registry.history("a").unwrap()), vec![10, 30]);
    assert_eq!(entries_of(registry.history("b").unwrap()), vec![20]);
    assert_eq!(entries_of(registry.history("anonymous").unwrap()), vec![40]);
    registry.record("b", 5_000 * MS);
    assert_eq!(entries_of(registry.history("a").unwrap()), vec![10, 30]);
    assert_eq!(entries_of(registry.history("b").unwrap()), vec![5_000 * MS]);
}

#[test]
fn recording_an_unseen_agent_starts_its_history() {
    let mut registry = AgentRegistry::new();
    registry.record("new", 77);
    assert_eq!(registry.history_len("new"), Some(1));
    assert_eq!(registry.history("new").unwrap().get(0), Some(77));
}
