use router::agents::AgentRegistry;
use router::strategy::{exceeds_fair_share, pick_strategy, strategy_for, RoutingStrategy};

#[test]
fn an_unseen_agent_is_balanced_by_latency() {
    assert_eq!(strategy_for(None, 0, 3), RoutingStrategy::MovingAverage);
    assert_eq!(strategy_for(None, -5, 3), RoutingStrategy::MovingAverage);
    assert_eq!(strategy_for(None, isize::MIN, 0), RoutingStrategy::MovingAverage);
}

#[test]
fn a_hot_agent_is_pinned_by_hash() {
    assert_eq!(strategy_for(Some(8), 10, 2), RoutingStrategy::Hash);
}

#[test]
fn a_fair_pair_is_balanced_by_latency() {
    assert_eq!(strategy_for(Some(2), 4, 2), RoutingStrategy::MovingAverage);
}

#[test]
fn the_exact_share_is_not_exceeded() {
    assert!(!exceeds_fair_share(3, 4, 2));
    assert!(exceeds_fair_share(4, 4, 2));
    assert!(!exceeds_fair_share(6, 10, 2));
    assert!(exceeds_fair_share(7, 10, 2));
}

#[test]
fn the_share_is_a_fraction() {
    assert!(!exceeds_fair_share(3, 5, 2));
    assert!(exceeds_fair_share(4, 5, 2));
    assert!(!exceeds_fair_share(1, 1, 3));
    assert!(exceeds_fair_share(2, 1, 3));
    assert!(exceeds_fair_share(2, 2, 3));
    assert!(!exceeds_fair_share(2, 3, 3));
}

#[test]
fn the_grace_covers_one_request() {
    assert!(!exceeds_fair_share(1, 0, 4));
    assert!(exceeds_fair_share(2, 0, 4));
    assert!(!exceeds_fair_share(0, 0, 4));
}

#[test]
fn an_empty_history_counts_below_zero() {
    assert!(!exceeds_fair_share(0, -4, 4));
    assert!(exceeds_fair_share(0, -5, 4));
    assert!(!exceeds_fair_share(0, -1, 1));
    assert!(exceeds_fair_share(0, -2, 1));
    assert!(exceeds_fair_share(0, isize::MIN, usize::MAX / 2));
}

#[test]
fn a_negative_pool_is_exceeded_by_any_request() {
    assert!(exceeds_fair_share(1, -1, 3));
    assert!(exceeds_fair_share(5, isize::MIN, 1));
}

#[test]
fn without_hosts_only_a_negative_pool_is_exceeded() {
    assert!(!exceeds_fair_share(100, 0, 0));
    assert!(!exceeds_fair_share(100, 7, 0));
    assert!(exceeds_fair_share(100, -7, 0));
    assert!(exceeds_fair_share(0, -7, 0));
}

#[test]
fn the_share_is_exact_for_the_largest_numbers() {
    assert!(exceeds_fair_share(usize::MAX, isize::MAX, usize::MAX));
    assert!(exceeds_fair_share(usize::MAX, isize::MAX, 1));
    assert!(!exceeds_fair_share(2, isize::MAX, usize::MAX / 2));
    assert!(exceeds_fair_share(3, isize::MAX, usize::MAX / 2));
    assert!(exceeds_fair_share((1usize << 24) + 2, 1 << 24, 1));
    assert!(!exceeds_fair_share((1usize << 24) + 1, 1 << 24, 1));
}

#[test]
fn picking_registers_an_unseen_agent() {
    let mut registry = AgentRegistry::new();
    assert_eq!(pick_strategy("1.2.3.4", &mut registry, 0, 3), RoutingStrategy::MovingAverage);
    assert_eq!(registry.history_len("1.2.3.4"), Some(0));
    assert_eq!(pick_strategy("1.2.3.4", &mut registry, 0, 3), RoutingStrategy::MovingAverage);
    assert_eq!(registry.history_len("1.2.3.4"), Some(0));
}

#[test]
fn picking_leaves_a_known_history_alone() {
    let mut registry = AgentRegistry::new();
    for start in 0..8u64 {
        registry.record("A", start);
    }
    assert_eq!(pick_strategy("A", &mut registry, 10, 2), RoutingStrategy::Hash);
    assert_eq!(registry.history_len("A"), Some(8));
    assert_eq!(pick_strategy("A", &mut registry, 14, 2), RoutingStrategy::MovingAverage);
    assert_eq!(pick_strategy("A", &mut registry, 13, 2), RoutingStrategy::Hash);
    assert_eq!(registry.history_len("B"), None);
}
