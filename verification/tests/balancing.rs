use cdn_cache::cdn::Node;
use cdn_cache::loadbalancer::{pick_by_weight, total_weight, LoadBalancer, LoadBalancingStrategy};
use dashmap::DashMap;
use tokio::sync::broadcast;
fn rx() -> broadcast::Receiver<(String, String, String)> {
    broadcast::channel::<(String, String, String)>(100).1
}


fn members(entries: &[(&str, Vec<usize>)]) -> DashMap<String, Vec<usize>> {
    let m = DashMap::new();
    for (k, v) in entries {
        m.insert(k.to_string(), v.clone());
    }
    m
}

fn node(id: &str, weight: usize) -> Node {
    Node::new(id.to_string(), "addr".to_string(), weight, rx())
}

#[test]
fn round_robin_cycles_in_order() {
    let mut lb = LoadBalancer::new(
        LoadBalancingStrategy::BasicRoundRobin,
        members(&[("app", vec![4, 7, 9])]),
    );
    let picks: Vec<Option<usize>> = (0..7).map(|_| lb.select_node("app")).collect();
    assert_eq!(
        picks,
        vec![Some(4), Some(7), Some(9), Some(4), Some(7), Some(9), Some(4)]
    );
}

#[test]
fn round_robin_unknown_or_empty_app() {
    let mut lb = LoadBalancer::new(
        LoadBalancingStrategy::BasicRoundRobin,
        members(&[("empty", vec![])]),
    );
    assert_eq!(lb.select_node("nope"), None);
    assert_eq!(lb.select_node("empty"), None);
}

#[test]
fn round_robin_positions_are_per_app() {
    let mut lb = LoadBalancer::new(
        LoadBalancingStrategy::BasicRoundRobin,
        members(&[("a", vec![0, 1]), ("b", vec![2, 3])]),
    );
    assert_eq!(lb.select_node("a"), Some(0));
    assert_eq!(lb.select_node("b"), Some(2));
    assert_eq!(lb.select_node("a"), Some(1));
    assert_eq!(lb.select_node("b"), Some(3));
}

#[test]
fn weighted_node_skips_unhealthy_and_weightless() {
    let mut nodes = vec![node("a", 5), node("b", 0), node("c", 3)];
    nodes[0].set_healthy(false);
    let lb = LoadBalancer::new(
        LoadBalancingStrategy::WeightedRoundRobin,
        members(&[("app", vec![0, 1, 2])]),
    );
    for _ in 0..50 {
        assert_eq!(lb.select_weighted_node("app", &nodes), Some(2));
    }
    nodes[2].set_healthy(false);
    assert_eq!(lb.select_weighted_node("app", &nodes), None);
    assert_eq!(lb.select_weighted_node("nope", &nodes), None);
}

#[test]
fn weighted_node_picks_among_healthy() {
    let nodes = vec![node("a", 1), node("b", 1)];
    let lb = LoadBalancer::new(
        LoadBalancingStrategy::WeightedRoundRobin,
        members(&[("app", vec![0, 1])]),
    );
    for _ in 0..50 {
        let chosen = lb.select_weighted_node("app", &nodes).unwrap();
        assert!(chosen == 0 || chosen == 1);
    }
}

#[test]
fn best_node_round_robin_counts() {
    let mut lb = LoadBalancer::new(LoadBalancingStrategy::BasicRoundRobin, DashMap::new());
    let w = vec![1, 1, 1];
    let picks: Vec<Option<usize>> = (0..5).map(|_| lb.select_best_node("app", &w)).collect();
    assert_eq!(picks, vec![Some(0), Some(1), Some(2), Some(0), Some(1)]);
    // a shorter candidate list continues from the same count
    assert_eq!(lb.select_best_node("app", &vec![1, 1]), Some(1));
    assert_eq!(lb.select_best_node("other", &vec![1, 1]), Some(0));
}

#[test]
fn best_node_weighted_follows_weights() {
    let mut lb = LoadBalancer::new(LoadBalancingStrategy::WeightedRoundRobin, DashMap::new());
    for _ in 0..50 {
        assert_eq!(lb.select_best_node("app", &vec![0, 0, 4, 0]), Some(2));
    }
    assert_eq!(lb.strategy(), LoadBalancingStrategy::WeightedRoundRobin);
}

#[test]
fn pick_by_weight_shares() {
    let w = vec![2, 0, 3];
    assert_eq!(pick_by_weight(&w, 0), Some(0));
    assert_eq!(pick_by_weight(&w, 1), Some(0));
    assert_eq!(pick_by_weight(&w, 2), Some(2));
    assert_eq!(pick_by_weight(&w, 4), Some(2));
    assert_eq!(pick_by_weight(&w, 5), None);
    assert_eq!(pick_by_weight(&vec![], 0), None);
    // each member is picked by exactly as many choices as its weight
    let mut counts = vec![0usize; 3];
    for c in 0..5 {
        counts[pick_by_weight(&w, c).unwrap()] += 1;
    }
    assert_eq!(counts, vec![2, 0, 3]);
}

#[test]
fn total_weight_sums() {
    assert_eq!(total_weight(&vec![2, 0, 3]), 5);
    assert_eq!(total_weight(&vec![]), 0);
}

#[test]
fn health_round_marks_listed_nodes_only() {
    let mut nodes = vec![node("a", 1), node("b", 1), node("c", 1)];
    for n in nodes.iter_mut() {
        n.set_healthy(false);
    }
    let lb = LoadBalancer::new(
        LoadBalancingStrategy::WeightedRoundRobin,
        members(&[("x", vec![0]), ("y", vec![2, 0])]),
    );
    lb.health_check_round(&mut nodes);
    assert!(nodes[0].is_healthy());
    assert!(!nodes[1].is_healthy());
    assert!(nodes[2].is_healthy());
}

#[test]
fn from_entries_builds_the_node_map() {
    let mut lb = LoadBalancer::from_entries(
        LoadBalancingStrategy::BasicRoundRobin,
        vec![
            ("a".to_string(), vec![1, 2]),
            ("b".to_string(), vec![3]),
            ("a".to_string(), vec![5, 6]),
        ],
    );
    assert_eq!(lb.select_node("a"), Some(5));
    assert_eq!(lb.select_node("a"), Some(6));
    assert_eq!(lb.select_node("b"), Some(3));
    assert_eq!(lb.select_node("c"), None);
}

#[test]
fn lists_within_checks_every_handle() {
    let lb = LoadBalancer::from_entries(
        LoadBalancingStrategy::WeightedRoundRobin,
        vec![("a".to_string(), vec![0, 2]), ("b".to_string(), vec![1])],
    );
    assert!(lb.lists_within(3));
    assert!(!lb.lists_within(2));
    assert!(LoadBalancer::from_entries(LoadBalancingStrategy::WeightedRoundRobin, vec![]).lists_within(0));
}
