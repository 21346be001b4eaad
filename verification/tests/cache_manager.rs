use cdn_cache::cache::CacheManager;
use cdn_cache::cdn::Node;
use cdn_cache::handler::{insert_cache, NodeUpdate};
use cdn_cache::loadbalancer::LoadBalancingStrategy;
use tokio::sync::broadcast;
fn rx() -> broadcast::Receiver<(String, String, String)> {
    broadcast::channel::<(String, String, String)>(100).1
}


fn update(id: &str, app_id: &str, key: &str, value: &str) -> NodeUpdate {
    NodeUpdate {
        id: id.to_string(),
        app_id: app_id.to_string(),
        key: key.to_string(),
        value: value.to_string(),
    }
}

#[test]
fn test_invalidation() {
    let mut cache_manager = CacheManager::new();

    let node1 = Node::new("Node 1".to_string(), "127.0.0.1:8080".to_string(), 10, rx());
    let node2 = Node::new("Node 2".to_string(), "127.0.0.1:8081".to_string(), 5, rx());

    cache_manager.register_node("App1", node1);
    cache_manager.register_node("App1", node2);

    insert_cache(&mut cache_manager, update("Node 1", "App1", "test_key", "value1"));
    insert_cache(&mut cache_manager, update("Node 2", "App1", "test_key", "value2"));

    assert_eq!(
        cache_manager.node(0).cache_get(&"test_key".to_string()),
        Some("value1".to_string())
    );
    assert_eq!(
        cache_manager.node(1).cache_get(&"test_key".to_string()),
        Some("value2".to_string())
    );

    cache_manager.notify_nodes("App1", "test_key".to_string());

    assert_eq!(cache_manager.node(0).cache_get(&"test_key".to_string()), None);
    assert_eq!(cache_manager.node(1).cache_get(&"test_key".to_string()), None);
}

#[test]
fn test_dashmap_clone() {
    let mut cache_manager = CacheManager::new();
    let node1 = Node::new("node1".to_string(), "127.0.0.1:8080".to_string(), 10, rx());

    cache_manager.add_node_to_app("app1".to_string(), node1);

    let nodes = cache_manager.get_nodes_for_app("app1").unwrap();
    assert_eq!(nodes.len(), 1);
    assert_eq!(cache_manager.node(nodes[0]).id(), "node1");
}

#[test]
fn new_manager_is_empty_and_weighted() {
    let cache_manager = CacheManager::new();
    assert_eq!(cache_manager.node_count(), 0);
    assert_eq!(cache_manager.get_nodes_for_app("any"), None);
}

#[test]
fn registration_appends_handles_per_app() {
    let mut m = CacheManager::new();
    m.register_node("a", Node::new("x".to_string(), "h1".to_string(), 1, rx()));
    m.register_node("b", Node::new("y".to_string(), "h2".to_string(), 2, rx()));
    m.register_node("a", Node::new("z".to_string(), "h3".to_string(), 3, rx()));
    assert_eq!(m.get_nodes_for_app("a"), Some(vec![0, 2]));
    assert_eq!(m.get_nodes_for_app("b"), Some(vec![1]));
    assert_eq!(m.node(2).address(), "h3");
    assert_eq!(m.node(1).weight(), 2);
}

#[test]
fn notify_leaves_other_apps_and_keys_alone() {
    let mut m = CacheManager::new();
    m.register_node("a", Node::new("x".to_string(), "h1".to_string(), 1, rx()));
    m.register_node("b", Node::new("y".to_string(), "h2".to_string(), 2, rx()));
    insert_cache(&mut m, update("x", "a", "k", "1"));
    insert_cache(&mut m, update("x", "a", "other", "2"));
    insert_cache(&mut m, update("y", "b", "k", "3"));
    m.notify_nodes("a", "k".to_string());
    assert_eq!(m.node(0).cache_get(&"k".to_string()), None);
    assert_eq!(m.node(0).cache_get(&"other".to_string()), Some("2".to_string()));
    assert_eq!(m.node(1).cache_get(&"k".to_string()), Some("3".to_string()));
    // an unknown application: nothing happens
    m.notify_nodes("nope", "other".to_string());
    assert_eq!(m.node(0).cache_get(&"other".to_string()), Some("2".to_string()));
}

#[test]
fn handle_invalidation_hits_first_node_with_the_id_only() {
    let mut m = CacheManager::new();
    m.register_node("a", Node::new("x".to_string(), "h1".to_string(), 1, rx()));
    m.register_node("a", Node::new("y".to_string(), "h2".to_string(), 1, rx()));
    insert_cache(&mut m, update("x", "a", "k", "1"));
    insert_cache(&mut m, update("y", "a", "k", "2"));
    m.handle_invalidation("a".to_string(), "y".to_string(), "k".to_string());
    assert_eq!(m.node(0).cache_get(&"k".to_string()), Some("1".to_string()));
    assert_eq!(m.node(1).cache_get(&"k".to_string()), None);
    m.handle_invalidation("a".to_string(), "missing".to_string(), "k".to_string());
    assert_eq!(m.node(0).cache_get(&"k".to_string()), Some("1".to_string()));
}

#[test]
fn best_node_is_weighted_and_never_zero_weight() {
    let mut m = CacheManager::new();
    m.register_node("a", Node::new("x".to_string(), "h1".to_string(), 0, rx()));
    m.register_node("a", Node::new("y".to_string(), "h2".to_string(), 7, rx()));
    m.register_node("a", Node::new("z".to_string(), "h3".to_string(), 0, rx()));
    let nodes = m.get_nodes_for_app("a");
    for _ in 0..50 {
        assert_eq!(m.get_best_node("a", nodes.clone()), Some(1));
    }
    assert_eq!(m.get_best_node("a", None), None);
}

#[test]
fn best_node_uses_the_strategy_of_the_manager() {
    let _ = LoadBalancingStrategy::WeightedRoundRobin;
    let mut m = CacheManager::new();
    m.register_node("a", Node::new("x".to_string(), "h1".to_string(), 1, rx()));
    m.register_node("a", Node::new("y".to_string(), "h2".to_string(), 1, rx()));
    let nodes = m.get_nodes_for_app("a");
    for _ in 0..50 {
        let chosen = m.get_best_node("a", nodes.clone()).unwrap();
        assert!(chosen == 0 || chosen == 1);
    }
}
