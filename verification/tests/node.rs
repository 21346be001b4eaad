use cdn_cache::cdn::{entry_weight, response_for_lookup, Node};
use tokio::sync::broadcast;
fn rx() -> broadcast::Receiver<(String, String, String)> {
    broadcast::channel::<(String, String, String)>(100).1
}


#[test]
fn test_cache_invalidation() {
    let mut node = Node::new("n".to_string(), "addr".to_string(), 1, rx());
    node.cache_insert("test_key".to_string(), "test_value".to_string());

    let cached_value = node.cache_get(&"test_key".to_string());
    assert_eq!(cached_value, Some("test_value".to_string()));

    let key_to_invalidate = "test_key".to_string();
    node.invalidate_cache(&key_to_invalidate);

    let cached_value_after_invalidation = node.cache_get(&"test_key".to_string());
    assert_eq!(cached_value_after_invalidation, None);
}

#[test]
fn test_eviction_policies() {
    let mut node = Node::new("n".to_string(), "addr".to_string(), 1, rx());
    for i in 0..100_000usize {
        let key = format!("key_{}", i);
        let value = "x".repeat(i % 100);
        node.cache_insert(key, value);
    }
    let mut hits = 0usize;
    for i in 0..100_000usize {
        let key = format!("key_{}", i);
        if let Some(v) = node.cache_get(&key) {
            assert_eq!(v, "x".repeat(i % 100));
            hits += 1;
        }
    }
    println!("hits: {} of 100000", hits);
}

#[test]
fn new_node_is_healthy_and_empty() {
    let node = Node::new("id".to_string(), "addr".to_string(), 7, rx());
    assert_eq!(node.id(), "id");
    assert_eq!(node.address(), "addr");
    assert_eq!(node.weight(), 7);
    assert!(node.is_healthy());
    assert!(node.check_health());
    assert_eq!(node.cache_get(&"anything".to_string()), None);
}

#[test]
fn health_can_be_recorded() {
    let mut node = Node::new("id".to_string(), "addr".to_string(), 7, rx());
    node.set_healthy(false);
    assert!(!node.is_healthy());
    assert_eq!(node.weight(), 7);
}

#[test]
fn process_request_misses_then_hits() {
    let mut node = Node::new("id".to_string(), "addr".to_string(), 7, rx());
    assert_eq!(
        node.process_request("GET /a".to_string()),
        Ok("Cache miss: GeneratedResponse".to_string())
    );
    assert_eq!(
        node.process_request("GET /a".to_string()),
        Ok("Cache hit: GeneratedResponse".to_string())
    );
    node.cache_insert("GET /b".to_string(), "stored".to_string());
    assert_eq!(node.process_request("GET /b".to_string()), Ok("Cache hit: stored".to_string()));
}

#[test]
fn rewrite_replaces_and_invalidate_touches_one_key() {
    let mut node = Node::new("id".to_string(), "addr".to_string(), 7, rx());
    node.cache_insert("a".to_string(), "1".to_string());
    node.cache_insert("a".to_string(), "2".to_string());
    node.cache_insert("b".to_string(), "3".to_string());
    node.invalidate_cache("b");
    assert_eq!(node.cache_get(&"a".to_string()), Some("2".to_string()));
    assert_eq!(node.cache_get(&"b".to_string()), None);
}

#[test]
fn lookup_responses() {
    assert_eq!(response_for_lookup(Some("v".to_string())), "Cache hit: v");
    assert_eq!(response_for_lookup(None), "Cache miss: GeneratedResponse");
}

#[test]
fn entry_weight_is_the_value_byte_length() {
    assert_eq!(entry_weight(&"k".to_string(), &"hello".to_string()), 5);
    assert_eq!(entry_weight(&"k".to_string(), &"é".to_string()), 2);
    assert_eq!(entry_weight(&"k".to_string(), &String::new()), 0);
}

#[test]
fn answer_request_follows_the_lookup() {
    let mut node = Node::new("id".to_string(), "addr".to_string(), 7, rx());
    // a hit answers with the value and stores nothing
    assert_eq!(
        node.answer_request("GET /a".to_string(), Some("v".to_string())),
        Ok("Cache hit: v".to_string())
    );
    assert_eq!(node.cache_get(&"GET /a".to_string()), None);
    // a miss stores the generated response
    assert_eq!(
        node.answer_request("GET /a".to_string(), None),
        Ok("Cache miss: GeneratedResponse".to_string())
    );
    assert_eq!(node.cache_get(&"GET /a".to_string()), Some("GeneratedResponse".to_string()));
}
