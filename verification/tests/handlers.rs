use cdn_cache::cache::CacheManager;
use cdn_cache::cdn::Node;
use cdn_cache::handler::{
    cached_response, get_cache, insert_cache, insert_new_cache, invalidate_cache, NodeP, NodeUpdate,
    Response,
};
use tokio::sync::broadcast;
fn rx() -> broadcast::Receiver<(String, String, String)> {
    broadcast::channel::<(String, String, String)>(100).1
}

fn notifier() -> broadcast::Sender<(String, String, String)> {
    broadcast::channel::<(String, String, String)>(100).0
}


fn s(x: &str) -> String {
    x.to_string()
}

fn new_payload(id: &str, app_id: &str, address: &str, weight: u32, key: &str, value: &str) -> NodeP {
    NodeP {
        id: s(id),
        app_id: s(app_id),
        address: s(address),
        weight,
        key: s(key),
        value: s(value),
    }
}

fn update(id: &str, app_id: &str, key: &str, value: &str) -> NodeUpdate {
    NodeUpdate { id: s(id), app_id: s(app_id), key: s(key), value: s(value) }
}

fn is_success(r: &Response) -> bool {
    !matches!(r, Response::BadRequest(_) | Response::NotFound(_))
}

#[test]
fn test_cache_invalidation_with_mock_server() {
    let (tx, _rx) = broadcast::channel::<(String, String, String)>(100);
    let mut cache_manager = CacheManager::new();

    let n1 = tx.subscribe();
    let node1 = Node::new("node-1".into(), "127.0.0.1:8081".into(), 1, n1);
    cache_manager.register_node("app-1", node1);

    // Insert a new cache item
    let r = insert_new_cache(
        &mut cache_manager,
        &tx,
        new_payload("someboringid", "soemboringappid", "127.0.0.1:8083", 4, "somekey", "somevalue"),
    );
    assert!(is_success(&r));

    // Insert a cache item for an existing cdn node
    let r = insert_cache(
        &mut cache_manager,
        update("someboringid", "soemboringappid", "someotherkey", "someothervalue"),
    );
    assert!(is_success(&r));

    // Now, validate that the cache has the item
    let response = get_cache(&cache_manager, &s("soemboringappid"), &s("someboringid"), &s("someotherkey"));
    assert!(is_success(&response));

    // Invalidate the cache
    let (response, notice) =
        invalidate_cache(&cache_manager, &s("soemboringappid"), &s("someboringid"), &s("someotherkey"));
    assert!(is_success(&response));
    let (app_id, node_id, key) = notice.unwrap();
    assert_eq!((app_id.as_str(), node_id.as_str(), key.as_str()), ("soemboringappid", "someboringid", "someotherkey"));

    // The listener applies the notice
    cache_manager.handle_notice(app_id, node_id, key);

    // Verify that the cache is now invalidated (cache miss)
    let response = get_cache(&cache_manager, &s("soemboringappid"), &s("someboringid"), &s("someotherkey"));
    assert!(matches!(response, Response::NotFound(_)));
}

#[test]
fn test_cache_invalidation_with_multiple_listeners() {
    let (tx, _rx) = broadcast::channel::<(String, String, String)>(100);
    let mut cache_manager = CacheManager::new();

    // Insert a new cache item
    let r = insert_new_cache(
        &mut cache_manager,
        &tx,
        new_payload("someboringid", "soemboringappid", "127.0.0.1:8083", 4, "somekey", "somevalue"),
    );
    assert!(is_success(&r));

    // Now, validate that the cache has the item
    let response = get_cache(&cache_manager, &s("soemboringappid"), &s("someboringid"), &s("somekey"));
    assert!(is_success(&response));

    // Invalidate the cache
    let (response, notice) =
        invalidate_cache(&cache_manager, &s("soemboringappid"), &s("someboringid"), &s("someotherkey"));
    assert!(is_success(&response));
    let (app_id, node_id, key) = notice.unwrap();
    cache_manager.handle_notice(app_id, node_id, key);

    // Verify that the cache is now invalidated (cache miss)
    let response = get_cache(&cache_manager, &s("soemboringappid"), &s("someboringid"), &s("someotherkey"));
    assert!(matches!(response, Response::NotFound(_)));
}

#[test]
fn insert_new_then_get_gives_the_value_back() {
    let mut m = CacheManager::new();
    let r = insert_new_cache(&mut m, &notifier(), new_payload("n", "app", "addr", 4, "k", "v"));
    match r {
        Response::Done(text) => assert_eq!(text, "Inserted cache  for app 'app' and node 'n'"),
        _ => panic!("expected a success"),
    }
    match get_cache(&m, &s("app"), &s("n"), &s("k")) {
        Response::Cached { node_id, address, weight, cached } => {
            assert_eq!(node_id, "n");
            assert_eq!(address, "addr");
            assert_eq!(weight, 4);
            assert_eq!(cached, "v");
        }
        _ => panic!("expected the cached value"),
    }
}

#[test]
fn insert_new_registers_the_node_only_once() {
    let mut m = CacheManager::new();
    insert_new_cache(&mut m, &notifier(), new_payload("n", "app", "a1", 1, "k", "v"));
    insert_new_cache(&mut m, &notifier(), new_payload("n", "app", "a2", 2, "k", "w"));
    // the application already has node "n": no second node, the first keeps its address
    assert_eq!(m.get_nodes_for_app("app"), Some(vec![0]));
    assert_eq!(m.node(0).address(), "a1");
    assert_eq!(m.node(0).weight(), 1);
    assert_eq!(m.node(0).cache_get(&s("k")), Some(s("w")));

    // a node named like the application does not stop the payload's node
    let mut m2 = CacheManager::new();
    m2.register_node("app", Node::new(s("app"), s("a"), 1, rx()));
    insert_new_cache(&mut m2, &notifier(), new_payload("other", "app", "a1", 1, "k", "v"));
    assert_eq!(m2.get_nodes_for_app("app"), Some(vec![0, 1]));
    assert_eq!(m2.node(0).cache_get(&s("k")), None);
    assert_eq!(m2.node(1).cache_get(&s("k")), Some(s("v")));
}

#[test]
fn cached_response_follows_the_lookup() {
    let node = Node::new(s("n"), s("addr"), 3, rx());
    match cached_response(&node, Some(s("v"))) {
        Response::Cached { node_id, address, weight, cached } => {
            assert_eq!(node_id, "n");
            assert_eq!(address, "addr");
            assert_eq!(weight, 3);
            assert_eq!(cached, "v");
        }
        _ => panic!("a found value is answered with the node and the value"),
    }
    match cached_response(&node, None) {
        Response::NotFound(text) => assert_eq!(text, "the key is not a valid"),
        _ => panic!("nothing found is a not-found answer"),
    }
}

#[test]
fn get_cache_errors() {
    let mut m = CacheManager::new();
    match get_cache(&m, &s("app"), &s("n"), &s("k")) {
        Response::BadRequest(text) => assert_eq!(text, "Invalid app_id"),
        _ => panic!(),
    }
    m.register_node("app", Node::new(s("n"), s("a"), 1, rx()));
    match get_cache(&m, &s("app"), &s("other"), &s("k")) {
        Response::BadRequest(text) => assert_eq!(text, "Invalid node_id"),
        _ => panic!(),
    }
    match get_cache(&m, &s("app"), &s("n"), &s("k")) {
        Response::NotFound(text) => assert_eq!(text, "the key is not a valid"),
        _ => panic!(),
    }
}

#[test]
fn insert_cache_errors_and_success() {
    let mut m = CacheManager::new();
    match insert_cache(&mut m, update("n", "app", "k", "v")) {
        Response::BadRequest(text) => assert_eq!(text, "Invalid app_id or node_id"),
        _ => panic!(),
    }
    m.register_node("app", Node::new(s("n"), s("a"), 1, rx()));
    match insert_cache(&mut m, update("x", "app", "k", "v")) {
        Response::BadRequest(text) => assert_eq!(text, "Invalid node_id"),
        _ => panic!(),
    }
    match insert_cache(&mut m, update("n", "app", "k", "v")) {
        Response::Done(text) => assert_eq!(text, "Inserted cache key: k"),
        _ => panic!(),
    }
    assert_eq!(m.node(0).cache_get(&s("k")), Some(s("v")));
}

#[test]
fn invalidate_cache_decisions() {
    let mut m = CacheManager::new();
    let (r, notice) = invalidate_cache(&m, &s("app"), &s("n"), &s("k"));
    assert!(matches!(r, Response::BadRequest(ref t) if t == "Invalid app_id or node_id"));
    assert_eq!(notice, None);
    m.register_node("app", Node::new(s("n"), s("a"), 1, rx()));
    let (r, notice) = invalidate_cache(&m, &s("app"), &s("x"), &s("k"));
    assert!(matches!(r, Response::BadRequest(ref t) if t == "Invalid app_id or node_id"));
    assert_eq!(notice, None);
    let (r, notice) = invalidate_cache(&m, &s("app"), &s("n"), &s("k"));
    assert!(matches!(r, Response::Done(ref t) if t == "Invalidation request sent for key: k"));
    assert_eq!(notice, Some((s("app"), s("n"), s("k"))));
}

#[test]
fn accepted_invalidation_clears_the_key_when_processed() {
    let mut m = CacheManager::new();
    insert_new_cache(&mut m, &notifier(), new_payload("n", "app", "a", 1, "k", "v"));
    let (_, notice) = invalidate_cache(&m, &s("app"), &s("n"), &s("k"));
    let (app, node, key) = notice.unwrap();
    m.handle_notice(app, node, key);
    match get_cache(&m, &s("app"), &s("n"), &s("k")) {
        Response::NotFound(text) => assert_eq!(text, "the key is not a valid"),
        _ => panic!("the entry should be gone"),
    }
}
