//! What each HTTP endpoint decides: which node it reads or writes, and what
//! it answers. Serving HTTP and sending notifications is left to the caller.
use vstd::prelude::*;
use crate::cache::{CacheManager, ManagerView, notified, invalidated_on_node, first_with_id, has_id, is_first_with_id, list_of, handles_valid, lemma_first_with_id_unique, law_notify_clears_key};
use crate::cdn::{
    Node, NodeView, with_entry, opt_view, lookup_allows, NODE_CACHE_CAPACITY,
    NODE_CACHE_TIME_TO_LIVE_SECS, NODE_CACHE_TIME_TO_IDLE_SECS,
};
use crate::loadbalancer::handles_within;
use crate::outside::{Entries, subscribe};
use tokio::sync::broadcast::Sender;

verus! {

/// A request to register a node (if needed) and cache an entry on it.
#[derive(Debug)]
pub struct NodeP {
    /// Unique identifier of the node.
    pub id: String,
    /// The application the node serves.
    pub app_id: String,
    /// Address of the node.
    pub address: String,
    /// Weight of the node for load balancing.
    pub weight: u32,
    pub key: String,
    pub value: String,
}

/// A request to cache an entry on an existing node.
#[derive(Debug)]
pub struct NodeUpdate {
    /// Unique identifier of the node.
    pub id: String,
    /// The application the node serves.
    pub app_id: String,
    pub key: String,
    pub value: String,
}

/// An endpoint's answer.
pub enum Response {
    /// Success, with the node that holds the entry and the cached value.
    Cached { node_id: String, address: String, weight: usize, cached: String },
    /// Success, with a message.
    Done(String),
    /// A bad request, with a message.
    BadRequest(String),
    /// Nothing found (a cache miss), with a message.
    NotFound(String),
}

/// A bad request whose message is `text`.
pub open spec fn is_bad_request(r: Response, text: Seq<char>) -> bool {
    r matches Response::BadRequest(m) && m@ == text
}

/// A not-found answer whose message is `text`.
pub open spec fn is_not_found(r: Response, text: Seq<char>) -> bool {
    r matches Response::NotFound(m) && m@ == text
}

/// A success whose message is `text`.
pub open spec fn is_ok_text(r: Response, text: Seq<char>) -> bool {
    r matches Response::Done(m) && m@ == text
}

/// The node registered by `insert_new_cache` for `payload`.
pub open spec fn node_for(payload: NodeP) -> NodeView {
    NodeView {
        id: payload.id@,
        address: payload.address@,
        weight: payload.weight as usize,
        is_healthy: true,
        cached: Entries::empty(),
        settings: (NODE_CACHE_CAPACITY, NODE_CACHE_TIME_TO_LIVE_SECS, NODE_CACHE_TIME_TO_IDLE_SECS),
    }
}

/// `response` is what a read from node `n` answers when the lookup found
/// `looked_up`: the node and the value, or a not-found miss.
pub open spec fn is_cache_answer(n: NodeView, looked_up: Option<Seq<char>>, response: Response) -> bool {
    match looked_up {
        Some(c) => response matches Response::Cached { node_id, address, weight, cached } && node_id@
            == n.id && address@ == n.address && weight == n.weight && cached@ == c,
        None => is_not_found(response, "the key is not a valid"@),
    }
}

/// The answer to a read from `node`, given what the lookup found.
pub fn cached_response(node: &Node, looked_up: Option<String>) -> (response: Response)
    ensures
        is_cache_answer(node@, opt_view(looked_up), response),
{
    match looked_up {
        Some(c) => Response::Cached {
            node_id: node.id().clone(),
            address: node.address().clone(),
            weight: node.weight(),
            cached: c,
        },
        None => Response::NotFound(String::from_str("the key is not a valid")),
    }
}

/// `response` is what `get_cache` may answer for `key` on the application's
/// first node with id `node_id`: an error when there is no such application
/// or node, else the answer to a lookup of the key on that node.
pub open spec fn is_read_answer(v: ManagerView, app_id: Seq<char>, node_id: Seq<char>, key: Seq<char>, response: Response) -> bool {
    if !v.apps.contains_key(app_id) {
        is_bad_request(response, "Invalid app_id"@)
    } else {
        match first_with_id(v.nodes, v.apps[app_id], node_id) {
            None => is_bad_request(response, "Invalid node_id"@),
            Some(i) => {
                let n = v.nodes[v.apps[app_id][i] as int];
                exists|looked_up: Option<Seq<char>>|
                    #![trigger is_cache_answer(n, looked_up, response)]
                    lookup_allows(n.cached, key, looked_up) && is_cache_answer(n, looked_up, response)
            },
        }
    }
}

/// Reads `key` from the application's first node with id `node_id`.
pub fn get_cache(manager: &CacheManager, app_id: &String, node_id: &String, key: &String) -> (response: Response)
    requires
        manager.wf(),
    ensures
        is_read_answer(manager@, app_id@, node_id@, key@, response),
{
    let list = match manager.get_nodes_for_app(app_id.as_str()) {
        Some(list) => list,
        None => return Response::BadRequest(String::from_str("Invalid app_id")),
    };
    proof {
        manager.lemma_lists_within(app_id@);
    }
    match manager.position_with_id(&list, node_id) {
        Some(i) => {
            let found: &Node = manager.node(list[i]);
            let looked_up = found.cache_get(key);
            let ghost seen = opt_view(looked_up);
            let response = cached_response(found, looked_up);
            proof {
                let n = manager@.nodes[manager@.apps[app_id@][i as int] as int];
                assert(found@ == n);
                assert(lookup_allows(n.cached, key@, seen) && is_cache_answer(n, seen, response));
                assert(manager@.apps.contains_key(app_id@));
                assert(manager@.apps[app_id@] == list@);
                assert(first_with_id(manager@.nodes, manager@.apps[app_id@], node_id@) == Some(i as int));
                let v = manager@;
                assert(match first_with_id(v.nodes, v.apps[app_id@], node_id@) {
                    Some(j) => v.nodes[v.apps[app_id@][j] as int] == n,
                    None => false,
                });
                assert(is_read_answer(manager@, app_id@, node_id@, key@, response));
            }
            response
        },
        None => Response::BadRequest(String::from_str("Invalid node_id")),
    }
}

/// The manager after `insert_new_cache(payload)`: the entry is written on
/// the application's first node with the payload's node id; when the
/// application has no such node, one is registered for it first.
pub open spec fn inserted_new(v: ManagerView, payload: NodeP) -> ManagerView {
    let old_list = list_of(v.apps, payload.app_id@);
    match first_with_id(v.nodes, old_list, payload.id@) {
        Some(i) => {
            let h = old_list[i] as int;
            ManagerView {
                nodes: v.nodes.update(h, with_entry(v.nodes[h], payload.key@, payload.value@)),
                ..v
            }
        },
        None => ManagerView {
            nodes: v.nodes.push(with_entry(node_for(payload), payload.key@, payload.value@)),
            apps: v.apps.insert(payload.app_id@, old_list.push(v.nodes.len() as usize)),
            ..v
        },
    }
}

/// `after` is `before` with the payload's node registered under its
/// application: appended last, with the payload's id, address and weight,
/// healthy, and holding only the payload's entry; every earlier node is
/// unchanged.
pub open spec fn registers_payload_node(before: ManagerView, after: ManagerView, payload: NodeP) -> bool {
    let n = after.nodes[before.nodes.len() as int];
    &&& after.nodes.len() == before.nodes.len() + 1
    &&& n.id == payload.id@
    &&& n.address == payload.address@
    &&& n.weight == payload.weight
    &&& n.is_healthy
    &&& n.cached == Entries::empty().insert(payload.key@, payload.value@)
    &&& after.apps == before.apps.insert(
        payload.app_id@,
        list_of(before.apps, payload.app_id@).push(before.nodes.len() as usize),
    )
    &&& after.balancer == before.balancer
    &&& forall|h: int| 0 <= h < before.nodes.len() ==> #[trigger] after.nodes[h] == before.nodes[h]
}

/// `after` is `before` with the payload's entry written on node `h`: that
/// node keeps its id, address, weight and health, and no other node changes.
pub open spec fn writes_on_node(before: ManagerView, after: ManagerView, h: int, key: Seq<char>, value: Seq<char>) -> bool {
    &&& after.apps == before.apps
    &&& after.balancer == before.balancer
    &&& after.nodes.len() == before.nodes.len()
    &&& after.nodes[h].id == before.nodes[h].id
    &&& after.nodes[h].address == before.nodes[h].address
    &&& after.nodes[h].weight == before.nodes[h].weight
    &&& after.nodes[h].is_healthy == before.nodes[h].is_healthy
    &&& after.nodes[h].cached == before.nodes[h].cached.insert(key, value)
    &&& forall|g: int| 0 <= g < before.nodes.len() && g != h ==> #[trigger] after.nodes[g] == before.nodes[g]
}

/// What `insert_new_cache` does, in terms of its inputs: when the
/// application has a node with the payload's id, the first such node gets
/// the entry; otherwise a node is registered from the payload (its id,
/// address and weight), holding the entry.
pub proof fn law_insert_new_effect(v: ManagerView, payload: NodeP)
    requires
        handles_valid(v),
        v.nodes.len() <= usize::MAX,
    ensures
        match first_with_id(v.nodes, list_of(v.apps, payload.app_id@), payload.id@) {
            Some(i) => writes_on_node(
                v,
                inserted_new(v, payload),
                list_of(v.apps, payload.app_id@)[i] as int,
                payload.key@,
                payload.value@,
            ),
            None => registers_payload_node(v, inserted_new(v, payload), payload),
        },
{
    let list = list_of(v.apps, payload.app_id@);
    if v.apps.contains_key(payload.app_id@) {
        assert(handles_within(v.apps[payload.app_id@], v.nodes.len() as int));
    }
    match first_with_id(v.nodes, list, payload.id@) {
        Some(i) => {
            let j = choose|j: int| is_first_with_id(v.nodes, list, payload.id@, j);
        },
        None => {
            assert(Entries::empty().insert(payload.key@, payload.value@) =~= node_for(payload).cached.insert(
                payload.key@,
                payload.value@,
            ));
        },
    }
}

/// Registers a node for the payload's application unless the application
/// already has a node with the payload's node id, then caches the entry on
/// the application's first node with that id. A registered node listens to
/// `notifier` on a receiver of its own.
pub fn insert_new_cache(manager: &mut CacheManager, notifier: &Sender<(String, String, String)>, payload: NodeP) -> (response: Response)
    requires
        old(manager).wf(),
    ensures
        final(manager).wf(),
        final(manager)@ == inserted_new(old(manager)@, payload),
        match first_with_id(
            old(manager)@.nodes,
            list_of(old(manager)@.apps, payload.app_id@),
            payload.id@,
        ) {
            Some(i) => writes_on_node(
                old(manager)@,
                final(manager)@,
                list_of(old(manager)@.apps, payload.app_id@)[i] as int,
                payload.key@,
                payload.value@,
            ),
            None => registers_payload_node(old(manager)@, final(manager)@, payload),
        },
        is_ok_text(
            response,
            "Inserted cache  for app '"@ + payload.app_id@ + "' and node '"@ + payload.id@ + "'"@,
        ),
{
    let NodeP { id, app_id, address, weight, key, value } = payload;
    let text = String::from_str("Inserted cache  for app '").concat(app_id.as_str()).concat(
        "' and node '",
    ).concat(id.as_str()).concat("'");
    let old_list = match manager.get_nodes_for_app(app_id.as_str()) {
        Some(list) => list,
        None => Vec::new(),
    };
    proof {
        manager.lemma_lists_within(app_id@);
        assert(old_list@ =~= list_of(old(manager)@.apps, app_id@));
    }
    match manager.position_with_id(&old_list, &id) {
        Some(i) => {
            manager.write_to_node(old_list[i], key, value);
        },
        None => {
            let node = Node::new(id.clone(), address, weight as usize, subscribe(notifier));
            manager.add_node_to_app(app_id, node);
            let handle = manager.node_count() - 1;
            manager.write_to_node(handle, key, value);
            proof {
                assert(manager@.nodes =~= inserted_new(old(manager)@, payload).nodes);
            }
        },
    }
    proof {
        law_insert_new_effect(old(manager)@, payload);
    }
    Response::Done(text)
}

/// What `insert_new_cache(payload)` writes, a read through `get_cache` with
/// the payload's application, node id and key gives back: after the call
/// the application is known, its first node with the payload's node id
/// exists, and that node's cache holds the payload's value under the key
/// (so `get_cache` answers with that value, or finds the entry gone).
pub proof fn law_insert_new_then_get(v: ManagerView, payload: NodeP)
    requires
        handles_valid(v),
        v.nodes.len() <= usize::MAX,
    ensures
        ({
            let after = inserted_new(v, payload);
            let list = after.apps[payload.app_id@];
            &&& after.apps.contains_key(payload.app_id@)
            &&& first_with_id(after.nodes, list, payload.id@) matches Some(i) && {
                let n = after.nodes[list[i] as int];
                &&& n.cached.contains_key(payload.key@)
                &&& n.cached[payload.key@] == payload.value@
            }
        }),
{
    let old_list = list_of(v.apps, payload.app_id@);
    let after = inserted_new(v, payload);
    if v.apps.contains_key(payload.app_id@) {
        assert(handles_within(v.apps[payload.app_id@], v.nodes.len() as int));
    }
    match first_with_id(v.nodes, old_list, payload.id@) {
        Some(i) => {
            let j = choose|j: int| is_first_with_id(v.nodes, old_list, payload.id@, j);
            let h = old_list[i] as int;
            assert(v.apps.contains_key(payload.app_id@));
            assert(after.nodes == v.nodes.update(h, with_entry(v.nodes[h], payload.key@, payload.value@)));
            lemma_first_with_id_same_ids(after.nodes, v.nodes, old_list, payload.id@);
        },
        None => {
            let list = old_list.push(v.nodes.len() as usize);
            let k = old_list.len() as int;
            assert(after.apps[payload.app_id@] == list);
            assert forall|j: int| 0 <= j < k implies !has_id(after.nodes, list, payload.id@, j) by {
                if has_id(after.nodes, list, payload.id@, j) {
                    assert(has_id(v.nodes, old_list, payload.id@, j));
                    crate::cache::lemma_first_exists(v.nodes, old_list, payload.id@, j);
                }
            }
            assert(is_first_with_id(after.nodes, list, payload.id@, k));
            let f = choose|f: int| is_first_with_id(after.nodes, list, payload.id@, f);
            lemma_first_with_id_unique(after.nodes, list, payload.id@, k, f);
        },
    }
}

/// Two node sequences that agree on every node's id agree on first positions.
proof fn lemma_first_with_id_same_ids(a: Seq<NodeView>, b: Seq<NodeView>, list: Seq<usize>, id: Seq<char>)
    requires
        a.len() == b.len(),
        forall|h: int| 0 <= h < a.len() ==> #[trigger] a[h].id == b[h].id,
    ensures
        first_with_id(a, list, id) == first_with_id(b, list, id),
{
    assert forall|i: int| is_first_with_id(a, list, id, i) <==> is_first_with_id(b, list, id, i) by {
        assert forall|j: int| has_id(a, list, id, j) <==> has_id(b, list, id, j) by {
            if 0 <= j < list.len() && list[j] < a.len() {
                assert(a[list[j] as int].id == b[list[j] as int].id);
            }
        }
    }
    if first_with_id(a, list, id) is Some {
        let i = first_with_id(a, list, id)->0;
        assert(is_first_with_id(b, list, id, i));
        let j = choose|j: int| is_first_with_id(b, list, id, j);
        lemma_first_with_id_unique(b, list, id, i, j);
    } else if first_with_id(b, list, id) is Some {
        let j = first_with_id(b, list, id)->0;
        assert(is_first_with_id(a, list, id, j));
    }
}

/// The manager after `insert_cache(payload)`: the entry written on the
/// application's first node with the payload's node id; unchanged when the
/// application or the node is unknown.
pub open spec fn inserted(v: ManagerView, payload: NodeUpdate) -> ManagerView {
    let list = list_of(v.apps, payload.app_id@);
    match first_with_id(v.nodes, list, payload.id@) {
        Some(i) => {
            let h = list[i] as int;
            ManagerView {
                nodes: v.nodes.update(h, with_entry(v.nodes[h], payload.key@, payload.value@)),
                ..v
            }
        },
        None => v,
    }
}

/// What `insert_cache` writes, `get_cache` gives back: when the write finds
/// its application and node, a read of the same key from the same node
/// answers that node with the written value, or a miss (the entry expired
/// or was evicted); never another value and never an error.
pub proof fn law_insert_cache_then_get(v: ManagerView, payload: NodeUpdate, response: Response)
    requires
        handles_valid(v),
        v.apps.contains_key(payload.app_id@),
        first_with_id(v.nodes, v.apps[payload.app_id@], payload.id@) is Some,
        is_read_answer(inserted(v, payload), payload.app_id@, payload.id@, payload.key@, response),
    ensures
        (response matches Response::Cached { node_id, cached, .. } && node_id@ == payload.id@
            && cached@ == payload.value@) || is_not_found(response, "the key is not a valid"@),
{
    let list = v.apps[payload.app_id@];
    let i = first_with_id(v.nodes, list, payload.id@)->0;
    let j = choose|j: int| is_first_with_id(v.nodes, list, payload.id@, j);
    let h = list[i] as int;
    assert(handles_within(list, v.nodes.len() as int));
    let after = inserted(v, payload);
    assert(after.nodes == v.nodes.update(h, with_entry(v.nodes[h], payload.key@, payload.value@)));
    lemma_first_with_id_same_ids(after.nodes, v.nodes, list, payload.id@);
    let n = after.nodes[h];
    assert(n.cached.contains_key(payload.key@) && n.cached[payload.key@] == payload.value@);
    let looked_up = choose|looked_up: Option<Seq<char>>|
        #![trigger is_cache_answer(n, looked_up, response)]
        lookup_allows(n.cached, payload.key@, looked_up) && is_cache_answer(n, looked_up, response);
    assert(is_cache_answer(n, looked_up, response));
}

/// Once an invalidation notice for `key` on a node of `app` is applied, a
/// read of `key` from that application's nodes finds nothing: it answers a
/// not-found miss (or an error for an unknown application or node), never
/// a value.
pub proof fn law_notice_then_get(v: ManagerView, app: Seq<char>, node_id: Seq<char>, key: Seq<char>, read_node: Seq<char>, response: Response)
    requires
        handles_valid(v),
        is_read_answer(
            invalidated_on_node(notified(v, app, key), app, node_id, key),
            app,
            read_node,
            key,
            response,
        ),
    ensures
        !(response is Cached),
{
    let after = invalidated_on_node(notified(v, app, key), app, node_id, key);
    let mid = notified(v, app, key);
    law_notify_clears_key(v, app, key);
    if after.apps.contains_key(app) {
        let list = after.apps[app];
        assert(list == list_of(v.apps, app));
        assert(handles_within(list, v.nodes.len() as int));
        if let Some(i) = first_with_id(after.nodes, list, read_node) {
            let h = list[i] as int;
            assert(!mid.nodes[h].cached.contains_key(key));
            assert(!after.nodes[h].cached.contains_key(key));
            let n = after.nodes[h];
            let looked_up = choose|looked_up: Option<Seq<char>>|
                #![trigger is_cache_answer(n, looked_up, response)]
                lookup_allows(n.cached, key, looked_up) && is_cache_answer(n, looked_up, response);
            assert(is_cache_answer(n, looked_up, response));
        }
    }
}

/// Caches the entry on the application's first node with the payload's node id.
pub fn insert_cache(manager: &mut CacheManager, payload: NodeUpdate) -> (response: Response)
    requires
        old(manager).wf(),
    ensures
        final(manager).wf(),
        final(manager)@ == inserted(old(manager)@, payload),
        ({
            let apps = old(manager)@.apps;
            let nodes = old(manager)@.nodes;
            if !apps.contains_key(payload.app_id@) {
                is_bad_request(response, "Invalid app_id or node_id"@) && final(manager)@ == old(
                    manager,
                )@
            } else {
                let list = apps[payload.app_id@];
                match first_with_id(nodes, list, payload.id@) {
                    None => is_bad_request(response, "Invalid node_id"@) && final(manager)@ == old(
                        manager,
                    )@,
                    Some(i) => {
                        let h = list[i] as int;
                        &&& final(manager)@.nodes == nodes.update(
                            h,
                            with_entry(nodes[h], payload.key@, payload.value@),
                        )
                        &&& is_ok_text(response, "Inserted cache key: "@ + payload.key@)
                    },
                }
            }
        }),
{
    let NodeUpdate { id, app_id, key, value } = payload;
    let list = match manager.get_nodes_for_app(app_id.as_str()) {
        Some(list) => list,
        None => return Response::BadRequest(String::from_str("Invalid app_id or node_id")),
    };
    proof {
        manager.lemma_lists_within(app_id@);
    }
    match manager.position_with_id(&list, &id) {
        Some(i) => {
            let text = String::from_str("Inserted cache key: ").concat(key.as_str());
            manager.write_to_node(list[i], key, value);
            Response::Done(text)
        },
        None => Response::BadRequest(String::from_str("Invalid node_id")),
    }
}

/// Accepts an invalidation request when the application has a node with id
/// `node_id`; the notice to send to the invalidation listener comes with it.
pub fn invalidate_cache(manager: &CacheManager, app_id: &String, node_id: &String, key: &String) -> (decision: (Response, Option<(String, String, String)>))
    requires
        manager.wf(),
    ensures
        ({
            let apps = manager@.apps;
            let known = apps.contains_key(app_id@) && exists|i: int|
                has_id(manager@.nodes, apps[app_id@], node_id@, i);
            if known {
                &&& is_ok_text(decision.0, "Invalidation request sent for key: "@ + key@)
                &&& decision.1 matches Some((a, n, k)) && a@ == app_id@ && n@ == node_id@ && k@
                    == key@
            } else {
                is_bad_request(decision.0, "Invalid app_id or node_id"@) && decision.1 is None
            }
        }),
{
    if let Some(list) = manager.get_nodes_for_app(app_id.as_str()) {
        proof {
            manager.lemma_lists_within(app_id@);
        }
        let pos = manager.position_with_id(&list, node_id);
        proof {
            if exists|i: int| has_id(manager@.nodes, list@, node_id@, i) {
                let i = choose|i: int| has_id(manager@.nodes, list@, node_id@, i);
                if pos is None {
                    crate::cache::lemma_first_exists(manager@.nodes, list@, node_id@, i);
                }
            }
            if pos is Some {
                let i = pos->0 as int;
                assert(is_first_with_id(manager@.nodes, list@, node_id@, i));
            }
        }
        if pos.is_some() {
            let text = String::from_str("Invalidation request sent for key: ").concat(key.as_str());
            return (Response::Done(text), Some((app_id.clone(), node_id.clone(), key.clone())));
        }
    }
    (Response::BadRequest(String::from_str("Invalid app_id or node_id")), None)
}

} // verus!
