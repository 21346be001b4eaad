//! A CDN node: its identity, its load-balancing weight and health, and its
//! cache of string entries.
use vstd::prelude::*;
use moka::sync::Cache;
use tokio::sync::broadcast::Receiver;
use crate::outside::{
    Entries, written_entries, store_settings, store_new, store_get, store_insert, store_invalidate,
};

verus! {

/// Most entry weight a node's cache keeps (entries weigh their value's byte length).
pub const NODE_CACHE_CAPACITY: u64 = 10_000;

/// Seconds after its insertion that an entry expires.
pub const NODE_CACHE_TIME_TO_LIVE_SECS: u64 = 60;

/// Seconds without a read after which an entry expires.
pub const NODE_CACHE_TIME_TO_IDLE_SECS: u64 = 30;

/// The weight of a cache entry: its value's length in bytes, cut to 32 bits.
pub fn entry_weight(_key: &String, value: &String) -> (weight: u32)
    ensures
        weight == (vstd::utf8::encode_utf8(value@).len() as usize) as u32,
{
    let n: usize = value.as_str().len();
    n as u32
}

/// What a node is, as contracts see it.
pub struct NodeView {
    pub id: Seq<char>,
    pub address: Seq<char>,
    pub weight: usize,
    pub is_healthy: bool,
    /// The entries written into the node's cache and not invalidated since;
    /// a read returns one of these or nothing.
    pub cached: Entries,
    /// The cache's settings: capacity (total entry weight), time to live and
    /// time to idle in seconds.
    pub settings: (u64, u64, u64),
}

pub struct Node {
    /// Unique identifier of the node.
    id: String,
    /// Network address of the node.
    address: String,
    /// Weight of the node for load balancing.
    weight: usize,
    /// Health of the node, as the last health check found it.
    is_healthy: bool,
    cache: Cache<String, String>,
    /// Where the node listens for invalidation notices (application, node, key).
    receiver: Receiver<(String, String, String)>,
}

/// A node with `value` written under `key` in its cache.
pub open spec fn with_entry(node: NodeView, key: Seq<char>, value: Seq<char>) -> NodeView {
    NodeView { cached: node.cached.insert(key, value), ..node }
}

/// A node with the entry under `key` dropped from its cache.
pub open spec fn without_entry(node: NodeView, key: Seq<char>) -> NodeView {
    NodeView { cached: node.cached.remove(key), ..node }
}

/// After `value` is written under `key`, a read of `key` finds `value` or
/// nothing (the entry expired or was evicted), never another value; the
/// other keys read as before.
pub proof fn law_read_after_write(node: NodeView, key: Seq<char>, value: Seq<char>)
    ensures
        with_entry(node, key, value).cached.contains_key(key),
        with_entry(node, key, value).cached[key] == value,
        forall|other: Seq<char>| other != key ==> #[trigger] with_entry(node, key, value).cached.contains_key(other)
            == node.cached.contains_key(other) && with_entry(node, key, value).cached.get(other)
            == node.cached.get(other),
{
}

/// After `key` is invalidated, a read of `key` finds nothing; the other
/// keys read as before.
pub proof fn law_read_after_invalidate(node: NodeView, key: Seq<char>)
    ensures
        !without_entry(node, key).cached.contains_key(key),
        forall|other: Seq<char>| other != key ==> #[trigger] without_entry(node, key).cached.get(other)
            == node.cached.get(other),
{
}

impl View for Node {
    type V = NodeView;

    closed spec fn view(&self) -> NodeView {
        NodeView {
            id: self.id@,
            address: self.address@,
            weight: self.weight,
            is_healthy: self.is_healthy,
            cached: written_entries(self.cache),
            settings: store_settings(self.cache),
        }
    }
}

impl Node {
    /// The receiver on which the node listens for invalidation notices.
    pub closed spec fn receiver(&self) -> Receiver<(String, String, String)> {
        self.receiver
    }

    /// A healthy node with an empty cache, listening on `receiver`.
    pub fn new(id: String, address: String, weight: usize, receiver: Receiver<(String, String, String)>) -> (node: Node)
        ensures
            node.receiver() == receiver,
            node@ == (NodeView {
                id: id@,
                address: address@,
                weight,
                is_healthy: true,
                cached: Entries::empty(),
                settings: (
                    NODE_CACHE_CAPACITY,
                    NODE_CACHE_TIME_TO_LIVE_SECS,
                    NODE_CACHE_TIME_TO_IDLE_SECS,
                ),
            }),
    {
        let cache = store_new(
            NODE_CACHE_CAPACITY,
            NODE_CACHE_TIME_TO_LIVE_SECS,
            NODE_CACHE_TIME_TO_IDLE_SECS,
        );
        Node { id, address, weight, is_healthy: true, cache, receiver }
    }

    pub fn id(&self) -> (id: &String)
        ensures
            id@ == self@.id,
    {
        &self.id
    }

    pub fn address(&self) -> (address: &String)
        ensures
            address@ == self@.address,
    {
        &self.address
    }

    pub fn weight(&self) -> (weight: usize)
        ensures
            weight == self@.weight,
    {
        self.weight
    }

    pub fn is_healthy(&self) -> (healthy: bool)
        ensures
            healthy == self@.is_healthy,
    {
        self.is_healthy
    }

    /// Records the outcome of a health check.
    pub fn set_healthy(&mut self, healthy: bool)
        ensures
            final(self)@ == (NodeView { is_healthy: healthy, ..old(self)@ }),
    {
        self.is_healthy = healthy;
    }

    /// Reads `key` from the cache: the value last written under it, or
    /// nothing (never written, invalidated, expired or evicted).
    pub fn cache_get(&self, key: &String) -> (found: Option<String>)
        ensures
            lookup_allows(self@.cached, key@, opt_view(found)),
    {
        store_get(&self.cache, key)
    }

    /// Writes `value` under `key` in the cache.
    pub fn cache_insert(&mut self, key: String, value: String)
        ensures
            final(self)@ == with_entry(old(self)@, key@, value@),
    {
        store_insert(&mut self.cache, key, value)
    }

    /// Drops whatever the cache holds under `key`.
    pub fn invalidate_cache(&mut self, key: &str)
        ensures
            final(self)@ == without_entry(old(self)@, key@),
    {
        store_invalidate(&mut self.cache, key)
    }

    /// The node's own health check: a node that answers is alive.
    pub fn check_health(&self) -> (alive: bool)
        ensures
            alive,
    {
        true
    }

    /// Answers a request from the cache: a hit returns the cached value;
    /// a miss stores the generated response under the request body.
    pub fn process_request(&mut self, request_body: String) -> (response: Result<String, String>)
        ensures
            exists|looked_up: Option<Seq<char>>| {
                &&& lookup_allows(old(self)@.cached, request_body@, looked_up)
                &&& response matches Ok(text)
                &&& (final(self)@, text@) == request_outcome(old(self)@, request_body@, looked_up)
            },
            !old(self)@.cached.contains_key(request_body@) ==> {
                &&& response matches Ok(text) && text@ == "Cache miss: GeneratedResponse"@
                &&& final(self)@ == with_entry(old(self)@, request_body@, "GeneratedResponse"@)
            },
            final(self)@ == old(self)@ || final(self)@.cached == old(self)@.cached.insert(
                request_body@,
                "GeneratedResponse"@,
            ),
            final(self)@.id == old(self)@.id && final(self)@.address == old(self)@.address
                && final(self)@.weight == old(self)@.weight && final(self)@.is_healthy == old(
                self,
            )@.is_healthy && final(self)@.settings == old(self)@.settings,
    {
        let looked_up = self.cache_get(&request_body);
        self.answer_request(request_body, looked_up)
    }

    /// Answers a request given what the cache lookup of the request body
    /// found: a value is a hit, answered with that value and nothing changed;
    /// nothing is a miss, which stores the generated response under the body.
    pub fn answer_request(&mut self, request_body: String, looked_up: Option<String>) -> (response: Result<String, String>)
        ensures
            response matches Ok(text) && (final(self)@, text@) == request_outcome(
                old(self)@,
                request_body@,
                opt_view(looked_up),
            ),
            looked_up matches Some(v) ==> final(self)@ == old(self)@ && (response matches Ok(text)
                && text@ == "Cache hit: "@ + v@),
            looked_up is None ==> (response matches Ok(text) && text@ == "Cache miss: GeneratedResponse"@)
                && final(self)@.cached == old(self)@.cached.insert(request_body@, "GeneratedResponse"@)
                && final(self)@.id == old(self)@.id && final(self)@.address == old(self)@.address
                && final(self)@.weight == old(self)@.weight && final(self)@.is_healthy == old(
                self,
            )@.is_healthy && final(self)@.settings == old(self)@.settings,
    {
        let miss = looked_up.is_none();
        if miss {
            self.cache_insert(request_body, String::from_str("GeneratedResponse"));
        }
        Ok(response_for_lookup(looked_up))
    }
}

/// Repeating a request that hit finds the same value or nothing, never
/// another value: a hit leaves the cached entry in place. A request that
/// missed stores the generated response, so a repeat that hits answers it.
pub proof fn law_repeat_request(node: NodeView, body: Seq<char>, first: Option<Seq<char>>, second: Option<Seq<char>>)
    requires
        lookup_allows(node.cached, body, first),
        lookup_allows(request_outcome(node, body, first).0.cached, body, second),
    ensures
        first matches Some(v) ==> request_outcome(node, body, first).0 == node && (second is None
            || second == Some(v)),
        first is None ==> (second is None || second == Some("GeneratedResponse"@)),
        second matches Some(w) ==> request_outcome(request_outcome(node, body, first).0, body, second).1
            == "Cache hit: "@ + w,
{
}

/// The view of an optional string.
pub open spec fn opt_view(s: Option<String>) -> Option<Seq<char>> {
    match s {
        Some(v) => Some(v@),
        None => None,
    }
}

/// What a read of `key` may return from a cache whose written entries are
/// `cached`: the value written under `key`, or nothing; nothing for a key
/// not written.
pub open spec fn lookup_allows(cached: Entries, key: Seq<char>, looked_up: Option<Seq<char>>) -> bool {
    &&& looked_up matches Some(v) ==> cached.contains_key(key) && v == cached[key]
    &&& !cached.contains_key(key) ==> looked_up is None
}

/// The node and answer after a request whose lookup found `looked_up`.
pub open spec fn request_outcome(node: NodeView, body: Seq<char>, looked_up: Option<Seq<char>>) -> (NodeView, Seq<char>) {
    match looked_up {
        Some(v) => (node, "Cache hit: "@ + v),
        None => (with_entry(node, body, "GeneratedResponse"@), "Cache miss: GeneratedResponse"@),
    }
}

/// The response text for the outcome of a cache lookup.
pub fn response_for_lookup(looked_up: Option<String>) -> (text: String)
    ensures
        match looked_up {
            Some(v) => text@ == "Cache hit: "@ + v@,
            None => text@ == "Cache miss: GeneratedResponse"@,
        },
{
    match looked_up {
        Some(v) => String::from_str("Cache hit: ").concat(v.as_str()),
        None => String::from_str("Cache miss: GeneratedResponse"),
    }
}

} // verus!
