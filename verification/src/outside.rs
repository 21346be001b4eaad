//! Contracts for the calls this library makes into `dashmap`, `moka`, `rand`
//! and `std`. Verus believes these contracts; they are not proved.
use vstd::prelude::*;
use dashmap::DashMap;
use moka::sync::Cache;
use rand::Rng;
use std::collections::hash_map::RandomState;
use tokio::sync::broadcast::{Receiver, Sender};
use crate::cdn::entry_weight;

verus! {

/// `dashmap::DashMap`, a concurrent hash map; opaque to Verus.
#[verifier::external_type_specification]
#[verifier::external_body]
#[verifier::reject_recursive_types(K)]
#[verifier::reject_recursive_types(V)]
#[verifier::reject_recursive_types(S)]
pub struct ExDashMap<K, V, S = RandomState>(DashMap<K, V, S>);

/// `moka::sync::Cache`, a bounded cache with expiry; opaque to Verus.
#[verifier::external_type_specification]
#[verifier::external_body]
#[verifier::reject_recursive_types(K)]
#[verifier::reject_recursive_types(V)]
#[verifier::reject_recursive_types(S)]
pub struct ExCache<K, V, S = RandomState>(Cache<K, V, S>);

/// `tokio::sync::broadcast::Sender`, the sending half of a broadcast channel;
/// opaque to Verus.
#[verifier::external_type_specification]
#[verifier::external_body]
#[verifier::reject_recursive_types(T)]
pub struct ExSender<T>(Sender<T>);

/// `tokio::sync::broadcast::Receiver`, a receiving half of a broadcast
/// channel; opaque to Verus.
#[verifier::external_type_specification]
#[verifier::external_body]
#[verifier::reject_recursive_types(T)]
pub struct ExReceiver<T>(Receiver<T>);

/// `std::io::Error`; opaque to Verus.
#[verifier::external_type_specification]
#[verifier::external_body]
pub struct ExIoError(std::io::Error);

/// Node handles listed under each application id.
pub type Members = Map<Seq<char>, Seq<usize>>;

/// A counter kept per application id.
pub type Counters = Map<Seq<char>, usize>;

/// Cached values by key.
pub type Entries = Map<Seq<char>, Seq<char>>;

// ---------------------------------------------------------------------------
// dashmap: application id -> node handles
// ---------------------------------------------------------------------------

/// What a `DashMap` from application ids to node handles holds.
pub uninterp spec fn member_lists(m: DashMap<String, Vec<usize>>) -> Members;

/// `DashMap::new`: the new map holds nothing.
#[verifier::external_body]
pub(crate) fn members_new() -> (created: DashMap<String, Vec<usize>>)
    ensures
        member_lists(created) == Members::empty(),
{
    DashMap::new()
}

/// `DashMap::get`, with the value behind the returned guard cloned out:
/// the list stored under `key`, or `None` when the key is absent.
#[verifier::external_body]
pub(crate) fn members_get(m: &DashMap<String, Vec<usize>>, key: &str) -> (found: Option<Vec<usize>>)
    ensures
        match found {
            Some(list) => member_lists(*m).contains_key(key@) && list@ == member_lists(*m)[key@],
            None => !member_lists(*m).contains_key(key@),
        },
{
    m.get(key).map(|entry| entry.value().clone())
}

/// `DashMap::insert`: `key` now maps to `value`, every other key is unchanged.
#[verifier::external_body]
pub(crate) fn members_insert(m: &mut DashMap<String, Vec<usize>>, key: String, value: Vec<usize>)
    ensures
        member_lists(*final(m)) == member_lists(*old(m)).insert(key@, value@),
{
    m.insert(key, value);
}

/// `DashMap::clone`: a separate map (its shards are copied) holding the same entries.
#[verifier::external_body]
pub(crate) fn members_clone(m: &DashMap<String, Vec<usize>>) -> (copy: DashMap<String, Vec<usize>>)
    ensures
        member_lists(copy) == member_lists(*m),
{
    m.clone()
}

/// `DashMap::iter`, each entry's key and value cloned out: each element is a
/// key of the map with the list stored under it, and every key of the map
/// appears; nothing is said of the order.
#[verifier::external_body]
pub(crate) fn members_entries(m: &DashMap<String, Vec<usize>>) -> (entries: Vec<(String, Vec<usize>)>)
    ensures
        forall|i: int| 0 <= i < entries@.len() ==> {
            &&& member_lists(*m).contains_key(#[trigger] entries@[i].0@)
            &&& entries@[i].1@ == member_lists(*m)[entries@[i].0@]
        },
        forall|k: Seq<char>| member_lists(*m).contains_key(k) ==>
            exists|i: int| 0 <= i < entries@.len() && #[trigger] entries@[i].0@ == k,
{
    m.iter().map(|entry| (entry.key().clone(), entry.value().clone())).collect()
}

// ---------------------------------------------------------------------------
// dashmap: application id -> counter
// ---------------------------------------------------------------------------

/// What a `DashMap` from application ids to counters holds.
pub uninterp spec fn counter_values(m: DashMap<String, usize>) -> Counters;

/// `DashMap::new`: the new map holds nothing.
#[verifier::external_body]
pub(crate) fn counters_new() -> (created: DashMap<String, usize>)
    ensures
        counter_values(created) == Counters::empty(),
{
    DashMap::new()
}

/// `DashMap::get`, the counter behind the returned guard copied out.
#[verifier::external_body]
pub(crate) fn counters_get(m: &DashMap<String, usize>, key: &str) -> (found: Option<usize>)
    ensures
        match found {
            Some(v) => counter_values(*m).contains_key(key@) && v == counter_values(*m)[key@],
            None => !counter_values(*m).contains_key(key@),
        },
{
    m.get(key).map(|entry| *entry.value())
}

/// `DashMap::insert`: `key` now maps to `value`, every other key is unchanged.
#[verifier::external_body]
pub(crate) fn counters_insert(m: &mut DashMap<String, usize>, key: String, value: usize)
    ensures
        counter_values(*final(m)) == counter_values(*old(m)).insert(key@, value),
{
    m.insert(key, value);
}

// ---------------------------------------------------------------------------
// moka: a node's cache
// ---------------------------------------------------------------------------

/// The entries written into a moka cache and not invalidated since. The
/// cache may drop any of them at any time (expiry, eviction), so this is
/// what the cache can hold, not what it holds.
pub uninterp spec fn written_entries(c: Cache<String, String>) -> Entries;

/// The settings a moka cache was built with: its maximum capacity, and its
/// time to live and time to idle in seconds.
pub uninterp spec fn store_settings(c: Cache<String, String>) -> (u64, u64, u64);

/// Seconds in 1000 years of 365 days, the longest time to live or time to
/// idle that moka's `build` accepts (it panics beyond).
pub const MOKA_LONGEST_EXPIRY_SECS: u64 = 31_536_000_000;

/// `Cache::builder` with `max_capacity`, `time_to_live`, `time_to_idle` and
/// a weigher, then `build`: a new cache, which holds nothing and keeps the
/// given settings. `build` panics for an expiry over 1000 years.
#[verifier::external_body]
pub(crate) fn store_new(max_capacity: u64, live_secs: u64, idle_secs: u64) -> (created: Cache<String, String>)
    requires
        live_secs <= MOKA_LONGEST_EXPIRY_SECS,
        idle_secs <= MOKA_LONGEST_EXPIRY_SECS,
    ensures
        written_entries(created) == Entries::empty(),
        store_settings(created) == (max_capacity, live_secs, idle_secs),
{
    Cache::builder()
        .max_capacity(max_capacity)
        .time_to_live(std::time::Duration::from_secs(live_secs))
        .time_to_idle(std::time::Duration::from_secs(idle_secs))
        .weigher(entry_weight)
        .build()
}

/// `Cache::get`: when it returns a value, that is the value last inserted
/// under `key` and not invalidated since. It may return `None` for a key
/// that was written (the entry expired or was evicted); nothing says when.
/// Stated of a cache that has no other handle: this library never clones one.
#[verifier::external_body]
pub(crate) fn store_get(c: &Cache<String, String>, key: &String) -> (found: Option<String>)
    ensures
        found matches Some(v) ==> written_entries(*c).contains_key(key@) && v@
            == written_entries(*c)[key@],
{
    c.get(key)
}

/// `Cache::insert`: `key` is now written with `value`.
#[verifier::external_body]
pub(crate) fn store_insert(c: &mut Cache<String, String>, key: String, value: String)
    ensures
        written_entries(*final(c)) == written_entries(*old(c)).insert(key@, value@),
        store_settings(*final(c)) == store_settings(*old(c)),
{
    c.insert(key, value)
}

/// `Cache::invalidate`: any value under `key` is discarded.
#[verifier::external_body]
pub(crate) fn store_invalidate(c: &mut Cache<String, String>, key: &str)
    ensures
        written_entries(*final(c)) == written_entries(*old(c)).remove(key@),
        store_settings(*final(c)) == store_settings(*old(c)),
{
    c.invalidate(key)
}

// ---------------------------------------------------------------------------
// tokio
// ---------------------------------------------------------------------------

/// `Sender::subscribe`: a new receiver for the channel, which gets the
/// notices sent after this call; nothing is stated of it. (`subscribe`
/// panics only when the channel already has `usize::MAX >> 2` receivers.)
#[verifier::external_body]
pub(crate) fn subscribe(sender: &Sender<(String, String, String)>) -> Receiver<(String, String, String)> {
    sender.subscribe()
}

// ---------------------------------------------------------------------------
// rand
// ---------------------------------------------------------------------------

/// `Rng::random_range(0..bound)` on `rand::rng()`: some number below `bound`,
/// drawn at random (`random_range` panics on an empty range, hence `bound > 0`).
#[verifier::external_body]
pub(crate) fn random_below(bound: usize) -> (drawn: usize)
    requires
        bound > 0,
    ensures
        drawn < bound,
{
    rand::rng().random_range(0..bound)
}

// ---------------------------------------------------------------------------
// std formatting
// ---------------------------------------------------------------------------

/// The text that `std::io::Error`'s `Display` writes; it comes from the
/// operating system and nothing is stated of it.
#[verifier::external_body]
pub(crate) fn io_error_text(e: &std::io::Error) -> String {
    e.to_string()
}

/// What `String`'s `Debug` writes: the text in double quotes, with escapes.
pub uninterp spec fn debug_text(s: Seq<char>) -> Seq<char>;

/// `format!("{:?}", s)` for a `String`.
#[verifier::external_body]
pub(crate) fn debug_string(s: &String) -> (text: String)
    ensures
        text@ == debug_text(s@),
{
    format!("{:?}", s)
}

} // verus!
