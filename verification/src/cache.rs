//! The registry of CDN nodes: which nodes serve which application, cache
//! invalidation across an application's nodes, and choosing a node.
use vstd::prelude::*;
use dashmap::DashMap;
use crate::cdn::{Node, NodeView, with_entry, without_entry};
use crate::loadbalancer::{
    BalancerView, LoadBalancer, LoadBalancingStrategy, count_of, handles_within, picks, weight_sum,
};
use crate::outside::{Members, Counters, member_lists, members_new, members_get, members_insert, members_clone};

verus! {

/// What a cache manager is, as contracts see it.
pub struct ManagerView {
    /// Every node registered so far; a node's handle is its index here.
    pub nodes: Seq<NodeView>,
    /// The handles of each application's nodes, in registration order.
    pub apps: Members,
    /// The load balancer that `get_best_node` consults.
    pub balancer: BalancerView,
}

pub struct CacheManager {
    nodes: Vec<Node>,
    app_to_nodes: DashMap<String, Vec<usize>>,
    load_balancer: LoadBalancer,
}

/// The handles of an application's nodes; none for an unknown application.
pub open spec fn list_of(apps: Members, app: Seq<char>) -> Seq<usize> {
    if apps.contains_key(app) {
        apps[app]
    } else {
        Seq::empty()
    }
}

/// Handle `h` occurs in `list`.
pub open spec fn lists(list: Seq<usize>, h: int) -> bool {
    exists|i: int| 0 <= i < list.len() && list[i] == h
}

/// Position `i` of `list` names a node whose id is `id`.
pub open spec fn has_id(nodes: Seq<NodeView>, list: Seq<usize>, id: Seq<char>, i: int) -> bool {
    &&& 0 <= i < list.len()
    &&& list[i] < nodes.len()
    &&& nodes[list[i] as int].id == id
}

/// Position `i` of `list` is the first to name a node whose id is `id`.
pub open spec fn is_first_with_id(nodes: Seq<NodeView>, list: Seq<usize>, id: Seq<char>, i: int) -> bool {
    &&& has_id(nodes, list, id, i)
    &&& forall|j: int| 0 <= j < i ==> !has_id(nodes, list, id, j)
}

/// The first position of `list` that names a node whose id is `id`, if any.
pub open spec fn first_with_id(nodes: Seq<NodeView>, list: Seq<usize>, id: Seq<char>) -> Option<int> {
    if exists|i: int| is_first_with_id(nodes, list, id, i) {
        Some(choose|i: int| is_first_with_id(nodes, list, id, i))
    } else {
        None
    }
}

/// Two first positions are the same position.
pub proof fn lemma_first_with_id_unique(
    nodes: Seq<NodeView>,
    list: Seq<usize>,
    id: Seq<char>,
    i: int,
    j: int,
)
    requires
        is_first_with_id(nodes, list, id, i),
        is_first_with_id(nodes, list, id, j),
    ensures
        i == j,
{
}

/// When some position of `list` names a node with id `id`, a first one does.
pub proof fn lemma_first_exists(nodes: Seq<NodeView>, list: Seq<usize>, id: Seq<char>, i: int)
    requires
        has_id(nodes, list, id, i),
    ensures
        first_with_id(nodes, list, id) is Some,
    decreases i,
{
    if exists|j: int| 0 <= j < i && has_id(nodes, list, id, j) {
        let j = choose|j: int| 0 <= j < i && has_id(nodes, list, id, j);
        lemma_first_exists(nodes, list, id, j);
    } else {
        assert(is_first_with_id(nodes, list, id, i));
    }
}

/// The manager after `key` is invalidated on every node of `app`.
pub open spec fn notified(v: ManagerView, app: Seq<char>, key: Seq<char>) -> ManagerView {
    ManagerView {
        nodes: Seq::new(
            v.nodes.len(),
            |h: int|
                if lists(list_of(v.apps, app), h) {
                    without_entry(v.nodes[h], key)
                } else {
                    v.nodes[h]
                },
        ),
        ..v
    }
}

/// The manager after `key` is invalidated on the first node of `app` whose
/// id is `node_id`.
pub open spec fn invalidated_on_node(v: ManagerView, app: Seq<char>, node_id: Seq<char>, key: Seq<char>) -> ManagerView {
    ManagerView {
        nodes: match first_with_id(v.nodes, list_of(v.apps, app), node_id) {
            Some(i) => {
                let h = list_of(v.apps, app)[i] as int;
                v.nodes.update(h, without_entry(v.nodes[h], key))
            },
            None => v.nodes,
        },
        ..v
    }
}

/// `after` differs from `before` at most in nodes listed under `app`: the
/// applications, the load balancer and the number of nodes are the same,
/// and every node not listed under `app` is unchanged.
pub open spec fn changes_only_app(before: ManagerView, after: ManagerView, app: Seq<char>) -> bool {
    &&& after.apps == before.apps
    &&& after.balancer == before.balancer
    &&& after.nodes.len() == before.nodes.len()
    &&& forall|h: int|
        0 <= h < before.nodes.len() && !lists(list_of(before.apps, app), h) ==> #[trigger] after.nodes[h]
            == before.nodes[h]
}

/// A node that changed from `before` to `after` is listed under `app`, has
/// id `node_id`, is the first such node of the application, and only lost
/// its entry under `key`.
pub open spec fn only_named_node_loses_key(before: ManagerView, after: ManagerView, app: Seq<char>, node_id: Seq<char>, key: Seq<char>) -> bool {
    forall|h: int|
        0 <= h < before.nodes.len() && #[trigger] after.nodes[h] != before.nodes[h] ==> {
            &&& before.nodes[h].id == node_id
            &&& after.nodes[h] == without_entry(before.nodes[h], key)
            &&& exists|i: int|
                is_first_with_id(before.nodes, list_of(before.apps, app), node_id, i) && list_of(
                    before.apps,
                    app,
                )[i] == h
        }
}

/// An invalidation for an application touches nothing outside it: only the
/// application's first node with the given id changes, and it only loses
/// its entry under the key; when that node exists, it no longer holds the key.
pub proof fn law_invalidation_stays_in_app(v: ManagerView, app: Seq<char>, node_id: Seq<char>, key: Seq<char>)
    requires
        handles_valid(v),
    ensures
        changes_only_app(v, invalidated_on_node(v, app, node_id, key), app),
        only_named_node_loses_key(v, invalidated_on_node(v, app, node_id, key), app, node_id, key),
        forall|i: int|
            #[trigger] is_first_with_id(v.nodes, list_of(v.apps, app), node_id, i) ==> !invalidated_on_node(
                v,
                app,
                node_id,
                key,
            ).nodes[list_of(v.apps, app)[i] as int].cached.contains_key(key),
{
    let list = list_of(v.apps, app);
    let after = invalidated_on_node(v, app, node_id, key);
    if v.apps.contains_key(app) {
        assert(handles_within(v.apps[app], v.nodes.len() as int));
    }
    match first_with_id(v.nodes, list, node_id) {
        Some(i) => {
            let j = choose|j: int| is_first_with_id(v.nodes, list, node_id, j);
            let h = list[i] as int;
            assert(is_first_with_id(v.nodes, list, node_id, i));
            assert forall|g: int|
                0 <= g < v.nodes.len() && !lists(list, g) implies #[trigger] after.nodes[g] == v.nodes[g] by {
                if g == h {
                    assert(lists(list, g));
                }
            }
            assert forall|k: int| #[trigger] is_first_with_id(v.nodes, list, node_id, k) implies !after.nodes[list[k] as int].cached.contains_key(key) by {
                lemma_first_with_id_unique(v.nodes, list, node_id, i, k);
            }
        },
        None => {
            assert forall|k: int| #[trigger] is_first_with_id(v.nodes, list, node_id, k) implies false by {
            }
        },
    }
}

/// Every listed handle names a registered node.
pub open spec fn handles_valid(v: ManagerView) -> bool {
    forall|k: Seq<char>| #[trigger] v.apps.contains_key(k) ==> handles_within(v.apps[k], v.nodes.len() as int)
}

/// After an application's nodes are notified of `key`, none of them holds
/// an entry under `key` (so a read of `key` from any of them finds nothing),
/// and the other nodes are as they were.
pub proof fn law_notify_clears_key(v: ManagerView, app: Seq<char>, key: Seq<char>)
    requires
        handles_valid(v),
    ensures
        forall|i: int|
            0 <= i < list_of(v.apps, app).len() ==> !(#[trigger] notified(v, app, key).nodes[list_of(v.apps, app)[i] as int]).cached.contains_key(key),
        forall|h: int|
            0 <= h < v.nodes.len() && !lists(list_of(v.apps, app), h) ==> #[trigger] notified(v, app, key).nodes[h] == v.nodes[h],
        notified(v, app, key).apps == v.apps,
{
    assert forall|i: int| 0 <= i < list_of(v.apps, app).len() implies !(#[trigger] notified(v, app, key).nodes[list_of(v.apps, app)[i] as int]).cached.contains_key(key) by {
        if v.apps.contains_key(app) {
            assert(handles_within(v.apps[app], v.nodes.len() as int));
        }
        let h = list_of(v.apps, app)[i] as int;
        assert(lists(list_of(v.apps, app), h));
    }
}

/// The weights of the nodes that `list` names.
pub open spec fn weights_of(list: Seq<usize>, nodes: Seq<NodeView>) -> Seq<usize> {
    Seq::new(list.len(), |i: int| nodes[list[i] as int].weight)
}

impl View for CacheManager {
    type V = ManagerView;

    closed spec fn view(&self) -> ManagerView {
        ManagerView {
            nodes: self.nodes@.map_values(|n: Node| n@),
            apps: member_lists(self.app_to_nodes),
            balancer: self.load_balancer@,
        }
    }
}

impl CacheManager {
    /// Well-formed: every listed handle names a registered node, and the
    /// load balancer is well-formed.
    pub closed spec fn wf(&self) -> bool {
        &&& forall|k: Seq<char>| #[trigger]
            member_lists(self.app_to_nodes).contains_key(k) ==> handles_within(
                member_lists(self.app_to_nodes)[k],
                self.nodes@.len() as int,
            )
        &&& self.load_balancer.wf()
    }

    /// In a well-formed manager every listed handle names a registered node.
    pub proof fn lemma_lists_within(&self, app: Seq<char>)
        requires
            self.wf(),
        ensures
            handles_within(list_of(self@.apps, app), self@.nodes.len() as int),
            handles_valid(self@),
            self@.nodes.len() <= usize::MAX,
    {
        assert(self.nodes@.len() == self.nodes.len()) by {
            vstd::std_specs::vec::axiom_spec_len(&self.nodes);
        }
        if member_lists(self.app_to_nodes).contains_key(app) {
            assert(handles_within(member_lists(self.app_to_nodes)[app], self.nodes@.len() as int));
        }
    }

    /// No nodes, no applications, and a weighted load balancer over a copy
    /// of the (empty) application map.
    pub fn new() -> (manager: Self)
        ensures
            manager.wf(),
            manager@ == (ManagerView {
                nodes: Seq::empty(),
                apps: Members::empty(),
                balancer: BalancerView {
                    strategy: LoadBalancingStrategy::WeightedRoundRobin,
                    members: Members::empty(),
                    positions: Counters::empty(),
                    counts: Counters::empty(),
                },
            }),
    {
        let app_to_nodes = members_new();
        let load_balancer = LoadBalancer::new(
            LoadBalancingStrategy::WeightedRoundRobin,
            members_clone(&app_to_nodes),
        );
        let manager = CacheManager { nodes: Vec::new(), app_to_nodes, load_balancer };
        proof {
            assert(manager@.nodes =~= Seq::<NodeView>::empty());
        }
        manager
    }

    /// The number of registered nodes.
    pub fn node_count(&self) -> (count: usize)
        ensures
            count == self@.nodes.len(),
    {
        self.nodes.len()
    }

    /// The node a handle names.
    pub fn node(&self, handle: usize) -> (node: &Node)
        requires
            handle < self@.nodes.len(),
        ensures
            node@ == self@.nodes[handle as int],
    {
        &self.nodes[handle]
    }

    /// Writes `value` under `key` in the cache of the node a handle names.
    pub(crate) fn write_to_node(&mut self, handle: usize, key: String, value: String)
        requires
            old(self).wf(),
            handle < old(self)@.nodes.len(),
        ensures
            final(self).wf(),
            final(self)@ == (ManagerView {
                nodes: old(self)@.nodes.update(
                    handle as int,
                    with_entry(old(self)@.nodes[handle as int], key@, value@),
                ),
                ..old(self)@
            }),
    {
        self.nodes[handle].cache_insert(key, value);
        proof {
            assert(self@.nodes =~= old(self)@.nodes.update(
                handle as int,
                with_entry(old(self)@.nodes[handle as int], key@, value@),
            ));
        }
    }

    /// Registers `node` under `app_id`: it gets the next handle, which is
    /// appended to the application's list (created if missing).
    pub fn register_node(&mut self, app_id: &str, node: Node)
        requires
            old(self).wf(),
        ensures
            final(self).wf(),
            final(self)@ == (ManagerView {
                nodes: old(self)@.nodes.push(node@),
                apps: old(self)@.apps.insert(
                    app_id@,
                    list_of(old(self)@.apps, app_id@).push(old(self)@.nodes.len() as usize),
                ),
                ..old(self)@
            }),
    {
        self.add_node_to_app(String::from_str(app_id), node)
    }

    /// Adds `node` to the nodes of `app_id` (the list is created if missing).
    pub fn add_node_to_app(&mut self, app_id: String, node: Node)
        requires
            old(self).wf(),
        ensures
            final(self).wf(),
            final(self)@ == (ManagerView {
                nodes: old(self)@.nodes.push(node@),
                apps: old(self)@.apps.insert(
                    app_id@,
                    list_of(old(self)@.apps, app_id@).push(old(self)@.nodes.len() as usize),
                ),
                ..old(self)@
            }),
    {
        let handle = self.nodes.len();
        let mut list = match members_get(&self.app_to_nodes, app_id.as_str()) {
            Some(list) => list,
            None => Vec::new(),
        };
        proof {
            assert(list@ =~= list_of(old(self)@.apps, app_id@));
        }
        list.push(handle);
        self.nodes.push(node);
        members_insert(&mut self.app_to_nodes, app_id, list);
        proof {
            assert(self@.nodes =~= old(self)@.nodes.push(node@));
            assert forall|k: Seq<char>| #[trigger]
                member_lists(self.app_to_nodes).contains_key(k) implies handles_within(
                member_lists(self.app_to_nodes)[k],
                self.nodes@.len() as int,
            ) by {
                if k != app_id@ {
                    assert(member_lists(old(self).app_to_nodes).contains_key(k));
                }
            }
        }
    }

    /// The handles of the application's nodes, in registration order.
    pub fn get_nodes_for_app(&self, app_id: &str) -> (found: Option<Vec<usize>>)
        ensures
            match found {
                Some(list) => self@.apps.contains_key(app_id@) && list@ == self@.apps[app_id@],
                None => !self@.apps.contains_key(app_id@),
            },
    {
        members_get(&self.app_to_nodes, app_id)
    }

    /// The first position of `list` naming a node with id `id`.
    pub(crate) fn position_with_id(&self, list: &Vec<usize>, id: &String) -> (pos: Option<usize>)
        requires
            handles_within(list@, self@.nodes.len() as int),
        ensures
            match pos {
                Some(i) => first_with_id(self@.nodes, list@, id@) == Some(i as int),
                None => first_with_id(self@.nodes, list@, id@) is None,
            },
    {
        let mut i: usize = 0;
        while i < list.len()
            invariant
                i <= list@.len(),
                handles_within(list@, self@.nodes.len() as int),
                forall|j: int| 0 <= j < i ==> !has_id(self@.nodes, list@, id@, j),
            decreases list@.len() - i,
        {
            let node = &self.nodes[list[i]];
            proof {
                assert(self@.nodes[list@[i as int] as int] == self.nodes@[list@[i as int] as int]@);
            }
            if node.id().eq(id) {
                proof {
                    assert(is_first_with_id(self@.nodes, list@, id@, i as int));
                    let k = choose|k: int| is_first_with_id(self@.nodes, list@, id@, k);
                    lemma_first_with_id_unique(self@.nodes, list@, id@, i as int, k);
                }
                return Some(i);
            }
            i = i + 1;
        }
        None
    }

    /// Invalidates `key` on every node of the application.
    pub fn notify_nodes(&mut self, app_id: &str, key: String)
        requires
            old(self).wf(),
        ensures
            final(self).wf(),
            final(self)@ == notified(old(self)@, app_id@, key@),
    {
        let list = match members_get(&self.app_to_nodes, app_id) {
            Some(list) => list,
            None => Vec::new(),
        };
        let ghost start = self@.nodes;
        proof {
            assert(list@ =~= list_of(old(self)@.apps, app_id@));
        }
        let mut i: usize = 0;
        while i < list.len()
            invariant
                i <= list@.len(),
                list@ == list_of(old(self)@.apps, app_id@),
                handles_within(list@, start.len() as int),
                self.wf(),
                self@.apps == old(self)@.apps,
                self@.balancer == old(self)@.balancer,
                self@.nodes.len() == start.len(),
                start == old(self)@.nodes,
                forall|h: int|
                    0 <= h < start.len() ==> #[trigger] self@.nodes[h] == if (exists|j: int|
                        0 <= j < i && list@[j] == h) {
                        without_entry(start[h], key@)
                    } else {
                        start[h]
                    },
            decreases list@.len() - i,
        {
            let h = list[i];
            let ghost before = self@.nodes;
            self.nodes[h].invalidate_cache(key.as_str());
            proof {
                assert(self@.nodes =~= before.update(h as int, without_entry(before[h as int], key@)));
                assert forall|g: int| 0 <= g < start.len() implies #[trigger] self@.nodes[g] == if (
                exists|j: int| 0 <= j < i + 1 && list@[j] == g) {
                    without_entry(start[g], key@)
                } else {
                    start[g]
                } by {
                    if g == h as int {
                        assert(list@[i as int] == g);
                        assert(start[g].cached.remove(key@).remove(key@) =~= start[g].cached.remove(
                            key@,
                        ));
                    } else if exists|j: int| 0 <= j < i + 1 && list@[j] == g {
                        let j = choose|j: int| 0 <= j < i + 1 && list@[j] == g;
                        assert(j != i);
                        assert(exists|j: int| 0 <= j < i && list@[j] == g);
                    } else {
                        assert(!exists|j: int| 0 <= j < i && list@[j] == g);
                    }
                }
            }
            i = i + 1;
        }
        proof {
            assert(self@.nodes =~= notified(old(self)@, app_id@, key@).nodes);
        }
    }

    /// Invalidates `key` on the application's first node whose id is `node_id`.
    pub fn handle_invalidation(&mut self, app_id: String, node_id: String, key: String)
        requires
            old(self).wf(),
        ensures
            final(self).wf(),
            final(self)@ == invalidated_on_node(old(self)@, app_id@, node_id@, key@),
            changes_only_app(old(self)@, final(self)@, app_id@),
            only_named_node_loses_key(old(self)@, final(self)@, app_id@, node_id@, key@),
    {
        proof {
            self.lemma_lists_within(app_id@);
            law_invalidation_stays_in_app(old(self)@, app_id@, node_id@, key@);
        }
        let list = match members_get(&self.app_to_nodes, app_id.as_str()) {
            Some(list) => list,
            None => Vec::new(),
        };
        proof {
            assert(list@ =~= list_of(old(self)@.apps, app_id@));
        }
        match self.position_with_id(&list, &node_id) {
            Some(i) => {
                let h = list[i];
                self.nodes[h].invalidate_cache(key.as_str());
                proof {
                    assert(self@.nodes =~= old(self)@.nodes.update(
                        h as int,
                        without_entry(old(self)@.nodes[h as int], key@),
                    ));
                }
            },
            None => {},
        }
    }

    /// Applies an invalidation notice, as the invalidation listener does for
    /// each one it receives: `key` is invalidated on every node of the
    /// application, then on its first node whose id is `node_id`.
    pub fn handle_notice(&mut self, app_id: String, node_id: String, key: String)
        requires
            old(self).wf(),
        ensures
            final(self).wf(),
            final(self)@ == invalidated_on_node(
                notified(old(self)@, app_id@, key@),
                app_id@,
                node_id@,
                key@,
            ),
            changes_only_app(old(self)@, final(self)@, app_id@),
    {
        proof {
            self.lemma_lists_within(app_id@);
            law_notify_clears_key(old(self)@, app_id@, key@);
        }
        self.notify_nodes(app_id.as_str(), key.clone());
        self.handle_invalidation(app_id, node_id, key);
    }

    /// Chooses one of `nodes` (handles of registered nodes) with the load
    /// balancer, which is given their weights. `None` when no nodes are given.
    pub fn get_best_node(&mut self, app_id: &str, nodes: Option<Vec<usize>>) -> (chosen: Option<usize>)
        requires
            old(self).wf(),
            nodes matches Some(list) ==> {
                &&& handles_within(list@, old(self)@.nodes.len() as int)
                &&& old(self)@.balancer.strategy is BasicRoundRobin ==> list@.len() > 0
                &&& old(self)@.balancer.strategy is WeightedRoundRobin ==> 0 < weight_sum(
                    weights_of(list@, old(self)@.nodes),
                ) <= usize::MAX
            },
        ensures
            final(self).wf(),
            final(self)@.nodes == old(self)@.nodes,
            final(self)@.apps == old(self)@.apps,
            nodes is None ==> chosen is None && final(self)@ == old(self)@,
            nodes matches Some(list) ==> (chosen matches Some(h) && list@.contains(h)),
            nodes matches Some(list) ==> {
                &&& old(self)@.balancer.strategy is BasicRoundRobin ==> {
                    let c = count_of(old(self)@.balancer, app_id@);
                    &&& chosen == Some(list@[c % (list@.len() as int)])
                    &&& final(self)@.balancer == (BalancerView {
                        counts: old(self)@.balancer.counts.insert(
                            app_id@,
                            if c == usize::MAX {
                                0usize
                            } else {
                                (c + 1) as usize
                            },
                        ),
                        ..old(self)@.balancer
                    })
                }
                &&& old(self)@.balancer.strategy is WeightedRoundRobin ==> {
                    let ws = weights_of(list@, old(self)@.nodes);
                    &&& final(self)@.balancer == old(self)@.balancer
                    &&& exists|c: int, i: int|
                        #![trigger picks(ws, c, i)]
                        0 <= c < weight_sum(ws) && picks(ws, c, i) && chosen == Some(list@[i])
                }
            },
    {
        match nodes {
            Some(list) => {
                let mut weights: Vec<usize> = Vec::new();
                let mut i: usize = 0;
                while i < list.len()
                    invariant
                        i <= list@.len(),
                        handles_within(list@, self@.nodes.len() as int),
                        weights@ == weights_of(list@, self@.nodes).take(i as int),
                    decreases list@.len() - i,
                {
                    weights.push(self.nodes[list[i]].weight());
                    proof {
                        assert(weights@ =~= weights_of(list@, self@.nodes).take(i as int + 1));
                    }
                    i = i + 1;
                }
                proof {
                    assert(weights@ =~= weights_of(list@, self@.nodes));
                }
                match self.load_balancer.select_best_node(app_id, &weights) {
                    Some(k) => {
                        proof {
                            if self@.balancer.strategy is WeightedRoundRobin {
                                assert(k < list@.len());
                            }
                        }
                        Some(list[k])
                    },
                    None => None,
                }
            },
            None => None,
        }
    }
}

} // verus!
