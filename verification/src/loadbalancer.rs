//! Choosing a node for an application: round robin, or at random in
//! proportion to the nodes' weights.
use vstd::prelude::*;
use dashmap::DashMap;
use crate::cdn::{Node, NodeView};
use crate::outside::{
    Counters, Members, member_lists, counter_values, members_new, members_get, members_insert,
    members_entries, counters_new,
    counters_get, counters_insert, random_below,
};

verus! {

// ---------------------------------------------------------------------------
// Weighted choice
// ---------------------------------------------------------------------------

/// The sum of a sequence of weights.
pub open spec fn weight_sum(ws: Seq<usize>) -> int
    decreases ws.len(),
{
    if ws.len() == 0 {
        0
    } else {
        weight_sum(ws.drop_last()) + ws.last()
    }
}

/// Where the share of member `i` starts: the weights before it, summed.
pub open spec fn share_start(ws: Seq<usize>, i: int) -> int {
    weight_sum(ws.take(i))
}

/// A choice in `0..weight_sum(ws)` selects member `i` when it falls in the
/// member's share, which is `ws[i]` wide and follows the shares of the
/// members before it.
pub open spec fn picks(ws: Seq<usize>, choice: int, i: int) -> bool {
    &&& 0 <= i < ws.len()
    &&& share_start(ws, i) <= choice < share_start(ws, i) + ws[i]
}

proof fn lemma_share_step(ws: Seq<usize>, i: int)
    requires
        0 <= i < ws.len(),
    ensures
        share_start(ws, i + 1) == share_start(ws, i) + ws[i],
{
    assert(ws.take(i + 1).drop_last() =~= ws.take(i));
}

proof fn lemma_share_monotone(ws: Seq<usize>, i: int, j: int)
    requires
        0 <= i <= j <= ws.len(),
    ensures
        share_start(ws, i) <= share_start(ws, j),
    decreases j - i,
{
    if i < j {
        lemma_share_step(ws, j - 1);
        lemma_share_monotone(ws, i, j - 1);
    }
}

proof fn lemma_share_total(ws: Seq<usize>)
    ensures
        share_start(ws, ws.len() as int) == weight_sum(ws),
{
    assert(ws.take(ws.len() as int) =~= ws);
}

/// A choice selects at most one member.
pub proof fn lemma_pick_unique(ws: Seq<usize>, choice: int, i: int, j: int)
    requires
        picks(ws, choice, i),
        picks(ws, choice, j),
    ensures
        i == j,
{
    if i < j {
        lemma_share_step(ws, i);
        lemma_share_monotone(ws, i + 1, j);
    } else if j < i {
        lemma_share_step(ws, j);
        lemma_share_monotone(ws, j + 1, i);
    }
}

/// A choice below the total weight selects exactly one member, and that
/// member has a positive weight; a choice at or above it selects none.
pub proof fn lemma_pick_covers(ws: Seq<usize>, choice: int)
    requires
        0 <= choice,
    ensures
        choice < weight_sum(ws) <==> exists|i: int| picks(ws, choice, i),
        forall|i: int| picks(ws, choice, i) ==> ws[i] > 0,
    decreases ws.len(),
{
    lemma_share_total(ws);
    if exists|i: int| picks(ws, choice, i) {
        let i = choose|i: int| picks(ws, choice, i);
        lemma_share_step(ws, i);
        lemma_share_monotone(ws, i + 1, ws.len() as int);
    }
    if choice < weight_sum(ws) {
        let n = ws.len() as int;
        // the last member whose share starts at or before the choice
        assert(share_start(ws, 0) == 0) by {
            assert(ws.take(0) =~= Seq::<usize>::empty());
        }
        let k = find_share(ws, choice, 0, n);
        lemma_share_step(ws, k);
        assert(picks(ws, choice, k));
    }
}

/// Some member whose share holds `choice`, searched in `lo..hi`.
proof fn find_share(ws: Seq<usize>, choice: int, lo: int, hi: int) -> (k: int)
    requires
        0 <= lo < hi <= ws.len(),
        share_start(ws, lo) <= choice,
        choice < share_start(ws, hi),
    ensures
        lo <= k < hi,
        share_start(ws, k) <= choice < share_start(ws, k + 1),
    decreases hi - lo,
{
    lemma_share_step(ws, lo);
    if choice < share_start(ws, lo + 1) {
        lo
    } else {
        find_share(ws, choice, lo + 1, hi)
    }
}

/// Weighted choice is proportional: the choices that select member `i` are
/// exactly the `ws[i]` consecutive numbers of its share, all below the total.
pub proof fn law_weighted_share(ws: Seq<usize>, i: int)
    requires
        0 <= i < ws.len(),
    ensures
        Set::new(|c: int| picks(ws, c, i)) == vstd::set_lib::set_int_range(
            share_start(ws, i),
            share_start(ws, i) + ws[i],
        ),
        Set::new(|c: int| picks(ws, c, i)).finite(),
        Set::new(|c: int| picks(ws, c, i)).len() == ws[i],
        0 <= share_start(ws, i),
        share_start(ws, i) + ws[i] <= weight_sum(ws),
{
    let lo = share_start(ws, i);
    let hi = lo + ws[i];
    assert(Set::new(|c: int| picks(ws, c, i)) =~= vstd::set_lib::set_int_range(lo, hi));
    vstd::set_lib::lemma_int_range(lo, hi);
    assert(share_start(ws, 0) == 0) by {
        assert(ws.take(0) =~= Seq::<usize>::empty());
    }
    lemma_share_monotone(ws, 0, i);
    lemma_share_step(ws, i);
    lemma_share_monotone(ws, i + 1, ws.len() as int);
    lemma_share_total(ws);
}

/// The member whose share holds `choice`: walking the members in order,
/// take the first whose weight exceeds what is left of the choice, after
/// subtracting the weights passed. `None` when the choice is not below the
/// total weight.
pub fn pick_by_weight(weights: &Vec<usize>, choice: usize) -> (picked: Option<usize>)
    ensures
        match picked {
            Some(i) => picks(weights@, choice as int, i as int),
            None => choice >= weight_sum(weights@),
        },
        picked is None <==> choice >= weight_sum(weights@),
{
    let mut remaining: usize = choice;
    let mut i: usize = 0;
    proof {
        assert(weights@.take(0) =~= Seq::<usize>::empty());
    }
    while i < weights.len()
        invariant
            i <= weights@.len(),
            share_start(weights@, i as int) <= choice,
            remaining == choice - share_start(weights@, i as int),
        decreases weights@.len() - i,
    {
        if remaining < weights[i] {
            proof {
                assert(picks(weights@, choice as int, i as int));
                lemma_pick_covers(weights@, choice as int);
            }
            return Some(i);
        }
        proof {
            lemma_share_step(weights@, i as int);
        }
        remaining = remaining - weights[i];
        i = i + 1;
    }
    proof {
        lemma_share_total(weights@);
    }
    None
}

/// Sums the weights; the caller guarantees the sum fits in a `usize`.
pub fn total_weight(weights: &Vec<usize>) -> (total: usize)
    requires
        weight_sum(weights@) <= usize::MAX,
    ensures
        total == weight_sum(weights@),
{
    let mut total: usize = 0;
    let mut i: usize = 0;
    proof {
        assert(weights@.take(0) =~= Seq::<usize>::empty());
    }
    while i < weights.len()
        invariant
            i <= weights@.len(),
            total == share_start(weights@, i as int),
            weight_sum(weights@) <= usize::MAX,
        decreases weights@.len() - i,
    {
        proof {
            lemma_share_step(weights@, i as int);
            lemma_share_monotone(weights@, i as int + 1, weights@.len() as int);
            lemma_share_total(weights@);
        }
        total = total + weights[i];
        i = i + 1;
    }
    proof {
        lemma_share_total(weights@);
    }
    total
}

// ---------------------------------------------------------------------------
// The load balancer
// ---------------------------------------------------------------------------

#[derive(Debug, Clone, Copy, PartialEq, Eq, Structural)]
pub enum LoadBalancingStrategy {
    BasicRoundRobin,
    WeightedRoundRobin,
}

/// What a load balancer is, as contracts see it.
pub struct BalancerView {
    pub strategy: LoadBalancingStrategy,
    /// The node handles of each application that `select_node`,
    /// `select_weighted_node` and the health checks go through.
    pub members: Members,
    /// The round-robin position of each application, for `select_node`.
    pub positions: Counters,
    /// How many times `select_best_node` chose by round robin, per application.
    pub counts: Counters,
}

pub struct LoadBalancer {
    strategy: LoadBalancingStrategy,
    nodes: DashMap<String, Vec<usize>>,
    current_index: DashMap<String, usize>,
    counter: DashMap<String, usize>,
}

impl View for LoadBalancer {
    type V = BalancerView;

    closed spec fn view(&self) -> BalancerView {
        BalancerView {
            strategy: self.strategy,
            members: member_lists(self.nodes),
            positions: counter_values(self.current_index),
            counts: counter_values(self.counter),
        }
    }
}

/// The map holding `entries`, a later entry for a key replacing an earlier one.
pub open spec fn entries_map(entries: Seq<(String, Vec<usize>)>) -> Members
    decreases entries.len(),
{
    if entries.len() == 0 {
        Members::empty()
    } else {
        entries_map(entries.drop_last()).insert(entries.last().0@, entries.last().1@)
    }
}

/// The position `select_node` reads for an application: the stored one, or 0.
pub open spec fn position_of(b: BalancerView, app: Seq<char>) -> int {
    if b.positions.contains_key(app) {
        b.positions[app] as int
    } else {
        0
    }
}

/// The count `select_best_node` reads for an application: the stored one, or 0.
pub open spec fn count_of(b: BalancerView, app: Seq<char>) -> int {
    if b.counts.contains_key(app) {
        b.counts[app] as int
    } else {
        0
    }
}

/// Each handle of `list` names one of `n` nodes.
pub open spec fn handles_within(list: Seq<usize>, n: int) -> bool {
    forall|i: int| 0 <= i < list.len() ==> #[trigger] list[i] < n
}

/// The weight each listed node counts with: its weight when healthy, else 0.
pub open spec fn effective_weights(list: Seq<usize>, nodes: Seq<Node>) -> Seq<usize> {
    Seq::new(
        list.len(),
        |i: int|
            if nodes[list[i] as int]@.is_healthy {
                nodes[list[i] as int]@.weight
            } else {
                0usize
            },
    )
}

/// The round-robin position after `k` selections that start at `at`, each
/// moving the position on by one and wrapping at `len` (as `select_node` does).
pub open spec fn position_after(at: int, len: int, k: nat) -> int
    decreases k,
{
    if k == 0 {
        at
    } else {
        (position_after(at, len, (k - 1) as nat) + 1) % len
    }
}

/// Some of the first `len` selections from `at` lands on position `j`.
pub open spec fn visited_within(at: int, len: int, j: int) -> bool {
    exists|k: nat| k < len && #[trigger] position_after(at, len, k) == j
}

/// Round robin is fair: from any valid position, `len` successive selections
/// visit every position once, and the position after them is the start again.
pub proof fn law_round_robin_turns(at: int, len: int)
    requires
        0 <= at < len,
    ensures
        forall|k: nat| #[trigger] position_after(at, len, k) == (at + k) % len,
        forall|j: int| 0 <= j < len ==> #[trigger] visited_within(at, len, j),
        position_after(at, len, len as nat) == at,
{
    assert forall|k: nat| #[trigger] position_after(at, len, k) == (at + k) % len by {
        lemma_position_after(at, len, k);
    }
    assert forall|j: int| 0 <= j < len implies #[trigger] visited_within(at, len, j) by {
        let k: nat = (if j >= at { j - at } else { j - at + len }) as nat;
        lemma_position_after(at, len, k);
        vstd::arithmetic::div_mod::lemma_small_mod(j as nat, len as nat);
        if j < at {
            vstd::arithmetic::div_mod::lemma_mod_add_multiples_vanish(j, len);
            assert(at + k == len + j);
        }
        assert(position_after(at, len, k) == j);
    }
    lemma_position_after(at, len, len as nat);
    vstd::arithmetic::div_mod::lemma_small_mod(at as nat, len as nat);
    vstd::arithmetic::div_mod::lemma_mod_add_multiples_vanish(at, len);
}

proof fn lemma_position_after(at: int, len: int, k: nat)
    requires
        0 <= at < len,
    ensures
        position_after(at, len, k) == (at + k) % len,
    decreases k,
{
    if k > 0 {
        lemma_position_after(at, len, (k - 1) as nat);
        vstd::arithmetic::div_mod::lemma_add_mod_noop_right(1, at + k - 1, len);
    } else {
        vstd::arithmetic::div_mod::lemma_small_mod(at as nat, len as nat);
    }
}

/// Handle `h` is listed under some application.
pub open spec fn is_listed(members: Members, h: int) -> bool {
    exists|k: Seq<char>, i: int|
        members.contains_key(k) && 0 <= i < members[k].len() && #[trigger] members[k][i] == h
}

impl LoadBalancer {
    /// Well-formed: every stored round-robin position is a valid index into
    /// its application's node list.
    pub closed spec fn wf(&self) -> bool {
        forall|k: Seq<char>| #[trigger]
            counter_values(self.current_index).contains_key(k) ==> member_lists(
                self.nodes,
            ).contains_key(k) && counter_values(self.current_index)[k] < member_lists(
                self.nodes,
            )[k].len()
    }

    /// A load balancer over `nodes`, with no selection made yet.
    pub fn new(strategy: LoadBalancingStrategy, nodes: DashMap<String, Vec<usize>>) -> (lb: Self)
        ensures
            lb.wf(),
            lb@ == (BalancerView {
                strategy,
                members: member_lists(nodes),
                positions: Counters::empty(),
                counts: Counters::empty(),
            }),
    {
        LoadBalancer { strategy, nodes, current_index: counters_new(), counter: counters_new() }
    }

    /// A load balancer whose node map holds the given entries (a later entry
    /// for the same application replaces an earlier one), with no selection
    /// made yet.
    pub fn from_entries(strategy: LoadBalancingStrategy, entries: Vec<(String, Vec<usize>)>) -> (lb: Self)
        ensures
            lb.wf(),
            lb@ == (BalancerView {
                strategy,
                members: entries_map(entries@),
                positions: Counters::empty(),
                counts: Counters::empty(),
            }),
    {
        let mut nodes = members_new();
        let mut i: usize = 0;
        proof {
            assert(entries@.take(0) =~= Seq::<(String, Vec<usize>)>::empty());
        }
        while i < entries.len()
            invariant
                i <= entries@.len(),
                member_lists(nodes) == entries_map(entries@.take(i as int)),
            decreases entries@.len() - i,
        {
            let key = entries[i].0.clone();
            let list = entries[i].1.clone();
            proof {
                assert(list@ =~= entries@[i as int].1@);
                assert(entries@.take(i as int + 1).drop_last() =~= entries@.take(i as int));
            }
            members_insert(&mut nodes, key, list);
            i = i + 1;
        }
        proof {
            assert(entries@.take(entries@.len() as int) =~= entries@);
        }
        LoadBalancer::new(strategy, nodes)
    }

    /// Whether every handle the balancer lists is below `n`, as the health
    /// checks and weighted selection over `n` nodes need.
    pub fn lists_within(&self, n: usize) -> (ok: bool)
        ensures
            ok == forall|k: Seq<char>| #[trigger]
                self@.members.contains_key(k) ==> handles_within(self@.members[k], n as int),
    {
        let entries = members_entries(&self.nodes);
        let ghost members = self@.members;
        let mut e: usize = 0;
        while e < entries.len()
            invariant
                e <= entries@.len(),
                members == self@.members,
                forall|x: int|
                    0 <= x < entries@.len() ==> {
                        &&& members.contains_key(#[trigger] entries@[x].0@)
                        &&& entries@[x].1@ == members[entries@[x].0@]
                    },
                forall|k: Seq<char>| members.contains_key(k) ==>
                    exists|x: int| 0 <= x < entries@.len() && #[trigger] entries@[x].0@ == k,
                forall|x: int| 0 <= x < e ==> handles_within(#[trigger] entries@[x].1@, n as int),
            decreases entries@.len() - e,
        {
            let list = &entries[e].1;
            proof {
                assert(members.contains_key(entries@[e as int].0@));
            }
            let mut j: usize = 0;
            while j < list.len()
                invariant
                    e < entries@.len(),
                    list@ == entries@[e as int].1@,
                    members == self@.members,
                    members.contains_key(entries@[e as int].0@),
                    list@ == members[entries@[e as int].0@],
                    j <= list@.len(),
                    forall|y: int| 0 <= y < j ==> #[trigger] list@[y] < n,
                decreases list@.len() - j,
            {
                if list[j] >= n {
                    proof {
                        assert(list@[j as int] >= n);
                        assert(!handles_within(members[entries@[e as int].0@], n as int));
                    }
                    return false;
                }
                j = j + 1;
            }
            e = e + 1;
        }
        proof {
            assert forall|k: Seq<char>| #[trigger] members.contains_key(k) implies handles_within(members[k], n as int) by {
                let x = choose|x: int| 0 <= x < entries@.len() && #[trigger] entries@[x].0@ == k;
                assert(handles_within(entries@[x].1@, n as int));
            }
        }
        true
    }

    pub fn strategy(&self) -> (strategy: LoadBalancingStrategy)
        ensures
            strategy == self@.strategy,
    {
        self.strategy
    }

    /// Round robin over the application's nodes: returns the node at the
    /// application's position and moves the position on by one, wrapping
    /// around. `None`, with nothing changed, for an application without nodes.
    pub fn select_node(&mut self, app_id: &str) -> (chosen: Option<usize>)
        requires
            old(self).wf(),
        ensures
            final(self).wf(),
            ({
                let members = old(self)@.members;
                if !members.contains_key(app_id@) || members[app_id@].len() == 0 {
                    chosen is None && final(self)@ == old(self)@
                } else {
                    let list = members[app_id@];
                    let at = position_of(old(self)@, app_id@);
                    &&& at < list.len()
                    &&& chosen == Some(list[at])
                    &&& final(self)@ == (BalancerView {
                        positions: old(self)@.positions.insert(
                            app_id@,
                            ((at + 1) % (list.len() as int)) as usize,
                        ),
                        ..old(self)@
                    })
                }
            }),
    {
        let list = match members_get(&self.nodes, app_id) {
            Some(list) => list,
            None => return None,
        };
        if list.len() == 0 {
            return None;
        }
        let at: usize = match counters_get(&self.current_index, app_id) {
            Some(v) => v,
            None => 0,
        };
        let chosen = list[at];
        let next: usize = (at + 1) % list.len();
        counters_insert(&mut self.current_index, String::from_str(app_id), next);
        Some(chosen)
    }

    /// Chooses one of the application's healthy nodes at random, each with a
    /// chance in proportion to its weight. `None` when the application has no
    /// nodes or its healthy nodes weigh nothing in total.
    pub fn select_weighted_node(&self, app_id: &str, nodes: &Vec<Node>) -> (chosen: Option<usize>)
        requires
            self@.members.contains_key(app_id@) ==> {
                &&& handles_within(self@.members[app_id@], nodes@.len() as int)
                &&& weight_sum(effective_weights(self@.members[app_id@], nodes@)) <= usize::MAX
            },
        ensures
            ({
                let members = self@.members;
                if !members.contains_key(app_id@) || weight_sum(
                    effective_weights(members[app_id@], nodes@),
                ) == 0 {
                    chosen is None
                } else {
                    let list = members[app_id@];
                    let ws = effective_weights(list, nodes@);
                    exists|c: int, i: int|
                        #![trigger picks(ws, c, i)]
                        0 <= c < weight_sum(ws) && picks(ws, c, i) && chosen == Some(list[i])
                }
            }),
    {
        let list = match members_get(&self.nodes, app_id) {
            Some(list) => list,
            None => return None,
        };
        let ghost ws = effective_weights(list@, nodes@);
        let mut weights: Vec<usize> = Vec::new();
        let mut i: usize = 0;
        while i < list.len()
            invariant
                i <= list@.len(),
                handles_within(list@, nodes@.len() as int),
                ws == effective_weights(list@, nodes@),
                weights@ == ws.take(i as int),
            decreases list@.len() - i,
        {
            let node = &nodes[list[i]];
            if node.is_healthy() {
                weights.push(node.weight());
            } else {
                weights.push(0);
            }
            proof {
                assert(weights@ =~= ws.take(i as int + 1));
            }
            i = i + 1;
        }
        proof {
            assert(weights@ =~= ws);
        }
        let total = total_weight(&weights);
        if total == 0 {
            return None;
        }
        let c = random_below(total);
        match pick_by_weight(&weights, c) {
            Some(k) => Some(list[k]),
            None => None,
        }
    }

    /// Chooses among `weights.len()` candidate nodes, given their weights:
    /// by round robin on a per-application count, or at random in proportion
    /// to the weights. Returns the index of the chosen candidate.
    pub fn select_best_node(&mut self, app_id: &str, weights: &Vec<usize>) -> (chosen: Option<usize>)
        requires
            old(self).wf(),
            old(self)@.strategy is BasicRoundRobin ==> weights@.len() > 0,
            old(self)@.strategy is WeightedRoundRobin ==> 0 < weight_sum(weights@) <= usize::MAX,
        ensures
            final(self).wf(),
            old(self)@.strategy is BasicRoundRobin ==> {
                let c = count_of(old(self)@, app_id@);
                &&& chosen == Some((c % (weights@.len() as int)) as usize)
                &&& final(self)@ == (BalancerView {
                    counts: old(self)@.counts.insert(
                        app_id@,
                        if c == usize::MAX {
                            0usize
                        } else {
                            (c + 1) as usize
                        },
                    ),
                    ..old(self)@
                })
            },
            old(self)@.strategy is WeightedRoundRobin ==> {
                &&& final(self)@ == old(self)@
                &&& exists|c: int, i: int|
                    #![trigger picks(weights@, c, i)]
                    0 <= c < weight_sum(weights@) && picks(weights@, c, i) && chosen == Some(
                        i as usize,
                    )
            },
    {
        match self.strategy {
            LoadBalancingStrategy::BasicRoundRobin => {
                let c: usize = match counters_get(&self.counter, app_id) {
                    Some(v) => v,
                    None => 0,
                };
                let index: usize = c % weights.len();
                let next: usize = if c == usize::MAX {
                    0
                } else {
                    c + 1
                };
                counters_insert(&mut self.counter, String::from_str(app_id), next);
                Some(index)
            },
            LoadBalancingStrategy::WeightedRoundRobin => {
                let total = total_weight(weights);
                let c = random_below(total);
                pick_by_weight(weights, c)
            },
        }
    }

    /// One round of health checks: every node listed under some application
    /// is checked and its health recorded; other nodes are left alone.
    pub fn health_check_round(&self, nodes: &mut Vec<Node>)
        requires
            forall|k: Seq<char>| #[trigger]
                self@.members.contains_key(k) ==> handles_within(
                    self@.members[k],
                    old(nodes)@.len() as int,
                ),
        ensures
            final(nodes)@.len() == old(nodes)@.len(),
            forall|h: int|
                0 <= h < old(nodes)@.len() ==> #[trigger] final(nodes)@[h]@ == if is_listed(self@.members, h) {
                    NodeView { is_healthy: true, ..old(nodes)@[h]@ }
                } else {
                    old(nodes)@[h]@
                },
    {
        let entries = members_entries(&self.nodes);
        let ghost members = self@.members;
        let ghost start = nodes@;
        let mut e: usize = 0;
        while e < entries.len()
            invariant
                e <= entries@.len(),
                members == self@.members,
                forall|k: Seq<char>| #[trigger]
                    members.contains_key(k) ==> handles_within(members[k], start.len() as int),
                forall|i: int|
                    0 <= i < entries@.len() ==> {
                        &&& members.contains_key(#[trigger] entries@[i].0@)
                        &&& entries@[i].1@ == members[entries@[i].0@]
                    },
                nodes@.len() == start.len(),
                forall|h: int|
                    0 <= h < start.len() ==> #[trigger] nodes@[h]@ == if (exists|x: int, y: int|
                        0 <= x < e && 0 <= y < entries@[x].1@.len() && #[trigger] entries@[x].1@[y]
                            == h) {
                        NodeView { is_healthy: true, ..start[h]@ }
                    } else {
                        start[h]@
                    },
            decreases entries@.len() - e,
        {
            let list = &entries[e].1;
            proof {
                assert(members.contains_key(entries@[e as int].0@));
            }
            let mut j: usize = 0;
            while j < list.len()
                invariant
                    e < entries@.len(),
                    j <= list@.len(),
                    list@ == entries@[e as int].1@,
                    members == self@.members,
                    members.contains_key(entries@[e as int].0@),
                    list@ == members[entries@[e as int].0@],
                    handles_within(list@, start.len() as int),
                    nodes@.len() == start.len(),
                    forall|h: int|
                        0 <= h < start.len() ==> #[trigger] nodes@[h]@ == if (exists|x: int, y: int|
                            0 <= x < e && 0 <= y < entries@[x].1@.len() && #[trigger] entries@[x].1@[y]
                                == h) || (exists|y: int| 0 <= y < j && list@[y] == h) {
                            NodeView { is_healthy: true, ..start[h]@ }
                        } else {
                            start[h]@
                        },
                decreases list@.len() - j,
            {
                let h = list[j];
                let alive = nodes[h].check_health();
                nodes[h].set_healthy(alive);
                proof {
                    assert forall|g: int| 0 <= g < start.len() implies #[trigger] nodes@[g]@ == if (
                    exists|x: int, y: int|
                        0 <= x < e && 0 <= y < entries@[x].1@.len() && #[trigger] entries@[x].1@[y]
                            == g) || (exists|y: int| 0 <= y < j + 1 && list@[y] == g) {
                        NodeView { is_healthy: true, ..start[g]@ }
                    } else {
                        start[g]@
                    } by {
                        if g == h as int {
                            assert(list@[j as int] == g);
                        } else if exists|y: int| 0 <= y < j + 1 && list@[y] == g {
                            let y = choose|y: int| 0 <= y < j + 1 && list@[y] == g;
                            assert(y != j);
                        }
                    }
                }
                j = j + 1;
            }
            proof {
                assert forall|g: int| 0 <= g < start.len() implies #[trigger] nodes@[g]@ == if (
                exists|x: int, y: int|
                    0 <= x < e + 1 && 0 <= y < entries@[x].1@.len() && #[trigger] entries@[x].1@[y]
                        == g) {
                    NodeView { is_healthy: true, ..start[g]@ }
                } else {
                    start[g]@
                } by {
                    if exists|x: int, y: int|
                        0 <= x < e + 1 && 0 <= y < entries@[x].1@.len() && #[trigger] entries@[x].1@[y]
                            == g {
                        let (x, y) = choose|x: int, y: int|
                            0 <= x < e + 1 && 0 <= y < entries@[x].1@.len() && #[trigger] entries@[x].1@[y]
                                == g;
                        if x == e {
                            assert(list@[y] == g);
                        }
                    }
                }
            }
            e = e + 1;
        }
        proof {
            assert forall|h: int| 0 <= h < start.len() implies #[trigger] nodes@[h]@ == if is_listed(members, h) {
                NodeView { is_healthy: true, ..start[h]@ }
            } else {
                start[h]@
            } by {
                if is_listed(members, h) {
                    let (k, i) = choose|k: Seq<char>, i: int|
                        members.contains_key(k) && 0 <= i < members[k].len() && #[trigger] members[k][i]
                            == h;
                    let x = choose|x: int| 0 <= x < entries@.len() && #[trigger] entries@[x].0@ == k;
                    assert(members.contains_key(entries@[x].0@));
                    assert(entries@[x].1@ == members[k]);
                    assert(entries@[x].1@[i] == h);
                } else {
                    if exists|x: int, y: int|
                        0 <= x < entries@.len() && 0 <= y < entries@[x].1@.len()
                            && #[trigger] entries@[x].1@[y] == h {
                        let (x, y) = choose|x: int, y: int|
                            0 <= x < entries@.len() && 0 <= y < entries@[x].1@.len()
                                && #[trigger] entries@[x].1@[y] == h;
                        assert(members[entries@[x].0@][y] == h);
                    }
                }
            }
        }
    }
}

} // verus!
