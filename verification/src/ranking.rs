//! The integer parts of placement scoring: how much affinity weight a node
//! collects, and the counts a spread preference is judged by. Turning them
//! into a score (with fractional utilisation and percentages) is done by the
//! binary's ranker.
use crate::allocs::Allocation;
use crate::constraint::{rule_holds, Affinity, Spread, SpreadTarget};
use crate::jobspec::TaskGroup;
use crate::node::Node;
use crate::scheduler::{is_live, status_is_live};
use crate::state::{derefs, StateStore};
use crate::strmap::{lookup, values, Pairs};
use crate::text::str_eq;
use vstd::prelude::*;

verus! {

/// Summed weight of the affinities a node with `attrs` satisfies.
pub open spec fn affinity_total(attrs: Pairs<String>, affs: Seq<Affinity>) -> int
    decreases affs.len(),
{
    if affs.len() == 0 {
        0
    } else {
        let a = affs.last();
        affinity_total(attrs, affs.drop_last()) + if rule_holds(attrs, a.left@, a.right@, a.operand@) {
            a.weight as int
        } else {
            0
        }
    }
}

/// The affinity weight `node` collects for `group`: the sum of the weights
/// of the group's affinities the node's attributes satisfy.
pub fn affinity_score(node: &Node, group: &TaskGroup) -> (r: i128)
    ensures
        r == affinity_total(node.attributes.pairs(), group.affinities@),
{
    let ghost attrs = node.attributes.pairs();
    let ghost affs = group.affinities@;
    let mut total: i128 = 0;
    let mut i: usize = 0;
    while i < group.affinities.len()
        invariant
            i <= affs.len(),
            affs == group.affinities@,
            attrs == node.attributes.pairs(),
            total == affinity_total(attrs, affs.take(i as int)),
            -128 * i <= total <= 128 * i,
        decreases affs.len() - i,
    {
        let a = &group.affinities[i];
        assert(affs.take(i + 1).drop_last() =~= affs.take(i as int));
        assert(affs.take(i + 1).last() == *a);
        if a.satisfied_by(&node.attributes) {
            total = total + a.weight as i128;
        }
        i = i + 1;
    }
    assert(affs.take(i as int) =~= affs);
    total
}

/// The characters of a node's value for attribute `attr`, if it has one.
pub open spec fn node_attr(n: Node, attr: Seq<char>) -> Option<Seq<char>> {
    match lookup(n.attributes.pairs(), attr) {
        Some(s) => Some(s@),
        None => None,
    }
}

/// The value of attribute `attr` on the node with id `id`, if that node is
/// known and has one.
pub open spec fn attr_at(nodes: Pairs<Node>, id: Seq<char>, attr: Seq<char>) -> Option<Seq<char>> {
    match lookup(nodes, id) {
        Some(n) => node_attr(n, attr),
        None => None,
    }
}

/// Number of live allocations.
pub open spec fn live_count(allocs: Seq<Allocation>) -> nat
    decreases allocs.len(),
{
    if allocs.len() == 0 {
        0
    } else {
        live_count(allocs.drop_last()) + if is_live(allocs.last().client_status) { 1nat } else { 0nat }
    }
}

/// Number of live allocations placed on nodes whose `attr` is `v`.
pub open spec fn same_value_count(allocs: Seq<Allocation>, nodes: Pairs<Node>, attr: Seq<char>, v: Seq<char>) -> nat
    decreases allocs.len(),
{
    if allocs.len() == 0 {
        0
    } else {
        let a = allocs.last();
        same_value_count(allocs.drop_last(), nodes, attr, v) + if is_live(a.client_status) && attr_at(
            nodes,
            a.node_id@,
            attr,
        ) == Some(v) {
            1nat
        } else {
            0nat
        }
    }
}

/// Summed percent of the targets naming value `v`.
pub open spec fn target_sum(ts: Seq<SpreadTarget>, v: Seq<char>) -> nat
    decreases ts.len(),
{
    if ts.len() == 0 {
        0
    } else {
        target_sum(ts.drop_last(), v) + if ts.last().value@ == v { ts.last().percent as nat } else { 0nat }
    }
}

/// Whether some node in `ns` has value `v` for `attr`.
pub open spec fn seen(ns: Seq<Node>, attr: Seq<char>, v: Seq<char>) -> bool {
    exists|j: int| 0 <= j < ns.len() && node_attr(#[trigger] ns[j], attr) == Some(v)
}

/// Number of distinct values the nodes in `ns` have for `attr`.
pub open spec fn distinct_values(ns: Seq<Node>, attr: Seq<char>) -> nat
    decreases ns.len(),
{
    if ns.len() == 0 {
        0
    } else {
        distinct_values(ns.drop_last(), attr) + match node_attr(ns.last(), attr) {
            Some(v) => if seen(ns.drop_last(), attr, v) { 0nat } else { 1nat },
            None => 0nat,
        }
    }
}

/// The counts a spread preference judges a node by.
#[derive(Debug, Clone, Copy, PartialEq, Eq, Structural)]
pub struct SpreadTally {
    /// Live allocations in the cluster.
    pub live_allocs: usize,
    /// Live allocations on nodes sharing the node's value of the attribute.
    pub same_value: usize,
    /// Summed percent of the targets naming that value (0 when none does).
    pub target_percent: u128,
    /// Distinct values of the attribute among the cluster's nodes.
    pub distinct_values: usize,
}

/// Whether `t` is the tally of `node` for `spread` in a cluster whose
/// allocations are `allocs` and nodes `nodes`, the node's value being `v`.
pub open spec fn tally_of(t: SpreadTally, allocs: Seq<Allocation>, nodes: Pairs<Node>, spread: Spread, v: Seq<char>) -> bool {
    &&& t.live_allocs == live_count(allocs)
    &&& t.same_value == same_value_count(allocs, nodes, spread.attribute@, v)
    &&& t.target_percent == target_sum(spread.targets@, v)
    &&& t.distinct_values == distinct_values(values(nodes), spread.attribute@)
}

/// The tally of `node` for `spread` given the cluster `state`; `None` when
/// the node lacks the spread's attribute (the spread then does not apply).
pub fn spread_tally(node: &Node, spread: &Spread, state: &StateStore) -> (r: Option<SpreadTally>)
    ensures
        match node_attr(*node, spread.attribute@) {
            None => r is None,
            Some(v) => r matches Some(t) && tally_of(
                t,
                values(state.model().allocs),
                state.model().nodes,
                *spread,
                v,
            ),
        },
{
    let v = match node.attributes.get(spread.attribute.as_str()) {
        Some(v) => v,
        None => {
            return None;
        },
    };
    let allocs = state.list_allocs();
    let (live, same) = count_allocs(&allocs, state, spread.attribute.as_str(), v.as_str());
    let target = sum_targets(&spread.targets, v.as_str());
    let nodes = state.list_nodes();
    let distinct = count_distinct(&nodes, spread.attribute.as_str());
    Some(SpreadTally { live_allocs: live, same_value: same, target_percent: target, distinct_values: distinct })
}

/// The live allocations among `allocs`, and those among them on nodes whose
/// `attr` is `v`.
fn count_allocs(allocs: &Vec<&Allocation>, state: &StateStore, attr: &str, v: &str) -> (r: (usize, usize))
    ensures
        r.0 == live_count(derefs(allocs@)),
        r.1 == same_value_count(derefs(allocs@), state.model().nodes, attr@, v@),
{
    let ghost all = derefs(allocs@);
    let mut live: usize = 0;
    let mut same: usize = 0;
    let mut i: usize = 0;
    while i < allocs.len()
        invariant
            i <= allocs@.len(),
            all == derefs(allocs@),
            live == live_count(all.take(i as int)),
            same == same_value_count(all.take(i as int), state.model().nodes, attr@, v@),
            live <= i,
            same <= i,
        decreases allocs@.len() - i,
    {
        let a = allocs[i];
        assert(all.take(i + 1).drop_last() =~= all.take(i as int));
        assert(all.take(i + 1).last() == *a);
        if status_is_live(a.client_status) {
            live = live + 1;
            let on_value = match state.get_node(a.node_id.as_str()) {
                Some(n) => match n.attributes.get(attr) {
                    Some(w) => str_eq(w.as_str(), v),
                    None => false,
                },
                None => false,
            };
            if on_value {
                same = same + 1;
            }
        }
        i = i + 1;
    }
    assert(all.take(i as int) =~= all);
    (live, same)
}

/// Summed percent of the targets naming `v`.
fn sum_targets(targets: &Vec<SpreadTarget>, v: &str) -> (r: u128)
    ensures
        r == target_sum(targets@, v@),
{
    let mut total: u128 = 0;
    let mut i: usize = 0;
    while i < targets.len()
        invariant
            i <= targets@.len(),
            total == target_sum(targets@.take(i as int), v@),
            total <= 255 * i,
        decreases targets@.len() - i,
    {
        let t = &targets[i];
        assert(targets@.take(i + 1).drop_last() =~= targets@.take(i as int));
        assert(targets@.take(i + 1).last() == *t);
        if str_eq(t.value.as_str(), v) {
            total = total + t.percent as u128;
        }
        i = i + 1;
    }
    assert(targets@.take(i as int) =~= targets@);
    total
}

/// Whether one of the first `k` nodes has value `v` for `attr`.
fn seen_before(nodes: &Vec<&Node>, k: usize, attr: &str, v: &str) -> (r: bool)
    requires
        k <= nodes@.len(),
    ensures
        r == seen(derefs(nodes@).take(k as int), attr@, v@),
{
    let ghost ns = derefs(nodes@).take(k as int);
    let mut j: usize = 0;
    while j < k
        invariant
            j <= k,
            k <= nodes@.len(),
            ns == derefs(nodes@).take(k as int),
            forall|i: int| 0 <= i < j ==> node_attr(#[trigger] ns[i], attr@) != Some(v@),
        decreases k - j,
    {
        let n = nodes[j];
        assert(ns[j as int] == *n);
        let hit = match n.attributes.get(attr) {
            Some(w) => str_eq(w.as_str(), v),
            None => false,
        };
        if hit {
            assert(node_attr(ns[j as int], attr@) == Some(v@));
            return true;
        }
        j = j + 1;
    }
    false
}

/// Number of distinct values the nodes have for `attr`.
fn count_distinct(nodes: &Vec<&Node>, attr: &str) -> (r: usize)
    ensures
        r == distinct_values(derefs(nodes@), attr@),
{
    let ghost all = derefs(nodes@);
    let mut count: usize = 0;
    let mut i: usize = 0;
    while i < nodes.len()
        invariant
            i <= nodes@.len(),
            all == derefs(nodes@),
            count == distinct_values(all.take(i as int), attr@),
            count <= i,
        decreases nodes@.len() - i,
    {
        let n = nodes[i];
        assert(all.take(i + 1).drop_last() =~= all.take(i as int));
        assert(all.take(i + 1).last() == *n);
        match n.attributes.get(attr) {
            Some(w) => {
                if !seen_before(nodes, i, attr, w.as_str()) {
                    count = count + 1;
                }
            },
            None => {},
        }
        i = i + 1;
    }
    assert(all.take(i as int) =~= all);
    count
}

} // verus!
