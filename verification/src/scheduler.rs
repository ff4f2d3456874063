//! Scheduler: turns an evaluation into a placement plan.
//!
//! Eligible nodes (ready, eligible, not draining) start with their advertised
//! resources minus what live allocations on them hold. Each task group places
//! up to `count` instances; every placement goes to a node that still has room
//! for the group's summed demand and satisfies the group's constraints, and
//! reserves that demand on it for the rest of the plan. A group without
//! affinities or spreads takes the first such node in node order; a group
//! with them takes the candidate a [`Ranker`] ranks highest, the earliest on
//! ties.
use crate::allocs::{Allocation, ClientStatus, DesiredStatus};
use crate::constraint::rule_holds;
use crate::eval::Evaluation;
use crate::jobspec::{Job, Resources, Task, TaskGroup};
use crate::node::{node_ready, Node, NodeStatus, SchedulingEligibility};
pub use crate::agent::AgentStatus as SchedulerStatus;
use crate::error::{Error, Result};
use crate::eval_queue::{acked, dequeued, first_in_flight, is_next, nacked, EvalQueue, InFlightEval, QueueModel};
use crate::fsm::Fsm;
use crate::state::{derefs, model_wf, node_key, step, store_keyed, Command, Rejection, StateStore, StoreModel};
use crate::strmap::{key_index, lemma_key_index, lookup, values};
use crate::text::{dec_digits, u64_to_string};
use vstd::prelude::*;

verus! {

/// A set of placements the scheduler wants to apply for one evaluation.
#[derive(Debug)]
pub struct Plan {
    /// Allocations to create.
    pub allocs: Vec<Allocation>,
}

/// Capacity left on one eligible node while a plan is being built.
#[derive(Debug, Clone, Copy)]
pub struct Slot {
    /// Position of the node in the state's node list.
    pub node: usize,
    /// CPU MHz left.
    pub cpu: i128,
    /// Memory MB left.
    pub mem: i128,
    /// Network Mbps left.
    pub net: i128,
}

/// A slot as mathematical integers.
pub struct Room {
    /// Position of the node in the state's node list.
    pub node: int,
    /// CPU MHz left.
    pub cpu: int,
    /// Memory MB left.
    pub mem: int,
    /// Network Mbps left.
    pub net: int,
}

impl View for Slot {
    type V = Room;

    open spec fn view(&self) -> Room {
        Room { node: self.node as int, cpu: self.cpu as int, mem: self.mem as int, net: self.net as int }
    }
}

/// The rooms of a list of slots.
pub open spec fn rooms(s: Seq<Slot>) -> Seq<Room> {
    s.map_values(|x: Slot| x@)
}

/// Orders candidate nodes for groups that carry affinities or spreads; a
/// higher key is preferred. Implementations may score however they like.
pub trait Ranker {
    /// Preference key for placing one instance of `group` (needing `need`) on
    /// `node`, which has `free` left, given the cluster `state`.
    fn rank(&self, node: &Node, free: &Slot, need: &Resources, group: &TaskGroup, state: &StateStore) -> u64;
}

/// Ranks every candidate alike, so the earliest feasible node is chosen.
#[derive(Debug, Clone, Copy)]
pub struct FirstFit;

impl Ranker for FirstFit {
    fn rank(&self, node: &Node, free: &Slot, need: &Resources, group: &TaskGroup, state: &StateStore) -> (r: u64)
        ensures
            r == 0,
    {
        0
    }
}

/// An allocation reserves capacity until it reaches a terminal client status.
pub open spec fn is_live(s: ClientStatus) -> bool {
    s == ClientStatus::Pending || s == ClientStatus::Running
}

/// Summed demand of a list of tasks: (cpu, memory, network).
pub open spec fn demand_sum(ts: Seq<Task>) -> (int, int, int)
    decreases ts.len(),
{
    if ts.len() == 0 {
        (0, 0, 0)
    } else {
        let d = demand_sum(ts.drop_last());
        let r = ts.last().resources;
        (d.0 + r.cpu_mhz, d.1 + r.memory_mb, d.2 + r.network_mbps)
    }
}

/// A group's demand is its tasks' demands added up: a group without tasks
/// needs nothing, a group of one task needs exactly that task's resources,
/// and adding a task to a group adds exactly the task's resources to each
/// part of its demand.
pub proof fn law_group_demand_adds_up(g: TaskGroup, t: Task, g2: TaskGroup)
    requires
        g2.tasks@ == g.tasks@.push(t),
    ensures
        g.tasks@.len() == 0 ==> group_need(g) == Some(Resources { cpu_mhz: 0, memory_mb: 0, network_mbps: 0 }),
        g.tasks@ == seq![t] ==> group_need(g) == Some(t.resources),
        group_need(g) is Some && group_need(g2) is Some ==> {
            let a = group_need(g)->Some_0;
            let b = group_need(g2)->Some_0;
            &&& b.cpu_mhz == a.cpu_mhz + t.resources.cpu_mhz
            &&& b.memory_mb == a.memory_mb + t.resources.memory_mb
            &&& b.network_mbps == a.network_mbps + t.resources.network_mbps
        },
{
    assert(g2.tasks@.drop_last() =~= g.tasks@);
    let d = demand_sum(g.tasks@);
    let d2 = demand_sum(g2.tasks@);
    assert(d2 == (d.0 + t.resources.cpu_mhz, d.1 + t.resources.memory_mb, d.2 + t.resources.network_mbps));
    if group_need(g) is Some && group_need(g2) is Some {
        let a = group_need(g)->Some_0;
        let b = group_need(g2)->Some_0;
        assert(fits_i32(d.0) && fits_i32(d.1) && fits_i32(d.2));
        assert(fits_i32(d2.0) && fits_i32(d2.1) && fits_i32(d2.2));
        assert(a.cpu_mhz == d.0 && a.memory_mb == d.1 && a.network_mbps == d.2);
        assert(b.cpu_mhz == d2.0 && b.memory_mb == d2.1 && b.network_mbps == d2.2);
    }
    if g.tasks@ == seq![t] {
        assert(g.tasks@.drop_last() =~= Seq::<Task>::empty());
        assert(g.tasks@.last() == t);
        assert(demand_sum(Seq::<Task>::empty()) == (0int, 0int, 0int));
        assert(d == (t.resources.cpu_mhz as int, t.resources.memory_mb as int, t.resources.network_mbps as int));
        assert(group_need(g) == Some(t.resources));
    }
}

/// Whether `v` fits in an `i32`.
pub open spec fn fits_i32(v: int) -> bool {
    i32::MIN <= v && v <= i32::MAX
}

/// A group's summed demand as resources, when every component fits `i32`
/// (a group whose demand does not is never placed).
pub open spec fn group_need(g: TaskGroup) -> Option<Resources> {
    let d = demand_sum(g.tasks@);
    if fits_i32(d.0) && fits_i32(d.1) && fits_i32(d.2) {
        Some(Resources { cpu_mhz: d.0 as i32, memory_mb: d.1 as i32, network_mbps: d.2 as i32 })
    } else {
        None
    }
}

/// What live allocations on the node with id `id` hold: (cpu, memory, network).
pub open spec fn load_on(allocs: Seq<Allocation>, id: Seq<char>) -> (int, int, int)
    decreases allocs.len(),
{
    if allocs.len() == 0 {
        (0, 0, 0)
    } else {
        let d = load_on(allocs.drop_last(), id);
        let a = allocs.last();
        if is_live(a.client_status) && a.node_id@ == id {
            (d.0 + a.resources.cpu_mhz, d.1 + a.resources.memory_mb, d.2 + a.resources.network_mbps)
        } else {
            d
        }
    }
}

/// The starting rooms: every eligible node among `nodes[0..k)`, in order,
/// with its advertised resources minus the live load on it.
pub open spec fn rooms_from(nodes: Seq<Node>, allocs: Seq<Allocation>, k: int) -> Seq<Room>
    decreases k,
{
    if k <= 0 || k > nodes.len() {
        Seq::empty()
    } else {
        let prev = rooms_from(nodes, allocs, k - 1);
        let n = nodes[k - 1];
        if node_ready(n) {
            let l = load_on(allocs, n.id@);
            prev.push(
                Room {
                    node: k - 1,
                    cpu: n.resources.cpu_mhz - l.0,
                    mem: n.resources.memory_mb - l.1,
                    net: n.resources.network_mbps - l.2,
                },
            )
        } else {
            prev
        }
    }
}

/// The starting rooms for a cluster whose nodes and allocations are these.
pub open spec fn initial_rooms(nodes: Seq<Node>, allocs: Seq<Allocation>) -> Seq<Room> {
    rooms_from(nodes, allocs, nodes.len() as int)
}

/// Whether `r` has room for `need` in every resource.
pub open spec fn room_fits(r: Room, need: Resources) -> bool {
    r.cpu >= need.cpu_mhz && r.mem >= need.memory_mb && r.net >= need.network_mbps
}

/// Whether a node satisfies every constraint of `g`.
pub open spec fn meets_constraints(n: Node, g: TaskGroup) -> bool {
    forall|i: int| 0 <= i < g.constraints@.len() ==> rule_holds(
        n.attributes.pairs(),
        (#[trigger] g.constraints@[i]).left@,
        g.constraints@[i].right@,
        g.constraints@[i].operand@,
    )
}

/// Whether room `i` may take one instance of `g`.
pub open spec fn feasible(nodes: Seq<Node>, rs: Seq<Room>, i: int, g: TaskGroup, need: Resources) -> bool {
    &&& 0 <= i < rs.len()
    &&& 0 <= rs[i].node < nodes.len()
    &&& room_fits(rs[i], need)
    &&& meets_constraints(nodes[rs[i].node], g)
}

/// First feasible room from position `k` on.
pub open spec fn first_feasible(nodes: Seq<Node>, rs: Seq<Room>, g: TaskGroup, need: Resources, k: int) -> Option<int>
    decreases rs.len() - k,
{
    if k < 0 || k >= rs.len() {
        None
    } else if feasible(nodes, rs, k, g, need) {
        Some(k)
    } else {
        first_feasible(nodes, rs, g, need, k + 1)
    }
}

/// The rooms after reserving `need` on room `i`.
pub open spec fn reserve(rs: Seq<Room>, i: int, need: Resources) -> Seq<Room> {
    rs.update(
        i,
        Room {
            node: rs[i].node,
            cpu: rs[i].cpu - need.cpu_mhz,
            mem: rs[i].mem - need.memory_mb,
            net: rs[i].net - need.network_mbps,
        },
    )
}

/// First-fit placement of up to `k` more instances of `g`: the rooms chosen,
/// appended to `acc`, and the rooms afterwards.
pub open spec fn first_fit(
    nodes: Seq<Node>,
    rs: Seq<Room>,
    g: TaskGroup,
    need: Resources,
    k: nat,
    acc: Seq<int>,
) -> (Seq<int>, Seq<Room>)
    decreases k,
{
    if k == 0 {
        (acc, rs)
    } else {
        match first_feasible(nodes, rs, g, need, 0) {
            None => (acc, rs),
            Some(i) => first_fit(nodes, reserve(rs, i, need), g, need, (k - 1) as nat, acc.push(i)),
        }
    }
}

/// Whether a group carries soft preferences (affinities or spreads).
pub open spec fn has_preferences(g: TaskGroup) -> bool {
    g.affinities@.len() > 0 || g.spreads@.len() > 0
}

/// Whether no group carries soft preferences.
pub open spec fn all_plain(groups: Seq<TaskGroup>) -> bool {
    forall|g: int| 0 <= g < groups.len() ==> !has_preferences(#[trigger] groups[g])
}

/// How many instances of a group are wanted (a negative count wants none).
pub open spec fn wanted(g: TaskGroup) -> nat {
    if g.count > 0 {
        g.count as nat
    } else {
        0
    }
}

/// Id of the `i`-th allocation a plan for evaluation `eval_id` creates.
pub open spec fn alloc_id(eval_id: Seq<char>, i: nat) -> Seq<char> {
    eval_id + "-"@ + dec_digits(i)
}

/// The allocation for one placement.
pub open spec fn placement_matches(a: Allocation, eval: Evaluation, i: nat, job: Job, g: TaskGroup, need: Resources, node: Node) -> bool {
    &&& a.id@ == alloc_id(eval.id@, i)
    &&& a.eval_id@ == eval.id@
    &&& a.node_id@ == node.id@
    &&& a.job_id@ == job.name@
    &&& a.task_group@ == g.name@
    &&& a.desired_status == DesiredStatus::Run
    &&& a.client_status == ClientStatus::Pending
    &&& a.resources == need
}

/// First-fit plan for groups `gi..`: (group index, room index) of every
/// placement, appended to `acc`, in order.
pub open spec fn plan_choices(
    nodes: Seq<Node>,
    rs: Seq<Room>,
    groups: Seq<TaskGroup>,
    gi: int,
    acc: Seq<(int, int)>,
) -> Seq<(int, int)>
    decreases groups.len() - gi,
{
    if gi < 0 || gi >= groups.len() {
        acc
    } else {
        let g = groups[gi];
        match group_need(g) {
            None => plan_choices(nodes, rs, groups, gi + 1, acc),
            Some(need) => {
                let (chosen, after) = first_fit(nodes, rs, g, need, wanted(g), Seq::empty());
                plan_choices(nodes, after, groups, gi + 1, acc + chosen.map_values(|s: int| (gi, s)))
            },
        }
    }
}

/// The job an evaluation concerns.
pub open spec fn eval_job(eval: Evaluation, state: StateStore) -> Option<Job> {
    lookup(state.model().jobs, eval.job_id@)
}

/// The need of group `g` of `groups` (zero when it has none).
pub open spec fn need_of(groups: Seq<TaskGroup>, g: int) -> Resources {
    match group_need(groups[g]) {
        Some(n) => n,
        None => Resources { cpu_mhz: 0, memory_mb: 0, network_mbps: 0 },
    }
}

/// Resources the placements `cs` (group, room) reserve on room `s`.
pub open spec fn used(cs: Seq<(int, int)>, groups: Seq<TaskGroup>, s: int) -> (int, int, int)
    decreases cs.len(),
{
    if cs.len() == 0 {
        (0, 0, 0)
    } else {
        let u = used(cs.drop_last(), groups, s);
        let c = cs.last();
        if c.1 == s {
            let n = need_of(groups, c.0);
            (u.0 + n.cpu_mhz, u.1 + n.memory_mb, u.2 + n.network_mbps)
        } else {
            u
        }
    }
}

/// A starting room less what has been reserved on it.
pub open spec fn remaining(r: Room, u: (int, int, int)) -> Room {
    Room { node: r.node, cpu: r.cpu - u.0, mem: r.mem - u.1, net: r.net - u.2 }
}

/// Number of placements in `cs` for group `g`.
pub open spec fn placed_count(cs: Seq<(int, int)>, g: int) -> nat
    decreases cs.len(),
{
    if cs.len() == 0 {
        0
    } else {
        placed_count(cs.drop_last(), g) + if cs.last().0 == g {
            1nat
        } else {
            0nat
        }
    }
}

/// Whether placement `p` of `cs` is sound: its group has a demand, the
/// allocation is the one for that placement, and the node satisfies the
/// group's constraints and, at that moment, had room for the demand.
pub open spec fn placement_ok(
    eval: Evaluation,
    job: Job,
    nodes: Seq<Node>,
    rooms0: Seq<Room>,
    cs: Seq<(int, int)>,
    plan: Seq<Allocation>,
    p: int,
) -> bool {
    let groups = job.task_groups@;
    let g = cs[p].0;
    let s = cs[p].1;
    &&& 0 <= g < groups.len()
    &&& 0 <= s < rooms0.len()
    &&& 0 <= rooms0[s].node < nodes.len()
    &&& group_need(groups[g]) == Some(need_of(groups, g))
    &&& placement_matches(plan[p], eval, p as nat, job, groups[g], need_of(groups, g), nodes[rooms0[s].node])
    &&& meets_constraints(nodes[rooms0[s].node], groups[g])
    &&& room_fits(remaining(rooms0[s], used(cs.take(p), groups, s)), need_of(groups, g))
}

/// Whether `plan` is what the placements `cs` (group, room) describe: every
/// placement is sound and no group gets more instances than it wants.
pub open spec fn valid_plan(
    eval: Evaluation,
    job: Job,
    nodes: Seq<Node>,
    rooms0: Seq<Room>,
    cs: Seq<(int, int)>,
    plan: Seq<Allocation>,
) -> bool {
    &&& cs.len() == plan.len()
    &&& forall|p: int| 0 <= p < cs.len() ==> #[trigger] placement_ok(eval, job, nodes, rooms0, cs, plan, p)
    &&& forall|g: int| 0 <= g < job.task_groups@.len() ==> #[trigger] placed_count(cs, g) <= wanted(job.task_groups@[g])
}

/// The rooms once the placements `cs` are reserved on `rooms0`.
pub open spec fn rooms_after(rooms0: Seq<Room>, cs: Seq<(int, int)>, groups: Seq<TaskGroup>) -> Seq<Room> {
    Seq::new(rooms0.len(), |s: int| remaining(rooms0[s], used(cs, groups, s)))
}

/// For the first `k` groups: the placements come in group order, `ends[g]`
/// being how many there are once group `g` is done, and a group with a
/// demand that got fewer instances than it wants stopped because no room
/// could take one more.
pub open spec fn complete_upto(
    nodes: Seq<Node>,
    rooms0: Seq<Room>,
    groups: Seq<TaskGroup>,
    cs: Seq<(int, int)>,
    ends: Seq<int>,
    k: int,
) -> bool {
    &&& ends.len() == k
    &&& forall|g: int| 0 <= g < k ==> 0 <= #[trigger] ends[g] <= cs.len()
    &&& forall|g: int, p: int| 0 <= g < k && 0 <= p < cs.len() ==> (p < #[trigger] ends[g] <==> (#[trigger] cs[p]).0 <= g)
    &&& forall|g: int|
        0 <= g < k && group_need(groups[g]) is Some && #[trigger] placed_count(cs, g) < wanted(groups[g]) ==> forall|s: int|
            !feasible(nodes, rooms_after(rooms0, cs.take(ends[g]), groups), s, groups[g], need_of(groups, g))
}

/// Whether every group was placed greedily: in group order, each stopping
/// only once it has all the instances it wants or no room can take another.
pub open spec fn greedy_complete(
    nodes: Seq<Node>,
    rooms0: Seq<Room>,
    groups: Seq<TaskGroup>,
    cs: Seq<(int, int)>,
    ends: Seq<int>,
) -> bool {
    complete_upto(nodes, rooms0, groups, cs, ends, groups.len() as int)
}

/// Placements after position `k` that are not on room `s` reserve nothing
/// more there.
proof fn lemma_used_tail(cs: Seq<(int, int)>, groups: Seq<TaskGroup>, s: int, k: int)
    requires
        0 <= k <= cs.len(),
        forall|q: int| k <= q < cs.len() ==> (#[trigger] cs[q]).1 != s,
    ensures
        used(cs, groups, s) == used(cs.take(k), groups, s),
    decreases cs.len() - k,
{
    if k < cs.len() {
        lemma_used_tail(cs, groups, s, k + 1);
        assert(cs.take(k + 1).drop_last() =~= cs.take(k));
        assert(cs.take(k + 1).last() == cs[k]);
    } else {
        assert(cs.take(k) =~= cs);
    }
}

/// The last placement before position `k` on room `s`.
proof fn lemma_last_on(cs: Seq<(int, int)>, s: int, k: int) -> (p: int)
    requires
        0 <= k <= cs.len(),
        exists|q: int| 0 <= q < k && (#[trigger] cs[q]).1 == s,
    ensures
        0 <= p < k,
        cs[p].1 == s,
        forall|q: int| p < q < k ==> (#[trigger] cs[q]).1 != s,
    decreases k,
{
    if cs[k - 1].1 == s {
        k - 1
    } else {
        let w = choose|q: int| 0 <= q < k && (#[trigger] cs[q]).1 == s;
        assert(w < k - 1);
        lemma_last_on(cs, s, k - 1)
    }
}

/// A plan never takes a node past its capacity: once every placement of a
/// valid plan is reserved, a room that received any still has nothing
/// negative left in any resource.
pub proof fn law_plan_within_capacity(
    eval: Evaluation,
    job: Job,
    nodes: Seq<Node>,
    rooms0: Seq<Room>,
    cs: Seq<(int, int)>,
    plan: Seq<Allocation>,
    s: int,
)
    requires
        valid_plan(eval, job, nodes, rooms0, cs, plan),
        exists|q: int| 0 <= q < cs.len() && (#[trigger] cs[q]).1 == s,
    ensures
        ({
            let left = remaining(rooms0[s], used(cs, job.task_groups@, s));
            left.cpu >= 0 && left.mem >= 0 && left.net >= 0
        }),
{
    let groups = job.task_groups@;
    let p = lemma_last_on(cs, s, cs.len() as int);
    lemma_used_tail(cs, groups, s, p + 1);
    assert(placement_ok(eval, job, nodes, rooms0, cs, plan, p));
    assert(cs.take(p + 1).drop_last() =~= cs.take(p));
    assert(cs.take(p + 1).last() == cs[p]);
}

/// What the allocations of `plan` on the node with id `id` reserve:
/// (cpu, memory, network).
pub open spec fn plan_load(plan: Seq<Allocation>, id: Seq<char>) -> (int, int, int)
    decreases plan.len(),
{
    if plan.len() == 0 {
        (0, 0, 0)
    } else {
        let d = plan_load(plan.drop_last(), id);
        let a = plan.last();
        if a.node_id@ == id {
            (d.0 + a.resources.cpu_mhz, d.1 + a.resources.memory_mb, d.2 + a.resources.network_mbps)
        } else {
            d
        }
    }
}

/// Starting rooms follow the node order, one room per node at most.
proof fn lemma_rooms_increasing(nodes: Seq<Node>, allocs: Seq<Allocation>, k: int)
    requires
        0 <= k <= nodes.len(),
    ensures
        forall|a: int, b: int|
            0 <= a < b < rooms_from(nodes, allocs, k).len() ==> (#[trigger] rooms_from(nodes, allocs, k)[a]).node
                < (#[trigger] rooms_from(nodes, allocs, k)[b]).node,
    decreases k,
{
    if k > 0 {
        lemma_rooms_increasing(nodes, allocs, k - 1);
        lemma_rooms_from(nodes, allocs, k - 1);
        let prev = rooms_from(nodes, allocs, k - 1);
        let cur = rooms_from(nodes, allocs, k);
        assert forall|a: int, b: int| 0 <= a < b < cur.len() implies (#[trigger] cur[a]).node < (#[trigger] cur[b]).node by {
            assert(cur[a] == prev[a]);
            if b < prev.len() {
                assert(cur[b] == prev[b]);
            } else {
                assert(cur[b].node == k - 1);
                assert(prev[a] == rooms_from(nodes, allocs, k - 1)[a]);
            }
        }
    }
}

/// The placements `cs` on room `s` are exactly the allocations of `plan` on
/// the node with id `id`, each reserving its group's need, so the plan's load
/// on that node is what the placements reserve on the room.
proof fn lemma_plan_load_used(plan: Seq<Allocation>, cs: Seq<(int, int)>, groups: Seq<TaskGroup>, s: int, id: Seq<char>, q: int)
    requires
        cs.len() == plan.len(),
        0 <= q <= cs.len(),
        forall|p: int| 0 <= p < cs.len() ==> ((#[trigger] plan[p]).node_id@ == id <==> cs[p].1 == s),
        forall|p: int| 0 <= p < cs.len() ==> (#[trigger] plan[p]).resources == need_of(groups, cs[p].0),
    ensures
        plan_load(plan.take(q), id) == used(cs.take(q), groups, s),
    decreases q,
{
    if q > 0 {
        lemma_plan_load_used(plan, cs, groups, s, id, q - 1);
        assert(plan.take(q).drop_last() =~= plan.take(q - 1));
        assert(cs.take(q).drop_last() =~= cs.take(q - 1));
        assert(plan.take(q).last() == plan[q - 1]);
        assert(cs.take(q).last() == cs[q - 1]);
    }
}

/// A plan never oversubscribes a node: on every node of the store that
/// receives an allocation, the live allocations already there plus the
/// plan's allocations there fit in the node's resources.
pub proof fn law_node_never_oversubscribed(eval: Evaluation, state: StateStore, plan: Seq<Allocation>, n: Node)
    requires
        plan_ok(eval, state, plan),
        model_wf(state.model()),
        store_keyed(state.model()),
        lookup(state.model().nodes, n.id@) == Some(n),
        exists|p: int| 0 <= p < plan.len() && (#[trigger] plan[p]).node_id@ == n.id@,
    ensures
        load_on(values(state.model().allocs), n.id@).0 + plan_load(plan, n.id@).0 <= n.resources.cpu_mhz,
        load_on(values(state.model().allocs), n.id@).1 + plan_load(plan, n.id@).1 <= n.resources.memory_mb,
        load_on(values(state.model().allocs), n.id@).2 + plan_load(plan, n.id@).2 <= n.resources.network_mbps,
{
    let m = state.model();
    let job = eval_job(eval, state)->Some_0;
    let groups = job.task_groups@;
    let ns = cluster_nodes(state);
    let all = values(m.allocs);
    let rooms0 = cluster_rooms(state);
    let (cs, ends) = choose|cs: Seq<(int, int)>, ends: Seq<int>|
        valid_plan(eval, job, ns, rooms0, cs, plan) && #[trigger] greedy_complete(ns, rooms0, groups, cs, ends);
    let i = key_index(m.nodes, n.id@);
    lemma_key_index(m.nodes, i);
    assert(ns[i] == n);
    lemma_rooms_from(ns, all, ns.len() as int);
    lemma_rooms_increasing(ns, all, ns.len() as int);
    let p0 = choose|p: int| 0 <= p < plan.len() && (#[trigger] plan[p]).node_id@ == n.id@;
    assert(placement_ok(eval, job, ns, rooms0, cs, plan, p0));
    let s0 = cs[p0].1;
    let k0 = rooms0[s0].node;
    assert(m.nodes[k0].0 == (node_key())(m.nodes[k0].1));
    assert(m.nodes[i].0 == (node_key())(m.nodes[i].1));
    assert(k0 == i);
    assert forall|p: int| 0 <= p < cs.len() implies ((#[trigger] plan[p]).node_id@ == n.id@ <==> cs[p].1 == s0) by {
        assert(placement_ok(eval, job, ns, rooms0, cs, plan, p));
        let k = rooms0[cs[p].1].node;
        assert(m.nodes[k].0 == (node_key())(m.nodes[k].1));
        if plan[p].node_id@ == n.id@ {
            assert(k == i);
            if cs[p].1 < s0 {
                assert(rooms0[cs[p].1].node < rooms0[s0].node);
            } else if cs[p].1 > s0 {
                assert(rooms0[s0].node < rooms0[cs[p].1].node);
            }
        }
    }
    assert forall|p: int| 0 <= p < cs.len() implies (#[trigger] plan[p]).resources == need_of(groups, cs[p].0) by {
        assert(placement_ok(eval, job, ns, rooms0, cs, plan, p));
    }
    lemma_plan_load_used(plan, cs, groups, s0, n.id@, cs.len() as int);
    assert(plan.take(plan.len() as int) =~= plan);
    assert(cs.take(cs.len() as int) =~= cs);
    assert(cs[p0].1 == s0);
    law_plan_within_capacity(eval, job, ns, rooms0, cs, plan, s0);
    assert(rooms0[s0] == initial_rooms(ns, all)[s0]);
}

/// Whether `ranker` gives each candidate one key at most.
pub open spec fn ranker_functional<R: Ranker>(ranker: R) -> bool {
    forall|node: Node, free: Slot, need: Resources, g: TaskGroup, st: StateStore, k1: u64, k2: u64|
        #![trigger call_ensures(R::rank, (&ranker, &node, &free, &need, &g, &st), k1), call_ensures(R::rank, (&ranker, &node, &free, &need, &g, &st), k2)]
        call_ensures(R::rank, (&ranker, &node, &free, &need, &g, &st), k1) && call_ensures(
            R::rank,
            (&ranker, &node, &free, &need, &g, &st),
            k2,
        ) ==> k1 == k2
}

/// [`FirstFit`] gives every candidate the one key 0, so the agreement of
/// plans holds for it.
pub proof fn lemma_first_fit_functional()
    ensures
        ranker_functional(FirstFit),
{
}

/// Whether two allocations agree in every field.
pub open spec fn same_alloc(a: Allocation, b: Allocation) -> bool {
    &&& a.id@ == b.id@
    &&& a.eval_id@ == b.eval_id@
    &&& a.node_id@ == b.node_id@
    &&& a.job_id@ == b.job_id@
    &&& a.task_group@ == b.task_group@
    &&& a.desired_status == b.desired_status
    &&& a.client_status == b.client_status
    &&& a.resources == b.resources
}

/// Placements of a greedy plan come in group order.
proof fn lemma_groups_sorted(
    eval: Evaluation,
    job: Job,
    nodes: Seq<Node>,
    rooms0: Seq<Room>,
    cs: Seq<(int, int)>,
    plan: Seq<Allocation>,
    ends: Seq<int>,
    q: int,
    r: int,
)
    requires
        valid_plan(eval, job, nodes, rooms0, cs, plan),
        greedy_complete(nodes, rooms0, job.task_groups@, cs, ends),
        0 <= q < r < cs.len(),
    ensures
        cs[q].0 <= cs[r].0,
{
    assert(placement_ok(eval, job, nodes, rooms0, cs, plan, r));
    let g = cs[r].0;
    assert(r < ends[g] <==> cs[r].0 <= g);
    assert(q < ends[g] <==> cs[q].0 <= g);
}

/// A count of placements for `g` over a prefix.
proof fn lemma_placed_prefix(cs: Seq<(int, int)>, g: int, p: int, q: int)
    requires
        0 <= p <= q <= cs.len(),
    ensures
        placed_count(cs.take(p), g) <= placed_count(cs.take(q), g),
        (forall|x: int| p <= x < q ==> (#[trigger] cs[x]).0 != g) ==> placed_count(cs.take(p), g) == placed_count(
            cs.take(q),
            g,
        ),
        p < q && cs[p].0 == g ==> placed_count(cs.take(p), g) < placed_count(cs.take(q), g),
    decreases q - p,
{
    if p < q {
        lemma_placed_prefix(cs, g, p, q - 1);
        assert(cs.take(q).drop_last() =~= cs.take(q - 1));
        assert(cs.take(q).last() == cs[q - 1]);
        if p < q - 1 && cs[p].0 == g {
            lemma_placed_prefix(cs, g, p + 1, q - 1);
            assert(cs.take(p + 1).drop_last() =~= cs.take(p));
            assert(cs.take(p + 1).last() == cs[p]);
        }
    }
}

/// When two greedy plans agree on their first `p` placements and the second
/// places group `g` at `p`, the first cannot have put a later group (or
/// nothing) at `p`.
proof fn lemma_no_skip<R: Ranker>(
    eval: Evaluation,
    job: Job,
    nodes: Seq<Node>,
    rooms0: Seq<Room>,
    cs1: Seq<(int, int)>,
    plan1: Seq<Allocation>,
    e1: Seq<int>,
    cs2: Seq<(int, int)>,
    plan2: Seq<Allocation>,
    e2: Seq<int>,
    p: int,
)
    requires
        valid_plan(eval, job, nodes, rooms0, cs1, plan1),
        greedy_complete(nodes, rooms0, job.task_groups@, cs1, e1),
        valid_plan(eval, job, nodes, rooms0, cs2, plan2),
        greedy_complete(nodes, rooms0, job.task_groups@, cs2, e2),
        0 <= p <= cs1.len(),
        p < cs2.len(),
        cs1.take(p) == cs2.take(p),
    ensures
        p < cs1.len() && cs1[p].0 <= cs2[p].0,
{
    let groups = job.task_groups@;
    let g2 = cs2[p].0;
    assert(placement_ok(eval, job, nodes, rooms0, cs2, plan2, p));
    if p == cs1.len() || cs1[p].0 > g2 {
        // Every placement of `cs1` from `p` on belongs to a later group.
        assert forall|x: int| p <= x < cs1.len() implies (#[trigger] cs1[x]).0 != g2 by {
            if p < x {
                lemma_groups_sorted(eval, job, nodes, rooms0, cs1, plan1, e1, p, x);
            }
        }
        lemma_placed_prefix(cs1, g2, p, cs1.len() as int);
        lemma_placed_prefix(cs2, g2, p, cs2.len() as int);
        assert(cs1.take(cs1.len() as int) =~= cs1);
        assert(cs2.take(cs2.len() as int) =~= cs2);
        assert(placed_count(cs1, g2) < placed_count(cs2, g2));
        assert(placed_count(cs2, g2) <= wanted(groups[g2]));
        // The first plan's group `g2` ends exactly at `p`.
        assert forall|q: int| 0 <= q < p implies q < e1[g2] && (#[trigger] cs1[q]).0 <= g2 by {
            assert(cs1[q] == cs1.take(p)[q]);
            assert(cs2[q] == cs2.take(p)[q]);
            lemma_groups_sorted(eval, job, nodes, rooms0, cs2, plan2, e2, q, p);
            assert(cs1[q].0 <= g2);
        }
        if p < cs1.len() {
            assert(!(p < e1[g2]));
        }
        assert(e1[g2] == p);
        assert(rooms_after(rooms0, cs2.take(p), groups)[cs2[p].1] == remaining(
            rooms0[cs2[p].1],
            used(cs2.take(p), groups, cs2[p].1),
        ));
        assert(feasible(nodes, rooms_after(rooms0, cs1.take(e1[g2]), groups), cs2[p].1, groups[g2], need_of(groups, g2)));
    }
}

/// Two plans that both follow the placement rules with a ranker that gives
/// one key at most make the same choices.
proof fn lemma_choices_unique<R: Ranker>(
    ranker: R,
    eval: Evaluation,
    state: StateStore,
    job: Job,
    nodes: Seq<Node>,
    rooms0: Seq<Room>,
    cs1: Seq<(int, int)>,
    plan1: Seq<Allocation>,
    e1: Seq<int>,
    cs2: Seq<(int, int)>,
    plan2: Seq<Allocation>,
    e2: Seq<int>,
    p: int,
)
    requires
        ranker_functional(ranker),
        valid_plan(eval, job, nodes, rooms0, cs1, plan1),
        greedy_complete(nodes, rooms0, job.task_groups@, cs1, e1),
        ranked_choices(ranker, state, nodes, rooms0, job.task_groups@, cs1),
        valid_plan(eval, job, nodes, rooms0, cs2, plan2),
        greedy_complete(nodes, rooms0, job.task_groups@, cs2, e2),
        ranked_choices(ranker, state, nodes, rooms0, job.task_groups@, cs2),
        0 <= p <= cs1.len(),
        p <= cs2.len(),
    ensures
        cs1.take(p) == cs2.take(p),
    decreases p,
{
    if p > 0 {
        lemma_choices_unique(ranker, eval, state, job, nodes, rooms0, cs1, plan1, e1, cs2, plan2, e2, p - 1);
        let q = p - 1;
        let groups = job.task_groups@;
        lemma_no_skip::<R>(eval, job, nodes, rooms0, cs1, plan1, e1, cs2, plan2, e2, q);
        lemma_no_skip::<R>(eval, job, nodes, rooms0, cs2, plan2, e2, cs1, plan1, e1, q);
        let g = cs1[q].0;
        assert(cs2[q].0 == g);
        let rs = rooms_after(rooms0, cs1.take(q), groups);
        assert(rooms_after(rooms0, cs2.take(q), groups) == rs);
        assert(choice_ok(ranker, state, nodes, rs, groups, cs1[q]));
        assert(choice_ok(ranker, state, nodes, rs, groups, cs2[q]));
        let s1 = cs1[q].1;
        let s2 = cs2[q].1;
        if has_preferences(groups[g]) && s1 != s2 {
            let need = need_of(groups, g);
            let k1 = choose|keys: Seq<u64>|
                #[trigger] rank_keys(ranker, state, nodes, rs, groups[g], need, keys) && best_ranked(nodes, rs, groups[g], need, keys, s1);
            let k2 = choose|keys: Seq<u64>|
                #[trigger] rank_keys(ranker, state, nodes, rs, groups[g], need, keys) && best_ranked(nodes, rs, groups[g], need, keys, s2);
            assert(k1[s1] == k2[s1]);
            assert(k1[s2] == k2[s2]);
            if s1 < s2 {
                assert(k2[s1] < k2[s2]);
                assert(k1[s2] <= k1[s1]);
            } else {
                assert(k1[s2] < k1[s1]);
                assert(k2[s1] <= k2[s2]);
            }
        }
        assert(cs1[q] == cs2[q]);
        assert(cs1.take(p) =~= cs2.take(q).push(cs2[q]));
        assert(cs2.take(p) =~= cs2.take(q).push(cs2[q]));
    }
}

/// With a ranker that gives each candidate one key at most, processing an
/// evaluation is a function of the state: any two plans that follow the
/// placement rules have the same allocations, field by field.
pub proof fn law_plans_agree<R: Ranker>(ranker: R, eval: Evaluation, state: StateStore, p1: Seq<Allocation>, p2: Seq<Allocation>)
    requires
        ranker_functional(ranker),
        plan_ranked(ranker, eval, state, p1),
        plan_ranked(ranker, eval, state, p2),
    ensures
        p1.len() == p2.len(),
        forall|k: int| 0 <= k < p1.len() ==> same_alloc(#[trigger] p1[k], p2[k]),
{
    match eval_job(eval, state) {
        None => {},
        Some(job) => {
            let nodes = cluster_nodes(state);
            let rooms0 = cluster_rooms(state);
            let groups = job.task_groups@;
            let (cs1, e1) = choose|cs: Seq<(int, int)>, ends: Seq<int>|
                valid_plan(eval, job, nodes, rooms0, cs, p1) && #[trigger] greedy_complete(nodes, rooms0, groups, cs, ends)
                    && ranked_choices(ranker, state, nodes, rooms0, groups, cs);
            let (cs2, e2) = choose|cs: Seq<(int, int)>, ends: Seq<int>|
                valid_plan(eval, job, nodes, rooms0, cs, p2) && #[trigger] greedy_complete(nodes, rooms0, groups, cs, ends)
                    && ranked_choices(ranker, state, nodes, rooms0, groups, cs);
            let m = if cs1.len() < cs2.len() { cs1.len() as int } else { cs2.len() as int };
            lemma_choices_unique(ranker, eval, state, job, nodes, rooms0, cs1, p1, e1, cs2, p2, e2, m);
            if cs1.len() < cs2.len() {
                lemma_no_skip::<R>(eval, job, nodes, rooms0, cs1, p1, e1, cs2, p2, e2, m);
            } else if cs2.len() < cs1.len() {
                lemma_no_skip::<R>(eval, job, nodes, rooms0, cs2, p2, e2, cs1, p1, e1, m);
            }
            assert(cs1 =~= cs1.take(m));
            assert(cs2 =~= cs2.take(m));
            assert forall|k: int| 0 <= k < p1.len() implies same_alloc(#[trigger] p1[k], p2[k]) by {
                assert(placement_ok(eval, job, nodes, rooms0, cs1, p1, k));
                assert(placement_ok(eval, job, nodes, rooms0, cs2, p2, k));
            }
        },
    }
}

/// Every starting room is an eligible node, with its advertised resources
/// less the live load on it.
pub proof fn lemma_rooms_from(nodes: Seq<Node>, allocs: Seq<Allocation>, k: int)
    requires
        0 <= k <= nodes.len(),
    ensures
        forall|s: int| 0 <= s < rooms_from(nodes, allocs, k).len() ==> {
            let r = #[trigger] rooms_from(nodes, allocs, k)[s];
            let n = nodes[r.node];
            &&& 0 <= r.node < k
            &&& node_ready(n)
            &&& r.cpu == n.resources.cpu_mhz - load_on(allocs, n.id@).0
            &&& r.mem == n.resources.memory_mb - load_on(allocs, n.id@).1
            &&& r.net == n.resources.network_mbps - load_on(allocs, n.id@).2
        },
    decreases k,
{
    if k > 0 {
        lemma_rooms_from(nodes, allocs, k - 1);
        let prev = rooms_from(nodes, allocs, k - 1);
        let cur = rooms_from(nodes, allocs, k);
        assert forall|s: int| 0 <= s < cur.len() implies {
            let r = #[trigger] cur[s];
            let n = nodes[r.node];
            &&& 0 <= r.node < k
            &&& node_ready(n)
            &&& r.cpu == n.resources.cpu_mhz - load_on(allocs, n.id@).0
            &&& r.mem == n.resources.memory_mb - load_on(allocs, n.id@).1
            &&& r.net == n.resources.network_mbps - load_on(allocs, n.id@).2
        } by {
            if s < prev.len() {
                assert(cur[s] == prev[s]);
            }
        }
    }
}

/// Summed demand of a group's tasks, when it fits the resource type.
pub fn group_demand(group: &TaskGroup) -> (r: Option<Resources>)
    ensures
        r == group_need(*group),
{
    let mut cpu: i128 = 0;
    let mut mem: i128 = 0;
    let mut net: i128 = 0;
    let mut i: usize = 0;
    while i < group.tasks.len()
        invariant
            i <= group.tasks@.len(),
            (cpu as int, mem as int, net as int) == demand_sum(group.tasks@.subrange(0, i as int)),
            -0x8000_0000 * i <= cpu <= 0x7fff_ffff * i,
            -0x8000_0000 * i <= mem <= 0x7fff_ffff * i,
            -0x8000_0000 * i <= net <= 0x7fff_ffff * i,
        decreases group.tasks@.len() - i,
    {
        let r = group.tasks[i].resources;
        assert(group.tasks@.subrange(0, i + 1).drop_last() =~= group.tasks@.subrange(0, i as int));
        proof {
            assert(i < 0x1_0000_0000_0000_0000);
            assert(-0x8000_0000 * (i + 1) >= -0x8000_0000 * 0x1_0000_0000_0000_0000) by (nonlinear_arith)
                requires
                    i < 0x1_0000_0000_0000_0000,
            ;
            assert(0x7fff_ffff * (i + 1) <= 0x7fff_ffff * 0x1_0000_0000_0000_0000) by (nonlinear_arith)
                requires
                    i < 0x1_0000_0000_0000_0000,
            ;
        }
        cpu = cpu + r.cpu_mhz as i128;
        mem = mem + r.memory_mb as i128;
        net = net + r.network_mbps as i128;
        i = i + 1;
    }
    assert(group.tasks@.subrange(0, i as int) =~= group.tasks@);
    if -0x8000_0000 <= cpu && cpu <= 0x7fff_ffff && -0x8000_0000 <= mem && mem <= 0x7fff_ffff && -0x8000_0000 <= net
        && net <= 0x7fff_ffff {
        Some(Resources { cpu_mhz: cpu as i32, memory_mb: mem as i32, network_mbps: net as i32 })
    } else {
        None
    }
}

/// Whether an allocation in this status reserves capacity.
pub fn status_is_live(s: ClientStatus) -> (r: bool)
    ensures
        r == is_live(s),
{
    match s {
        ClientStatus::Pending | ClientStatus::Running => true,
        _ => false,
    }
}

/// What live allocations on the node with id `id` hold.
fn load_of(allocs: &Vec<&Allocation>, id: &str) -> (r: (i128, i128, i128))
    ensures
        (r.0 as int, r.1 as int, r.2 as int) == load_on(derefs(allocs@), id@),
        -0x8000_0000 * 0x1_0000_0000_0000_0000 <= r.0 <= 0x7fff_ffff * 0x1_0000_0000_0000_0000,
        -0x8000_0000 * 0x1_0000_0000_0000_0000 <= r.1 <= 0x7fff_ffff * 0x1_0000_0000_0000_0000,
        -0x8000_0000 * 0x1_0000_0000_0000_0000 <= r.2 <= 0x7fff_ffff * 0x1_0000_0000_0000_0000,
{
    let ghost all = derefs(allocs@);
    let mut cpu: i128 = 0;
    let mut mem: i128 = 0;
    let mut net: i128 = 0;
    let mut i: usize = 0;
    while i < allocs.len()
        invariant
            all == derefs(allocs@),
            i <= allocs@.len(),
            (cpu as int, mem as int, net as int) == load_on(all.subrange(0, i as int), id@),
            -0x8000_0000 * i <= cpu <= 0x7fff_ffff * i,
            -0x8000_0000 * i <= mem <= 0x7fff_ffff * i,
            -0x8000_0000 * i <= net <= 0x7fff_ffff * i,
        decreases allocs@.len() - i,
    {
        let a = allocs[i];
        assert(all.subrange(0, i + 1).drop_last() =~= all.subrange(0, i as int));
        assert(all.subrange(0, i + 1).last() == *a);
        proof {
            assert(-0x8000_0000 * (i + 1) >= -0x8000_0000 * 0x1_0000_0000_0000_0000) by (nonlinear_arith)
                requires
                    i < 0x1_0000_0000_0000_0000,
            ;
            assert(0x7fff_ffff * (i + 1) <= 0x7fff_ffff * 0x1_0000_0000_0000_0000) by (nonlinear_arith)
                requires
                    i < 0x1_0000_0000_0000_0000,
            ;
        }
        if status_is_live(a.client_status) && crate::text::str_eq(a.node_id.as_str(), id) {
            cpu = cpu + a.resources.cpu_mhz as i128;
            mem = mem + a.resources.memory_mb as i128;
            net = net + a.resources.network_mbps as i128;
        }
        i = i + 1;
    }
    assert(all.subrange(0, i as int) =~= all);
    proof {
        assert(-0x8000_0000 * i >= -0x8000_0000 * 0x1_0000_0000_0000_0000) by (nonlinear_arith)
            requires
                i < 0x1_0000_0000_0000_0000,
        ;
        assert(0x7fff_ffff * i <= 0x7fff_ffff * 0x1_0000_0000_0000_0000) by (nonlinear_arith)
            requires
                i < 0x1_0000_0000_0000_0000,
        ;
    }
    (cpu, mem, net)
}

/// Whether every constraint of `group` holds on `node`.
pub fn node_meets_constraints(node: &Node, group: &TaskGroup) -> (r: bool)
    ensures
        r == meets_constraints(*node, *group),
{
    let mut i: usize = 0;
    while i < group.constraints.len()
        invariant
            i <= group.constraints@.len(),
            forall|j: int| 0 <= j < i ==> rule_holds(
                node.attributes.pairs(),
                (#[trigger] group.constraints@[j]).left@,
                group.constraints@[j].right@,
                group.constraints@[j].operand@,
            ),
        decreases group.constraints@.len() - i,
    {
        if !group.constraints[i].satisfied_by(&node.attributes) {
            return false;
        }
        i = i + 1;
    }
    true
}

/// The starting slots: each eligible node with its free capacity.
fn eligible_slots(nodes: &Vec<&Node>, allocs: &Vec<&Allocation>) -> (r: Vec<Slot>)
    ensures
        rooms(r@) == initial_rooms(derefs(nodes@), derefs(allocs@)),
        forall|s: int| 0 <= s < r@.len() ==> slot_bounded(#[trigger] r@[s], 0),
{
    let ghost ns = derefs(nodes@);
    let mut out: Vec<Slot> = Vec::new();
    let mut k: usize = 0;
    while k < nodes.len()
        invariant
            ns == derefs(nodes@),
            k <= nodes@.len(),
            rooms(out@) == rooms_from(ns, derefs(allocs@), k as int),
            forall|s: int| 0 <= s < out@.len() ==> slot_bounded(#[trigger] out@[s], 0),
        decreases nodes@.len() - k,
    {
        let n = nodes[k];
        if n.is_ready() {
            let l = load_of(allocs, n.id.as_str());
            let slot = Slot {
                node: k,
                cpu: n.resources.cpu_mhz as i128 - l.0,
                mem: n.resources.memory_mb as i128 - l.1,
                net: n.resources.network_mbps as i128 - l.2,
            };
            let ghost before = out@;
            out.push(slot);
            assert(rooms(out@) =~= rooms(before).push(slot@));
        }
        k = k + 1;
    }
    out
}

/// Whether a slot's values stay within what `placed` placements can have
/// moved them to.
spec fn slot_bounded(s: Slot, placed: int) -> bool {
    &&& -0x1_0000_0000_0000_0000_0000_0000 <= s.cpu <= 0x1_0000_0000_0000_0000_0000_0000 + 0x8000_0000 * placed
    &&& -0x1_0000_0000_0000_0000_0000_0000 <= s.mem <= 0x1_0000_0000_0000_0000_0000_0000 + 0x8000_0000 * placed
    &&& -0x1_0000_0000_0000_0000_0000_0000 <= s.net <= 0x1_0000_0000_0000_0000_0000_0000 + 0x8000_0000 * placed
}

/// Whether a slot has room for `need`.
fn fits(s: &Slot, need: &Resources) -> (r: bool)
    ensures
        r == room_fits(s@, *need),
{
    s.cpu >= need.cpu_mhz as i128 && s.mem >= need.memory_mb as i128 && s.net >= need.network_mbps as i128
}

/// Build the allocation for the plan's `index`-th placement.
fn make_alloc(eval: &Evaluation, index: usize, job: &Job, group: &TaskGroup, need: Resources, node: &Node) -> (r: Allocation)
    ensures
        placement_matches(r, *eval, index as nat, *job, *group, need, *node),
{
    proof {
        reveal_strlit("-");
    }
    let mut id = String::from_str(eval.id.as_str());
    id.append("-");
    let digits = u64_to_string(index as u64);
    id.append(digits.as_str());
    Allocation {
        id,
        eval_id: String::from_str(eval.id.as_str()),
        node_id: node.id.clone(),
        job_id: job.name.clone(),
        task_group: group.name.clone(),
        desired_status: DesiredStatus::Run,
        client_status: ClientStatus::Pending,
        resources: need,
    }
}


/// The first feasible slot, as [`first_feasible`] picks it.
fn pick_first(nodes: &Vec<&Node>, slots: &Vec<Slot>, group: &TaskGroup, need: &Resources) -> (r: Option<usize>)
    requires
        forall|s: int| 0 <= s < slots@.len() ==> 0 <= #[trigger] slots@[s].node < nodes@.len(),
    ensures
        match r {
            Some(i) => first_feasible(derefs(nodes@), rooms(slots@), *group, *need, 0) == Some(i as int),
            None => first_feasible(derefs(nodes@), rooms(slots@), *group, *need, 0) is None,
        },
{
    let ghost ns = derefs(nodes@);
    let ghost rs = rooms(slots@);
    let mut j: usize = 0;
    while j < slots.len()
        invariant
            ns == derefs(nodes@),
            rs == rooms(slots@),
            j <= slots@.len(),
            forall|s: int| 0 <= s < slots@.len() ==> 0 <= #[trigger] slots@[s].node < nodes@.len(),
            first_feasible(ns, rs, *group, *need, 0) == first_feasible(ns, rs, *group, *need, j as int),
        decreases slots@.len() - j,
    {
        let s = &slots[j];
        assert(rs[j as int] == s@);
        if fits(s, need) && node_meets_constraints(nodes[s.node], group) {
            assert(feasible(ns, rs, j as int, *group, *need));
            return Some(j);
        }
        j = j + 1;
    }
    None
}

/// The exec slot a room stands for.
pub open spec fn slot_of(r: Room) -> Slot {
    Slot { node: r.node as usize, cpu: r.cpu as i128, mem: r.mem as i128, net: r.net as i128 }
}

/// `keys[k]` is a key `ranker` may give room `k` of `rs`, for every feasible
/// room `k`.
pub open spec fn rank_keys<R: Ranker>(
    ranker: R,
    state: StateStore,
    nodes: Seq<Node>,
    rs: Seq<Room>,
    g: TaskGroup,
    need: Resources,
    keys: Seq<u64>,
) -> bool {
    &&& keys.len() == rs.len()
    &&& forall|k: int|
        #![trigger keys[k]]
        feasible(nodes, rs, k, g, need) ==> call_ensures(
            R::rank,
            (&ranker, &nodes[rs[k].node], &slot_of(rs[k]), &need, &g, &state),
            keys[k],
        )
}

/// Room `c` is feasible and, under `keys`, ranked highest among the feasible
/// rooms, strictly above every earlier one.
pub open spec fn best_ranked(nodes: Seq<Node>, rs: Seq<Room>, g: TaskGroup, need: Resources, keys: Seq<u64>, c: int) -> bool {
    &&& feasible(nodes, rs, c, g, need)
    &&& forall|k: int|
        #![trigger keys[k]]
        feasible(nodes, rs, k, g, need) ==> keys[k] <= keys[c] && (k < c ==> keys[k] < keys[c])
}

/// Room `c` is the one `ranker` ranks highest among the feasible rooms of
/// `rs`, the earliest on ties.
pub open spec fn ranked_pick<R: Ranker>(
    ranker: R,
    state: StateStore,
    nodes: Seq<Node>,
    rs: Seq<Room>,
    g: TaskGroup,
    need: Resources,
    c: int,
) -> bool {
    exists|keys: Seq<u64>|
        #[trigger] rank_keys(ranker, state, nodes, rs, g, need, keys) && best_ranked(nodes, rs, g, need, keys, c)
}

/// The feasible slot the ranker ranks highest, the earliest on ties.
fn pick_ranked<R: Ranker>(
    ranker: &R,
    state: &StateStore,
    nodes: &Vec<&Node>,
    slots: &Vec<Slot>,
    group: &TaskGroup,
    need: &Resources,
) -> (r: Option<usize>)
    requires
        forall|s: int| 0 <= s < slots@.len() ==> 0 <= #[trigger] slots@[s].node < nodes@.len(),
    ensures
        match r {
            Some(i) => ranked_pick(*ranker, *state, derefs(nodes@), rooms(slots@), *group, *need, i as int),
            None => forall|i: int| !feasible(derefs(nodes@), rooms(slots@), i, *group, *need),
        },
{
    let ghost ns = derefs(nodes@);
    let ghost rs = rooms(slots@);
    let ghost mut keys: Seq<u64> = Seq::empty();
    let mut best: Option<usize> = None;
    let mut best_key: u64 = 0;
    let mut j: usize = 0;
    while j < slots.len()
        invariant
            ns == derefs(nodes@),
            rs == rooms(slots@),
            j <= slots@.len(),
            keys.len() == j,
            forall|s: int| 0 <= s < slots@.len() ==> 0 <= #[trigger] slots@[s].node < nodes@.len(),
            forall|k: int|
                #![trigger keys[k]]
                0 <= k < j && feasible(ns, rs, k, *group, *need) ==> call_ensures(
                    R::rank,
                    (ranker, &ns[rs[k].node], &slot_of(rs[k]), need, group, state),
                    keys[k],
                ),
            match best {
                Some(b) => {
                    &&& b < j
                    &&& feasible(ns, rs, b as int, *group, *need)
                    &&& keys[b as int] == best_key
                    &&& forall|k: int|
                        #![trigger keys[k]]
                        0 <= k < j && feasible(ns, rs, k, *group, *need) ==> keys[k] <= best_key && (k < b ==> keys[k]
                            < best_key)
                },
                None => forall|i: int| 0 <= i < j ==> !feasible(ns, rs, i, *group, *need),
            },
        decreases slots@.len() - j,
    {
        let s = &slots[j];
        assert(rs[j as int] == s@);
        assert(slot_of(rs[j as int]) == *s);
        assert(*nodes@[s.node as int] == ns[rs[j as int].node]);
        if fits(s, need) && node_meets_constraints(nodes[s.node], group) {
            let key = ranker.rank(nodes[s.node], s, need, group, state);
            proof {
                keys = keys.push(key);
            }
            match best {
                None => {
                    best = Some(j);
                    best_key = key;
                },
                Some(_) => {
                    if key > best_key {
                        best = Some(j);
                        best_key = key;
                    }
                },
            }
        } else {
            proof {
                keys = keys.push(0);
            }
        }
        j = j + 1;
    }
    proof {
        match best {
            Some(b) => {
                assert(rank_keys(*ranker, *state, ns, rs, *group, *need, keys));
                assert(best_ranked(ns, rs, *group, *need, keys, b as int));
            },
            None => {},
        }
    }
    best
}

/// The room [`first_feasible`] picks is feasible.
proof fn lemma_first_feasible(nodes: Seq<Node>, rs: Seq<Room>, g: TaskGroup, need: Resources, k: int)
    ensures
        first_feasible(nodes, rs, g, need, k) matches Some(i) ==> feasible(nodes, rs, i, g, need),
    decreases rs.len() - k,
{
    if 0 <= k < rs.len() && !feasible(nodes, rs, k, g, need) {
        lemma_first_feasible(nodes, rs, g, need, k + 1);
    }
}

/// When [`first_feasible`] finds nothing, no room from `k` on is feasible.
proof fn lemma_first_feasible_none(nodes: Seq<Node>, rs: Seq<Room>, g: TaskGroup, need: Resources, k: int)
    requires
        0 <= k,
        first_feasible(nodes, rs, g, need, k) is None,
    ensures
        forall|s: int| k <= s ==> !feasible(nodes, rs, s, g, need),
    decreases rs.len() - k,
{
    if k < rs.len() {
        lemma_first_feasible_none(nodes, rs, g, need, k + 1);
    }
}

/// A placement for a later group leaves the record of the earlier groups as
/// it was.
proof fn lemma_complete_push(
    nodes: Seq<Node>,
    rooms0: Seq<Room>,
    groups: Seq<TaskGroup>,
    cs: Seq<(int, int)>,
    ends: Seq<int>,
    k: int,
    x: (int, int),
)
    requires
        complete_upto(nodes, rooms0, groups, cs, ends, k),
        x.0 >= k,
    ensures
        complete_upto(nodes, rooms0, groups, cs.push(x), ends, k),
{
    let cs2 = cs.push(x);
    assert forall|g: int, p: int| 0 <= g < k && 0 <= p < cs2.len() implies (p < #[trigger] ends[g] <==> (
    #[trigger] cs2[p]).0 <= g) by {
        if p < cs.len() {
            assert(cs2[p] == cs[p]);
        }
    }
    assert forall|g: int|
        0 <= g < k && group_need(groups[g]) is Some && #[trigger] placed_count(cs2, g) < wanted(groups[g]) implies forall|s: int|
            !feasible(nodes, rooms_after(rooms0, cs2.take(ends[g]), groups), s, groups[g], need_of(groups, g)) by {
        lemma_placed_push(cs, x, g);
        assert(cs2.take(ends[g]) =~= cs.take(ends[g]));
    }
}

/// Closing group `k`: record where its placements end.
proof fn lemma_complete_close(
    nodes: Seq<Node>,
    rooms0: Seq<Room>,
    groups: Seq<TaskGroup>,
    cs: Seq<(int, int)>,
    ends: Seq<int>,
    k: int,
)
    requires
        0 <= k < groups.len(),
        complete_upto(nodes, rooms0, groups, cs, ends, k),
        forall|p: int| 0 <= p < cs.len() ==> (#[trigger] cs[p]).0 <= k,
        (group_need(groups[k]) is Some && placed_count(cs, k) < wanted(groups[k])) ==> forall|s: int|
            !feasible(nodes, rooms_after(rooms0, cs, groups), s, groups[k], need_of(groups, k)),
    ensures
        complete_upto(nodes, rooms0, groups, cs, ends.push(cs.len() as int), k + 1),
{
    let e2 = ends.push(cs.len() as int);
    assert(cs.take(cs.len() as int) =~= cs);
    assert forall|g: int| 0 <= g < k + 1 implies 0 <= #[trigger] e2[g] <= cs.len() by {
        if g < k {
            assert(e2[g] == ends[g]);
        }
    }
    assert forall|g: int, p: int| 0 <= g < k + 1 && 0 <= p < cs.len() implies (p < #[trigger] e2[g] <==> (
    #[trigger] cs[p]).0 <= g) by {
        if g < k {
            assert(e2[g] == ends[g]);
        }
    }
    assert forall|g: int|
        0 <= g < k + 1 && group_need(groups[g]) is Some && #[trigger] placed_count(cs, g) < wanted(groups[g]) implies forall|s: int|
            !feasible(nodes, rooms_after(rooms0, cs.take(e2[g]), groups), s, groups[g], need_of(groups, g)) by {
        if g < k {
            assert(e2[g] == ends[g]);
        }
    }
}

/// Reserving on slot `x.1` for group `x.0` adds that group's need to that
/// slot's reservations and leaves the other slots' as they were.
proof fn lemma_used_push(cs: Seq<(int, int)>, groups: Seq<TaskGroup>, x: (int, int), s: int)
    ensures
        used(cs.push(x), groups, s) == if x.1 == s {
            (
                used(cs, groups, s).0 + need_of(groups, x.0).cpu_mhz,
                used(cs, groups, s).1 + need_of(groups, x.0).memory_mb,
                used(cs, groups, s).2 + need_of(groups, x.0).network_mbps,
            )
        } else {
            used(cs, groups, s)
        },
{
    assert(cs.push(x).drop_last() =~= cs);
}

/// One more placement for group `x.0` raises its count by one.
proof fn lemma_placed_push(cs: Seq<(int, int)>, x: (int, int), g: int)
    ensures
        placed_count(cs.push(x), g) == placed_count(cs, g) + if x.0 == g {
            1nat
        } else {
            0nat
        },
{
    assert(cs.push(x).drop_last() =~= cs);
}

/// Appending a placement keeps the earlier placements sound.
proof fn lemma_placements_extend(
    eval: Evaluation,
    job: Job,
    nodes: Seq<Node>,
    rooms0: Seq<Room>,
    cs: Seq<(int, int)>,
    plan: Seq<Allocation>,
    x: (int, int),
    a: Allocation,
)
    requires
        cs.len() == plan.len(),
        forall|p: int| 0 <= p < cs.len() ==> #[trigger] placement_ok(eval, job, nodes, rooms0, cs, plan, p),
    ensures
        forall|p: int| 0 <= p < cs.len() ==> #[trigger] placement_ok(eval, job, nodes, rooms0, cs.push(x), plan.push(a), p),
{
    assert forall|p: int| 0 <= p < cs.len() implies #[trigger] placement_ok(eval, job, nodes, rooms0, cs.push(x), plan.push(a), p) by {
        assert(cs.push(x).take(p) =~= cs.take(p));
        assert(placement_ok(eval, job, nodes, rooms0, cs, plan, p));
        assert(cs.push(x)[p] == cs[p]);
        assert(plan.push(a)[p] == plan[p]);
    }
}

/// The nodes the scheduler sees: the store's nodes in insertion order.
pub open spec fn cluster_nodes(state: StateStore) -> Seq<Node> {
    values(state.model().nodes)
}

/// The starting rooms the scheduler sees in a store.
pub open spec fn cluster_rooms(state: StateStore) -> Seq<Room> {
    initial_rooms(values(state.model().nodes), values(state.model().allocs))
}

/// What a plan for `eval` over `state` must be: empty when the job is not
/// in the store; otherwise sound and greedy, and exactly the first-fit plan
/// when no group carries preferences.
pub open spec fn plan_ok(eval: Evaluation, state: StateStore, plan: Seq<Allocation>) -> bool {
    match eval_job(eval, state) {
        None => plan.len() == 0,
        Some(job) => {
            &&& exists|cs: Seq<(int, int)>, ends: Seq<int>|
                valid_plan(eval, job, cluster_nodes(state), cluster_rooms(state), cs, plan)
                    && #[trigger] greedy_complete(cluster_nodes(state), cluster_rooms(state), job.task_groups@, cs, ends)
            &&& all_plain(job.task_groups@) ==> valid_plan(
                eval,
                job,
                cluster_nodes(state),
                cluster_rooms(state),
                plan_choices(cluster_nodes(state), cluster_rooms(state), job.task_groups@, 0, Seq::empty()),
                plan,
            )
        },
    }
}

/// Whether placement `x` (group, room) took, among the rooms of `rs`
/// feasible for its group, the room `ranker` ranks highest (the earliest on
/// ties) when the group has affinities or spreads, and the first one
/// otherwise.
pub open spec fn choice_ok<R: Ranker>(
    ranker: R,
    state: StateStore,
    nodes: Seq<Node>,
    rs: Seq<Room>,
    groups: Seq<TaskGroup>,
    x: (int, int),
) -> bool {
    if has_preferences(groups[x.0]) {
        ranked_pick(ranker, state, nodes, rs, groups[x.0], need_of(groups, x.0), x.1)
    } else {
        first_feasible(nodes, rs, groups[x.0], need_of(groups, x.0), 0) == Some(x.1)
    }
}

/// Every placement `cs` makes took the room [`choice_ok`] asks for, given
/// the rooms left at that point.
pub open spec fn ranked_choices<R: Ranker>(
    ranker: R,
    state: StateStore,
    nodes: Seq<Node>,
    rooms0: Seq<Room>,
    groups: Seq<TaskGroup>,
    cs: Seq<(int, int)>,
) -> bool {
    forall|p: int|
        0 <= p < cs.len() ==> choice_ok(ranker, state, nodes, rooms_after(rooms0, cs.take(p), groups), groups, #[trigger] cs[p])
}

/// One more placement chosen by the rule keeps every placement chosen by it.
proof fn lemma_choices_push<R: Ranker>(
    ranker: R,
    state: StateStore,
    nodes: Seq<Node>,
    rooms0: Seq<Room>,
    groups: Seq<TaskGroup>,
    cs: Seq<(int, int)>,
    x: (int, int),
)
    requires
        ranked_choices(ranker, state, nodes, rooms0, groups, cs),
        choice_ok(ranker, state, nodes, rooms_after(rooms0, cs, groups), groups, x),
    ensures
        ranked_choices(ranker, state, nodes, rooms0, groups, cs.push(x)),
{
    let c2 = cs.push(x);
    assert forall|p: int| 0 <= p < c2.len() implies choice_ok(
        ranker,
        state,
        nodes,
        rooms_after(rooms0, c2.take(p), groups),
        groups,
        #[trigger] c2[p],
    ) by {
        if p < cs.len() {
            assert(c2[p] == cs[p]);
            assert(c2.take(p) =~= cs.take(p));
        } else {
            assert(c2.take(p) =~= cs);
        }
    }
}

/// A plan [`plan_ok`] admits whose placements each took the room
/// [`ranked_choices`] asks for.
pub open spec fn plan_ranked<R: Ranker>(ranker: R, eval: Evaluation, state: StateStore, plan: Seq<Allocation>) -> bool {
    match eval_job(eval, state) {
        None => plan.len() == 0,
        Some(job) => exists|cs: Seq<(int, int)>, ends: Seq<int>|
            valid_plan(eval, job, cluster_nodes(state), cluster_rooms(state), cs, plan) && #[trigger] greedy_complete(
                cluster_nodes(state),
                cluster_rooms(state),
                job.task_groups@,
                cs,
                ends,
            ) && ranked_choices(ranker, state, cluster_nodes(state), cluster_rooms(state), job.task_groups@, cs),
    }
}

/// Every allocation of `plan` is for the evaluation's job, and the store
/// holds a ready node under the node id the allocation names, which meets the
/// constraints of a group of the job with the allocation's group name.
pub open spec fn plan_in_store(eval: Evaluation, state: StateStore, plan: Seq<Allocation>) -> bool {
    forall|p: int|
        0 <= p < plan.len() ==> {
            let a = #[trigger] plan[p];
            &&& a.job_id@ == eval.job_id@
            &&& lookup(state.model().nodes, a.node_id@) matches Some(n) && node_ready(n) && (eval_job(eval, state) matches Some(
                job,
            ) && exists|g: int|
                0 <= g < job.task_groups@.len() && (#[trigger] job.task_groups@[g]).name@ == a.task_group@
                    && meets_constraints(n, job.task_groups@[g]))
        }
}

/// Process one evaluation into a [`Plan`].
///
/// Each task group of the evaluation's job places up to `count` instances.
/// Every placement goes to an eligible node that satisfies the group's
/// constraints and still has room for the group's summed demand, which it
/// then reserves for the rest of the plan. Groups without affinities or
/// spreads take the first such node; groups with them take the one `ranker`
/// ranks highest. A job that is not in the store yields an empty plan.
#[verifier::rlimit(40)]
pub fn process_eval<R: Ranker>(eval: &Evaluation, state: &StateStore, ranker: &R) -> (plan: Plan)
    ensures
        plan_ok(*eval, *state, plan.allocs@),
        plan_ranked(*ranker, *eval, *state, plan.allocs@),
        plan_in_store(*eval, *state, plan.allocs@),
{
    state.check_wf();
    state.check_keyed();
    let mut allocs: Vec<Allocation> = Vec::new();
    let job = match state.get_job(eval.job_id.as_str()) {
        None => {
            return Plan { allocs };
        },
        Some(j) => j,
    };
    let nodes = state.list_nodes();
    let all_allocs = state.list_allocs();
    let mut slots = eligible_slots(&nodes, &all_allocs);
    let ghost ns = derefs(nodes@);
    let ghost rooms0 = rooms(slots@);
    let ghost groups = job.task_groups@;
    proof {
        lemma_rooms_from(ns, derefs(all_allocs@), ns.len() as int);
    }
    let ghost target = plan_choices(ns, rooms0, groups, 0, Seq::empty());
    let ghost mut cs: Seq<(int, int)> = Seq::empty();
    let ghost mut ends: Seq<int> = Seq::empty();
    let mut gi: usize = 0;
    while gi < job.task_groups.len()
        invariant
            eval_job(*eval, *state) == Some(*job),
            ns == derefs(nodes@),
            ns == cluster_nodes(*state),
            rooms0 == cluster_rooms(*state),
            groups == job.task_groups@,
            target == plan_choices(ns, rooms0, groups, 0, Seq::empty()),
            gi <= groups.len(),
            slots@.len() == rooms0.len(),
            forall|s: int| 0 <= s < rooms0.len() ==> 0 <= #[trigger] rooms0[s].node < ns.len(),
            forall|s: int| 0 <= s < slots@.len() ==> (#[trigger] slots@[s])@ == remaining(rooms0[s], used(cs, groups, s)),
            forall|s: int| 0 <= s < slots@.len() ==> slot_bounded(#[trigger] slots@[s], allocs@.len() as int),
            cs.len() == allocs@.len(),
            forall|p: int| 0 <= p < cs.len() ==> #[trigger] placement_ok(*eval, *job, ns, rooms0, cs, allocs@, p),
            forall|g: int| 0 <= g < groups.len() ==> #[trigger] placed_count(cs, g) <= wanted(groups[g]),
            forall|g: int| gi <= g < groups.len() ==> #[trigger] placed_count(cs, g) == 0,
            all_plain(groups) ==> plan_choices(ns, rooms(slots@), groups, gi as int, cs) == target,
            complete_upto(ns, rooms0, groups, cs, ends, gi as int),
            forall|p: int| 0 <= p < cs.len() ==> (#[trigger] cs[p]).0 < gi,
            ranked_choices(*ranker, *state, ns, rooms0, groups, cs),
        decreases groups.len() - gi,
    {
        let group = &job.task_groups[gi];
        match group_demand(group) {
            None => {},
            Some(need) => {
                let plain = group.affinities.len() == 0 && group.spreads.len() == 0;
                let ghost rs_start = rooms(slots@);
                let ghost cs_start = cs;
                let ghost mut chosen: Seq<int> = Seq::empty();
                assert(cs_start + chosen.map_values(|s: int| (gi as int, s)) =~= cs);
                let mut done: i32 = 0;
                while done < group.count
                    invariant
                        eval_job(*eval, *state) == Some(*job),
                        ns == derefs(nodes@),
                        groups == job.task_groups@,
                        0 <= gi < groups.len(),
                        *group == groups[gi as int],
                        group_need(*group) == Some(need),
                        plain == !has_preferences(*group),
                        0 <= done,
                        done <= group.count || done == 0,
                        slots@.len() == rooms0.len(),
                        forall|s: int| 0 <= s < rooms0.len() ==> 0 <= #[trigger] rooms0[s].node < ns.len(),
                        forall|s: int| 0 <= s < slots@.len() ==> (#[trigger] slots@[s])@ == remaining(rooms0[s], used(cs, groups, s)),
                        forall|s: int| 0 <= s < slots@.len() ==> slot_bounded(#[trigger] slots@[s], allocs@.len() as int),
                        cs.len() == allocs@.len(),
                        forall|p: int| 0 <= p < cs.len() ==> #[trigger] placement_ok(*eval, *job, ns, rooms0, cs, allocs@, p),
                        forall|g: int| 0 <= g < groups.len() && g != gi ==> #[trigger] placed_count(cs, g) <= wanted(groups[g]),
                        forall|g: int| gi < g < groups.len() ==> #[trigger] placed_count(cs, g) == 0,
                        placed_count(cs, gi as int) == placed_count(cs_start, gi as int) + done,
                        placed_count(cs_start, gi as int) == 0,
                        cs == cs_start + chosen.map_values(|s: int| (gi as int, s)),
                        plain ==> first_fit(ns, rooms(slots@), *group, need, (wanted(*group) - done) as nat, chosen)
                            == first_fit(ns, rs_start, *group, need, wanted(*group), Seq::empty()),
                        complete_upto(ns, rooms0, groups, cs, ends, gi as int),
                        forall|p: int| 0 <= p < cs.len() ==> (#[trigger] cs[p]).0 <= gi,
                        ranked_choices(*ranker, *state, ns, rooms0, groups, cs),
                    ensures
                        placed_count(cs, gi as int) < wanted(groups[gi as int]) ==> forall|s: int|
                            !feasible(ns, rooms(slots@), s, *group, need),
                        placed_count(cs, gi as int) <= wanted(groups[gi as int]),
                        plain ==> first_fit(ns, rooms(slots@), *group, need, (wanted(*group) - done) as nat, chosen)
                            == (chosen, rooms(slots@)),
                    decreases group.count - done,
                {
                    let pick = if plain {
                        pick_first(&nodes, &slots, group, &need)
                    } else {
                        pick_ranked(ranker, state, &nodes, &slots, group, &need)
                    };
                    match pick {
                        None => {
                            proof {
                                if plain {
                                    lemma_first_feasible_none(ns, rooms(slots@), *group, need, 0);
                                }
                            }
                            break;
                        },
                        Some(i) => {
                            let ghost before = slots@;
                            let ghost cs_before = cs;
                            let ghost plan_before = allocs@;
                            assert(rooms(before) =~= rooms_after(rooms0, cs_before, groups));
                            proof {
                                lemma_first_feasible(ns, rooms(slots@), *group, need, 0);
                            }
                            assert(feasible(ns, rooms(slots@), i as int, *group, need));
                            let old = slots[i];
                            assert(rooms(slots@)[i as int] == old@);
                            let node = nodes[old.node];
                            let idx = allocs.len();
                            let a = make_alloc(eval, idx, job, group, need, node);
                            allocs.push(a);
                            let new_slot = Slot {
                                node: old.node,
                                cpu: old.cpu - need.cpu_mhz as i128,
                                mem: old.mem - need.memory_mb as i128,
                                net: old.net - need.network_mbps as i128,
                            };
                            slots.set(i, new_slot);
                            proof {
                                let x = (gi as int, i as int);
                                assert(choice_ok(*ranker, *state, ns, rooms_after(rooms0, cs_before, groups), groups, x));
                                lemma_choices_push(*ranker, *state, ns, rooms0, groups, cs_before, x);
                                lemma_placements_extend(*eval, *job, ns, rooms0, cs_before, plan_before, x, a);
                                lemma_complete_push(ns, rooms0, groups, cs_before, ends, gi as int, x);
                                cs = cs.push(x);
                                chosen = chosen.push(i as int);
                                assert forall|s: int| 0 <= s < slots@.len() implies (#[trigger] slots@[s])@ == remaining(
                                    rooms0[s],
                                    used(cs, groups, s),
                                ) by {
                                    lemma_used_push(cs_before, groups, x, s);
                                }
                                assert forall|g: int| 0 <= g < groups.len() implies #[trigger] placed_count(cs, g)
                                    == placed_count(cs_before, g) + if g == gi as int {
                                    1nat
                                } else {
                                    0nat
                                } by {
                                    lemma_placed_push(cs_before, x, g);
                                }
                                assert(cs.take(cs_before.len() as int) =~= cs_before);
                                assert(placement_ok(*eval, *job, ns, rooms0, cs, allocs@, cs_before.len() as int));
                                assert(cs =~= cs_start + chosen.map_values(|s: int| (gi as int, s)));
                                assert(rooms(slots@) =~= reserve(rooms(before), i as int, need));
                            }
                            done = done + 1;
                        },
                    }
                }
                proof {
                    assert(rooms(slots@) =~= rooms_after(rooms0, cs, groups));
                    lemma_complete_close(ns, rooms0, groups, cs, ends, gi as int);
                }
            },
        }
        proof {
            if group_need(*group) is None {
                lemma_complete_close(ns, rooms0, groups, cs, ends, gi as int);
            }
            ends = ends.push(cs.len() as int);
        }
        gi = gi + 1;
    }
    let plan = Plan { allocs };
    assert(valid_plan(*eval, *job, cluster_nodes(*state), cluster_rooms(*state), cs, plan.allocs@));
    let ghost jj = eval_job(*eval, *state)->Some_0;
    assert(valid_plan(*eval, jj, cluster_nodes(*state), cluster_rooms(*state), cs, plan.allocs@));
    assert(greedy_complete(cluster_nodes(*state), cluster_rooms(*state), jj.task_groups@, cs, ends));
    assert(plan_ok(*eval, *state, plan.allocs@));
    assert(ranked_choices(*ranker, *state, cluster_nodes(*state), cluster_rooms(*state), jj.task_groups@, cs));
    assert(plan_ranked(*ranker, *eval, *state, plan.allocs@));
    proof {
        let m = state.model();
        assert forall|p: int| 0 <= p < plan.allocs@.len() implies {
            let a = #[trigger] plan.allocs@[p];
            &&& a.job_id@ == eval.job_id@
            &&& lookup(m.nodes, a.node_id@) matches Some(n) && node_ready(n) && (eval_job(*eval, *state) matches Some(
                job,
            ) && exists|g: int|
                0 <= g < job.task_groups@.len() && (#[trigger] job.task_groups@[g]).name@ == a.task_group@
                    && meets_constraints(n, job.task_groups@[g]))
        } by {
            assert(placement_ok(*eval, *job, ns, rooms0, cs, plan.allocs@, p));
            let g = cs[p].0;
            let sl = cs[p].1;
            let k = rooms0[sl].node;
            assert(rooms0[sl] == initial_rooms(ns, derefs(all_allocs@))[sl]);
            assert(node_ready(ns[k]));
            assert(ns[k] == m.nodes[k].1);
            assert(m.nodes[k].0 == (node_key())(m.nodes[k].1));
            lemma_key_index(m.nodes, k);
            assert(job.task_groups@[g].name@ == plan.allocs@[p].task_group@);
        }
    }
    plan
}

/// The position [`first_in_flight`] finds is in range.
proof fn lemma_first_in_flight_bounds(fs: Seq<InFlightEval>, id: Seq<char>, k: int)
    ensures
        first_in_flight(fs, id, k) matches Some(i) ==> k <= i < fs.len(),
    decreases fs.len() - k,
{
    if 0 <= k < fs.len() && fs[k].eval.id@ != id {
        lemma_first_in_flight_bounds(fs, id, k + 1);
    }
}

/// Total instances a list of groups wants.
pub open spec fn wanted_total(groups: Seq<TaskGroup>) -> int
    decreases groups.len(),
{
    if groups.len() == 0 {
        0
    } else {
        wanted_total(groups.drop_last()) + wanted(groups.last())
    }
}

/// Total instances the evaluation's job wants (zero when it is not stored).
pub open spec fn desired_total(eval: Evaluation, state: StateStore) -> int {
    match eval_job(eval, state) {
        Some(job) => wanted_total(job.task_groups@),
        None => 0,
    }
}

/// Whether the evaluation's job wants any instance at all.
pub open spec fn wants_any(groups: Seq<TaskGroup>) -> bool {
    exists|g: int| 0 <= g < groups.len() && wanted(#[trigger] groups[g]) > 0
}

/// A total is positive exactly when some group wants an instance.
proof fn lemma_wanted_total(groups: Seq<TaskGroup>)
    ensures
        wanted_total(groups) >= 0,
        wanted_total(groups) > 0 <==> wants_any(groups),
    decreases groups.len(),
{
    if groups.len() > 0 {
        let init = groups.drop_last();
        lemma_wanted_total(init);
        if wants_any(groups) {
            let g = choose|g: int| 0 <= g < groups.len() && wanted(#[trigger] groups[g]) > 0;
            if g < init.len() {
                assert(init[g] == groups[g]);
            }
        }
        if wants_any(init) {
            let g = choose|g: int| 0 <= g < init.len() && wanted(#[trigger] init[g]) > 0;
            assert(init[g] == groups[g]);
        }
    }
}

/// Total instances the evaluation's job currently wants placed across its
/// task groups; `0` if the job is unknown (e.g. a cleanup evaluation after
/// the job was deregistered). The total must fit an `i32`.
pub fn desired_count(eval: &Evaluation, state: &StateStore) -> (r: i32)
    requires
        desired_total(*eval, *state) <= i32::MAX,
    ensures
        r == desired_total(*eval, *state),
{
    match state.get_job(eval.job_id.as_str()) {
        None => 0,
        Some(job) => {
            let mut total: i32 = 0;
            let mut i: usize = 0;
            while i < job.task_groups.len()
                invariant
                    i <= job.task_groups@.len(),
                    total == wanted_total(job.task_groups@.take(i as int)),
                    wanted_total(job.task_groups@) <= i32::MAX,
                decreases job.task_groups@.len() - i,
            {
                assert(job.task_groups@.take(i + 1).drop_last() =~= job.task_groups@.take(i as int));
                proof {
                    lemma_wanted_prefix(job.task_groups@, i + 1);
                }
                let c = job.task_groups[i].count;
                if c > 0 {
                    total = total + c;
                }
                i = i + 1;
            }
            assert(job.task_groups@.take(i as int) =~= job.task_groups@);
            total
        },
    }
}

/// A prefix never wants more than the whole list.
proof fn lemma_wanted_prefix(groups: Seq<TaskGroup>, k: int)
    requires
        0 <= k <= groups.len(),
    ensures
        0 <= wanted_total(groups.take(k)) <= wanted_total(groups),
    decreases groups.len(),
{
    lemma_wanted_total(groups.take(k));
    if k < groups.len() {
        lemma_wanted_prefix(groups.drop_last(), k);
        assert(groups.drop_last().take(k) =~= groups.take(k));
        lemma_wanted_total(groups);
    } else {
        assert(groups.take(k) =~= groups);
    }
}

/// Whether the evaluation's job wants any instance placed.
pub fn wants_placement(eval: &Evaluation, state: &StateStore) -> (r: bool)
    ensures
        r == (desired_total(*eval, *state) > 0),
{
    match state.get_job(eval.job_id.as_str()) {
        None => false,
        Some(job) => {
            let mut i: usize = 0;
            while i < job.task_groups.len()
                invariant
                    eval_job(*eval, *state) == Some(*job),
                    i <= job.task_groups@.len(),
                    forall|g: int| 0 <= g < i ==> wanted(#[trigger] job.task_groups@[g]) == 0,
                decreases job.task_groups@.len() - i,
            {
                if job.task_groups[i].count > 0 {
                    proof {
                        lemma_wanted_total(job.task_groups@);
                        assert(wanted(job.task_groups@[i as int]) > 0);
                    }
                    return true;
                }
                i = i + 1;
            }
            proof {
                lemma_wanted_total(job.task_groups@);
            }
            false
        },
    }
}

/// Applying `allocs` in order as allocation upserts to a store whose
/// content is `m`: the content reached, and the rejection that stopped the
/// run, if one did (the allocations after it are not applied).
pub open spec fn apply_allocs(m: StoreModel, allocs: Seq<Allocation>) -> (StoreModel, Option<Rejection>)
    decreases allocs.len(),
{
    if allocs.len() == 0 {
        (m, None)
    } else {
        match step(m, Command::UpsertAlloc(allocs[0])) {
            Ok(m2) => apply_allocs(m2, allocs.drop_first()),
            Err(rej) => (m, Some(rej)),
        }
    }
}

/// Whether `e` is the error a rejection is reported with.
pub open spec fn reports_rejection(e: Error, rej: Rejection) -> bool {
    match rej {
        Rejection::Config(msg) => e.is_config(msg),
        Rejection::Validation(msg) => e.is_validation(msg),
    }
}

/// Apply a [`Plan`] by committing each placement to the state machine as an
/// allocation upsert, in order.
///
/// # Errors
///
/// Returns the first error the state machine reports (e.g. a rejected
/// allocation); the placements after it are not applied.
pub fn apply_plan(fsm: &mut Fsm, plan: &Plan) -> (r: Result<()>)
    ensures
        final(fsm).spec_state().model() == apply_allocs(old(fsm).spec_state().model(), plan.allocs@).0,
        match apply_allocs(old(fsm).spec_state().model(), plan.allocs@).1 {
            None => r is Ok,
            Some(rej) => r matches Err(e) && reports_rejection(e, rej),
        },
{
    let mut i: usize = 0;
    assert(plan.allocs@.skip(0) =~= plan.allocs@);
    while i < plan.allocs.len()
        invariant
            i <= plan.allocs@.len(),
            apply_allocs(fsm.spec_state().model(), plan.allocs@.skip(i as int)) == apply_allocs(
                old(fsm).spec_state().model(),
                plan.allocs@,
            ),
        decreases plan.allocs@.len() - i,
    {
        let a = plan.allocs[i].clone();
        assert(plan.allocs@.skip(i as int).drop_first() =~= plan.allocs@.skip(i + 1));
        assert(plan.allocs@.skip(i as int)[0] == a);
        match fsm.apply(Command::UpsertAlloc(a)) {
            Ok(()) => {},
            Err(e) => {
                return Err(e);
            },
        }
        i = i + 1;
    }
    assert(plan.allocs@.skip(i as int) =~= Seq::<Allocation>::empty());
    Ok(())
}

/// Process one evaluation against the state machine's state and commit the
/// resulting placements. Returns the [`Plan`] that was applied.
///
/// # Errors
///
/// Propagates any error from [`apply_plan`].
pub fn process_and_apply<R: Ranker>(eval: &Evaluation, fsm: &mut Fsm, ranker: &R) -> (r: Result<Plan>)
    ensures
        match r {
            Ok(p) => plan_ok(*eval, old(fsm).spec_state(), p.allocs@) && plan_ranked(
                *ranker,
                *eval,
                old(fsm).spec_state(),
                p.allocs@,
            ) && apply_allocs(
                old(fsm).spec_state().model(),
                p.allocs@,
            ) == (final(fsm).spec_state().model(), Option::<Rejection>::None),
            Err(e) => exists|p: Seq<Allocation>|
                #![trigger apply_allocs(old(fsm).spec_state().model(), p)]
                plan_ok(*eval, old(fsm).spec_state(), p) && plan_ranked(*ranker, *eval, old(fsm).spec_state(), p)
                    && apply_allocs(old(fsm).spec_state().model(), p).0
                    == final(fsm).spec_state().model() && (apply_allocs(old(fsm).spec_state().model(), p).1 matches Some(
                    rej,
                ) && reports_rejection(e, rej)),
        },
{
    let plan = process_eval(eval, fsm.state(), ranker);
    match apply_plan(fsm, &plan) {
        Ok(()) => Ok(plan),
        Err(e) => {
            assert(apply_allocs(old(fsm).spec_state().model(), plan.allocs@).0 == final(fsm).spec_state().model());
            Err(e)
        },
    }
}

/// A queue content with `eval` parked behind the evaluations already blocked.
pub open spec fn parked(m: QueueModel, eval: Evaluation) -> QueueModel {
    QueueModel { blocked: m.blocked.push(eval), ..m }
}

/// One successful turn of [`drain_queue`], from queue `q0` and store `s0` to
/// `q1` and `s1`: the evaluation at pending position `i` leaves next, `p` is
/// a plan the rules accept for it and is committed without a rejection, the
/// evaluation is parked when its job wants instances and the plan placed
/// none, and it is acknowledged.
pub open spec fn drain_turn<R: Ranker>(
    ranker: R,
    q0: QueueModel,
    s0: StateStore,
    i: int,
    p: Seq<Allocation>,
    q1: QueueModel,
    s1: StateStore,
) -> bool {
    let e = q0.pending[i].eval;
    let handed = dequeued(q0, i);
    let kept = if p.len() == 0 && desired_total(e, s1) > 0 {
        parked(handed, e)
    } else {
        handed
    };
    &&& is_next(q0.pending, i)
    &&& plan_ok(e, s0, p)
    &&& plan_ranked(ranker, e, s0, p)
    &&& apply_allocs(s0.model(), p) == (s1.model(), Option::<Rejection>::None)
    &&& q1 == acked(kept, e.id@)
}

/// `qs`/`ss` are the queue and store before each turn and after the last;
/// turn `k` took pending position `is[k]` and committed plan `ps[k]`.
pub open spec fn drain_trace<R: Ranker>(
    ranker: R,
    qs: Seq<QueueModel>,
    ss: Seq<StateStore>,
    is: Seq<int>,
    ps: Seq<Seq<Allocation>>,
) -> bool {
    &&& qs.len() == ps.len() + 1
    &&& ss.len() == qs.len()
    &&& is.len() == ps.len()
    &&& forall|k: int| 0 <= k < ps.len() ==> drain_turn(ranker, qs[k], ss[k], is[k], #[trigger] ps[k], qs[k + 1], ss[k + 1])
}

/// Number of placements in a list of plans.
pub open spec fn placed_total(ps: Seq<Seq<Allocation>>) -> nat
    decreases ps.len(),
{
    if ps.len() == 0 {
        0
    } else {
        placed_total(ps.drop_last()) + ps.last().len()
    }
}

/// `n`, saturated at `usize::MAX`.
pub open spec fn saturated(n: nat) -> usize {
    if n > usize::MAX {
        usize::MAX
    } else {
        n as usize
    }
}

/// A first in-flight entry with `id` exists from `k` on when one sits at `j >= k`.
proof fn lemma_first_in_flight_found(fs: Seq<InFlightEval>, id: Seq<char>, k: int, j: int)
    requires
        0 <= k <= j < fs.len(),
        fs[j].eval.id@ == id,
    ensures
        first_in_flight(fs, id, k) is Some,
    decreases j - k,
{
    if fs[k].eval.id@ != id {
        lemma_first_in_flight_found(fs, id, k + 1, j);
    }
}

/// Dequeue and process every pending evaluation in `queue`, applying each
/// plan to `fsm`. Returns the total number of allocations placed (saturating
/// at `usize::MAX`).
///
/// Each evaluation is acknowledged once its plan is applied; one whose job
/// wanted instances but got none is also parked as blocked. If applying a
/// plan fails, the evaluation is handed back (`nack`) and the error returned.
///
/// # Errors
///
/// Propagates the first apply error.
pub fn drain_queue<R: Ranker>(queue: &mut EvalQueue, fsm: &mut Fsm, ranker: &R) -> (r: Result<usize>)
    ensures
        r is Ok ==> final(queue).model().pending.len() == 0,
        r is Ok ==> final(queue).model().in_flight.len() == old(queue).model().in_flight.len(),
        r is Ok ==> old(queue).model().blocked.is_prefix_of(final(queue).model().blocked),
        match r {
            Ok(n) => exists|qs: Seq<QueueModel>, ss: Seq<StateStore>, is: Seq<int>, ps: Seq<Seq<Allocation>>|
                #[trigger] drain_trace(*ranker, qs, ss, is, ps) && qs[0] == old(queue).model() && ss[0] == old(fsm).spec_state()
                    && qs.last() == final(queue).model() && ss.last() == final(fsm).spec_state() && n == saturated(
                    placed_total(ps),
                ),
            Err(e) => exists|qs: Seq<QueueModel>, ss: Seq<StateStore>, is: Seq<int>, ps: Seq<Seq<Allocation>>|
                #[trigger] drain_trace(*ranker, qs, ss, is, ps) && qs[0] == old(queue).model() && ss[0] == old(fsm).spec_state()
                    && drain_failure(*ranker, qs.last(), ss.last(), final(queue).model(), final(fsm).spec_state().model(), e),
        },
{
    let mut placed: usize = 0;
    let ghost mut qs: Seq<QueueModel> = seq![queue.model()];
    let ghost mut ss: Seq<StateStore> = seq![fsm.spec_state()];
    let ghost mut is: Seq<int> = Seq::empty();
    let ghost mut ps: Seq<Seq<Allocation>> = Seq::empty();
    loop
        invariant
            queue.model().in_flight.len() == old(queue).model().in_flight.len(),
            old(queue).model().blocked.is_prefix_of(queue.model().blocked),
            drain_trace(*ranker, qs, ss, is, ps),
            qs[0] == old(queue).model(),
            ss[0] == old(fsm).spec_state(),
            qs.last() == queue.model(),
            ss.last() == fsm.spec_state(),
            placed == saturated(placed_total(ps)),
        ensures
            queue.model().pending.len() == 0,
        decreases queue.model().pending.len(),
    {
        let ghost before = queue.model();
        let ghost s0 = fsm.spec_state();
        let eval = match queue.dequeue() {
            Ok(Some(e)) => e,
            Ok(None) => {
                break;
            },
            Err(e) => {
                return Err(e);
            },
        };
        let ghost i = choose|i: int|
            #[trigger] is_next(before.pending, i) && eval == before.pending[i].eval && queue.model() == dequeued(
                before,
                i,
            );
        match process_and_apply(&eval, fsm, ranker) {
            Ok(plan) => {
                placed = placed.saturating_add(plan.allocs.len());
                if plan.allocs.len() == 0 && wants_placement(&eval, fsm.state()) {
                    let parked_eval = eval.clone();
                    let _ = queue.block(parked_eval);
                }
                proof {
                    let fs = queue.model().in_flight;
                    lemma_first_in_flight_found(fs, eval.id@, 0, fs.len() - 1);
                    lemma_first_in_flight_bounds(fs, eval.id@, 0);
                }
                match queue.ack(eval.id.as_str()) {
                    Ok(()) => {},
                    Err(e) => {
                        return Err(e);
                    },
                }
                proof {
                    let qs_old = qs;
                    let ss_old = ss;
                    let ps_old = ps;
                    qs = qs.push(queue.model());
                    ss = ss.push(fsm.spec_state());
                    is = is.push(i);
                    ps = ps.push(plan.allocs@);
                    assert(drain_turn(*ranker, before, s0, i, plan.allocs@, queue.model(), fsm.spec_state()));
                    assert forall|k: int| 0 <= k < ps.len() implies drain_turn(
                        *ranker,
                        qs[k],
                        ss[k],
                        is[k],
                        #[trigger] ps[k],
                        qs[k + 1],
                        ss[k + 1],
                    ) by {
                        if k < ps_old.len() {
                            assert(ps[k] == ps_old[k]);
                            assert(qs[k + 1] == qs_old[k + 1]);
                            assert(ss[k + 1] == ss_old[k + 1]);
                        }
                    }
                    assert(ps.drop_last() =~= ps_old);
                }
            },
            Err(e) => {
                let _ = queue.nack(eval.id.as_str());
                proof {
                    assert(drain_failure(*ranker, before, s0, queue.model(), fsm.spec_state().model(), e));
                }
                return Err(e);
            },
        }
    }
    Ok(placed)
}

/// A failed turn from queue `q0` and store `s0`: the evaluation at some
/// pending position `i` leaves next, committing a plan the rules accept for
/// it is rejected with `e` part way, leaving the store at `m1`, and the
/// evaluation is handed back, leaving the queue at `q1`.
pub open spec fn drain_failure<R: Ranker>(ranker: R, q0: QueueModel, s0: StateStore, q1: QueueModel, m1: StoreModel, e: Error) -> bool {
    exists|i: int, p: Seq<Allocation>|
        #![trigger is_next(q0.pending, i), apply_allocs(s0.model(), p)]
        is_next(q0.pending, i) && plan_ok(q0.pending[i].eval, s0, p) && plan_ranked(ranker, q0.pending[i].eval, s0, p)
            && apply_allocs(s0.model(), p).0 == m1 && (
        apply_allocs(s0.model(), p).1 matches Some(rej) && reports_rejection(e, rej)) && q1 == nacked(
            dequeued(q0, i),
            q0.pending[i].eval.id@,
        )
}

/// The scheduler's lifecycle. The wait between turns and the shutdown
/// signal belong to the binary; each turn drains the queue with
/// [`drain_queue`].
#[derive(Debug)]
pub struct Scheduler {
    /// Whether the scheduler is running.
    status: SchedulerStatus,
}

impl Scheduler {
    /// The status.
    pub closed spec fn spec_status(&self) -> SchedulerStatus {
        self.status
    }

    /// A scheduler that has not started.
    pub fn new() -> (r: Self)
        ensures
            r.spec_status() == SchedulerStatus::Initialized,
    {
        Scheduler { status: SchedulerStatus::Initialized }
    }

    /// The current status.
    pub fn status(&self) -> (r: SchedulerStatus)
        ensures
            r == self.spec_status(),
    {
        self.status
    }

    /// Whether the scheduler is running.
    pub fn is_running(&self) -> (r: bool)
        ensures
            r == (self.spec_status() == SchedulerStatus::Running),
    {
        self.status == SchedulerStatus::Running
    }

    /// Enter the running state. Returns `false`, changing nothing, when the
    /// scheduler already runs.
    pub fn begin_run(&mut self) -> (started: bool)
        ensures
            started == (old(self).spec_status() != SchedulerStatus::Running),
            final(self).spec_status() == SchedulerStatus::Running,
    {
        if self.status == SchedulerStatus::Running {
            return false;
        }
        self.status = SchedulerStatus::Running;
        true
    }

    /// One turn of the evaluation loop: drain `queue` into `fsm`. A failure
    /// is fatal: the scheduler stops and the error is returned.
    ///
    /// # Errors
    ///
    /// The error [`drain_queue`] reports.
    pub fn run_turn<R: Ranker>(&mut self, queue: &mut EvalQueue, fsm: &mut Fsm, ranker: &R) -> (r: Result<usize>)
        ensures
            r is Err ==> final(self).spec_status() == SchedulerStatus::Stopped,
            r is Ok ==> final(self).spec_status() == old(self).spec_status(),
            r is Ok ==> final(queue).model().pending.len() == 0,
            match r {
                Ok(n) => exists|qs: Seq<QueueModel>, ss: Seq<StateStore>, is: Seq<int>, ps: Seq<Seq<Allocation>>|
                    #[trigger] drain_trace(*ranker, qs, ss, is, ps) && qs[0] == old(queue).model() && ss[0] == old(
                        fsm,
                    ).spec_state() && qs.last() == final(queue).model() && ss.last() == final(fsm).spec_state() && n
                        == saturated(placed_total(ps)),
                Err(e) => exists|qs: Seq<QueueModel>, ss: Seq<StateStore>, is: Seq<int>, ps: Seq<Seq<Allocation>>|
                    #[trigger] drain_trace(*ranker, qs, ss, is, ps) && qs[0] == old(queue).model() && ss[0] == old(
                        fsm,
                    ).spec_state() && drain_failure(
                        *ranker,
                        qs.last(),
                        ss.last(),
                        final(queue).model(),
                        final(fsm).spec_state().model(),
                        e,
                    ),
            },
    {
        let out = drain_queue(queue, fsm, ranker);
        if out.is_err() {
            self.status = SchedulerStatus::Stopped;
        }
        out
    }

    /// Stop the scheduler; stopping again changes nothing.
    pub fn stop(&mut self)
        ensures
            final(self).spec_status() == SchedulerStatus::Stopped,
    {
        self.status = SchedulerStatus::Stopped;
    }
}

impl Default for Scheduler {
    fn default() -> (r: Self)
        ensures
            r.spec_status() == SchedulerStatus::Initialized,
    {
        Scheduler::new()
    }
}

} // verus!
