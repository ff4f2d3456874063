//! Server agent: owns the consensus node (whose state machine is the
//! authoritative cluster state) and the evaluation queue, both behind its
//! [`RpcEndpoint`], and runs the scheduler worker over them.
//!
//! One turn of the worker is [`worker_step`]: when this node leads and an
//! evaluation is pending, it is dequeued, planned, its placements committed
//! in order, and then acknowledged (or handed back when a commit failed).
//! The binary repeats the turn, pausing while there is nothing to do.
pub use crate::agent::AgentStatus as ServerStatus;
use crate::allocs::Allocation;
use crate::config::Config;
use crate::eval_queue::{acked, dequeued, is_next, nacked, EvalQueue};
use crate::raft::{RaftNode, RaftRole};
use crate::error::Result;
use crate::rpc::{lemma_endpoint_store, EndpointView, RpcEndpoint};
use crate::scheduler::{apply_allocs, plan_ok, plan_ranked, process_eval, Ranker};
use crate::state::{Command, StateStore};
use vstd::prelude::*;

verus! {

/// What one turn of the scheduler worker did.
#[derive(Debug, Clone, Copy, PartialEq, Eq, Structural)]
pub enum WorkerStep {
    /// Nothing to do: this node does not lead, or no evaluation is pending.
    Idle,
    /// An evaluation was planned, its placements committed, and acknowledged.
    Acked,
    /// Committing a placement failed; the evaluation was handed back.
    Nacked,
}

/// A server node in the cluster.
#[derive(Debug)]
pub struct Server {
    /// Server configuration.
    config: Config,
    /// Current server status.
    status: ServerStatus,
    /// The request handler, holding the consensus node and the queue.
    endpoint: RpcEndpoint,
}

/// Commit `allocs` in order as allocation upserts, stopping at the first
/// one the state rejects.
fn commit_allocs(ep: &mut RpcEndpoint, allocs: &Vec<Allocation>) -> (r: Result<()>)
    requires
        old(ep).view().role == RaftRole::Leader,
    ensures
        final(ep).view().store == apply_allocs(old(ep).view().store, allocs@).0,
        (r is Ok) == (apply_allocs(old(ep).view().store, allocs@).1 is None),
        final(ep).view().queue == old(ep).view().queue,
        final(ep).view().role == RaftRole::Leader,
{
    let mut i: usize = 0;
    assert(allocs@.skip(0) =~= allocs@);
    while i < allocs.len()
        invariant
            i <= allocs@.len(),
            ep.view().role == RaftRole::Leader,
            ep.view().queue == old(ep).view().queue,
            apply_allocs(ep.view().store, allocs@.skip(i as int)) == apply_allocs(old(ep).view().store, allocs@),
        decreases allocs@.len() - i,
    {
        let a = allocs[i].clone();
        assert(allocs@.skip(i as int).drop_first() =~= allocs@.skip(i + 1));
        assert(allocs@.skip(i as int)[0] == a);
        match ep.propose(Command::UpsertAlloc(a)) {
            Ok(()) => {},
            Err(e) => {
                return Err(e);
            },
        }
        i = i + 1;
    }
    assert(allocs@.skip(i as int) =~= Seq::<Allocation>::empty());
    Ok(())
}

/// What a worker turn leaves behind when this node leads and the pending
/// entry at `i` is taken: its evaluation is planned into placements `p`
/// (a plan [`process_eval`] may return), which are committed in order; the
/// evaluation is acknowledged when all were committed and handed back
/// otherwise.
pub open spec fn worker_turn(
    before: EndpointView,
    after: EndpointView,
    i: int,
    p: Seq<Allocation>,
    r: WorkerStep,
) -> bool {
    let taken = dequeued(before.queue, i);
    let id = before.queue.pending[i].eval.id@;
    let outcome = apply_allocs(before.store, p);
    &&& is_next(before.queue.pending, i)
    &&& after.store == outcome.0
    &&& after.role == before.role
    &&& if outcome.1 is None {
        r == WorkerStep::Acked && after.queue == acked(taken, id)
    } else {
        r == WorkerStep::Nacked && after.queue == nacked(taken, id)
    }
}

/// One turn of the scheduler worker over `ep`. Only the leader schedules.
pub fn worker_step<R: Ranker>(ep: &mut RpcEndpoint, ranker: &R) -> (r: WorkerStep)
    ensures
        old(ep).view().role != RaftRole::Leader || old(ep).view().queue.pending.len() == 0 ==> r
            == WorkerStep::Idle && final(ep).view() == old(ep).view(),
        old(ep).view().role == RaftRole::Leader && old(ep).view().queue.pending.len() > 0 ==> exists|
            i: int,
            p: Seq<Allocation>,
        |
            #![trigger worker_turn(old(ep).view(), final(ep).view(), i, p, r)]
            plan_ok(old(ep).view().queue.pending[i].eval, old(ep).spec_store(), p) && plan_ranked(
                *ranker,
                old(ep).view().queue.pending[i].eval,
                old(ep).spec_store(),
                p,
            ) && worker_turn(
                old(ep).view(),
                final(ep).view(),
                i,
                p,
                r,
            ),
{
    if !ep.raft().is_leader() {
        return WorkerStep::Idle;
    }
    let ghost before = ep.view();
    let ghost store = ep.spec_store();
    proof {
        lemma_endpoint_store(ep);
    }
    let eval = match ep.queue_mut().dequeue() {
        Ok(Some(e)) => e,
        _ => {
            return WorkerStep::Idle;
        },
    };
    let ghost i = choose|i: int|
        #[trigger] is_next(before.queue.pending, i) && eval == before.queue.pending[i].eval && ep.view().queue
            == dequeued(before.queue, i);
    let ghost mid = ep.view();
    assert(ep.spec_store() == store) by {
        lemma_endpoint_store(ep);
    }
    let plan = process_eval(&eval, ep.raft().state(), ranker);
    assert(mid.store == before.store);
    let committed = commit_allocs(ep, &plan.allocs);
    match committed {
        Ok(()) => {
            let _ = ep.queue_mut().ack(eval.id.as_str());
            assert(worker_turn(before, ep.view(), i, plan.allocs@, WorkerStep::Acked));
            WorkerStep::Acked
        },
        Err(_) => {
            let _ = ep.queue_mut().nack(eval.id.as_str());
            assert(worker_turn(before, ep.view(), i, plan.allocs@, WorkerStep::Nacked));
            WorkerStep::Nacked
        },
    }
}

impl Server {
    /// The configuration.
    pub closed spec fn spec_config(&self) -> Config {
        self.config
    }

    /// The status.
    pub closed spec fn spec_status(&self) -> ServerStatus {
        self.status
    }

    /// The endpoint's abstract content.
    pub closed spec fn spec_endpoint(&self) -> EndpointView {
        self.endpoint.view()
    }

    /// The committed state, as the store that holds it.
    pub closed spec fn spec_store(&self) -> StateStore {
        self.endpoint.spec_store()
    }

    /// The id of the server's consensus node.
    pub closed spec fn spec_node_id(&self) -> Seq<char> {
        self.endpoint.spec_node_id()
    }

    /// Create a new server: its single-node consensus group is bootstrapped
    /// as leader, named after the configured node name, over an empty state
    /// and an empty queue. The scheduler worker starts with [`Server::begin_run`].
    pub fn new(config: Config) -> (r: Self)
        ensures
            r.spec_config() == config,
            r.spec_status() == ServerStatus::Initialized,
            r.spec_endpoint().role == RaftRole::Leader,
            r.spec_endpoint().committed == 0,
            r.spec_endpoint().leader_addr is None,
            r.spec_endpoint().store.jobs.len() == 0,
            r.spec_endpoint().store.nodes.len() == 0,
            r.spec_endpoint().store.allocs.len() == 0,
            r.spec_endpoint().store.evals.len() == 0,
            r.spec_endpoint().queue.pending.len() == 0,
            r.spec_endpoint().queue.in_flight.len() == 0,
            r.spec_endpoint().queue.blocked.len() == 0,
            r.spec_node_id() == config.node_name@,
    {
        let raft = RaftNode::bootstrap(config.node_name.as_str());
        let endpoint = RpcEndpoint::with_raft(EvalQueue::new(), raft);
        Server { config, status: ServerStatus::Initialized, endpoint }
    }

    /// The configuration this server was created with.
    pub fn config(&self) -> (r: &Config)
        ensures
            *r == self.spec_config(),
    {
        &self.config
    }

    /// The current status of the server.
    pub fn status(&self) -> (r: ServerStatus)
        ensures
            r == self.spec_status(),
    {
        self.status
    }

    /// Whether the server is currently running.
    pub fn is_running(&self) -> (r: bool)
        ensures
            r == (self.spec_status() == ServerStatus::Running),
    {
        self.status == ServerStatus::Running
    }

    /// The request handler over this server's queue and consensus node.
    pub fn endpoint(&self) -> (r: &RpcEndpoint)
        ensures
            r.view() == self.spec_endpoint(),
    {
        &self.endpoint
    }

    /// The request handler, for submitting requests.
    pub fn endpoint_mut(&mut self) -> (r: &mut RpcEndpoint)
        ensures
            r.view() == old(self).spec_endpoint(),
            final(self).spec_endpoint() == final(r).view(),
            final(self).spec_config() == old(self).spec_config(),
            final(self).spec_status() == old(self).spec_status(),
    {
        &mut self.endpoint
    }

    /// The consensus node, for reading cluster state.
    pub fn raft(&self) -> (r: &RaftNode)
        ensures
            r.spec_state().model() == self.spec_endpoint().store,
            r.spec_role() == self.spec_endpoint().role,
            r.spec_committed() == self.spec_endpoint().committed,
            r.spec_id() == self.spec_node_id(),
    {
        self.endpoint.raft()
    }

    /// Enter the running state. Returns `false`, changing nothing, when the
    /// server is already running (starting is idempotent).
    pub fn begin_run(&mut self) -> (started: bool)
        ensures
            started == (old(self).spec_status() != ServerStatus::Running),
            final(self).spec_status() == ServerStatus::Running,
            final(self).spec_config() == old(self).spec_config(),
            final(self).spec_endpoint() == old(self).spec_endpoint(),
    {
        if self.status == ServerStatus::Running {
            return false;
        }
        self.status = ServerStatus::Running;
        true
    }

    /// One turn of the scheduler worker over this server's endpoint.
    pub fn worker_step<R: Ranker>(&mut self, ranker: &R) -> (r: WorkerStep)
        ensures
            old(self).spec_endpoint().role != RaftRole::Leader || old(self).spec_endpoint().queue.pending.len() == 0
                ==> r == WorkerStep::Idle && final(self).spec_endpoint() == old(self).spec_endpoint(),
            old(self).spec_endpoint().role == RaftRole::Leader && old(self).spec_endpoint().queue.pending.len() > 0
                ==> exists|i: int, p: Seq<Allocation>|
                #![trigger worker_turn(old(self).spec_endpoint(), final(self).spec_endpoint(), i, p, r)]
                plan_ok(old(self).spec_endpoint().queue.pending[i].eval, old(self).spec_store(), p)
                    && plan_ranked(*ranker, old(self).spec_endpoint().queue.pending[i].eval, old(self).spec_store(), p)
                    && worker_turn(old(self).spec_endpoint(), final(self).spec_endpoint(), i, p, r),
            final(self).spec_config() == old(self).spec_config(),
            final(self).spec_status() == old(self).spec_status(),
    {
        worker_step(&mut self.endpoint, ranker)
    }

    /// Stop the server: it is `Stopped` afterwards.
    pub fn stop(&mut self)
        ensures
            final(self).spec_status() == ServerStatus::Stopped,
            final(self).spec_config() == old(self).spec_config(),
            final(self).spec_endpoint() == old(self).spec_endpoint(),
    {
        self.status = ServerStatus::Stopped;
    }
}

} // verus!
