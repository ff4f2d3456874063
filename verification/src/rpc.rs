//! The request/response surface servers expose to nodes and to each other.
//!
//! [`RpcEndpoint`] handles requests: writes are committed through the local
//! consensus node (on a follower they are answered with
//! [`Response::NotLeader`]), then any follow-up evaluation is queued.
//! Requests and responses travel as length-prefixed frames: a 4-byte
//! big-endian length, then that many bytes of JSON; a frame longer than
//! [`MAX_FRAME`] is refused. Sockets, TLS and JSON belong to the binary.
use crate::allocs::Allocation;
use crate::error::{Error, Result};
use crate::eval::{EvalStatus, EvalTrigger, Evaluation};
use crate::eval_queue::{is_next, requeued, EvalQueue, InFlightEval, QueueModel, QueuedEval};
use crate::id::{EvalId, JobId};
use crate::jobspec::{job_problem, Job};
use crate::node::Node;
use crate::raft::{RaftNode, RaftRole};
use crate::state::{derefs, outcome_matches, step, Command, Rejection, StateStore, StoreModel};
use crate::strmap::values;
use crate::text::{dec_digits, u128_to_string};
use vstd::prelude::*;

verus! {

/// Largest frame accepted (8 MiB). The length prefix comes from the network
/// and is untrusted; a larger claim is refused rather than allocated.
pub const MAX_FRAME: usize = 8388608;

/// A request a server can handle.
#[derive(Debug)]
pub enum Request {
    /// Register or update a job.
    JobRegister(Job),
    /// Deregister the job with the given name.
    JobDeregister(String),
    /// Register or update a client node.
    NodeRegister(Node),
    /// Dequeue a pending evaluation for the given scheduler types.
    EvalDequeue {
        /// Scheduler types the worker can handle (e.g. `["service"]`).
        schedulers: Vec<String>,
    },
    /// Heartbeat from a client node.
    NodeHeartbeat {
        /// The client node's identifier.
        node_id: String,
    },
    /// Request all allocations placed on a node.
    NodeGetAllocs {
        /// The node whose allocations to return.
        node_id: String,
    },
}

/// A response to a [`Request`].
#[derive(Debug)]
pub enum Response {
    /// A job was registered; an evaluation was created.
    JobRegistered {
        /// Id of the evaluation created for the registration.
        eval_id: EvalId,
    },
    /// The request was applied with no payload.
    Ack,
    /// The dequeued evaluation, if any was available.
    Eval(Option<Evaluation>),
    /// This node is not the leader; forward to `leader_addr`.
    NotLeader {
        /// Address of the current leader, if known.
        leader_addr: Option<String>,
    },
    /// All allocations placed on a requested node.
    NodeAllocs {
        /// Allocations assigned to the node.
        allocs: Vec<Allocation>,
    },
}

/// The abstract content of an endpoint.
pub struct EndpointView {
    /// The committed state.
    pub store: StoreModel,
    /// The consensus node's role.
    pub role: RaftRole,
    /// Number of committed entries.
    pub committed: nat,
    /// The known leader address.
    pub leader_addr: Option<Seq<char>>,
    /// The evaluation queue.
    pub queue: QueueModel,
}

/// The id of an evaluation created for job `name` at time `nanos`.
pub open spec fn eval_id_text(name: Seq<char>, nanos: nat) -> Seq<char> {
    "eval-"@ + name + "-"@ + dec_digits(nanos)
}

/// Whether `after` is `before` with one pending evaluation for job `name`
/// queued, with id `id`, the given priority and trigger, status pending.
pub open spec fn queued_one(before: QueueModel, after: QueueModel, id: Seq<char>, name: Seq<char>, priority: i32, trigger: EvalTrigger) -> bool {
    &&& after.pending.len() == before.pending.len() + 1
    &&& after.pending.drop_last() == before.pending
    &&& after.pending.last().seq == before.next_seq
    &&& after.pending.last().deliveries == 0
    &&& after.pending.last().eval.id@ == id
    &&& after.pending.last().eval.job_id@ == name
    &&& after.pending.last().eval.priority == priority
    &&& after.pending.last().eval.trigger == trigger
    &&& after.pending.last().eval.status == EvalStatus::Pending
    &&& after.next_seq == before.next_seq + 1
    &&& after.in_flight == before.in_flight
    &&& after.blocked == before.blocked
}

/// Queueing `e` queues one evaluation with its id, job, priority and
/// trigger.
proof fn lemma_queued_one(m: QueueModel, e: Evaluation)
    requires
        e.status == EvalStatus::Pending,
        m.next_seq < u64::MAX,
    ensures
        queued_one(m, crate::eval_queue::enqueued(m, e), e.id@, e.job_id@, e.priority, e.trigger),
{
    let m2 = crate::eval_queue::enqueued(m, e);
    assert(m2.pending.drop_last() =~= m.pending);
}

/// Whether `r` is a refusal on a follower, the endpoint unchanged.
pub open spec fn refused_as_follower(before: EndpointView, after: EndpointView, r: Result<Response>) -> bool {
    &&& r matches Ok(Response::NotLeader { leader_addr: a }) && match a {
        Some(s) => before.leader_addr == Some(s@),
        None => before.leader_addr is None,
    }
    &&& after == before
}

/// Whether `r` reports the rejection `rej`.
pub open spec fn reports(r: Result<Response>, rej: Rejection) -> bool {
    match rej {
        Rejection::Config(msg) => r matches Err(e) && e.is_config(msg),
        Rejection::Validation(msg) => r matches Err(e) && e.is_validation(msg),
    }
}

/// Whether committing `c` on the leader and queueing the follow-up
/// evaluation (`id`, job `name`, `priority`, `trigger`) went as prescribed,
/// succeeding when both did.
pub open spec fn committed_then_queued(
    before: EndpointView,
    after: EndpointView,
    c: Command,
    id: Seq<char>,
    name: Seq<char>,
    priority: i32,
    trigger: EvalTrigger,
    r: Result<Response>,
) -> bool {
    match step(before.store, c) {
        Err(rej) => reports(r, rej) && after == before,
        Ok(store) => {
            &&& after.store == store
            &&& after.committed == before.committed + 1
            &&& after.role == before.role
            &&& after.leader_addr == before.leader_addr
            &&& if before.queue.next_seq < u64::MAX {
                queued_one(before.queue, after.queue, id, name, priority, trigger) && r is Ok
            } else {
                (r matches Err(e) && e.is_runtime("eval queue sequence exhausted"@)) && after.queue == before.queue
            }
        },
    }
}

/// What handling `request` at time `nanos` does to an endpoint and answers.
pub open spec fn handled(before: EndpointView, after: EndpointView, request: Request, nanos: nat, r: Result<Response>) -> bool {
    match request {
        Request::JobRegister(job) => match job_problem(job) {
            Some(msg) => (r matches Err(e) && e.is_validation(msg)) && after == before,
            None => if before.role != RaftRole::Leader {
                refused_as_follower(before, after, r)
            } else {
                committed_then_queued(
                    before,
                    after,
                    Command::UpsertJob(job),
                    eval_id_text(job.name@, nanos),
                    job.name@,
                    job.priority,
                    EvalTrigger::JobRegister,
                    r,
                ) && (r is Ok ==> (r matches Ok(Response::JobRegistered { eval_id }) && eval_id@ == eval_id_text(job.name@, nanos)))
            },
        },
        Request::JobDeregister(name) => if before.role != RaftRole::Leader {
            refused_as_follower(before, after, r)
        } else {
            committed_then_queued(
                before,
                after,
                Command::DeregisterJob(name),
                eval_id_text(name@, nanos),
                name@,
                50,
                EvalTrigger::JobDeregister,
                r,
            ) && (r is Ok ==> (r matches Ok(Response::Ack)))
        },
        Request::NodeRegister(node) => if before.role != RaftRole::Leader {
            refused_as_follower(before, after, r)
        } else {
            match step(before.store, Command::UpsertNode(node)) {
                Err(rej) => reports(r, rej) && after == before,
                Ok(store) => {
                    &&& after.store == store
                    &&& after.committed == before.committed + 1
                    &&& after.role == before.role
                    &&& after.leader_addr == before.leader_addr
                    &&& if before.queue.blocked.len() + before.queue.next_seq <= u64::MAX {
                        (r matches Ok(Response::Ack)) && after.queue == (QueueModel {
                            pending: before.queue.pending + requeued(before.queue.blocked, before.queue.next_seq),
                            blocked: Seq::<Evaluation>::empty(),
                            next_seq: (before.queue.next_seq + before.queue.blocked.len()) as u64,
                            ..before.queue
                        })
                    } else {
                        (r matches Err(e) && e.is_runtime("eval queue sequence exhausted"@)) && after.queue == before.queue
                    }
                },
            }
        },
        Request::EvalDequeue { .. } => {
            &&& after.store == before.store && after.committed == before.committed && after.role == before.role
            &&& after.leader_addr == before.leader_addr
            &&& before.queue.pending.len() == 0 ==> (r matches Ok(Response::Eval(None))) && after.queue == before.queue
            &&& before.queue.pending.len() > 0 ==> exists|i: int| #[trigger] is_next(before.queue.pending, i)
                && (r matches Ok(Response::Eval(Some(x))) && x == before.queue.pending[i].eval) && after.queue == (QueueModel {
                pending: before.queue.pending.remove(i),
                in_flight: before.queue.in_flight.push(
                    InFlightEval {
                        deliveries: (before.queue.pending[i].deliveries + 1) as u32,
                        eval: before.queue.pending[i].eval,
                    },
                ),
                ..before.queue
            })
        },
        Request::NodeHeartbeat { .. } => (r matches Ok(Response::Ack)) && after == before,
        Request::NodeGetAllocs { node_id } => (r matches Ok(Response::NodeAllocs { allocs }) && allocs@ == values(
            before.store.allocs,
        ).filter(|a: Allocation| a.node_id@ == node_id@)) && after == before,
    }
}

/// `SystemTime::now()` as nanoseconds since the Unix epoch (0 for a clock
/// set before it). The clock decides, so nothing is stated of it.
#[verifier::external_body]
fn now_nanos() -> u128 {
    std::time::SystemTime::now().duration_since(std::time::UNIX_EPOCH).unwrap_or_default().as_nanos()
}

/// The in-tree request handler: a consensus node writes are committed
/// through, and the evaluation queue the scheduler drains.
#[derive(Debug)]
pub struct RpcEndpoint {
    /// Priority evaluation queue.
    eval_queue: EvalQueue,
    /// Consensus node writes are committed through.
    raft: RaftNode,
}

impl RpcEndpoint {
    /// The endpoint's abstract content.
    pub closed spec fn view(&self) -> EndpointView {
        EndpointView {
            store: self.raft.spec_state().model(),
            role: self.raft.spec_role(),
            committed: self.raft.spec_committed(),
            leader_addr: self.raft.spec_leader_addr(),
            queue: self.eval_queue.model(),
        }
    }

    /// An endpoint over its own single-node bootstrap leader.
    pub fn new(eval_queue: EvalQueue) -> (r: Self)
        ensures
            r.view().queue == eval_queue.model(),
            r.view().role == RaftRole::Leader,
            r.view().committed == 0,
            r.view().leader_addr is None,
            r.view().store.jobs.len() == 0,
            r.view().store.nodes.len() == 0,
            r.view().store.allocs.len() == 0,
            r.view().store.evals.len() == 0,
    {
        RpcEndpoint { eval_queue, raft: RaftNode::bootstrap("rpc-local") }
    }

    /// An endpoint over an existing consensus node.
    pub fn with_raft(eval_queue: EvalQueue, raft: RaftNode) -> (r: Self)
        ensures
            r.view().queue == eval_queue.model(),
            r.view().store == raft.spec_state().model(),
            r.view().role == raft.spec_role(),
            r.view().committed == raft.spec_committed(),
            r.view().leader_addr == raft.spec_leader_addr(),
            r.spec_node_id() == raft.spec_id(),
    {
        RpcEndpoint { eval_queue, raft }
    }

    /// The committed state, as the store that holds it.
    pub closed spec fn spec_store(&self) -> StateStore {
        self.raft.spec_state()
    }

    /// The id of the consensus node behind the endpoint.
    pub closed spec fn spec_node_id(&self) -> Seq<char> {
        self.raft.spec_id()
    }

    /// Propose a command through the consensus node; the queue is left
    /// alone.
    ///
    /// # Errors
    ///
    /// As [`RaftNode::propose`]: the node is not the leader, or the state
    /// rejects the command.
    pub fn propose(&mut self, command: Command) -> (r: Result<()>)
        ensures
            old(self).view().role != RaftRole::Leader ==> r is Err && final(self).view() == old(self).view(),
            old(self).view().role == RaftRole::Leader ==> outcome_matches(
                r,
                old(self).view().store,
                final(self).view().store,
                step(old(self).view().store, command),
            ),
            old(self).view().role == RaftRole::Leader ==> final(self).view().committed == old(self).view().committed
                + if r is Ok { 1nat } else { 0nat },
            final(self).view().queue == old(self).view().queue,
            final(self).view().role == old(self).view().role,
            final(self).view().leader_addr == old(self).view().leader_addr,
    {
        self.raft.propose(command)
    }

    /// The consensus node this endpoint commits through.
    pub fn raft(&self) -> (r: &RaftNode)
        ensures
            r.spec_state().model() == self.view().store,
            r.spec_state() == self.spec_store(),
            r.spec_role() == self.view().role,
            r.spec_committed() == self.view().committed,
            r.spec_id() == self.spec_node_id(),
    {
        &self.raft
    }

    /// The evaluation queue.
    pub fn queue(&self) -> (r: &EvalQueue)
        ensures
            r.model() == self.view().queue,
    {
        &self.eval_queue
    }

    /// The evaluation queue, for the scheduler to drain.
    pub fn queue_mut(&mut self) -> (r: &mut EvalQueue)
        ensures
            r.model() == old(self).view().queue,
            final(self).view() == (EndpointView { queue: final(r).model(), ..old(self).view() }),
            final(self).spec_store() == old(self).spec_store(),
    {
        &mut self.eval_queue
    }

    /// Handle a request and produce a response, stamping any evaluation it
    /// creates with the current time.
    ///
    /// # Errors
    ///
    /// Returns an error if the request is invalid, the state rejects it, or
    /// the evaluation queue cannot take the follow-up evaluation.
    pub fn handle(&mut self, request: Request) -> (r: Result<Response>)
        ensures
            exists|nanos: nat| handled(old(self).view(), final(self).view(), request, nanos, r),
    {
        let nanos = now_nanos();
        self.handle_at(request, nanos)
    }

    /// Handle a request at time `nanos` (nanoseconds since the Unix epoch),
    /// which names any evaluation it creates.
    ///
    /// # Errors
    ///
    /// As [`RpcEndpoint::handle`].
    pub fn handle_at(&mut self, request: Request, nanos: u128) -> (r: Result<Response>)
        ensures
            handled(old(self).view(), final(self).view(), request, nanos as nat, r),
    {
        match request {
            Request::JobRegister(job) => {
                match job.validate() {
                    Ok(()) => {},
                    Err(e) => {
                        return Err(e);
                    },
                }
                if !self.raft.is_leader() {
                    return Ok(Response::NotLeader { leader_addr: self.raft.leader_addr() });
                }
                let name = job.name.clone();
                let priority = job.priority;
                let ghost before = self.view();
                match self.raft.propose(Command::UpsertJob(job)) {
                    Ok(()) => {},
                    Err(e) => {
                        return Err(e);
                    },
                }
                let id = eval_id_for(name.as_str(), nanos);
                let eval = Evaluation {
                    id: EvalId::new(id.clone()),
                    job_id: JobId::new(name),
                    priority,
                    trigger: EvalTrigger::JobRegister,
                    status: EvalStatus::Pending,
                };
                proof {
                    if self.eval_queue.model().next_seq < u64::MAX {
                        lemma_queued_one(self.eval_queue.model(), eval);
                    }
                }
                match self.eval_queue.enqueue(eval) {
                    Ok(()) => {},
                    Err(e) => {
                        return Err(e);
                    },
                }
                Ok(Response::JobRegistered { eval_id: EvalId::new(id) })
            },
            Request::JobDeregister(name) => {
                if !self.raft.is_leader() {
                    return Ok(Response::NotLeader { leader_addr: self.raft.leader_addr() });
                }
                match self.raft.propose(Command::DeregisterJob(name.clone())) {
                    Ok(()) => {},
                    Err(e) => {
                        return Err(e);
                    },
                }
                let id = eval_id_for(name.as_str(), nanos);
                let eval = Evaluation {
                    id: EvalId::new(id),
                    job_id: JobId::new(name),
                    priority: 50,
                    trigger: EvalTrigger::JobDeregister,
                    status: EvalStatus::Pending,
                };
                proof {
                    if self.eval_queue.model().next_seq < u64::MAX {
                        lemma_queued_one(self.eval_queue.model(), eval);
                    }
                }
                match self.eval_queue.enqueue(eval) {
                    Ok(()) => {},
                    Err(e) => {
                        return Err(e);
                    },
                }
                Ok(Response::Ack)
            },
            Request::NodeRegister(node) => {
                if !self.raft.is_leader() {
                    return Ok(Response::NotLeader { leader_addr: self.raft.leader_addr() });
                }
                match self.raft.propose(Command::UpsertNode(node)) {
                    Ok(()) => {},
                    Err(e) => {
                        return Err(e);
                    },
                }
                match self.eval_queue.unblock_all() {
                    Ok(_) => {},
                    Err(e) => {
                        return Err(e);
                    },
                }
                Ok(Response::Ack)
            },
            Request::EvalDequeue { schedulers: _ } => {
                let next = self.eval_queue.dequeue();
                match next {
                    Ok(e) => Ok(Response::Eval(e)),
                    Err(e) => Err(e),
                }
            },
            Request::NodeHeartbeat { node_id } => {
                let _ = self.raft.heartbeat(node_id.as_str());
                Ok(Response::Ack)
            },
            Request::NodeGetAllocs { node_id } => {
                let found = self.raft.state().allocs_by_node(node_id.as_str());
                let mut allocs: Vec<Allocation> = Vec::new();
                let mut i: usize = 0;
                while i < found.len()
                    invariant
                        i <= found@.len(),
                        allocs@ == derefs(found@).take(i as int),
                    decreases found@.len() - i,
                {
                    allocs.push(found[i].clone());
                    assert(allocs@ =~= derefs(found@).take(i + 1));
                    i = i + 1;
                }
                assert(derefs(found@).take(i as int) =~= derefs(found@));
                Ok(Response::NodeAllocs { allocs })
            },
        }
    }
}

/// The id of an evaluation created for job `name` at time `nanos`.
fn eval_id_for(name: &str, nanos: u128) -> (r: String)
    ensures
        r@ == eval_id_text(name@, nanos as nat),
{
    let mut s = String::from_str("eval-");
    s.append(name);
    s.append("-");
    let digits = u128_to_string(nanos);
    s.append(digits.as_str());
    s
}

/// A frame for `payload`: its length as 4 big-endian bytes, then the
/// payload.
///
/// # Errors
///
/// Returns [`Error::Runtime`] when the payload is longer than
/// [`MAX_FRAME`].
pub fn encode_frame(payload: &[u8]) -> (r: Result<Vec<u8>>)
    ensures
        payload@.len() > MAX_FRAME ==> (r matches Err(e) && e.is_runtime("rpc frame exceeds maximum size"@)),
        payload@.len() <= MAX_FRAME ==> (r matches Ok(f) && f@ == frame_header(payload@.len()) + payload@),
{
    if payload.len() > MAX_FRAME {
        return Err(Error::Runtime("rpc frame exceeds maximum size".to_string()));
    }
    let n = payload.len() as u32;
    let mut out: Vec<u8> = Vec::new();
    out.push((n / 16777216) as u8);
    out.push(((n / 65536) % 256) as u8);
    out.push(((n / 256) % 256) as u8);
    out.push((n % 256) as u8);
    let mut i: usize = 0;
    while i < payload.len()
        invariant
            i <= payload@.len(),
            payload@.len() <= MAX_FRAME,
            n == payload@.len(),
            out@ == frame_header(n as nat) + payload@.take(i as int),
        decreases payload@.len() - i,
    {
        out.push(payload[i]);
        assert(payload@.take(i + 1) =~= payload@.take(i as int).push(payload@[i as int]));
        i = i + 1;
    }
    assert(payload@.take(i as int) =~= payload@);
    Ok(out)
}

/// The 4 big-endian bytes of a frame length.
pub open spec fn frame_header(n: nat) -> Seq<u8> {
    seq![(n / 16777216) as u8, ((n / 65536) % 256) as u8, ((n / 256) % 256) as u8, (n % 256) as u8]
}

/// The length a frame header announces.
pub open spec fn header_len(h: Seq<u8>) -> nat {
    (h[0] as nat) * 16777216 + (h[1] as nat) * 65536 + (h[2] as nat) * 256 + (h[3] as nat)
}

/// The payload length a frame header announces.
///
/// # Errors
///
/// Returns [`Error::Runtime`] when it is longer than [`MAX_FRAME`].
pub fn frame_len(header: [u8; 4]) -> (r: Result<usize>)
    ensures
        header_len(header@) > MAX_FRAME ==> (r matches Err(e) && e.is_runtime("rpc frame exceeds maximum size"@)),
        header_len(header@) <= MAX_FRAME ==> r == Ok::<usize, Error>(header_len(header@) as usize),
{
    let n: u64 = (header[0] as u64) * 16777216 + (header[1] as u64) * 65536 + (header[2] as u64) * 256 + (header[3] as u64);
    if n > MAX_FRAME as u64 {
        return Err(Error::Runtime("rpc frame exceeds maximum size".to_string()));
    }
    Ok(n as usize)
}

/// Reading back a frame's header gives the length it was written with.
pub proof fn law_frame_roundtrip(n: nat)
    requires
        n <= MAX_FRAME,
    ensures
        header_len(frame_header(n)) == n,
{
    let h = frame_header(n);
    assert(h[0] as nat == n / 16777216);
    assert(h[1] as nat == (n / 65536) % 256);
    assert(h[2] as nat == (n / 256) % 256);
    assert(h[3] as nat == n % 256);
    assert((n / 16777216) * 16777216 + ((n / 65536) % 256) * 65536 + ((n / 256) % 256) * 256 + n % 256 == n)
        by (nonlinear_arith)
        requires
            n <= MAX_FRAME,
    ;
}

/// Where a client should retry after `resp`: the leader's address, when the
/// response says this server is not the leader and names one.
pub fn forward_target(resp: &Response) -> (r: Option<String>)
    ensures
        match *resp {
            Response::NotLeader { leader_addr: Some(a) } => r matches Some(t) && t@ == a@,
            _ => r is None,
        },
{
    match resp {
        Response::NotLeader { leader_addr: Some(a) } => Some(a.clone()),
        _ => None,
    }
}

/// The view's committed state is the content of the endpoint's store.
pub proof fn lemma_endpoint_store(ep: &RpcEndpoint)
    ensures
        ep.view().store == ep.spec_store().model(),
{
}

} // verus!
