use nomad_rs::eval::{EvalStatus, EvalTrigger, Evaluation};
use nomad_rs::eval_queue::EvalQueue;
use nomad_rs::id::{EvalId, JobId};
use nomad_rs::jobspec::{Job, Resources};
use nomad_rs::node::{Node, NodeStatus, SchedulingEligibility};
use nomad_rs::raft::RaftNode;
use nomad_rs::rpc::{encode_frame, forward_target, frame_len, Request, Response, RpcEndpoint, MAX_FRAME};
use nomad_rs::strmap::StrMap;

fn node(id: &str) -> Node {
    Node {
        id: id.to_owned(),
        name: id.to_owned(),
        datacenter: "dc1".to_owned(),
        node_class: String::new(),
        resources: Resources::default(),
        status: NodeStatus::Ready,
        eligibility: SchedulingEligibility::Eligible,
        draining: false,
        attributes: StrMap::new(),
        drivers: StrMap::new(),
    }
}

fn job(name: &str) -> Job {
    Job { name: name.to_owned(), ..Job::default() }
}

#[test]
fn job_register_returns_eval_id() {
    let mut ep = RpcEndpoint::new(EvalQueue::new());
    let resp = ep.handle(Request::JobRegister(job("redis"))).unwrap();
    assert!(matches!(resp, Response::JobRegistered { .. }));
}

#[test]
fn eval_dequeue_returns_eval_variant() {
    let mut ep = RpcEndpoint::new(EvalQueue::new());
    let req = Request::EvalDequeue { schedulers: vec!["service".to_owned()] };
    assert!(matches!(ep.handle(req).unwrap(), Response::Eval(_)));
}

#[test]
fn job_register_enqueues_and_dequeue_returns_it() {
    let mut ep = RpcEndpoint::new(EvalQueue::new());
    let resp = ep.handle(Request::JobRegister(job("web"))).unwrap();
    let Response::JobRegistered { eval_id } = resp else { panic!("expected JobRegistered") };
    assert!(!eval_id.is_empty());
    let dequeued = ep.queue_mut().dequeue().unwrap().unwrap();
    assert_eq!(dequeued.id, eval_id);
    assert_eq!(dequeued.job_id.as_str(), "web");
    assert_eq!(dequeued.status, EvalStatus::Pending);
}

#[test]
fn dequeue_returns_highest_priority_first() {
    let mut ep = RpcEndpoint::new(EvalQueue::new());
    ep.handle(Request::JobRegister(Job { name: "low".to_owned(), priority: 30, ..Job::default() })).unwrap();
    ep.handle(Request::JobRegister(Job { name: "high".to_owned(), priority: 80, ..Job::default() })).unwrap();
    let first = ep.queue_mut().dequeue().unwrap().unwrap();
    assert_eq!(first.job_id.as_str(), "high");
    let second = ep.queue_mut().dequeue().unwrap().unwrap();
    assert_eq!(second.job_id.as_str(), "low");
}

#[test]
fn empty_dequeue_returns_none() {
    let mut ep = RpcEndpoint::new(EvalQueue::new());
    let req = Request::EvalDequeue { schedulers: vec!["service".to_owned()] };
    let resp = ep.handle(req).unwrap();
    assert!(matches!(resp, Response::Eval(None)));
}

#[test]
fn job_register_persists_job_to_state() {
    let mut ep = RpcEndpoint::new(EvalQueue::new());
    ep.handle(Request::JobRegister(job("redis"))).unwrap();
    assert!(ep.raft().state().get_job("redis").is_some());
}

#[test]
fn node_register_persists_node_to_state() {
    let mut ep = RpcEndpoint::new(EvalQueue::new());
    assert!(matches!(ep.handle(Request::NodeRegister(node("n1"))).unwrap(), Response::Ack));
    assert!(ep.raft().state().get_node("n1").is_some());
}

#[test]
fn node_register_unblocks_blocked_evals() {
    let mut ep = RpcEndpoint::new(EvalQueue::new());
    ep.queue_mut()
        .block(Evaluation {
            id: EvalId::from_str("blocked1"),
            job_id: JobId::from_str("web"),
            priority: 50,
            trigger: EvalTrigger::JobRegister,
            status: EvalStatus::Pending,
        })
        .unwrap();
    assert_eq!(ep.queue().blocked_len(), 1);
    ep.handle(Request::NodeRegister(node("n1"))).unwrap();
    assert_eq!(ep.queue().blocked_len(), 0, "node join re-tried blocked evals");
    assert_eq!(ep.queue().len(), 1, "blocked eval moved to pending heap");
}

#[test]
fn write_on_follower_returns_not_leader() {
    let mut ep = RpcEndpoint::with_raft(EvalQueue::new(), RaftNode::new("f1"));
    let resp = ep.handle(Request::JobRegister(job("x"))).unwrap();
    assert!(matches!(resp, Response::NotLeader { .. }));
}

#[test]
fn job_deregister_removes_job_and_enqueues_cleanup_eval() {
    let mut ep = RpcEndpoint::with_raft(EvalQueue::new(), RaftNode::bootstrap("l1"));
    ep.handle(Request::JobRegister(job("web"))).unwrap();
    let _ = ep.queue_mut().dequeue().unwrap();
    ep.handle(Request::JobDeregister("web".to_owned())).unwrap();
    assert!(ep.raft().state().get_job("web").is_none());
    let cleanup = ep.queue_mut().dequeue().unwrap().expect("cleanup eval enqueued");
    assert_eq!(cleanup.job_id.as_str(), "web");
    assert_eq!(cleanup.trigger, EvalTrigger::JobDeregister);
}

#[test]
fn node_heartbeat_acknowledged() {
    let mut ep = RpcEndpoint::new(EvalQueue::new());
    ep.handle(Request::NodeRegister(node("n1"))).unwrap();
    let resp = ep.handle(Request::NodeHeartbeat { node_id: "n1".to_owned() }).unwrap();
    assert!(matches!(resp, Response::Ack));
}

#[test]
fn node_get_allocs_returns_empty_for_unknown_node() {
    let mut ep = RpcEndpoint::new(EvalQueue::new());
    let resp = ep.handle(Request::NodeGetAllocs { node_id: "n1".to_owned() }).unwrap();
    assert!(matches!(resp, Response::NodeAllocs { ref allocs } if allocs.is_empty()));
}

#[test]
fn eval_ids_are_named_after_job_and_time() {
    let mut ep = RpcEndpoint::new(EvalQueue::new());
    let resp = ep.handle_at(Request::JobRegister(job("redis")), 42).unwrap();
    let Response::JobRegistered { eval_id } = resp else { panic!("expected JobRegistered") };
    assert_eq!(eval_id.as_str(), "eval-redis-42");
}

#[test]
fn not_leader_without_address_passes_through() {
    let mut ep = RpcEndpoint::with_raft(EvalQueue::new(), RaftNode::new("f1"));
    let resp = ep.handle(Request::NodeRegister(node("n1"))).unwrap();
    assert!(matches!(resp, Response::NotLeader { leader_addr: None }));
    assert_eq!(forward_target(&resp), None);
}

#[test]
fn not_leader_forwards_to_known_leader() {
    let mut follower = RaftNode::new("f1");
    follower.set_leader_addr(Some("10.0.0.1:4647".to_owned()));
    let mut ep = RpcEndpoint::with_raft(EvalQueue::new(), follower);
    let resp = ep.handle(Request::NodeRegister(node("n1"))).unwrap();
    assert_eq!(forward_target(&resp).as_deref(), Some("10.0.0.1:4647"));
}

#[test]
fn invalid_job_is_rejected_without_state_change() {
    let mut ep = RpcEndpoint::new(EvalQueue::new());
    assert!(ep.handle(Request::JobRegister(job(""))).is_err());
    assert!(ep.queue().is_empty());
    assert!(ep.raft().state().list_jobs().is_empty());
}

#[test]
fn frame_roundtrips_a_payload() {
    let payload = b"{\"JobDeregister\":\"x\"}";
    let frame = encode_frame(payload).unwrap();
    assert_eq!(&frame[..4], &[0, 0, 0, payload.len() as u8]);
    assert_eq!(frame_len([frame[0], frame[1], frame[2], frame[3]]).unwrap(), payload.len());
    assert_eq!(&frame[4..], payload);
}

#[test]
fn oversized_frames_are_refused() {
    let big = vec![0u8; MAX_FRAME + 1];
    assert_eq!(encode_frame(&big).unwrap_err().message(), "runtime error: rpc frame exceeds maximum size");
    assert!(frame_len([0, 0x80, 0, 1]).is_err());
    assert_eq!(frame_len([0, 0x80, 0, 0]).unwrap(), MAX_FRAME);
}
