use nomad_rs::allocs::{Allocation, ClientStatus, DesiredStatus};
use nomad_rs::eval::{EvalStatus, EvalTrigger, Evaluation};
use nomad_rs::fsm::Fsm;
use nomad_rs::id::{EvalId, JobId};
use nomad_rs::jobspec::{Job, Resources};
use nomad_rs::node::{Node, NodeStatus, SchedulingEligibility};
use nomad_rs::state::{Command, StateStore};
use nomad_rs::strmap::StrMap;

fn job(name: &str) -> Job {
    Job { name: name.to_owned(), ..Job::default() }
}

fn node(id: &str) -> Node {
    Node {
        id: id.to_owned(),
        name: id.to_owned(),
        datacenter: "dc1".to_owned(),
        node_class: String::new(),
        resources: Resources::default(),
        status: NodeStatus::Ready,
        eligibility: SchedulingEligibility::Eligible,
        draining: false,
        attributes: StrMap::new(),
        drivers: StrMap::new(),
    }
}

fn alloc_rec(id: &str, node_id: &str, job_id: &str) -> Allocation {
    Allocation {
        id: id.to_owned(),
        eval_id: "e1".to_owned(),
        node_id: node_id.to_owned(),
        job_id: job_id.to_owned(),
        task_group: "g".to_owned(),
        desired_status: DesiredStatus::Run,
        client_status: ClientStatus::Running,
        resources: Resources::default(),
    }
}

fn eval(id: &str) -> Evaluation {
    Evaluation {
        id: EvalId::from_str(id),
        job_id: JobId::from_str("redis"),
        priority: 50,
        trigger: EvalTrigger::JobRegister,
        status: EvalStatus::Pending,
    }
}

#[test]
fn new_store_has_no_jobs() {
    assert!(StateStore::new().list_jobs().is_empty());
}

#[test]
fn upsert_then_get_job() {
    let mut s = StateStore::new();
    s.upsert_job(job("redis")).unwrap();
    assert_eq!(s.get_job("redis").unwrap().name, "redis");
}

#[test]
fn get_missing_job_is_none() {
    assert!(StateStore::new().get_job("nope").is_none());
}

#[test]
fn upsert_replaces_job() {
    let mut s = StateStore::new();
    s.upsert_job(job("redis")).unwrap();
    s.upsert_job(job("redis")).unwrap();
    assert_eq!(s.list_jobs().len(), 1);
}

#[test]
fn delete_job_removes_it() {
    let mut s = StateStore::new();
    s.upsert_job(job("redis")).unwrap();
    s.delete_job("redis").unwrap();
    assert!(s.get_job("redis").is_none());
}

#[test]
fn delete_missing_job_errors() {
    let mut s = StateStore::new();
    assert!(s.delete_job("nope").is_err());
}

#[test]
fn upsert_then_get_node() {
    let mut s = StateStore::new();
    s.upsert_node(node("n1")).unwrap();
    assert_eq!(s.get_node("n1").unwrap().id, "n1");
}

#[test]
fn list_nodes_reflects_inserts() {
    let mut s = StateStore::new();
    s.upsert_node(node("n1")).unwrap();
    s.upsert_node(node("n2")).unwrap();
    assert_eq!(s.list_nodes().len(), 2);
}

#[test]
fn allocs_filtered_by_node() {
    let mut s = StateStore::new();
    s.upsert_alloc(alloc_rec("a1", "n1", "redis")).unwrap();
    s.upsert_alloc(alloc_rec("a2", "n2", "redis")).unwrap();
    assert_eq!(s.allocs_by_node("n1").len(), 1);
}

#[test]
fn allocs_filtered_by_job() {
    let mut s = StateStore::new();
    s.upsert_alloc(alloc_rec("a1", "n1", "redis")).unwrap();
    s.upsert_alloc(alloc_rec("a2", "n1", "web")).unwrap();
    assert_eq!(s.allocs_by_job("redis").len(), 1);
}

#[test]
fn upsert_then_get_eval() {
    let mut s = StateStore::new();
    s.upsert_eval(eval("ev1")).unwrap();
    assert_eq!(s.get_eval("ev1").unwrap().id.as_str(), "ev1");
}

#[test]
fn invalid_records_are_rejected_and_leave_state_unchanged() {
    let mut s = StateStore::new();
    assert!(s.upsert_job(job("")).is_err());
    assert!(s.upsert_node(node("")).is_err());
    assert!(s.upsert_alloc(alloc_rec("a1", "", "redis")).is_err());
    assert!(s.list_jobs().is_empty() && s.list_nodes().is_empty() && s.list_allocs().is_empty());
}

#[test]
fn apply_routes_commands() {
    let mut s = StateStore::new();
    s.apply(Command::UpsertNode(node("n1"))).unwrap();
    s.apply(Command::UpsertAlloc(alloc_rec("a1", "n1", "redis"))).unwrap();
    s.apply(Command::UpsertEval(eval("ev1"))).unwrap();
    assert_eq!(s.list_allocs().len(), 1);
    assert_eq!(s.list_evals().len(), 1);
    assert!(s.apply(Command::DeregisterJob("redis".to_owned())).is_err());
}

#[test]
fn new_fsm_state_is_empty() {
    assert!(Fsm::new().state().list_jobs().is_empty());
}

#[test]
fn apply_upsert_job_makes_it_readable() {
    let mut fsm = Fsm::new();
    fsm.apply(Command::UpsertJob(job("redis"))).unwrap();
    assert!(fsm.state().get_job("redis").is_some());
}

#[test]
fn apply_deregister_removes_job() {
    let mut fsm = Fsm::new();
    fsm.apply(Command::UpsertJob(job("redis"))).unwrap();
    fsm.apply(Command::DeregisterJob("redis".to_owned())).unwrap();
    assert!(fsm.state().get_job("redis").is_none());
}
