use nomad_rs::allocs::{Allocation, ClientStatus, DesiredStatus};
use nomad_rs::constraint::Constraint;
use nomad_rs::eval::{EvalStatus, EvalTrigger, Evaluation};
use nomad_rs::eval_queue::EvalQueue;
use nomad_rs::fsm::Fsm;
use nomad_rs::id::{EvalId, JobId};
use nomad_rs::jobspec::{Job, Resources, Task, TaskGroup};
use nomad_rs::node::{Node, NodeStatus, SchedulingEligibility};
use nomad_rs::constraint::Affinity;
use nomad_rs::scheduler::{
    apply_plan, desired_count, drain_queue, process_and_apply, process_eval, wants_placement, FirstFit, Ranker, Scheduler,
    SchedulerStatus, Slot,
};
use nomad_rs::state::{Command, StateStore};
use nomad_rs::strmap::StrMap;

fn node_with(id: &str, cpu: i32, mem: i32) -> Node {
    Node {
        id: id.to_owned(),
        name: "n".to_owned(),
        datacenter: "dc1".to_owned(),
        node_class: String::new(),
        resources: Resources { cpu_mhz: cpu, memory_mb: mem, network_mbps: 0 },
        status: NodeStatus::Ready,
        eligibility: SchedulingEligibility::Eligible,
        draining: false,
        attributes: StrMap::new(),
        drivers: StrMap::new(),
    }
}

fn job_with(name: &str, group: &str, cpu: i32, mem: i32) -> Job {
    let task = Task {
        name: "t".to_owned(),
        driver: "exec".to_owned(),
        config: StrMap::new(),
        resources: Resources { cpu_mhz: cpu, memory_mb: mem, network_mbps: 0 },
    };
    Job {
        name: name.to_owned(),
        task_groups: vec![TaskGroup {
            name: group.to_owned(),
            count: 1,
            tasks: vec![task],
            constraints: vec![],
            affinities: vec![],
            spreads: vec![],
        }],
        ..Job::default()
    }
}

fn eval_for(job: &str) -> Evaluation {
    eval_for_id("e1", job)
}

fn eval_for_id(id: &str, job: &str) -> Evaluation {
    Evaluation {
        id: EvalId::from_str(id),
        job_id: JobId::from_str(job),
        priority: 50,
        trigger: EvalTrigger::JobRegister,
        status: EvalStatus::Pending,
    }
}

fn linux_only() -> Vec<Constraint> {
    vec![Constraint { left: "os".to_owned(), right: "linux".to_owned(), operand: "=".to_owned() }]
}

#[test]
fn test_scheduler_new() {
    let scheduler = Scheduler::new();
    assert_eq!(scheduler.status(), SchedulerStatus::Initialized);
    assert!(!scheduler.is_running());
}

#[test]
fn test_scheduler_default() {
    let scheduler = Scheduler::default();
    assert_eq!(scheduler.status(), SchedulerStatus::Initialized);
}

#[test]
fn test_scheduler_stop_before_run() {
    let mut scheduler = Scheduler::new();
    assert_eq!(scheduler.status(), SchedulerStatus::Initialized);
    scheduler.stop();
    assert_eq!(scheduler.status(), SchedulerStatus::Stopped);
}

#[test]
fn scheduler_turns_drain_the_queue() {
    let mut scheduler = Scheduler::new();
    assert!(scheduler.begin_run());
    assert!(!scheduler.begin_run());
    let mut fsm = Fsm::new();
    fsm.apply(Command::UpsertNode(node_with("n1", 1000, 1024))).unwrap();
    fsm.apply(Command::UpsertJob(job_with("a", "g", 100, 100))).unwrap();
    fsm.apply(Command::UpsertJob(job_with("b", "g", 100, 100))).unwrap();
    let mut queue = EvalQueue::new();
    queue.enqueue(eval_for_id("ea", "a")).unwrap();
    queue.enqueue(eval_for_id("eb", "b")).unwrap();
    assert_eq!(scheduler.run_turn(&mut queue, &mut fsm, &FirstFit).unwrap(), 2);
    assert!(scheduler.is_running());
    assert_eq!(fsm.state().list_allocs().len(), 2);
    assert!(queue.dequeue().unwrap().is_none());
}

#[test]
fn process_eval_places_alloc_on_feasible_node() {
    let mut state = StateStore::new();
    state.upsert_node(node_with("node1", 1000, 1024)).unwrap();
    state.upsert_job(job_with("web", "g1", 500, 512)).unwrap();

    let plan = process_eval(&eval_for("web"), &state, &FirstFit);

    assert_eq!(plan.allocs.len(), 1);
    let alloc = &plan.allocs[0];
    assert_eq!(alloc.node_id, "node1");
    assert_eq!(alloc.job_id, "web");
    assert_eq!(alloc.task_group, "g1");
    assert_eq!(alloc.eval_id, "e1");
    assert_eq!(alloc.desired_status, DesiredStatus::Run);
}

#[test]
fn process_eval_empty_when_no_node_fits() {
    let mut state = StateStore::new();
    state.upsert_node(node_with("node1", 100, 128)).unwrap();
    state.upsert_job(job_with("web", "g1", 500, 512)).unwrap();
    let plan = process_eval(&eval_for("web"), &state, &FirstFit);
    assert!(plan.allocs.is_empty());
}

#[test]
fn process_eval_empty_when_job_missing() {
    let state = StateStore::new();
    let plan = process_eval(&eval_for("ghost"), &state, &FirstFit);
    assert!(plan.allocs.is_empty());
}

#[test]
fn process_eval_subtracts_existing_allocs_from_capacity() {
    let mut state = StateStore::new();
    state.upsert_node(node_with("node1", 1000, 1024)).unwrap();
    state
        .upsert_alloc(Allocation {
            id: "old".to_owned(),
            eval_id: "e0".to_owned(),
            node_id: "node1".to_owned(),
            job_id: "other".to_owned(),
            task_group: "g".to_owned(),
            desired_status: DesiredStatus::Run,
            client_status: ClientStatus::Running,
            resources: Resources { cpu_mhz: 800, memory_mb: 800, network_mbps: 0 },
        })
        .unwrap();
    state.upsert_job(job_with("web", "g1", 500, 512)).unwrap();
    let plan = process_eval(&eval_for("web"), &state, &FirstFit);
    assert!(plan.allocs.is_empty());
}

#[test]
fn process_eval_ignores_terminal_allocs_for_capacity() {
    let mut state = StateStore::new();
    state.upsert_node(node_with("node1", 1000, 1024)).unwrap();
    state
        .upsert_alloc(Allocation {
            id: "done".to_owned(),
            eval_id: "e0".to_owned(),
            node_id: "node1".to_owned(),
            job_id: "other".to_owned(),
            task_group: "g".to_owned(),
            desired_status: DesiredStatus::Stop,
            client_status: ClientStatus::Complete,
            resources: Resources { cpu_mhz: 800, memory_mb: 800, network_mbps: 0 },
        })
        .unwrap();
    state.upsert_job(job_with("web", "g1", 500, 512)).unwrap();
    let plan = process_eval(&eval_for("web"), &state, &FirstFit);
    assert_eq!(plan.allocs.len(), 1);
}

#[test]
fn process_eval_emits_one_alloc_per_count() {
    let mut state = StateStore::new();
    state.upsert_node(node_with("node1", 1000, 1024)).unwrap();
    let mut job = job_with("web", "g1", 100, 128);
    job.task_groups[0].count = 3;
    state.upsert_job(job).unwrap();
    let plan = process_eval(&eval_for("web"), &state, &FirstFit);
    assert_eq!(plan.allocs.len(), 3);
    assert!(plan.allocs.iter().all(|a| a.node_id == "node1"));
}

#[test]
fn process_and_apply_writes_allocs_to_state() {
    let mut fsm = Fsm::new();
    fsm.apply(Command::UpsertNode(node_with("node1", 1000, 1024))).unwrap();
    fsm.apply(Command::UpsertJob(job_with("web", "g1", 500, 512))).unwrap();

    let plan = process_and_apply(&eval_for("web"), &mut fsm, &FirstFit).unwrap();

    assert_eq!(plan.allocs.len(), 1);
    assert_eq!(fsm.state().allocs_by_node("node1").len(), 1);
    assert_eq!(fsm.state().allocs_by_job("web").len(), 1);
}

#[test]
fn drain_queue_processes_all_pending_evals() {
    let mut fsm = Fsm::new();
    fsm.apply(Command::UpsertNode(node_with("node1", 1000, 1024))).unwrap();
    fsm.apply(Command::UpsertJob(job_with("a", "g", 100, 100))).unwrap();
    fsm.apply(Command::UpsertJob(job_with("b", "g", 100, 100))).unwrap();
    let mut queue = EvalQueue::new();
    queue.enqueue(eval_for_id("ea", "a")).unwrap();
    queue.enqueue(eval_for_id("eb", "b")).unwrap();

    let placed = drain_queue(&mut queue, &mut fsm, &FirstFit).unwrap();

    assert_eq!(placed, 2, "both evals placed one alloc each");
    assert!(queue.dequeue().unwrap().is_none(), "queue drained");
    assert_eq!(fsm.state().list_allocs().len(), 2);
}

#[test]
fn drain_queue_blocks_unplaceable_eval() {
    let mut fsm = Fsm::new();
    fsm.apply(Command::UpsertNode(node_with("node1", 100, 128))).unwrap();
    fsm.apply(Command::UpsertJob(job_with("big", "g", 500, 512))).unwrap();
    let mut queue = EvalQueue::new();
    queue.enqueue(eval_for_id("e", "big")).unwrap();

    let placed = drain_queue(&mut queue, &mut fsm, &FirstFit).unwrap();

    assert_eq!(placed, 0);
    assert_eq!(queue.blocked_len(), 1, "unplaceable eval parked as blocked");
    assert_eq!(queue.in_flight_len(), 0, "and acked off the in-flight set");
}

#[test]
fn drain_queue_does_not_block_when_job_absent() {
    let mut fsm = Fsm::new();
    let mut queue = EvalQueue::new();
    queue.enqueue(eval_for_id("e", "ghost")).unwrap();
    drain_queue(&mut queue, &mut fsm, &FirstFit).unwrap();
    assert_eq!(queue.blocked_len(), 0);
}

#[test]
fn process_and_apply_second_eval_respects_first_placement() {
    let mut fsm = Fsm::new();
    fsm.apply(Command::UpsertNode(node_with("node1", 600, 600))).unwrap();
    fsm.apply(Command::UpsertJob(job_with("a", "g", 500, 500))).unwrap();
    fsm.apply(Command::UpsertJob(job_with("b", "g", 500, 500))).unwrap();

    let first = process_and_apply(&eval_for("a"), &mut fsm, &FirstFit).unwrap();
    let second = process_and_apply(&eval_for("b"), &mut fsm, &FirstFit).unwrap();

    assert_eq!(first.allocs.len(), 1, "first job placed");
    assert!(second.allocs.is_empty(), "second job has no capacity left");
    assert_eq!(fsm.state().allocs_by_node("node1").len(), 1);
}

#[test]
fn process_eval_does_not_oversubscribe_node_for_count() {
    let mut state = StateStore::new();
    state.upsert_node(node_with("node1", 600, 600)).unwrap();
    let mut job = job_with("web", "g1", 250, 250);
    job.task_groups[0].count = 3;
    state.upsert_job(job).unwrap();
    let plan = process_eval(&eval_for("web"), &state, &FirstFit);
    assert_eq!(plan.allocs.len(), 2);
}

#[test]
fn process_eval_enforces_network_demand() {
    let mut state = StateStore::new();
    state.upsert_node(node_with("node1", 1000, 1024)).unwrap();
    let mut job = job_with("web", "g1", 100, 128);
    job.task_groups[0].tasks[0].resources.network_mbps = 10;
    state.upsert_job(job).unwrap();
    let plan = process_eval(&eval_for("web"), &state, &FirstFit);
    assert!(plan.allocs.is_empty());
}

#[test]
fn process_eval_skips_node_failing_constraint() {
    let mut state = StateStore::new();
    let mut node = node_with("win1", 1000, 1024);
    node.attributes.insert("os".to_owned(), "windows".to_owned());
    state.upsert_node(node).unwrap();
    let mut job = job_with("web", "g1", 100, 128);
    job.task_groups[0].constraints = linux_only();
    state.upsert_job(job).unwrap();
    let plan = process_eval(&eval_for("web"), &state, &FirstFit);
    assert!(plan.allocs.is_empty(), "windows node fails os=linux constraint");
}

#[test]
fn process_eval_steers_to_constraint_satisfying_node() {
    let mut state = StateStore::new();
    let mut win = node_with("win1", 1000, 1024);
    win.attributes.insert("os".to_owned(), "windows".to_owned());
    let mut lin = node_with("lin1", 1000, 1024);
    lin.attributes.insert("os".to_owned(), "linux".to_owned());
    state.upsert_node(win).unwrap();
    state.upsert_node(lin).unwrap();
    let mut job = job_with("web", "g1", 100, 128);
    job.task_groups[0].constraints = linux_only();
    state.upsert_job(job).unwrap();
    let plan = process_eval(&eval_for("web"), &state, &FirstFit);
    assert_eq!(plan.allocs.len(), 1);
    assert_eq!(plan.allocs[0].node_id, "lin1", "placed only on the linux node");
}

#[test]
fn process_eval_skips_ineligible_and_down_nodes() {
    let mut down = node_with("down1", 1000, 1024);
    down.status = NodeStatus::Down;
    let mut inelig = node_with("inelig1", 1000, 1024);
    inelig.eligibility = SchedulingEligibility::Ineligible;
    let mut draining = node_with("drain1", 1000, 1024);
    draining.draining = true;
    let mut state = StateStore::new();
    state.upsert_node(down).unwrap();
    state.upsert_node(inelig).unwrap();
    state.upsert_node(draining).unwrap();
    state.upsert_job(job_with("web", "g1", 100, 128)).unwrap();
    let plan = process_eval(&eval_for("web"), &state, &FirstFit);
    assert!(plan.allocs.is_empty());
}

#[test]
fn first_fit_fills_nodes_in_order() {
    let mut state = StateStore::new();
    state.upsert_node(node_with("a", 300, 300)).unwrap();
    state.upsert_node(node_with("b", 1000, 1000)).unwrap();
    let mut job = job_with("web", "g1", 200, 200);
    job.task_groups[0].count = 3;
    state.upsert_job(job).unwrap();
    let plan = process_eval(&eval_for("web"), &state, &FirstFit);
    let nodes: Vec<&str> = plan.allocs.iter().map(|a| a.node_id.as_str()).collect();
    assert_eq!(nodes, vec!["a", "b", "b"]);
    let ids: Vec<&str> = plan.allocs.iter().map(|a| a.id.as_str()).collect();
    assert_eq!(ids, vec!["e1-0", "e1-1", "e1-2"]);
    assert!(plan.allocs.iter().all(|a| a.client_status == ClientStatus::Pending));
}

#[test]
fn desired_count_and_wanting_placement() {
    let mut state = StateStore::new();
    let mut job = job_with("web", "g1", 100, 100);
    job.task_groups[0].count = 4;
    state.upsert_job(job).unwrap();
    assert_eq!(desired_count(&eval_for("web"), &state), 4);
    assert!(wants_placement(&eval_for("web"), &state));
    assert_eq!(desired_count(&eval_for("ghost"), &state), 0);
    assert!(!wants_placement(&eval_for("ghost"), &state));
}

#[test]
fn apply_plan_stops_at_the_first_rejected_alloc() {
    let mut fsm = Fsm::new();
    let good = Allocation {
        id: "a1".to_owned(),
        eval_id: "e".to_owned(),
        node_id: "n1".to_owned(),
        job_id: "web".to_owned(),
        task_group: "g".to_owned(),
        desired_status: DesiredStatus::Run,
        client_status: ClientStatus::Pending,
        resources: Resources::default(),
    };
    let mut bad = good.clone();
    bad.id = "a2".to_owned();
    bad.node_id = String::new();
    let mut after = good.clone();
    after.id = "a3".to_owned();
    let plan = nomad_rs::scheduler::Plan { allocs: vec![good, bad, after] };
    assert!(apply_plan(&mut fsm, &plan).is_err());
    assert_eq!(fsm.state().list_allocs().len(), 1);
}

struct Prefer(&'static str);

impl Ranker for Prefer {
    fn rank(&self, node: &Node, _free: &Slot, _need: &Resources, _group: &TaskGroup, _state: &StateStore) -> u64 {
        if node.id == self.0 { 10 } else { 1 }
    }
}

fn job_with_affinity() -> Job {
    let mut job = job_with("web", "g", 100, 100);
    job.task_groups[0].affinities =
        vec![Affinity { left: "dc".to_owned(), right: "dc1".to_owned(), operand: "=".to_owned(), weight: 50 }];
    job
}

#[test]
fn preferences_place_on_the_highest_ranked_node() {
    let mut state = StateStore::new();
    state.upsert_node(node_with("node1", 1000, 1000)).unwrap();
    state.upsert_node(node_with("node2", 1000, 1000)).unwrap();
    state.upsert_job(job_with_affinity()).unwrap();
    let plan = process_eval(&eval_for("web"), &state, &Prefer("node2"));
    assert_eq!(plan.allocs.len(), 1);
    assert_eq!(plan.allocs[0].node_id, "node2");
    let tie = process_eval(&eval_for("web"), &state, &Prefer("none"));
    assert_eq!(tie.allocs[0].node_id, "node1", "equal keys keep the earliest node");
}
