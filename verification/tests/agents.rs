use nomad_rs::agent::{Agent, AgentStatus};
use nomad_rs::client::{Client, ClientStatus};
use nomad_rs::config::Config;
use nomad_rs::eval_queue::EvalQueue;
use nomad_rs::jobspec::{Job, Resources, Task, TaskGroup};
use nomad_rs::node::{Node, NodeStatus, SchedulingEligibility};
use nomad_rs::raft::RaftRole;
use nomad_rs::rpc::{Request, RpcEndpoint};
use nomad_rs::scheduler::FirstFit;
use nomad_rs::server::{worker_step, Server, ServerStatus, WorkerStep};
use nomad_rs::strmap::StrMap;
use nomad_rs::raft::RaftNode;

fn client_config() -> Config {
    Config { node_name: "test-client".to_owned(), ..Config::default() }
}

fn server_config() -> Config {
    Config { node_name: "test-server".to_owned(), bind_addr: "0.0.0.0:4647".to_owned(), ..Config::default() }
}

fn node_with(id: &str, cpu: i32, mem: i32) -> Node {
    Node {
        id: id.to_owned(),
        name: id.to_owned(),
        datacenter: "dc1".to_owned(),
        node_class: String::new(),
        resources: Resources { cpu_mhz: cpu, memory_mb: mem, network_mbps: 0 },
        status: NodeStatus::Ready,
        eligibility: SchedulingEligibility::Eligible,
        draining: false,
        attributes: StrMap::new(),
        drivers: StrMap::new(),
    }
}

fn job_with(name: &str, cpu: i32, mem: i32) -> Job {
    let task = Task {
        name: "t".to_owned(),
        driver: "exec".to_owned(),
        config: StrMap::new(),
        resources: Resources { cpu_mhz: cpu, memory_mb: mem, network_mbps: 0 },
    };
    Job {
        name: name.to_owned(),
        task_groups: vec![TaskGroup { name: "web".to_owned(), count: 1, tasks: vec![task], constraints: vec![], affinities: vec![], spreads: vec![] }],
        ..Job::default()
    }
}

#[test]
fn test_client_new() {
    let config = client_config();
    let client = Client::new(config.clone());
    assert_eq!(client.status(), ClientStatus::Initialized);
    assert!(!client.is_running());
    assert_eq!(*client.config(), config);
}

#[test]
fn test_client_config_accessor() {
    let client = Client::new(client_config());
    assert_eq!(client.config().node_name, "test-client");
}

#[test]
fn test_client_stop_before_run() {
    let mut client = Client::new(client_config());
    assert_eq!(client.status(), ClientStatus::Initialized);
    client.stop();
    assert_eq!(client.status(), ClientStatus::Stopped);
}

#[test]
fn client_failed_connection_returns_to_initialized() {
    let mut client = Client::new(client_config());
    assert!(client.begin_run());
    assert!(client.is_running());
    assert!(!client.begin_run());
    client.connect_failed();
    assert_eq!(client.status(), ClientStatus::Initialized);
}

#[test]
fn client_server_address_defaults() {
    let mut client = Client::new(client_config());
    assert_eq!(client.server_addr(), "127.0.0.1:4646");
    client.set_server_addr("10.1.2.3:4647".to_owned());
    assert_eq!(client.server_addr(), "10.1.2.3:4647");
}

#[test]
fn client_registers_itself_as_an_initializing_node() {
    let client = Client::new(client_config());
    let node = client.registration();
    assert_eq!(node.id, "test-client");
    assert_eq!(node.name, "test-client");
    assert_eq!(node.datacenter, "dc1");
    assert_eq!(node.status, NodeStatus::Init);
    assert!(node.attributes.is_empty() && node.drivers.is_empty());
    assert!(node.validate().is_ok());
}

#[test]
fn test_server_new() {
    let config = server_config();
    let server = Server::new(config.clone());
    assert_eq!(server.status(), ServerStatus::Initialized);
    assert!(!server.is_running());
    assert_eq!(*server.config(), config);
}

#[test]
fn test_server_config_accessor() {
    let server = Server::new(server_config());
    assert_eq!(server.config().bind_addr, "0.0.0.0:4647");
}

#[test]
fn test_server_stop_before_run() {
    let mut server = Server::new(server_config());
    assert_eq!(server.status(), ServerStatus::Initialized);
    server.stop();
    assert_eq!(server.status(), ServerStatus::Stopped);
}

#[test]
fn test_server_run_idempotent() {
    let mut server = Server::new(server_config());
    assert!(server.begin_run());
    assert!(server.is_running());
    assert!(!server.begin_run());
    assert!(server.is_running());
    server.stop();
    assert_eq!(server.status(), ServerStatus::Stopped);
}

#[test]
fn worker_places_alloc_for_registered_job() {
    let mut server = Server::new(server_config());
    assert_eq!(server.raft().role(), RaftRole::Leader);
    server.endpoint_mut().handle(Request::NodeRegister(node_with("n1", 1000, 1024))).unwrap();
    server.endpoint_mut().handle(Request::JobRegister(job_with("redis", 100, 128))).unwrap();
    assert_eq!(server.worker_step(&FirstFit), WorkerStep::Acked);
    assert_eq!(server.raft().state().list_allocs().len(), 1);
    assert_eq!(server.endpoint().queue().in_flight_len(), 0);
    assert_eq!(server.worker_step(&FirstFit), WorkerStep::Idle);
}

#[test]
fn worker_is_idle_on_a_follower() {
    let mut ep = RpcEndpoint::with_raft(EvalQueue::new(), RaftNode::new("f1"));
    assert_eq!(worker_step(&mut ep, &FirstFit), WorkerStep::Idle);
}

#[test]
fn agent_starts_and_stops_its_sub_agents() {
    let mut agent = Agent::new(client_config());
    assert_eq!(agent.status(), AgentStatus::Initialized);
    let (mut client, mut server) = agent.sub_agents().unwrap();
    assert!(client.begin_run());
    assert!(server.begin_run());
    agent.install(client, server);
    assert_eq!(agent.status(), AgentStatus::Running);
    assert!(agent.sub_agents().is_none());
    agent.stop();
    assert_eq!(agent.status(), AgentStatus::Stopped);
    assert_eq!(agent.client().unwrap().status(), ClientStatus::Stopped);
    assert_eq!(agent.server().unwrap().status(), ServerStatus::Stopped);
}

#[test]
fn agent_stop_before_run() {
    let mut agent = Agent::new(client_config());
    agent.stop();
    assert_eq!(agent.status(), AgentStatus::Stopped);
    assert!(agent.client().is_none());
}

#[test]
fn client_requests_name_its_node() {
    let client = Client::new(client_config());
    match client.heartbeat_request() {
        Request::NodeHeartbeat { node_id } => assert_eq!(node_id, "test-client"),
        other => panic!("unexpected {other:?}"),
    }
    match client.alloc_poll_request() {
        Request::NodeGetAllocs { node_id } => assert_eq!(node_id, "test-client"),
        other => panic!("unexpected {other:?}"),
    }
    match client.register_request() {
        Request::NodeRegister(n) => assert_eq!(n.id, "test-client"),
        other => panic!("unexpected {other:?}"),
    }
}
