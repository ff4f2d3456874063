use nomad_rs::jobspec::{Job, Resources};
use nomad_rs::node::{Node, NodeStatus, SchedulingEligibility};
use nomad_rs::strmap::StrMap;
use nomad_rs::raft::{RaftNode, RaftRole};
use nomad_rs::state::Command;

#[test]
fn fresh_node_is_not_leader() {
    assert!(!RaftNode::new("n1").is_leader());
}

#[test]
fn fresh_node_has_no_leader_addr() {
    assert!(RaftNode::new("n1").leader_addr().is_none());
}

#[test]
fn propose_on_follower_errors() {
    let mut node = RaftNode::new("n1");
    let cmd = Command::UpsertJob(Job { name: "redis".to_owned(), ..Job::default() });
    assert!(node.propose(cmd).is_err());
}

#[test]
fn bootstrap_node_is_leader() {
    assert!(RaftNode::bootstrap("n1").is_leader());
}

#[test]
fn propose_on_leader_commits_and_applies_to_state() {
    let mut node = RaftNode::bootstrap("n1");
    node.propose(Command::UpsertJob(Job { name: "redis".to_owned(), ..Job::default() })).unwrap();
    assert!(node.state().get_job("redis").is_some());
    assert_eq!(node.committed_index(), 1);
}

#[test]
fn rejected_proposal_leaves_no_log_entry() {
    let mut node = RaftNode::bootstrap("n1");
    assert!(node.propose(Command::DeregisterJob("ghost".to_owned())).is_err());
    assert_eq!(node.committed_index(), 0, "rejected command is not committed");
}

#[test]
fn each_proposal_advances_the_commit_index() {
    let mut node = RaftNode::bootstrap("n1");
    node.propose(Command::UpsertJob(Job { name: "a".to_owned(), ..Job::default() })).unwrap();
    node.propose(Command::UpsertJob(Job { name: "b".to_owned(), ..Job::default() })).unwrap();
    assert_eq!(node.committed_index(), 2);
    assert!(node.state().get_job("a").is_some());
    assert!(node.state().get_job("b").is_some());
}

#[test]
fn follower_refusal_names_the_reason_and_roles_are_reported() {
    let mut node = RaftNode::new("n1");
    assert_eq!(node.role(), RaftRole::Follower);
    let err = node.propose(Command::UpsertJob(Job { name: "a".to_owned(), ..Job::default() })).unwrap_err();
    assert_eq!(err.message(), "runtime error: not the leader, cannot propose");
    assert_eq!(RaftNode::bootstrap("n2").role(), RaftRole::Leader);
}

#[test]
fn leader_address_can_be_set_and_heartbeats_need_a_known_node() {
    let mut node = RaftNode::new("n1");
    node.set_leader_addr(Some("10.0.0.1:4647".to_owned()));
    assert_eq!(node.leader_addr().as_deref(), Some("10.0.0.1:4647"));
    assert!(RaftNode::bootstrap("n1").heartbeat("missing").is_err());
}

#[test]
fn seeding_state_directly_commits_nothing() {
    let mut node = RaftNode::bootstrap("leader");
    node.state_mut()
        .upsert_node(Node {
            id: "n1".to_owned(),
            name: "n1".to_owned(),
            datacenter: "dc1".to_owned(),
            node_class: String::new(),
            resources: Resources::default(),
            status: NodeStatus::Ready,
            eligibility: SchedulingEligibility::Eligible,
            draining: false,
            attributes: StrMap::new(),
            drivers: StrMap::new(),
        })
        .unwrap();
    assert!(node.state().get_node("n1").is_some());
    assert_eq!(node.committed_index(), 0);
    assert!(node.heartbeat("n1").is_ok());
}
