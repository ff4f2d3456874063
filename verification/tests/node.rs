use nomad_rs::jobspec::Resources;
use nomad_rs::node::{Node, NodeStatus, SchedulingEligibility};
use nomad_rs::strmap::StrMap;

fn ready_node() -> Node {
    let mut drivers = StrMap::new();
    drivers.insert("docker".to_owned(), true);
    Node {
        id: "11111111-1111-1111-1111-111111111111".to_owned(),
        name: "node1".to_owned(),
        datacenter: "dc1".to_owned(),
        node_class: String::new(),
        resources: Resources::default(),
        status: NodeStatus::Ready,
        eligibility: SchedulingEligibility::Eligible,
        draining: false,
        attributes: StrMap::new(),
        drivers,
    }
}

#[test]
fn status_strings_match_upstream() {
    assert_eq!(NodeStatus::Init.as_str(), "initializing");
    assert_eq!(NodeStatus::Ready.as_str(), "ready");
    assert_eq!(NodeStatus::Down.as_str(), "down");
    assert_eq!(NodeStatus::Disconnected.as_str(), "disconnected");
}

#[test]
fn valid_node_passes() {
    assert!(ready_node().validate().is_ok());
}

#[test]
fn node_rejects_empty_id() {
    let mut n = ready_node();
    n.id = String::new();
    assert!(n.validate().is_err());
}

#[test]
fn node_rejects_empty_datacenter() {
    let mut n = ready_node();
    n.datacenter = String::new();
    assert!(n.validate().is_err());
}

#[test]
fn ready_node_is_ready() {
    assert!(ready_node().is_ready());
}

#[test]
fn draining_node_not_ready() {
    let mut n = ready_node();
    n.draining = true;
    assert!(!n.is_ready());
}

#[test]
fn ineligible_node_not_ready() {
    let mut n = ready_node();
    n.eligibility = SchedulingEligibility::Ineligible;
    assert!(!n.is_ready());
}

#[test]
fn down_node_not_ready() {
    let mut n = ready_node();
    n.status = NodeStatus::Down;
    assert!(!n.is_ready());
}

#[test]
fn detects_healthy_driver() {
    assert!(ready_node().has_healthy_driver("docker"));
}

#[test]
fn missing_driver_is_not_healthy() {
    assert!(!ready_node().has_healthy_driver("qemu"));
}

#[test]
fn unhealthy_driver_is_not_healthy() {
    let mut n = ready_node();
    n.drivers.insert("docker".to_owned(), false);
    assert!(!n.has_healthy_driver("docker"));
}
