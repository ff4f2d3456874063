use nomad_rs::allocs::{Allocation, ClientStatus, DesiredStatus};
use nomad_rs::jobspec::Resources;
use nomad_rs::error::Error;

fn running_alloc() -> Allocation {
    Allocation {
        id: "22222222-2222-2222-2222-222222222222".to_owned(),
        eval_id: "eval-1".to_owned(),
        node_id: "node-1".to_owned(),
        job_id: "redis".to_owned(),
        task_group: "cache".to_owned(),
        desired_status: DesiredStatus::Run,
        client_status: ClientStatus::Running,
        resources: Resources::default(),
    }
}

#[test]
fn desired_status_strings() {
    assert_eq!(DesiredStatus::Run.as_str(), "run");
    assert_eq!(DesiredStatus::Stop.as_str(), "stop");
    assert_eq!(DesiredStatus::Evict.as_str(), "evict");
}

#[test]
fn client_status_strings() {
    assert_eq!(ClientStatus::Pending.as_str(), "pending");
    assert_eq!(ClientStatus::Running.as_str(), "running");
    assert_eq!(ClientStatus::Complete.as_str(), "complete");
    assert_eq!(ClientStatus::Failed.as_str(), "failed");
    assert_eq!(ClientStatus::Lost.as_str(), "lost");
}

#[test]
fn alloc_terminal_statuses() {
    assert!(ClientStatus::Complete.is_terminal());
    assert!(ClientStatus::Failed.is_terminal());
    assert!(ClientStatus::Lost.is_terminal());
}

#[test]
fn alloc_non_terminal_statuses() {
    assert!(!ClientStatus::Pending.is_terminal());
    assert!(!ClientStatus::Running.is_terminal());
}

#[test]
fn valid_alloc_passes() {
    assert!(running_alloc().validate().is_ok());
}

#[test]
fn alloc_rejects_empty_node() {
    let mut a = running_alloc();
    a.node_id = String::new();
    assert!(a.validate().is_err());
}

#[test]
fn alloc_rejects_empty_job() {
    let mut a = running_alloc();
    a.job_id = String::new();
    assert!(a.validate().is_err());
}

#[test]
fn running_alloc_is_not_terminal() {
    assert!(!running_alloc().is_terminal());
}

#[test]
fn completed_alloc_is_terminal() {
    let mut a = running_alloc();
    a.client_status = ClientStatus::Complete;
    assert!(a.is_terminal());
}

#[test]
fn alloc_rejects_empty_id_with_message() {
    let mut a = running_alloc();
    a.id = String::new();
    let e = a.validate().unwrap_err();
    assert_eq!(e.message(), "config error: alloc id cannot be empty");
}

#[test]
fn invalid_resources_are_a_config_error() {
    let mut a = running_alloc();
    a.resources.cpu_mhz = -5;
    match a.validate() {
        Err(Error::Config(m)) => assert_eq!(m, "cpu_mhz cannot be negative (-5)"),
        other => panic!("expected a config error, got {other:?}"),
    }
}
