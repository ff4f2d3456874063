use nomad_rs::allocs::{ClientStatus, DesiredStatus};
use nomad_rs::client_state::{parse_client_status, parse_desired_status, task_state_str};
use nomad_rs::driver::TaskState;

#[test]
fn stored_statuses_read_back() {
    for d in [DesiredStatus::Run, DesiredStatus::Stop, DesiredStatus::Evict] {
        assert_eq!(parse_desired_status(d.as_str()), d);
    }
    for c in [ClientStatus::Pending, ClientStatus::Running, ClientStatus::Complete, ClientStatus::Failed, ClientStatus::Lost] {
        assert_eq!(parse_client_status(c.as_str()), c);
    }
}

#[test]
fn unknown_words_read_as_defaults() {
    assert_eq!(parse_desired_status("whatever"), DesiredStatus::Run);
    assert_eq!(parse_client_status(""), ClientStatus::Pending);
}

#[test]
fn task_states_are_stored_as_words() {
    assert_eq!(task_state_str(TaskState::Pending), "pending");
    assert_eq!(task_state_str(TaskState::Running), "running");
    assert_eq!(task_state_str(TaskState::Exited), "exited");
    assert_eq!(task_state_str(TaskState::Failed), "failed");
    assert_eq!(task_state_str(TaskState::Unknown), "unknown");
}
