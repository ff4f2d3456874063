use nomad_rs::eval::{EvalStatus, EvalTrigger, Evaluation};
use nomad_rs::id::{EvalId, JobId};
use nomad_rs::jobspec::{JOB_DEFAULT_PRIORITY, JOB_MAX_PRIORITY};

fn pending_eval() -> Evaluation {
    Evaluation {
        id: EvalId::from_str("33333333-3333-3333-3333-333333333333"),
        job_id: JobId::from_str("redis"),
        priority: JOB_DEFAULT_PRIORITY,
        trigger: EvalTrigger::JobRegister,
        status: EvalStatus::Pending,
    }
}

#[test]
fn trigger_strings() {
    assert_eq!(EvalTrigger::JobRegister.as_str(), "job-register");
    assert_eq!(EvalTrigger::JobDeregister.as_str(), "job-deregister");
    assert_eq!(EvalTrigger::NodeUpdate.as_str(), "node-update");
    assert_eq!(EvalTrigger::NodeDrain.as_str(), "node-drain");
    assert_eq!(EvalTrigger::AllocFailure.as_str(), "alloc-failure");
    assert_eq!(EvalTrigger::MaxPlanAttempts.as_str(), "max-plan-attempts");
}

#[test]
fn status_strings() {
    assert_eq!(EvalStatus::Blocked.as_str(), "blocked");
    assert_eq!(EvalStatus::Pending.as_str(), "pending");
    assert_eq!(EvalStatus::Complete.as_str(), "complete");
    assert_eq!(EvalStatus::Failed.as_str(), "failed");
    assert_eq!(EvalStatus::Canceled.as_str(), "canceled");
}

#[test]
fn eval_terminal_statuses() {
    assert!(EvalStatus::Complete.is_terminal());
    assert!(EvalStatus::Failed.is_terminal());
    assert!(EvalStatus::Canceled.is_terminal());
}

#[test]
fn eval_non_terminal_statuses() {
    assert!(!EvalStatus::Blocked.is_terminal());
    assert!(!EvalStatus::Pending.is_terminal());
}

#[test]
fn valid_eval_passes() {
    assert!(pending_eval().validate().is_ok());
}

#[test]
fn eval_rejects_empty_job_id() {
    let mut e = pending_eval();
    e.job_id = JobId::from_str("");
    assert!(e.validate().is_err());
}

#[test]
fn eval_rejects_out_of_range_priority() {
    let mut e = pending_eval();
    e.priority = JOB_MAX_PRIORITY + 1;
    assert!(e.validate().is_err());
}

#[test]
fn eval_priority_error_names_the_range() {
    let mut e = pending_eval();
    e.priority = 0;
    assert_eq!(e.validate().unwrap_err().message(), "validation error: priority 0 out of range (1-100)");
}

#[test]
fn pending_eval_is_schedulable() {
    assert!(pending_eval().is_schedulable());
}

#[test]
fn blocked_eval_is_not_schedulable() {
    let mut e = pending_eval();
    e.status = EvalStatus::Blocked;
    assert!(!e.is_schedulable());
}
