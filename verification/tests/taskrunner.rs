use nomad_rs::allocrunner::AllocRunner;
use nomad_rs::allocs::{Allocation, ClientStatus, DesiredStatus};
use nomad_rs::driver::{TaskHandle, TaskState};
use nomad_rs::jobspec::{Resources, Task};
use nomad_rs::reschedule::{RestartMode, RestartPolicy};
use nomad_rs::strmap::StrMap;
use nomad_rs::taskrunner::{select_driver, DriverKind, TaskRunner};

fn task(driver: &str) -> Task {
    Task { name: "web".to_owned(), driver: driver.to_owned(), config: StrMap::new(), resources: Resources::default() }
}

fn runner() -> TaskRunner {
    TaskRunner::new(task("exec")).unwrap()
}

fn handle(id: &str) -> TaskHandle {
    TaskHandle { id: id.to_owned(), state: TaskState::Running }
}

fn alloc_rec() -> Allocation {
    Allocation {
        id: "a1".to_owned(),
        eval_id: "e1".to_owned(),
        node_id: "n1".to_owned(),
        job_id: "redis".to_owned(),
        task_group: "cache".to_owned(),
        desired_status: DesiredStatus::Run,
        client_status: ClientStatus::Pending,
        resources: Resources::default(),
    }
}

#[test]
fn taskrunner_new_runner_is_pending() {
    assert_eq!(runner().state(), TaskState::Pending);
}

#[test]
fn new_runner_has_zero_restarts() {
    assert_eq!(runner().restart_count(), 0);
}

#[test]
fn failed_exit_triggers_restart() {
    assert!(runner().handle_exit(false));
}

#[test]
fn successful_exit_is_terminal() {
    assert!(!runner().handle_exit(true));
}

#[test]
fn restart_stops_and_fails_after_attempts_exhausted() {
    let mut r = runner().with_restart_policy(RestartPolicy { attempts: 1, interval_secs: 60, delay_secs: 0, mode: RestartMode::Fail });
    assert!(r.handle_exit(false), "first failure restarts (within attempts)");
    assert_eq!(r.restart_count(), 1);
    assert!(!r.handle_exit(false), "attempts exhausted → no more restarts");
    assert_eq!(r.state(), TaskState::Failed);
    assert_eq!(r.restart_count(), 1, "exhausted restart is not counted");
}

#[test]
fn restart_clears_handle_so_task_can_relaunch() {
    let mut r = runner();
    r.check_start().unwrap();
    r.started(handle("100"));
    assert!(r.handle_exit(false), "first failure restarts");
    assert!(r.handle().is_none());
    r.check_start().expect("restart must be able to relaunch");
}

#[test]
fn double_start_is_rejected() {
    let mut r = runner();
    r.check_start().unwrap();
    r.started(handle("100"));
    assert_eq!(r.state(), TaskState::Running);
    assert_eq!(r.check_start().unwrap_err().message(), "runtime error: task 'web' already started");
}

#[test]
fn unsupported_driver_errors_at_construction() {
    let err = TaskRunner::new(task("nonexistent")).unwrap_err();
    assert_eq!(err.message(), "runtime error: unsupported task driver 'nonexistent'");
}

#[test]
fn drivers_are_selected_by_name() {
    assert_eq!(select_driver("exec").unwrap(), DriverKind::Exec);
    assert_eq!(select_driver("raw_exec").unwrap(), DriverKind::RawExec);
    assert_eq!(select_driver("docker").unwrap(), DriverKind::Docker);
    assert_eq!(runner().driver(), DriverKind::Exec);
}

#[test]
fn finished_tasks_are_not_inspected_and_stop_means_exited() {
    let mut r = runner();
    assert!(!r.should_inspect());
    r.started(handle("7"));
    assert!(r.should_inspect());
    r.inspected(TaskState::Failed);
    assert!(!r.should_inspect());
    let mut s = runner();
    s.started(handle("8"));
    s.stopped();
    assert_eq!(s.state(), TaskState::Exited);
}

#[test]
fn allocrunner_new_runner_is_pending() {
    let r = AllocRunner::new(alloc_rec(), vec![]).unwrap();
    assert_eq!(r.status(), ClientStatus::Pending);
}

#[test]
fn destroy_succeeds() {
    let mut r = AllocRunner::new(alloc_rec(), vec![]).unwrap();
    r.mark_complete();
    assert_eq!(r.status(), ClientStatus::Complete);
}

#[test]
fn alloc_runner_holds_one_pending_runner_per_task() {
    let mut r = AllocRunner::new(alloc_rec(), vec![task("exec"), task("raw_exec")]).unwrap();
    assert_eq!(r.runners().len(), 2);
    assert!(r.runners().iter().all(|t| t.state() == TaskState::Pending));
    for t in r.runners_mut().iter_mut() {
        t.started(handle("1"));
    }
    r.mark_running();
    assert_eq!(r.status(), ClientStatus::Running);
    assert!(r.runners().iter().all(|t| t.state() == TaskState::Running));
    assert!(AllocRunner::new(alloc_rec(), vec![task("bogus")]).is_err());
}

#[test]
fn start_with_missing_command_errors() {
    let r = runner();
    r.check_start().unwrap();
    assert!(nomad_rs::driver::exec_invocation(r.task(), "exec").is_err());
}
