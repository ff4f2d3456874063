use nomad_rs::driver::{
    docker_container_id, docker_exit_state, docker_status_step, exec_invocation, process_exit_state, DockerDriver,
    InspectStep, TaskState,
};
use nomad_rs::jobspec::{ConfigScalar, ConfigValue, Resources, Task};
use nomad_rs::strmap::StrMap;

fn task_with(driver: &str, config: StrMap<ConfigValue>) -> Task {
    Task { name: "x".to_owned(), driver: driver.to_owned(), config, resources: Resources::default() }
}

fn strs(items: &[&str]) -> ConfigValue {
    ConfigValue::Array(items.iter().map(|s| ConfigScalar::Str((*s).to_owned())).collect())
}

#[test]
fn docker_handler_strings() {
    assert_eq!(DockerDriver.name(), "docker");
    assert!(DockerDriver.capabilities().image_based);
    assert!(DockerDriver.capabilities().isolated);
}

#[test]
fn exec_driver_rejects_non_string_args() {
    let mut config = StrMap::new();
    config.insert("command".to_owned(), ConfigValue::Str("echo".to_owned()));
    config.insert(
        "args".to_owned(),
        ConfigValue::Array(vec![ConfigScalar::Str("--port".to_owned()), ConfigScalar::Number("8080".to_owned())]),
    );
    assert!(exec_invocation(&task_with("exec", config), "exec").is_err());
}

#[test]
fn exec_driver_rejects_non_array_args() {
    let mut config = StrMap::new();
    config.insert("command".to_owned(), ConfigValue::Str("echo".to_owned()));
    config.insert("args".to_owned(), ConfigValue::Str("oops".to_owned()));
    assert!(exec_invocation(&task_with("exec", config), "exec").is_err());
}

#[test]
fn raw_exec_rejects_non_string_args() {
    let mut config = StrMap::new();
    config.insert("command".to_owned(), ConfigValue::Str("echo".to_owned()));
    config.insert("args".to_owned(), ConfigValue::Array(vec![ConfigScalar::Bool(true)]));
    assert!(exec_invocation(&task_with("raw_exec", config), "raw_exec").is_err());
}

#[test]
fn raw_exec_rejects_non_array_args() {
    let mut config = StrMap::new();
    config.insert("command".to_owned(), ConfigValue::Str("echo".to_owned()));
    config.insert("args".to_owned(), ConfigValue::Number("1".to_owned()));
    assert!(exec_invocation(&task_with("raw_exec", config), "raw_exec").is_err());
}

#[test]
fn exec_driver_missing_command_errors() {
    let err = exec_invocation(&task_with("exec", StrMap::new()), "exec").unwrap_err();
    assert_eq!(err.message(), "runtime error: exec driver: missing `command` in task config");
}

#[test]
fn exec_invocation_reads_command_and_args() {
    let mut config = StrMap::new();
    config.insert("command".to_owned(), ConfigValue::Str("sleep".to_owned()));
    config.insert("args".to_owned(), strs(&["30"]));
    let (cmd, args) = exec_invocation(&task_with("exec", config), "exec").unwrap();
    assert_eq!(cmd, "sleep");
    assert_eq!(args, vec!["30".to_owned()]);
}

#[test]
fn docker_rejects_non_string_args() {
    let mut config = StrMap::new();
    config.insert("image".to_owned(), ConfigValue::Str("alpine".to_owned()));
    config.insert(
        "args".to_owned(),
        ConfigValue::Array(vec![ConfigScalar::Str("echo".to_owned()), ConfigScalar::Number("42".to_owned())]),
    );
    assert!(DockerDriver.run_args(&task_with("docker", config)).is_err());
}

#[test]
fn docker_missing_image_errors() {
    let err = DockerDriver.run_args(&task_with("docker", StrMap::new())).unwrap_err();
    assert_eq!(err.message(), "runtime error: docker driver: missing `image` in task config");
}

#[test]
fn docker_run_args_put_the_image_last() {
    let mut config = StrMap::new();
    config.insert("image".to_owned(), ConfigValue::Str("alpine".to_owned()));
    config.insert("command".to_owned(), ConfigValue::Str("sh".to_owned()));
    config.insert("args".to_owned(), strs(&["echo", "hello"]));
    let args = DockerDriver.run_args(&task_with("docker", config)).unwrap();
    assert_eq!(args, vec!["run", "--rm", "-d", "--entrypoint", "sh", "echo", "hello", "alpine"]);
}

#[test]
fn docker_inspect_steps() {
    assert_eq!(docker_status_step(false, ""), InspectStep::Known(TaskState::Exited));
    assert_eq!(docker_status_step(true, "running\n"), InspectStep::Known(TaskState::Running));
    assert_eq!(docker_status_step(true, "exited\n"), InspectStep::CheckExitCode);
    assert_eq!(docker_status_step(true, "dead"), InspectStep::CheckExitCode);
    assert_eq!(docker_status_step(true, "paused"), InspectStep::Known(TaskState::Unknown));
    assert_eq!(docker_exit_state(true, "0\n"), TaskState::Exited);
    assert_eq!(docker_exit_state(true, "137\n"), TaskState::Failed);
    assert_eq!(docker_exit_state(false, "0"), TaskState::Failed);
}

#[test]
fn container_id_is_trimmed_and_required() {
    assert_eq!(docker_container_id("  abc123\n").unwrap(), "abc123");
    assert!(docker_container_id(" \n").is_err());
}

#[test]
fn process_exit_maps_success() {
    assert_eq!(process_exit_state(true), TaskState::Exited);
    assert_eq!(process_exit_state(false), TaskState::Failed);
}

#[test]
fn raw_exec_missing_command_errors() {
    let err = exec_invocation(&task_with("raw_exec", StrMap::new()), "raw_exec").unwrap_err();
    assert_eq!(err.message(), "runtime error: raw_exec driver: missing `command` in task config");
}
