use nomad_rs::jobspec::{ConfigScalar, ConfigValue, Job, Resources, Task, TaskGroup};
use nomad_rs::strmap::StrMap;

fn group(name: &str, count: i32, tasks: Vec<Task>) -> TaskGroup {
    TaskGroup { name: name.to_owned(), count, tasks, constraints: vec![], affinities: vec![], spreads: vec![] }
}

fn task(name: &str, driver: &str) -> Task {
    Task { name: name.to_owned(), driver: driver.to_owned(), config: StrMap::new(), resources: Resources::default() }
}

#[test]
fn test_job_default() {
    let job = Job::default();
    assert!(job.name.is_empty());
    assert!(job.meta.is_empty());
    assert_eq!(job.datacenters, vec!["dc1".to_owned()]);
    assert!(job.task_groups.is_empty());
    assert_eq!(job.priority, 50);
}

#[test]
fn test_job_with_values() {
    let mut meta = StrMap::new();
    meta.insert("env".to_owned(), "prod".to_owned());
    let job = Job {
        name: "web-app".to_owned(),
        meta,
        datacenters: vec!["dc1".to_owned(), "dc2".to_owned()],
        priority: 100,
        ..Job::default()
    };
    assert_eq!(job.name, "web-app");
    assert_eq!(job.meta.get("env").unwrap(), "prod");
    assert_eq!(job.datacenters.len(), 2);
    assert_eq!(job.priority, 100);
}

#[test]
fn test_task_group_creation() {
    let tg = group("frontend", 3, vec![]);
    assert_eq!(tg.name, "frontend");
    assert_eq!(tg.count, 3);
    assert!(tg.tasks.is_empty());
}

#[test]
fn test_task_group_with_tasks() {
    let tg = group("web", 2, vec![task("nginx", "exec")]);
    assert_eq!(tg.tasks.len(), 1);
    assert_eq!(tg.tasks[0].name, "nginx");
}

#[test]
fn test_task_creation() {
    let mut config = StrMap::new();
    config.insert("command".to_owned(), ConfigValue::Str("/bin/myapp".to_owned()));
    config.insert(
        "args".to_owned(),
        ConfigValue::Array(vec![ConfigScalar::Str("-port".to_owned()), ConfigScalar::Str("8080".to_owned())]),
    );
    let task = Task {
        name: "myapp".to_owned(),
        driver: "exec".to_owned(),
        config,
        resources: Resources { cpu_mhz: 500, memory_mb: 1024, network_mbps: 100 },
    };
    assert_eq!(task.name, "myapp");
    assert_eq!(task.driver, "exec");
    assert_eq!(task.resources.cpu_mhz, 500);
    assert_eq!(task.resources.memory_mb, 1024);
    assert_eq!(task.resources.network_mbps, 100);
    assert_eq!(task.config.get("command").unwrap().as_str(), Some("/bin/myapp"));
}

#[test]
fn test_resources_default() {
    let res = Resources::default();
    assert_eq!(res.cpu_mhz, 100);
    assert_eq!(res.memory_mb, 256);
    assert_eq!(res.network_mbps, 0);
}

#[test]
fn test_resources_custom() {
    let res = Resources { cpu_mhz: 2000, memory_mb: 4096, network_mbps: 1000 };
    assert_eq!(res.cpu_mhz, 2000);
    assert_eq!(res.memory_mb, 4096);
    assert_eq!(res.network_mbps, 1000);
}

#[test]
fn test_job_validate_empty_name() {
    let job = Job::default();
    assert!(job.validate().unwrap_err().message().contains("name cannot be empty"));
}

#[test]
fn test_job_validate_priority_too_low() {
    let job = Job { name: "test".to_owned(), priority: 0, ..Job::default() };
    assert!(job.validate().unwrap_err().message().contains("priority"));
}

#[test]
fn test_job_validate_priority_too_high() {
    let job = Job { name: "test".to_owned(), priority: 101, ..Job::default() };
    assert!(job.validate().unwrap_err().message().contains("priority"));
}

#[test]
fn test_job_validate_no_datacenters() {
    let job = Job { name: "test".to_owned(), datacenters: vec![], ..Job::default() };
    assert!(job.validate().unwrap_err().message().contains("datacenter"));
}

#[test]
fn test_job_validate_valid_job() {
    let job = Job { name: "valid".to_owned(), datacenters: vec!["dc1".to_owned()], priority: 50, ..Job::default() };
    assert!(job.validate().is_ok());
}

#[test]
fn test_task_group_validate_empty_name() {
    let tg = group("", 1, vec![]);
    assert!(tg.validate().unwrap_err().message().contains("group name"));
}

#[test]
fn test_task_group_validate_negative_count() {
    let tg = group("g", -1, vec![]);
    assert!(tg.validate().unwrap_err().message().contains("negative"));
}

#[test]
fn test_task_validate_empty_name() {
    assert!(task("", "exec").validate().unwrap_err().message().contains("task name"));
}

#[test]
fn test_task_validate_empty_driver() {
    assert!(task("t", "").validate().unwrap_err().message().contains("driver"));
}

#[test]
fn test_resources_validate_negative_cpu() {
    let res = Resources { cpu_mhz: -1, memory_mb: 256, network_mbps: 0 };
    assert!(res.validate().unwrap_err().message().contains("cpu_mhz"));
}

#[test]
fn test_resources_validate_negative_memory() {
    let res = Resources { cpu_mhz: 100, memory_mb: -1, network_mbps: 0 };
    assert!(res.validate().unwrap_err().message().contains("memory_mb"));
}

#[test]
fn test_resources_validate_ok() {
    let res = Resources { cpu_mhz: 500, memory_mb: 1024, network_mbps: 100 };
    assert!(res.validate().is_ok());
}

#[test]
fn resource_errors_carry_the_value() {
    let res = Resources { cpu_mhz: 100, memory_mb: 256, network_mbps: -7 };
    assert_eq!(res.validate().unwrap_err().message(), "validation error: network_mbps cannot be negative (-7)");
}

#[test]
fn job_priority_error_text() {
    let job = Job { name: "test".to_owned(), priority: 101, ..Job::default() };
    assert_eq!(job.validate().unwrap_err().message(), "validation error: priority 101 out of range [1, 100]");
}

#[test]
fn group_rejects_duplicate_task_names_and_empty_task_lists() {
    let tg = group("web", 1, vec![task("a", "exec"), task("a", "exec")]);
    assert_eq!(tg.validate().unwrap_err().message(), "validation error: duplicate task name 'a' in task group 'web'");
    let tg = group("web", 1, vec![]);
    assert_eq!(tg.validate().unwrap_err().message(), "validation error: task group 'web' has no tasks");
    assert!(group("web", 1, vec![task("a", "exec"), task("b", "docker")]).validate().is_ok());
}

#[test]
fn driver_error_names_the_task() {
    assert_eq!(task("t", "").validate().unwrap_err().message(), "validation error: task 't' driver cannot be empty");
}
