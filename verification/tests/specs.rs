use nomad_rs::constraint::{Affinity, Constraint, Spread, SpreadTarget};
use nomad_rs::deployment::{Deployment, DeploymentStatus};
use nomad_rs::namespace::Namespace;
use nomad_rs::reschedule::{DelayFunction, ReschedulePolicy, RestartMode, RestartPolicy};
use nomad_rs::scaling::ScalingPolicy;
use nomad_rs::service::{CheckType, Service, ServiceCheck, ServiceProvider};
use nomad_rs::strmap::StrMap;
use nomad_rs::template::{ChangeMode, Template};

fn attrs() -> StrMap<String> {
    let mut m = StrMap::new();
    m.insert("os".to_owned(), "linux".to_owned());
    m
}

#[test]
fn equality_constraint_validates() {
    let c = Constraint { left: "${attr.os}".to_owned(), right: "linux".to_owned(), operand: "=".to_owned() };
    assert!(c.validate().is_ok());
}

#[test]
fn unknown_operand_rejected() {
    let c = Constraint { left: "a".to_owned(), right: "b".to_owned(), operand: "bogus".to_owned() };
    assert!(c.validate().is_err());
}

#[test]
fn equality_satisfied_when_attr_matches() {
    let c = Constraint { left: "os".to_owned(), right: "linux".to_owned(), operand: "=".to_owned() };
    assert!(c.satisfied_by(&attrs()));
}

#[test]
fn equality_unsatisfied_when_attr_differs() {
    let c = Constraint { left: "os".to_owned(), right: "windows".to_owned(), operand: "=".to_owned() };
    assert!(!c.satisfied_by(&attrs()));
}

#[test]
fn affinity_accepts_weight_in_range() {
    let a = Affinity { left: "a".to_owned(), right: "b".to_owned(), operand: "=".to_owned(), weight: 50 };
    assert!(a.validate().is_ok());
}

#[test]
fn spread_rejects_over_100_percent() {
    let s = Spread {
        attribute: "${node.datacenter}".to_owned(),
        targets: vec![
            SpreadTarget { value: "dc1".to_owned(), percent: 80 },
            SpreadTarget { value: "dc2".to_owned(), percent: 40 },
        ],
    };
    assert!(s.validate().is_err());
}

#[test]
fn spread_accepts_within_100_percent() {
    let s = Spread { attribute: "${node.datacenter}".to_owned(), targets: vec![SpreadTarget { value: "dc1".to_owned(), percent: 60 }] };
    assert!(s.validate().is_ok());
}

#[test]
fn numeric_and_inequality_constraints() {
    let mut m = StrMap::new();
    m.insert("cpu.cores".to_owned(), "8".to_owned());
    let ge = Constraint { left: "cpu.cores".to_owned(), right: "4".to_owned(), operand: ">=".to_owned() };
    assert!(ge.satisfied_by(&m));
    let lt = Constraint { left: "cpu.cores".to_owned(), right: "4".to_owned(), operand: "<".to_owned() };
    assert!(!lt.satisfied_by(&m));
    let ne = Constraint { left: "os".to_owned(), right: "windows".to_owned(), operand: "!=".to_owned() };
    assert!(ne.satisfied_by(&attrs()));
}

fn deployment() -> Deployment {
    Deployment { id: "d1".to_owned(), job_id: "redis".to_owned(), status: DeploymentStatus::Running, desired_canaries: 2, placed: 2, healthy: 2 }
}

#[test]
fn valid_deployment_passes() {
    assert!(deployment().validate().is_ok());
}

#[test]
fn rejects_healthy_above_placed() {
    let mut d = deployment();
    d.healthy = 5;
    assert!(d.validate().is_err());
}

#[test]
fn promotable_when_canaries_healthy() {
    assert!(deployment().is_promotable());
}

#[test]
fn not_promotable_when_canaries_unhealthy() {
    let mut d = deployment();
    d.healthy = 1;
    assert!(!d.is_promotable());
}

#[test]
fn default_namespace_passes() {
    let ns = Namespace { name: "default".to_owned(), description: String::new() };
    assert!(ns.validate().is_ok());
}

#[test]
fn rejects_empty_name() {
    let ns = Namespace { name: String::new(), description: String::new() };
    assert!(ns.validate().is_err());
}

#[test]
fn rejects_invalid_characters() {
    let ns = Namespace { name: "Prod Env".to_owned(), description: String::new() };
    assert!(ns.validate().is_err());
}

fn restart() -> RestartPolicy {
    RestartPolicy { attempts: 3, interval_secs: 300, delay_secs: 15, mode: RestartMode::Fail }
}

fn reschedule() -> ReschedulePolicy {
    ReschedulePolicy {
        attempts: 5,
        interval_secs: 3600,
        delay_secs: 30,
        delay_function: DelayFunction::Exponential,
        max_delay_secs: 3600,
        unlimited: false,
    }
}

#[test]
fn valid_restart_passes() {
    assert!(restart().validate().is_ok());
}

#[test]
fn restart_rejects_delay_above_interval() {
    let mut r = restart();
    r.delay_secs = 400;
    assert!(r.validate().is_err());
}

#[test]
fn valid_reschedule_passes() {
    assert!(reschedule().validate().is_ok());
}

#[test]
fn reschedule_rejects_cap_not_above_delay() {
    let mut r = reschedule();
    r.delay_secs = 3600;
    r.max_delay_secs = 3600;
    assert!(r.validate().is_err());
}

#[test]
fn bounded_reschedule_rejects_zero_attempts() {
    let mut r = reschedule();
    r.unlimited = false;
    r.attempts = 0;
    assert!(r.validate().is_err());
}

fn policy() -> ScalingPolicy {
    ScalingPolicy { min: 1, max: 10, enabled: true }
}

#[test]
fn valid_policy_passes() {
    assert!(policy().validate().is_ok());
}

#[test]
fn rejects_min_above_max() {
    let mut p = policy();
    p.min = 20;
    assert!(p.validate().is_err());
}

#[test]
fn clamps_above_max_to_max() {
    assert_eq!(policy().clamp(99), 10);
}

#[test]
fn clamps_below_min_to_min() {
    assert_eq!(policy().clamp(0), 1);
}

#[test]
fn leaves_in_range_untouched() {
    assert_eq!(policy().clamp(5), 5);
}

fn http_check() -> ServiceCheck {
    ServiceCheck { name: "alive".to_owned(), check_type: CheckType::Http, interval_secs: 10, timeout_secs: 2, path: Some("/health".to_owned()) }
}

fn service() -> Service {
    Service { name: "web".to_owned(), port_label: "http".to_owned(), provider: ServiceProvider::Nomad, tags: vec!["v1".to_owned()], checks: vec![http_check()] }
}

#[test]
fn valid_service_passes() {
    assert!(service().validate().is_ok());
}

#[test]
fn service_rejects_empty_name() {
    let mut s = service();
    s.name = String::new();
    assert!(s.validate().is_err());
}

#[test]
fn http_check_passes() {
    assert!(http_check().validate().is_ok());
}

#[test]
fn http_check_requires_path() {
    let mut c = http_check();
    c.path = None;
    assert!(c.validate().is_err());
}

#[test]
fn check_rejects_timeout_ge_interval() {
    let mut c = http_check();
    c.timeout_secs = 10;
    c.interval_secs = 10;
    assert!(c.validate().is_err());
}

#[test]
fn check_rejects_zero_interval() {
    let mut c = http_check();
    c.interval_secs = 0;
    assert!(c.validate().is_err());
}

fn template() -> Template {
    Template {
        source: None,
        embedded: Some("{{ key \"x\" }}".to_owned()),
        destination: "local/config".to_owned(),
        change_mode: ChangeMode::Restart,
        change_signal: None,
    }
}

#[test]
fn valid_template_passes() {
    assert!(template().validate().is_ok());
}

#[test]
fn rejects_empty_destination() {
    let mut t = template();
    t.destination = String::new();
    assert!(t.validate().is_err());
}

#[test]
fn rejects_both_sources() {
    let mut t = template();
    t.source = Some("local/in.tpl".to_owned());
    assert!(t.validate().is_err());
}

#[test]
fn rejects_neither_source() {
    let mut t = template();
    t.embedded = None;
    assert!(t.validate().is_err());
}

#[test]
fn signal_mode_requires_signal() {
    let mut t = template();
    t.change_mode = ChangeMode::Signal;
    t.change_signal = None;
    assert!(t.validate().is_err());
}
