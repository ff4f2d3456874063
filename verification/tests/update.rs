use nomad_rs::update::{HealthCheck, UpdateStrategy};

fn strategy() -> UpdateStrategy {
    UpdateStrategy {
        max_parallel: 1,
        canary: 0,
        health_check: HealthCheck::Checks,
        min_healthy_secs: 10,
        healthy_deadline_secs: 300,
        auto_revert: true,
        auto_promote: false,
    }
}

#[test]
fn valid_strategy_passes() {
    assert!(strategy().validate().is_ok());
}

#[test]
fn rejects_zero_max_parallel() {
    let mut s = strategy();
    s.max_parallel = 0;
    assert!(s.validate().is_err());
}

#[test]
fn rejects_deadline_not_after_min_healthy() {
    let mut s = strategy();
    s.min_healthy_secs = 300;
    s.healthy_deadline_secs = 300;
    assert!(s.validate().is_err());
}

#[test]
fn detects_canary() {
    let mut s = strategy();
    s.canary = 2;
    assert!(s.uses_canary());
}

#[test]
fn no_canary_by_default() {
    assert!(!strategy().uses_canary());
}
