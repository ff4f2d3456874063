use nomad_rs::drain::{drain_progress, DrainProgress, DrainSpec};

#[test]
fn deadline_drain_passes() {
    let d = DrainSpec { deadline_secs: 60, force: false, ignore_system_jobs: true };
    assert!(d.validate().is_ok());
}

#[test]
fn zero_deadline_without_force_errors() {
    let d = DrainSpec { deadline_secs: 0, force: false, ignore_system_jobs: true };
    assert!(d.validate().is_err());
}

#[test]
fn forced_drain_needs_no_deadline() {
    let d = DrainSpec { deadline_secs: 0, force: true, ignore_system_jobs: true };
    assert!(d.validate().is_ok());
}

#[test]
fn progress_complete_when_all_migrated() {
    assert_eq!(drain_progress(5, 5), DrainProgress { remaining: 0, complete: true });
}

#[test]
fn progress_counts_remaining() {
    assert_eq!(drain_progress(5, 2), DrainProgress { remaining: 3, complete: false });
}

#[test]
fn progress_saturates_when_more_migrated_than_total() {
    assert_eq!(drain_progress(2, 5), DrainProgress { remaining: 0, complete: true });
}
