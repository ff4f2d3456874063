use nomad_rs::periodic::{parse_schedule, PeriodicConfig};

fn periodic() -> PeriodicConfig {
    PeriodicConfig { spec: "*/5 * * * *".to_owned(), time_zone: "UTC".to_owned(), prohibit_overlap: true }
}

#[test]
fn valid_spec_passes() {
    assert!(periodic().validate().is_ok());
}

#[test]
fn rejects_bad_spec() {
    let mut p = periodic();
    p.spec = "not a cron".to_owned();
    assert!(p.validate().is_err());
}

#[test]
fn next_is_after_reference() {
    let now = 1_000_000_000;
    assert!(periodic().next(now).unwrap() > now);
}

#[test]
fn every_five_minutes_fires_at_the_next_multiple() {
    // 1_000_000_000 is 2001-09-09 01:46:40 UTC; the next */5 minute is 01:50:00.
    assert_eq!(periodic().next(1_000_000_000).unwrap(), 1_000_000_200);
    // On an exact firing minute the next one is five minutes later.
    assert_eq!(periodic().next(1_000_000_200).unwrap(), 1_000_000_500);
}

#[test]
fn daily_schedule_fires_next_midnight() {
    let p = PeriodicConfig { spec: "0 0 * * *".to_owned(), time_zone: "UTC".to_owned(), prohibit_overlap: false };
    // 2001-09-10 00:00:00 UTC.
    assert_eq!(p.next(1_000_000_000).unwrap(), 1_000_080_000);
}

#[test]
fn impossible_date_never_fires() {
    let p = PeriodicConfig { spec: "0 0 31 2 *".to_owned(), time_zone: "UTC".to_owned(), prohibit_overlap: false };
    assert!(p.validate().is_ok());
    assert!(p.next(1_000_000_000).is_err());
}

#[test]
fn schedule_parser_rejects_out_of_range_fields() {
    assert!(parse_schedule("60 * * * *").is_none());
    assert!(parse_schedule("* 24 * * *").is_none());
    assert!(parse_schedule("* * * *").is_none());
    assert!(parse_schedule("1-5/2 0,12 1 1-12 0-6").is_some());
}
