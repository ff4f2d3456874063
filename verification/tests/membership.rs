use nomad_rs::membership::{is_ack_for, is_indirect_success, join_outcome, MemberStatus, Msg, Reply, Roster, Wire};

fn wire(name: &str, addr: &str, status: MemberStatus, incarnation: u64) -> Wire {
    Wire { name: name.to_owned(), addr: addr.to_owned(), status, incarnation }
}

fn status_of(r: &Roster, name: &str) -> Option<MemberStatus> {
    r.entry(name).map(|e| e.member.status)
}

#[test]
fn member_status_as_str_roundtrip() {
    assert_eq!(MemberStatus::Alive.as_str(), "alive");
    assert_eq!(MemberStatus::Suspect.as_str(), "suspect");
    assert_eq!(MemberStatus::Leaving.as_str(), "leaving");
    assert_eq!(MemberStatus::Left.as_str(), "left");
    assert_eq!(MemberStatus::Failed.as_str(), "failed");
}

#[test]
fn member_status_terminal() {
    assert!(!MemberStatus::Alive.is_terminal());
    assert!(!MemberStatus::Suspect.is_terminal());
    assert!(!MemberStatus::Leaving.is_terminal());
    assert!(MemberStatus::Left.is_terminal());
    assert!(MemberStatus::Failed.is_terminal());
}

#[test]
fn member_status_probeable() {
    assert!(MemberStatus::Alive.is_probeable());
    assert!(MemberStatus::Suspect.is_probeable());
    assert!(MemberStatus::Leaving.is_probeable());
    assert!(!MemberStatus::Left.is_probeable());
    assert!(!MemberStatus::Failed.is_probeable());
}

#[test]
fn fresh_roster_lists_only_itself() {
    let r = Roster::new("s1", "127.0.0.1:7000");
    let names: Vec<String> = r.members().into_iter().map(|m| m.name).collect();
    assert_eq!(names, vec!["s1".to_owned()]);
    assert!(!r.should_probe());
}

#[test]
fn merge_learns_peers_and_keeps_higher_incarnation() {
    let mut r = Roster::new("s1", "a1");
    r.merge(vec![wire("s2", "a2", MemberStatus::Alive, 3)]);
    assert_eq!(r.len(), 2);
    r.merge(vec![wire("s2", "a2", MemberStatus::Failed, 2)]);
    assert_eq!(status_of(&r, "s2"), Some(MemberStatus::Alive));
    r.merge(vec![wire("s2", "a2", MemberStatus::Suspect, 4)]);
    assert_eq!(status_of(&r, "s2"), Some(MemberStatus::Suspect));
    assert_eq!(r.entry("s2").unwrap().incarnation, 4);
}

#[test]
fn merge_ignores_records_about_itself() {
    let mut r = Roster::new("s1", "a1");
    r.merge(vec![wire("s1", "elsewhere", MemberStatus::Failed, 99)]);
    assert_eq!(status_of(&r, "s1"), Some(MemberStatus::Alive));
    assert_eq!(r.entry("s1").unwrap().member.addr, "a1");
}

#[test]
fn self_refutation_ignores_false_claims() {
    let mut r = Roster::new("s1", "a1");
    let out = r.merge_with_refutation(vec![wire("s1", "a1", MemberStatus::Failed, 99)]);
    assert_eq!(status_of(&r, "s1"), Some(MemberStatus::Alive));
    assert_eq!(r.entry("s1").unwrap().incarnation, 100);
    assert_eq!(out.len(), 1);
    assert_eq!(out[0].name, "s1");
    assert_eq!(out[0].incarnation, 100);
    assert_eq!(out[0].status, MemberStatus::Alive);
}

#[test]
fn probe_candidates_skip_left_or_failed_members() {
    let mut r = Roster::new("s1", "a1");
    r.merge(vec![
        wire("s2", "a2", MemberStatus::Left, 1),
        wire("s3", "a3", MemberStatus::Alive, 1),
        wire("s4", "a4", MemberStatus::Failed, 1),
    ]);
    let c = r.candidate_pairs("s1", true);
    assert_eq!(c, vec![("s3".to_owned(), "a3".to_owned())]);
    assert_eq!(r.random_probe_target("s1"), Some(("s3".to_owned(), "a3".to_owned())));
    assert_eq!(r.candidate_pairs("s1", false).len(), 3);
}

#[test]
fn unresponsive_member_goes_suspect_then_failed() {
    let mut r = Roster::new("s1", "a1");
    r.merge(vec![wire("s2", "a2", MemberStatus::Alive, 0)]);
    assert!(r.missed_ack("s2"));
    assert_eq!(status_of(&r, "s2"), Some(MemberStatus::Suspect));
    r.indirect_result("s2", false);
    assert_eq!(status_of(&r, "s2"), Some(MemberStatus::Failed));
    assert!(!r.missed_ack("s2"));
}

#[test]
fn suspect_recovers_to_alive_on_indirect_probe() {
    let mut r = Roster::new("s1", "a1");
    r.merge(vec![wire("s2", "a2", MemberStatus::Alive, 0)]);
    r.missed_ack("s2");
    r.indirect_result("s2", true);
    assert_eq!(status_of(&r, "s2"), Some(MemberStatus::Alive));
}

#[test]
fn leave_marks_self_left_and_lists_peers() {
    let mut r = Roster::new("s1", "a1");
    r.merge(vec![wire("s2", "a2", MemberStatus::Alive, 0)]);
    let addrs = r.leave();
    assert_eq!(addrs, vec!["a2".to_owned()]);
    assert_eq!(status_of(&r, "s1"), Some(MemberStatus::Left));
}

#[test]
fn leave_propagates_left_status_to_peer() {
    let mut s2 = Roster::new("s2", "a2");
    s2.merge(vec![wire("s1", "a1", MemberStatus::Alive, 0)]);
    s2.leave();
    let mut s1 = Roster::new("s1", "a1");
    s1.merge(s2.snapshot());
    assert_eq!(status_of(&s1, "s2"), Some(MemberStatus::Left));
}

#[test]
fn ping_is_acked_with_its_sequence() {
    let mut r = Roster::new("s1", "a1");
    match r.handle(Msg::Ping { seq: 7 }) {
        Reply::ToSource(m) => assert!(is_ack_for(&m, 7)),
        other => panic!("unexpected reply {other:?}"),
    }
}

#[test]
fn push_pull_with_reply_answers_with_roster() {
    let mut r = Roster::new("s1", "a1");
    match r.handle(Msg::PushPull { peers: vec![wire("s2", "a2", MemberStatus::Alive, 0)], reply: true }) {
        Reply::ToSource(Msg::PushPull { peers, reply }) => {
            assert!(!reply);
            assert_eq!(peers.len(), 2);
        },
        other => panic!("unexpected reply {other:?}"),
    }
}

#[test]
fn indirect_success_matches_sender_and_sequence() {
    let ok = Msg::PingResp { sender: "s1".to_owned(), ok: true, seq: 3 };
    assert!(is_indirect_success(&ok, 3, "s1"));
    assert!(!is_indirect_success(&ok, 4, "s1"));
    assert!(!is_indirect_success(&ok, 3, "s2"));
}

#[test]
fn join_reports_peers_reached() {
    assert_eq!(join_outcome(1, 1).unwrap(), 1);
    assert_eq!(join_outcome(0, 0).unwrap(), 0);
}

#[test]
fn join_with_no_reachable_peer_errors() {
    assert_eq!(join_outcome(0, 1).unwrap_err().message(), "runtime error: membership join: no peers reachable");
}

#[test]
fn merge_takes_the_highest_incarnation_among_records() {
    let mut r = Roster::new("s1", "a1");
    r.merge(vec![
        wire("s2", "a2", MemberStatus::Alive, 5),
        wire("s2", "a2", MemberStatus::Suspect, 2),
        wire("s3", "a3", MemberStatus::Alive, 1),
        wire("s2", "a2", MemberStatus::Failed, 7),
    ]);
    let snap = r.snapshot();
    let s2 = snap.iter().find(|w| w.name == "s2").unwrap();
    assert_eq!(s2.incarnation, 7);
    assert_eq!(s2.status, MemberStatus::Failed);
    assert!(snap.iter().any(|w| w.name == "s3" && w.incarnation == 1));
    assert_eq!(snap.len(), 3);
}

#[test]
fn random_peers_takes_as_many_distinct_peers_as_it_can() {
    let mut r = Roster::new("s1", "a1");
    r.merge(vec![
        wire("s2", "a2", MemberStatus::Alive, 0),
        wire("s3", "a3", MemberStatus::Alive, 0),
        wire("s4", "a4", MemberStatus::Alive, 0),
    ]);
    let two = r.random_peers(2, "s1");
    assert_eq!(two.len(), 2);
    assert_ne!(two[0], two[1]);
    let all = r.random_peers(10, "s1");
    assert_eq!(all.len(), 3);
    assert!(all.iter().all(|(name, _)| name != "s1"));
    assert!(r.random_probe_target("s1").is_some());
    let lone = Roster::new("s9", "a9");
    assert!(lone.random_probe_target("s9").is_none());
    assert!(lone.random_peers(3, "s9").is_empty());
}
