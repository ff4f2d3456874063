use nomad_rs::jobspec::Job;
use nomad_rs::raft_log::{RaftLogEntry, RaftLogStore, RaftSnapshot};
use nomad_rs::state::{Command, StateStore};

fn make_cmd() -> Command {
    Command::UpsertJob(Job { name: "redis".to_owned(), priority: 50, ..Job::default() })
}

fn entry(index: u64, term: u64) -> RaftLogEntry {
    RaftLogEntry { index, term, timestamp: 0, command: make_cmd() }
}

#[test]
fn new_store_has_empty_log() {
    let store = RaftLogStore::new();
    assert!(store.is_empty());
    assert_eq!(store.len(), 0);
    assert_eq!(store.last_index(), 0);
    assert_eq!(store.last_term(), 0);
}

#[test]
fn append_increases_len() {
    let mut store = RaftLogStore::new();
    store.append(1, make_cmd()).unwrap();
    assert_eq!(store.len(), 1);
    assert!(!store.is_empty());
}

#[test]
fn get_returns_entry() {
    let mut store = RaftLogStore::new();
    let index = store.append(1, make_cmd()).unwrap();
    let fetched = store.get(index).unwrap();
    assert_eq!(fetched.index, index);
    assert_eq!(fetched.term, 1);
}

#[test]
fn get_missing_returns_none() {
    let store = RaftLogStore::new();
    assert!(store.get(42).is_none());
}

#[test]
fn entries_from_returns_suffix() {
    let mut store = RaftLogStore::new();
    store.append(1, make_cmd()).unwrap();
    store.append(1, make_cmd()).unwrap();
    store.append(2, make_cmd()).unwrap();
    let suffix = store.entries_from(2);
    assert_eq!(suffix.len(), 2);
    assert_eq!(suffix[0].index, 2);
    assert_eq!(suffix[1].index, 3);
}

#[test]
fn last_term_returns_last() {
    let mut store = RaftLogStore::new();
    store.append(1, make_cmd()).unwrap();
    store.append(5, make_cmd()).unwrap();
    assert_eq!(store.last_term(), 5);
}

#[test]
fn create_and_install_snapshot() {
    let mut store = RaftLogStore::new();
    store.append(1, make_cmd()).unwrap();
    store.append(1, make_cmd()).unwrap();

    let state = StateStore::new();
    let snap = store.create_snapshot(state, 1);
    assert!(snap.last_included_index >= 2);
    assert!(store.is_empty());

    let mut store2 = RaftLogStore::new();
    store2.append(1, make_cmd()).unwrap();
    store2.install_snapshot(&snap).unwrap();
    assert!(store2.is_empty());
    assert_eq!(store2.last_index(), snap.last_included_index);
}

#[test]
fn persistence_round_trip() {
    let store2 = RaftLogStore::restore(1, vec![entry(1, 1), entry(2, 1), entry(3, 2)]).unwrap();
    assert_eq!(store2.len(), 3);
    assert_eq!(store2.last_term(), 2);
    assert_eq!(store2.last_index(), 3);
}

#[test]
fn truncate_removes_from_index() {
    let mut store = RaftLogStore::new();
    store.append(1, make_cmd()).unwrap();
    store.append(1, make_cmd()).unwrap();
    store.append(1, make_cmd()).unwrap();

    store.truncate(2);
    assert_eq!(store.len(), 1);
    assert!(store.get(2).is_none());
    assert!(store.get(1).is_some());
}

#[test]
fn appends_after_a_snapshot_continue_the_numbering() {
    let mut store = RaftLogStore::new();
    store.append(1, make_cmd()).unwrap();
    store.append(1, make_cmd()).unwrap();
    let _snap: RaftSnapshot = store.create_snapshot(StateStore::new(), 1);
    assert_eq!(store.append(2, make_cmd()).unwrap(), 3);
    assert!(store.get(2).is_none());
    assert_eq!(store.get(3).unwrap().term, 2);
}

#[test]
fn restore_refuses_overflowing_indexes() {
    let err = RaftLogStore::restore(u64::MAX, vec![entry(1, 1), entry(2, 1)]).unwrap_err();
    assert_eq!(err.message(), "runtime error: raft log indexes overflow");
}

#[test]
fn appended_entries_carry_a_timestamp() {
    let mut store = RaftLogStore::new();
    store.append(1, make_cmd()).unwrap();
    assert!(store.get(1).unwrap().timestamp > 0);
}
