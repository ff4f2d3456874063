//! The text forms in which the client's local store keeps allocation and
//! task states, and how they are read back. The store itself is a database
//! file that the binary opens; what is verified here is the mapping between
//! the stored words and the states.
use crate::allocs::{ClientStatus, DesiredStatus};
use crate::driver::TaskState;
use crate::text::str_eq;
use vstd::prelude::*;

verus! {

/// The desired status a stored word denotes: `stop` and `evict` name
/// themselves, any other word reads as `Run`.
pub open spec fn desired_status_of(s: Seq<char>) -> DesiredStatus {
    if s == "stop"@ {
        DesiredStatus::Stop
    } else if s == "evict"@ {
        DesiredStatus::Evict
    } else {
        DesiredStatus::Run
    }
}

/// The client status a stored word denotes; an unknown word reads as
/// `Pending`.
pub open spec fn client_status_of(s: Seq<char>) -> ClientStatus {
    if s == "running"@ {
        ClientStatus::Running
    } else if s == "complete"@ {
        ClientStatus::Complete
    } else if s == "failed"@ {
        ClientStatus::Failed
    } else if s == "lost"@ {
        ClientStatus::Lost
    } else {
        ClientStatus::Pending
    }
}

/// The word under which a task state is stored.
pub open spec fn task_state_word(s: TaskState) -> Seq<char> {
    match s {
        TaskState::Pending => "pending"@,
        TaskState::Running => "running"@,
        TaskState::Exited => "exited"@,
        TaskState::Failed => "failed"@,
        TaskState::Unknown => "unknown"@,
    }
}

/// Read back a stored desired status.
pub fn parse_desired_status(s: &str) -> (r: DesiredStatus)
    ensures
        r == desired_status_of(s@),
{
    if str_eq(s, "stop") {
        DesiredStatus::Stop
    } else if str_eq(s, "evict") {
        DesiredStatus::Evict
    } else {
        DesiredStatus::Run
    }
}

/// Read back a stored client status.
pub fn parse_client_status(s: &str) -> (r: ClientStatus)
    ensures
        r == client_status_of(s@),
{
    if str_eq(s, "running") {
        ClientStatus::Running
    } else if str_eq(s, "complete") {
        ClientStatus::Complete
    } else if str_eq(s, "failed") {
        ClientStatus::Failed
    } else if str_eq(s, "lost") {
        ClientStatus::Lost
    } else {
        ClientStatus::Pending
    }
}

/// The word under which a task state is stored.
pub fn task_state_str(state: TaskState) -> (r: &'static str)
    ensures
        r@ == task_state_word(state),
{
    match state {
        TaskState::Pending => "pending",
        TaskState::Running => "running",
        TaskState::Exited => "exited",
        TaskState::Failed => "failed",
        TaskState::Unknown => "unknown",
    }
}

/// Every desired status reads back as itself from the word it is written
/// under.
pub proof fn law_desired_status_roundtrip(d: DesiredStatus)
    ensures
        desired_status_of(d.spec_name()) == d,
{
    reveal_strlit("run");
    reveal_strlit("stop");
    reveal_strlit("evict");
    assert("run"@.len() == 3 && "stop"@.len() == 4 && "evict"@.len() == 5);
}

/// Every client status reads back as itself from the word it is written
/// under.
pub proof fn law_client_status_roundtrip(c: ClientStatus)
    ensures
        client_status_of(c.spec_name()) == c,
{
    reveal_strlit("pending");
    reveal_strlit("running");
    reveal_strlit("complete");
    reveal_strlit("failed");
    reveal_strlit("lost");
    assert("running"@[0] != "pending"@[0] && "complete"@[0] != "pending"@[0]);
    assert("failed"@.len() != "pending"@.len() && "lost"@.len() != "pending"@.len());
    assert("complete"@.len() != "running"@.len() && "failed"@.len() != "running"@.len());
    assert("lost"@.len() != "running"@.len() && "failed"@.len() != "complete"@.len());
    assert("lost"@.len() != "complete"@.len() && "lost"@.len() != "failed"@.len());
}

} // verus!
