//! Allocations: a task group placed on a specific node by the scheduler.
use crate::error::{Error, Result};
use crate::jobspec::{resources_problem, Resources};
use vstd::prelude::*;

verus! {

/// Operator/scheduler intent for an allocation.
#[derive(Debug, Clone, Copy, PartialEq, Eq, Structural)]
pub enum DesiredStatus {
    /// The allocation should be running.
    Run,
    /// The allocation should be stopped.
    Stop,
    /// The allocation should be evicted (preempted) from its node.
    Evict,
}

impl DesiredStatus {
    /// Lowercase wire string.
    pub open spec fn spec_name(self) -> Seq<char> {
        match self {
            DesiredStatus::Run => "run"@,
            DesiredStatus::Stop => "stop"@,
            DesiredStatus::Evict => "evict"@,
        }
    }

    /// Lowercase wire string, e.g. `Run` is `"run"`.
    pub fn as_str(&self) -> (r: &'static str)
        ensures
            r@ == self.spec_name(),
    {
        proof {
            reveal_strlit("run");
            reveal_strlit("stop");
            reveal_strlit("evict");
        }
        match self {
            DesiredStatus::Run => "run",
            DesiredStatus::Stop => "stop",
            DesiredStatus::Evict => "evict",
        }
    }
}

/// Last reported client-side status of an allocation.
#[derive(Debug, Clone, Copy, PartialEq, Eq, Structural)]
pub enum ClientStatus {
    /// Accepted but not yet started.
    Pending,
    /// Running on the node.
    Running,
    /// Finished successfully.
    Complete,
    /// Finished with a failure.
    Failed,
    /// The node was lost while the allocation was running.
    Lost,
}

impl ClientStatus {
    /// Lowercase wire string.
    pub open spec fn spec_name(self) -> Seq<char> {
        match self {
            ClientStatus::Pending => "pending"@,
            ClientStatus::Running => "running"@,
            ClientStatus::Complete => "complete"@,
            ClientStatus::Failed => "failed"@,
            ClientStatus::Lost => "lost"@,
        }
    }

    /// Whether this is a terminal status.
    pub open spec fn spec_terminal(self) -> bool {
        self == ClientStatus::Complete || self == ClientStatus::Failed || self == ClientStatus::Lost
    }

    /// Lowercase wire string, e.g. `Running` is `"running"`.
    pub fn as_str(&self) -> (r: &'static str)
        ensures
            r@ == self.spec_name(),
    {
        proof {
            reveal_strlit("pending");
            reveal_strlit("running");
            reveal_strlit("complete");
            reveal_strlit("failed");
            reveal_strlit("lost");
        }
        match self {
            ClientStatus::Pending => "pending",
            ClientStatus::Running => "running",
            ClientStatus::Complete => "complete",
            ClientStatus::Failed => "failed",
            ClientStatus::Lost => "lost",
        }
    }

    /// Whether this is a terminal status: `Complete`, `Failed`, or `Lost`.
    pub fn is_terminal(&self) -> (r: bool)
        ensures
            r == self.spec_terminal(),
    {
        match self {
            ClientStatus::Complete | ClientStatus::Failed | ClientStatus::Lost => true,
            _ => false,
        }
    }
}

/// A task group instance placed on a node.
#[derive(Debug)]
pub struct Allocation {
    /// Unique allocation identifier.
    pub id: String,
    /// Evaluation that produced this allocation.
    pub eval_id: String,
    /// Node the allocation is placed on.
    pub node_id: String,
    /// Job the allocation belongs to.
    pub job_id: String,
    /// Task group name within the job.
    pub task_group: String,
    /// Desired status (scheduler/operator intent).
    pub desired_status: DesiredStatus,
    /// Last reported client status.
    pub client_status: ClientStatus,
    /// Resources reserved on the node for this allocation.
    pub resources: Resources,
}

impl Clone for Allocation {
    fn clone(&self) -> (r: Self)
        ensures
            r == *self,
    {
        Allocation {
            id: self.id.clone(),
            eval_id: self.eval_id.clone(),
            node_id: self.node_id.clone(),
            job_id: self.job_id.clone(),
            task_group: self.task_group.clone(),
            desired_status: self.desired_status,
            client_status: self.client_status,
            resources: self.resources,
        }
    }
}

/// The first problem with an allocation, if any.
pub open spec fn alloc_problem(a: Allocation) -> Option<Seq<char>> {
    if a.id@.len() == 0 {
        Some("alloc id cannot be empty"@)
    } else if a.node_id@.len() == 0 {
        Some("alloc node_id cannot be empty"@)
    } else if a.job_id@.len() == 0 {
        Some("alloc job_id cannot be empty"@)
    } else if a.task_group@.len() == 0 {
        Some("alloc task_group cannot be empty"@)
    } else {
        None
    }
}

impl Allocation {
    /// Validate the allocation's required linkage and resources.
    ///
    /// # Errors
    ///
    /// Returns [`Error::Config`] if `id`, `node_id`, `job_id`, or `task_group`
    /// is empty, or if the resources are invalid (with the resources' message).
    pub fn validate(&self) -> (r: Result<()>)
        ensures
            match alloc_problem(*self) {
                Some(m) => r matches Err(e) && e.is_config(m),
                None => match resources_problem(self.resources) {
                    None => r is Ok,
                    Some(m) => r matches Err(e) && e.is_config(m),
                },
            },
    {
        proof {
            reveal_strlit("alloc id cannot be empty");
            reveal_strlit("alloc node_id cannot be empty");
            reveal_strlit("alloc job_id cannot be empty");
            reveal_strlit("alloc task_group cannot be empty");
        }
        if self.id.as_str().is_empty() {
            return Err(Error::Config(String::from_str("alloc id cannot be empty")));
        }
        if self.node_id.as_str().is_empty() {
            return Err(Error::Config(String::from_str("alloc node_id cannot be empty")));
        }
        if self.job_id.as_str().is_empty() {
            return Err(Error::Config(String::from_str("alloc job_id cannot be empty")));
        }
        if self.task_group.as_str().is_empty() {
            return Err(Error::Config(String::from_str("alloc task_group cannot be empty")));
        }
        match self.resources.validate() {
            Ok(()) => Ok(()),
            Err(Error::Validation(m)) => Err(Error::Config(m)),
            Err(e) => Err(e),
        }
    }

    /// Whether the allocation has reached a terminal client status.
    pub fn is_terminal(&self) -> (r: bool)
        ensures
            r == self.client_status.spec_terminal(),
    {
        self.client_status.is_terminal()
    }
}

} // verus!
