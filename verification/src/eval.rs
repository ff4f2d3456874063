//! Evaluations: the scheduler's unit of work.
use crate::error::{Error, Result};
use crate::id::{EvalId, JobId};
use crate::jobspec::{priority_in_range, JOB_MAX_PRIORITY, JOB_MIN_PRIORITY};
use crate::text::{dec_int, i64_to_string};
use vstd::prelude::*;

verus! {

/// Why an evaluation was created.
#[derive(Debug, Clone, Copy, PartialEq, Eq, Structural)]
pub enum EvalTrigger {
    /// A job was registered or updated.
    JobRegister,
    /// A job was deregistered.
    JobDeregister,
    /// A node's status or resources changed.
    NodeUpdate,
    /// A node began draining.
    NodeDrain,
    /// An allocation failed and may need rescheduling.
    AllocFailure,
    /// The scheduler hit the max plan submission attempts.
    MaxPlanAttempts,
}

impl EvalTrigger {
    /// Lowercase, hyphenated wire string.
    pub open spec fn spec_name(self) -> Seq<char> {
        match self {
            EvalTrigger::JobRegister => "job-register"@,
            EvalTrigger::JobDeregister => "job-deregister"@,
            EvalTrigger::NodeUpdate => "node-update"@,
            EvalTrigger::NodeDrain => "node-drain"@,
            EvalTrigger::AllocFailure => "alloc-failure"@,
            EvalTrigger::MaxPlanAttempts => "max-plan-attempts"@,
        }
    }

    /// Lowercase, hyphenated wire string, e.g. `JobRegister` is `"job-register"`.
    pub fn as_str(&self) -> (r: &'static str)
        ensures
            r@ == self.spec_name(),
    {
        proof {
            reveal_strlit("job-register");
            reveal_strlit("job-deregister");
            reveal_strlit("node-update");
            reveal_strlit("node-drain");
            reveal_strlit("alloc-failure");
            reveal_strlit("max-plan-attempts");
        }
        match self {
            EvalTrigger::JobRegister => "job-register",
            EvalTrigger::JobDeregister => "job-deregister",
            EvalTrigger::NodeUpdate => "node-update",
            EvalTrigger::NodeDrain => "node-drain",
            EvalTrigger::AllocFailure => "alloc-failure",
            EvalTrigger::MaxPlanAttempts => "max-plan-attempts",
        }
    }
}

/// Lifecycle status of an evaluation.
#[derive(Debug, Clone, Copy, PartialEq, Eq, Structural)]
pub enum EvalStatus {
    /// Waiting on resources/another eval before it can run.
    Blocked,
    /// Queued for processing.
    Pending,
    /// Processed successfully.
    Complete,
    /// Processing failed.
    Failed,
    /// Superseded or cancelled before processing.
    Canceled,
}

impl EvalStatus {
    /// Lowercase wire string.
    pub open spec fn spec_name(self) -> Seq<char> {
        match self {
            EvalStatus::Blocked => "blocked"@,
            EvalStatus::Pending => "pending"@,
            EvalStatus::Complete => "complete"@,
            EvalStatus::Failed => "failed"@,
            EvalStatus::Canceled => "canceled"@,
        }
    }

    /// Whether this is a terminal status.
    pub open spec fn spec_terminal(self) -> bool {
        self == EvalStatus::Complete || self == EvalStatus::Failed || self == EvalStatus::Canceled
    }

    /// Lowercase wire string, e.g. `Pending` is `"pending"`.
    pub fn as_str(&self) -> (r: &'static str)
        ensures
            r@ == self.spec_name(),
    {
        proof {
            reveal_strlit("blocked");
            reveal_strlit("pending");
            reveal_strlit("complete");
            reveal_strlit("failed");
            reveal_strlit("canceled");
        }
        match self {
            EvalStatus::Blocked => "blocked",
            EvalStatus::Pending => "pending",
            EvalStatus::Complete => "complete",
            EvalStatus::Failed => "failed",
            EvalStatus::Canceled => "canceled",
        }
    }

    /// Whether this is a terminal status: `Complete`, `Failed`, or `Canceled`.
    pub fn is_terminal(&self) -> (r: bool)
        ensures
            r == self.spec_terminal(),
    {
        match self {
            EvalStatus::Complete | EvalStatus::Failed | EvalStatus::Canceled => true,
            _ => false,
        }
    }
}

/// A scheduler evaluation.
#[derive(Debug)]
pub struct Evaluation {
    /// Unique evaluation identifier.
    pub id: EvalId,
    /// Job this evaluation concerns.
    pub job_id: JobId,
    /// Scheduling priority, inherited from the job (1..=100).
    pub priority: i32,
    /// Why the evaluation was created.
    pub trigger: EvalTrigger,
    /// Current lifecycle status.
    pub status: EvalStatus,
}

impl Clone for Evaluation {
    fn clone(&self) -> (r: Self)
        ensures
            r == *self,
    {
        Evaluation {
            id: self.id.clone(),
            job_id: self.job_id.clone(),
            priority: self.priority,
            trigger: self.trigger,
            status: self.status,
        }
    }
}

/// The first problem with an evaluation, if any.
pub open spec fn eval_problem(e: Evaluation) -> Option<Seq<char>> {
    if e.id@.len() == 0 {
        Some("eval id cannot be empty"@)
    } else if e.job_id@.len() == 0 {
        Some("eval job_id cannot be empty"@)
    } else if !priority_in_range(e.priority as int) {
        Some("priority "@ + dec_int(e.priority as int) + " out of range (1-100)"@)
    } else {
        None
    }
}

impl Evaluation {
    /// Validate the evaluation.
    ///
    /// # Errors
    ///
    /// Returns [`Error::Validation`] if `id` or `job_id` is empty, or if
    /// `priority` is outside the job priority range.
    pub fn validate(&self) -> (r: Result<()>)
        ensures
            match eval_problem(*self) {
                None => r is Ok,
                Some(m) => r matches Err(e) && e.is_validation(m),
            },
    {
        proof {
            reveal_strlit("eval id cannot be empty");
            reveal_strlit("eval job_id cannot be empty");
            reveal_strlit("priority ");
            reveal_strlit(" out of range (1-100)");
        }
        if self.id.is_empty() {
            return Err(Error::Validation(String::from_str("eval id cannot be empty")));
        }
        if self.job_id.is_empty() {
            return Err(Error::Validation(String::from_str("eval job_id cannot be empty")));
        }
        if !(JOB_MIN_PRIORITY <= self.priority && self.priority <= JOB_MAX_PRIORITY) {
            let mut m = String::from_str("priority ");
            let d = i64_to_string(self.priority as i64);
            m.append(d.as_str());
            m.append(" out of range (1-100)");
            return Err(Error::Validation(m));
        }
        Ok(())
    }

    /// Whether the evaluation is ready to be dequeued and processed: status
    /// is `Pending`.
    pub fn is_schedulable(&self) -> (r: bool)
        ensures
            r == (self.status == EvalStatus::Pending),
    {
        self.status == EvalStatus::Pending
    }
}

} // verus!
