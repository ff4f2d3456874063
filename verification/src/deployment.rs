//! Deployments: orchestrated rollouts with canaries and health gating.
use crate::error::{Error, Result};
use vstd::prelude::*;

verus! {

/// Lifecycle status of a deployment.
#[derive(Debug, Clone, Copy, PartialEq, Eq, Structural)]
pub enum DeploymentStatus {
    /// Actively rolling out.
    Running,
    /// Completed successfully.
    Successful,
    /// Failed (may auto-revert).
    Failed,
    /// Cancelled by a newer deployment.
    Cancelled,
    /// Paused awaiting manual promotion.
    Paused,
}

/// A job rollout in progress.
#[derive(Debug, Clone)]
pub struct Deployment {
    /// Unique deployment id.
    pub id: String,
    /// Job being rolled out.
    pub job_id: String,
    /// Current status.
    pub status: DeploymentStatus,
    /// Canaries the strategy asked for.
    pub desired_canaries: u32,
    /// Allocations placed so far.
    pub placed: u32,
    /// Allocations currently healthy.
    pub healthy: u32,
}

/// Why a deployment is invalid, if it is.
pub open spec fn deployment_problem(d: Deployment) -> Option<Seq<char>> {
    if d.id@.len() == 0 {
        Some("deployment id cannot be empty"@)
    } else if d.job_id@.len() == 0 {
        Some("deployment job_id cannot be empty"@)
    } else if d.healthy > d.placed {
        Some("deployment cannot have more healthy than placed allocations"@)
    } else {
        None
    }
}

impl Deployment {
    /// Validate the deployment counters.
    ///
    /// # Errors
    ///
    /// Returns [`Error::Config`] if `id` or `job_id` is empty or
    /// `healthy > placed`.
    pub fn validate(&self) -> (r: Result<()>)
        ensures
            match deployment_problem(*self) {
                None => r is Ok,
                Some(msg) => r matches Err(e) && e.is_config(msg),
            },
    {
        if self.id.as_str().is_empty() {
            return Err(Error::Config("deployment id cannot be empty".to_string()));
        }
        if self.job_id.as_str().is_empty() {
            return Err(Error::Config("deployment job_id cannot be empty".to_string()));
        }
        if self.healthy > self.placed {
            return Err(Error::Config("deployment cannot have more healthy than placed allocations".to_string()));
        }
        Ok(())
    }

    /// Whether canaries were requested and are all healthy, so the
    /// deployment can be promoted.
    pub fn is_promotable(&self) -> (r: bool)
        ensures
            r == (self.desired_canaries > 0 && self.healthy >= self.desired_canaries),
    {
        self.desired_canaries > 0 && self.healthy >= self.desired_canaries
    }
}

} // verus!
