//! Rolling update strategy for a task group.
//!
//! Controls how new versions roll out: parallelism, canaries, health gating,
//! and automatic revert and promotion.
use crate::error::{Error, Result};
use crate::text::{dec_digits, u64_to_string};
use vstd::prelude::*;

verus! {

/// How allocation health is determined during a deployment.
#[derive(Debug, Clone, Copy, PartialEq, Eq, Structural)]
pub enum HealthCheck {
    /// Use registered service checks.
    Checks,
    /// Use task running/healthy states only.
    TaskStates,
    /// Health is set manually by an operator.
    Manual,
}

/// The rolling-update strategy.
#[derive(Debug, Clone)]
pub struct UpdateStrategy {
    /// Max allocations to update simultaneously (at least one).
    pub max_parallel: u32,
    /// Number of canary allocations to deploy before the rest (0 = none).
    pub canary: u32,
    /// How health is judged.
    pub health_check: HealthCheck,
    /// Minimum time an alloc must stay healthy to count, in seconds.
    pub min_healthy_secs: u64,
    /// Deadline for an alloc to become healthy, in seconds (more than
    /// `min_healthy_secs`).
    pub healthy_deadline_secs: u64,
    /// Roll back automatically if the deployment fails.
    pub auto_revert: bool,
    /// Promote canaries automatically once healthy.
    pub auto_promote: bool,
}

/// Why a strategy is invalid, if it is.
pub open spec fn strategy_problem(s: UpdateStrategy) -> Option<Seq<char>> {
    if s.max_parallel == 0 {
        Some("update max_parallel must be >= 1"@)
    } else if s.healthy_deadline_secs <= s.min_healthy_secs {
        Some(
            "update healthy_deadline_secs ("@ + dec_digits(s.healthy_deadline_secs as nat) + ") must exceed min_healthy_secs ("@
                + dec_digits(s.min_healthy_secs as nat) + ")"@,
        )
    } else {
        None
    }
}

impl UpdateStrategy {
    /// Validate the update strategy.
    ///
    /// # Errors
    ///
    /// Returns [`Error::Config`] if `max_parallel` is zero or
    /// `healthy_deadline_secs <= min_healthy_secs`.
    pub fn validate(&self) -> (r: Result<()>)
        ensures
            match strategy_problem(*self) {
                None => r is Ok,
                Some(msg) => r matches Err(e) && e.is_config(msg),
            },
    {
        if self.max_parallel == 0 {
            return Err(Error::Config("update max_parallel must be >= 1".to_string()));
        }
        if self.healthy_deadline_secs <= self.min_healthy_secs {
            let mut msg = String::from_str("update healthy_deadline_secs (");
            let d = u64_to_string(self.healthy_deadline_secs);
            msg.append(d.as_str());
            msg.append(") must exceed min_healthy_secs (");
            let m = u64_to_string(self.min_healthy_secs);
            msg.append(m.as_str());
            msg.append(")");
            return Err(Error::Config(msg));
        }
        Ok(())
    }

    /// Whether this strategy deploys canaries first.
    pub fn uses_canary(&self) -> (r: bool)
        ensures
            r == (self.canary > 0),
    {
        self.canary > 0
    }
}

} // verus!
