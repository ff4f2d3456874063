//! Restart and reschedule policies.
//!
//! A restart policy governs in-place task restarts on the same node; a
//! reschedule policy governs moving a failed allocation to another node.
use crate::error::{Error, Result};
use vstd::prelude::*;

verus! {

/// What happens when a task exhausts its restart attempts within an interval.
#[derive(Debug, Clone, Copy, PartialEq, Eq, Structural)]
pub enum RestartMode {
    /// Wait out the interval, then resume restarting.
    Delay,
    /// Fail the allocation (let the scheduler reschedule it).
    Fail,
}

/// In-place restart policy for a task.
#[derive(Debug, Clone)]
pub struct RestartPolicy {
    /// Allowed restarts within `interval_secs`.
    pub attempts: u32,
    /// Sliding window for counting attempts, in seconds.
    pub interval_secs: u64,
    /// Delay between restarts, in seconds.
    pub delay_secs: u64,
    /// Behaviour once attempts are exhausted.
    pub mode: RestartMode,
}

/// Why a restart policy is invalid, if it is.
pub open spec fn restart_problem(p: RestartPolicy) -> Option<Seq<char>> {
    if p.attempts > 0 && p.interval_secs == 0 {
        Some("restart interval must be positive when attempts are allowed"@)
    } else if p.delay_secs > p.interval_secs {
        Some("restart delay cannot exceed the interval"@)
    } else {
        None
    }
}

impl RestartPolicy {
    /// Validate the restart policy.
    ///
    /// # Errors
    ///
    /// Returns [`Error::Config`] if `attempts > 0` but `interval_secs` is
    /// zero, or `delay_secs` exceeds `interval_secs`.
    pub fn validate(&self) -> (r: Result<()>)
        ensures
            match restart_problem(*self) {
                None => r is Ok,
                Some(msg) => r matches Err(e) && e.is_config(msg),
            },
    {
        if self.attempts > 0 && self.interval_secs == 0 {
            return Err(Error::Config("restart interval must be positive when attempts are allowed".to_string()));
        }
        if self.delay_secs > self.interval_secs {
            return Err(Error::Config("restart delay cannot exceed the interval".to_string()));
        }
        Ok(())
    }
}

/// How reschedule delay grows across successive failures.
#[derive(Debug, Clone, Copy, PartialEq, Eq, Structural)]
pub enum DelayFunction {
    /// Fixed delay every time.
    Constant,
    /// Doubles each attempt up to a cap.
    Exponential,
    /// Fibonacci growth up to a cap.
    Fibonacci,
}

/// Policy for moving a failed allocation to a new node.
#[derive(Debug, Clone)]
pub struct ReschedulePolicy {
    /// Allowed reschedules within `interval_secs` (ignored if `unlimited`).
    pub attempts: u32,
    /// Sliding window for counting attempts, in seconds.
    pub interval_secs: u64,
    /// Base delay before the first reschedule, in seconds.
    pub delay_secs: u64,
    /// How the delay grows.
    pub delay_function: DelayFunction,
    /// Maximum delay cap, in seconds (required for growing functions).
    pub max_delay_secs: u64,
    /// Reschedule without an attempt limit.
    pub unlimited: bool,
}

/// Why a reschedule policy is invalid, if it is.
pub open spec fn reschedule_problem(p: ReschedulePolicy) -> Option<Seq<char>> {
    if p.delay_function != DelayFunction::Constant && p.max_delay_secs <= p.delay_secs {
        Some("reschedule max_delay must exceed delay for a growing delay function"@)
    } else if !p.unlimited && p.attempts == 0 {
        Some("bounded reschedule policy needs at least one attempt"@)
    } else {
        None
    }
}

impl ReschedulePolicy {
    /// Validate the reschedule policy.
    ///
    /// # Errors
    ///
    /// Returns [`Error::Config`] if a growing `delay_function` has
    /// `max_delay_secs <= delay_secs`, or a bounded policy has zero
    /// `attempts`.
    pub fn validate(&self) -> (r: Result<()>)
        ensures
            match reschedule_problem(*self) {
                None => r is Ok,
                Some(msg) => r matches Err(e) && e.is_config(msg),
            },
    {
        if self.delay_function != DelayFunction::Constant && self.max_delay_secs <= self.delay_secs {
            return Err(Error::Config("reschedule max_delay must exceed delay for a growing delay function".to_string()));
        }
        if !self.unlimited && self.attempts == 0 {
            return Err(Error::Config("bounded reschedule policy needs at least one attempt".to_string()));
        }
        Ok(())
    }
}

} // verus!
