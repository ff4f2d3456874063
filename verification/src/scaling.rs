//! Scaling policies for task groups.
//!
//! Bounds and gates a task group's count for manual or autoscaler-driven
//! changes.
use crate::error::{Error, Result};
use vstd::prelude::*;

verus! {

/// Min/max bounds for a task group's count.
#[derive(Debug, Clone)]
pub struct ScalingPolicy {
    /// Lower bound (inclusive).
    pub min: u32,
    /// Upper bound (inclusive).
    pub max: u32,
    /// Whether the autoscaler may act on this policy.
    pub enabled: bool,
}

/// `desired` brought up to `min`, or else down to `max`.
pub open spec fn clamped(p: ScalingPolicy, desired: u32) -> u32 {
    if desired < p.min {
        p.min
    } else if desired > p.max {
        p.max
    } else {
        desired
    }
}

impl ScalingPolicy {
    /// Validate the bounds.
    ///
    /// # Errors
    ///
    /// Returns [`Error::Config`] if `min > max`.
    pub fn validate(&self) -> (r: Result<()>)
        ensures
            r is Ok <==> self.min <= self.max,
            r is Err ==> (r matches Err(e) && e.is_config("scaling min cannot exceed max"@)),
    {
        if self.min > self.max {
            return Err(Error::Config("scaling min cannot exceed max".to_string()));
        }
        Ok(())
    }

    /// Clamp a desired count into `[min, max]`.
    pub fn clamp(&self, desired: u32) -> (r: u32)
        ensures
            r == clamped(*self, desired),
    {
        if desired < self.min {
            self.min
        } else if desired > self.max {
            self.max
        } else {
            desired
        }
    }
}

/// For valid bounds, a clamped count lies within them, a count already
/// within them is left alone, and clamping twice changes nothing more.
pub proof fn law_clamp_in_bounds(p: ScalingPolicy, desired: u32)
    requires
        p.min <= p.max,
    ensures
        p.min <= clamped(p, desired) <= p.max,
        p.min <= desired <= p.max ==> clamped(p, desired) == desired,
        clamped(p, clamped(p, desired)) == clamped(p, desired),
{
}

} // verus!
