//! Node drain orchestration.
//!
//! Draining migrates allocations off a node within a deadline.
use crate::error::{Error, Result};
use vstd::prelude::*;

verus! {

/// How a node should be drained.
#[derive(Debug, Clone)]
pub struct DrainSpec {
    /// Time allowed to migrate allocations, in seconds (0 means none unless
    /// `force`).
    pub deadline_secs: u64,
    /// Drain immediately, ignoring the deadline.
    pub force: bool,
    /// Leave system jobs running.
    pub ignore_system_jobs: bool,
}

impl DrainSpec {
    /// Validate the drain spec.
    ///
    /// # Errors
    ///
    /// Returns [`Error::Config`] if `deadline_secs` is zero and `force` is
    /// false (a non-forced drain needs a deadline).
    pub fn validate(&self) -> (r: Result<()>)
        ensures
            r is Ok <==> (self.force || self.deadline_secs > 0),
            r is Err ==> (r matches Err(e) && e.is_config("a drain without force needs a positive deadline"@)),
    {
        if !self.force && self.deadline_secs == 0 {
            return Err(Error::Config("a drain without force needs a positive deadline".to_string()));
        }
        Ok(())
    }
}

/// Snapshot of how far a drain has progressed.
#[derive(Debug, Clone, Copy, PartialEq, Eq, Structural)]
pub struct DrainProgress {
    /// Allocations still to migrate.
    pub remaining: u32,
    /// Whether the drain is complete.
    pub complete: bool,
}

/// Compute drain progress from totals: what is left to migrate (none once
/// everything has been), and whether the drain is complete.
pub fn drain_progress(total: u32, migrated: u32) -> (r: DrainProgress)
    ensures
        r.remaining == if migrated >= total { 0 } else { total - migrated },
        r.complete == (migrated >= total),
{
    if migrated >= total {
        DrainProgress { remaining: 0, complete: true }
    } else {
        DrainProgress { remaining: total - migrated, complete: false }
    }
}

} // verus!
