//! Replicated finite state machine.
//!
//! Each committed [`Command`] is applied here, in log order, to the
//! authoritative [`StateStore`].
use crate::error::Result;
use crate::state::{outcome_matches, step, Command, StateStore};
use vstd::prelude::*;

verus! {

/// Owns the authoritative [`StateStore`] and mutates it by applying committed
/// commands in log order.
#[derive(Debug)]
pub struct Fsm {
    /// The state this machine is responsible for.
    state: StateStore,
}

impl Fsm {
    /// The state this machine holds.
    pub closed spec fn spec_state(&self) -> StateStore {
        self.state
    }

    /// Create a machine over an empty state store.
    pub fn new() -> (r: Self)
        ensures
            r.spec_state().model().jobs.len() == 0,
            r.spec_state().model().nodes.len() == 0,
            r.spec_state().model().allocs.len() == 0,
            r.spec_state().model().evals.len() == 0,
    {
        Fsm { state: StateStore::new() }
    }

    /// Borrow the underlying state for reads.
    pub fn state(&self) -> (r: &StateStore)
        ensures
            *r == self.spec_state(),
    {
        &self.state
    }

    /// Borrow the underlying state for direct writes, bypassing the log.
    pub fn state_mut(&mut self) -> (r: &mut StateStore)
        ensures
            *r == old(self).spec_state(),
            final(self).spec_state() == *final(r),
    {
        &mut self.state
    }

    /// Apply a committed command to the state.
    ///
    /// # Errors
    ///
    /// Returns an error if the store rejects the command (e.g. validation
    /// failure, deleting a missing job); the state is then unchanged.
    pub fn apply(&mut self, command: Command) -> (r: Result<()>)
        ensures
            outcome_matches(
                r,
                old(self).spec_state().model(),
                final(self).spec_state().model(),
                step(old(self).spec_state().model(), command),
            ),
    {
        self.state.apply(command)
    }
}

} // verus!
