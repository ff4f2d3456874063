//! Consensus node: a single-node leader commits a proposal the instant it is
//! appended and applies it to its state machine.
use crate::error::{Error, Result};
use crate::fsm::Fsm;
use crate::state::{outcome_matches, step, Command, StateStore};
use crate::strmap::has_key;
use crate::text::concat;
use vstd::prelude::*;

verus! {

/// A node's role in the consensus group.
#[derive(Debug, Clone, Copy, PartialEq, Eq, Structural)]
pub enum RaftRole {
    /// Replicates the log and serves writes.
    Leader,
    /// Follows the leader.
    Follower,
    /// Standing for election.
    Candidate,
}

/// The in-tree consensus node. A bootstrap node leads with a quorum of one; a
/// joining node follows and refuses proposals.
#[derive(Debug)]
pub struct RaftNode {
    /// This node's identifier within the consensus group.
    id: String,
    /// This node's role.
    role: RaftRole,
    /// The committed command log.
    log: Vec<Command>,
    /// The state machine committed entries are applied to.
    fsm: Fsm,
    /// Address of the current leader, if known.
    leader_addr: Option<String>,
}

impl RaftNode {
    /// This node's role.
    pub closed spec fn spec_role(&self) -> RaftRole {
        self.role
    }

    /// Number of committed entries.
    pub closed spec fn spec_committed(&self) -> nat {
        self.log@.len()
    }

    /// The committed state.
    pub closed spec fn spec_state(&self) -> StateStore {
        self.fsm.spec_state()
    }

    /// The known leader address.
    pub closed spec fn spec_leader_addr(&self) -> Option<Seq<char>> {
        match self.leader_addr {
            Some(a) => Some(a@),
            None => None,
        }
    }

    /// This node's identifier.
    pub closed spec fn spec_id(&self) -> Seq<char> {
        self.id@
    }

    /// Create a follower node that will join an existing cluster.
    pub fn new(id: &str) -> (r: Self)
        ensures
            r.spec_role() == RaftRole::Follower,
            r.spec_id() == id@,
            r.spec_committed() == 0,
            r.spec_leader_addr() is None,
            r.spec_state().model().jobs.len() == 0,
            r.spec_state().model().nodes.len() == 0,
            r.spec_state().model().allocs.len() == 0,
            r.spec_state().model().evals.len() == 0,
    {
        RaftNode { id: id.to_owned(), role: RaftRole::Follower, log: Vec::new(), fsm: Fsm::new(), leader_addr: None }
    }

    /// Create a single-node bootstrap leader.
    pub fn bootstrap(id: &str) -> (r: Self)
        ensures
            r.spec_role() == RaftRole::Leader,
            r.spec_id() == id@,
            r.spec_committed() == 0,
            r.spec_leader_addr() is None,
            r.spec_state().model().jobs.len() == 0,
            r.spec_state().model().nodes.len() == 0,
            r.spec_state().model().allocs.len() == 0,
            r.spec_state().model().evals.len() == 0,
    {
        RaftNode { id: id.to_owned(), role: RaftRole::Leader, log: Vec::new(), fsm: Fsm::new(), leader_addr: None }
    }

    /// Propose a command for replication. Valid only on the leader; the
    /// command commits exactly when the state machine accepts it.
    ///
    /// # Errors
    ///
    /// Returns an error if this node is not the leader, or the state machine
    /// rejects the command; nothing is committed then.
    pub fn propose(&mut self, command: Command) -> (r: Result<()>)
        ensures
            old(self).spec_role() != RaftRole::Leader ==> (r matches Err(e) && e.is_runtime(
                "not the leader, cannot propose"@,
            )) && final(self).spec_state().model() == old(self).spec_state().model()
                && final(self).spec_committed() == old(self).spec_committed(),
            old(self).spec_role() == RaftRole::Leader ==> outcome_matches(
                r,
                old(self).spec_state().model(),
                final(self).spec_state().model(),
                step(old(self).spec_state().model(), command),
            ),
            old(self).spec_role() == RaftRole::Leader ==> final(self).spec_committed() == old(self).spec_committed()
                + if r is Ok { 1nat } else { 0nat },
            final(self).spec_role() == old(self).spec_role(),
            final(self).spec_leader_addr() == old(self).spec_leader_addr(),
            final(self).spec_id() == old(self).spec_id(),
    {
        if self.role != RaftRole::Leader {
            proof {
                reveal_strlit("not the leader, cannot propose");
            }
            return Err(Error::Runtime(String::from_str("not the leader, cannot propose")));
        }
        let entry = command.clone();
        match self.fsm.apply(command) {
            Ok(()) => {
                self.log.push(entry);
                Ok(())
            },
            Err(e) => Err(e),
        }
    }

    /// Borrow the state machine's state for direct writes that bypass the
    /// log (seeding a node's state); nothing is committed.
    pub fn state_mut(&mut self) -> (r: &mut StateStore)
        ensures
            *r == old(self).spec_state(),
            final(self).spec_state() == *final(r),
            final(self).spec_role() == old(self).spec_role(),
            final(self).spec_committed() == old(self).spec_committed(),
            final(self).spec_leader_addr() == old(self).spec_leader_addr(),
            final(self).spec_id() == old(self).spec_id(),
    {
        self.fsm.state_mut()
    }

    /// Borrow the committed state for reads.
    pub fn state(&self) -> (r: &StateStore)
        ensures
            *r == self.spec_state(),
    {
        self.fsm.state()
    }

    /// Number of committed log entries.
    pub fn committed_index(&self) -> (r: usize)
        ensures
            r == self.spec_committed(),
    {
        self.log.len()
    }

    /// This node's current role.
    pub fn role(&self) -> (r: RaftRole)
        ensures
            r == self.spec_role(),
    {
        self.role
    }

    /// Whether this node is currently the leader.
    pub fn is_leader(&self) -> (r: bool)
        ensures
            r == (self.spec_role() == RaftRole::Leader),
    {
        self.role == RaftRole::Leader
    }

    /// Address of the current leader, if one is known.
    pub fn leader_addr(&self) -> (r: Option<String>)
        ensures
            match r {
                Some(a) => self.spec_leader_addr() == Some(a@),
                None => self.spec_leader_addr() is None,
            },
    {
        match &self.leader_addr {
            Some(a) => Some(a.clone()),
            None => None,
        }
    }

    /// Set the known leader address (used by the cluster membership layer).
    pub fn set_leader_addr(&mut self, addr: Option<String>)
        ensures
            final(self).spec_leader_addr() == match addr {
                Some(a) => Some(a@),
                None => None::<Seq<char>>,
            },
            final(self).spec_role() == old(self).spec_role(),
            final(self).spec_committed() == old(self).spec_committed(),
            final(self).spec_state() == old(self).spec_state(),
            final(self).spec_id() == old(self).spec_id(),
    {
        self.leader_addr = addr;
    }

    /// Record a heartbeat from a node: accepted when the node is registered.
    ///
    /// # Errors
    ///
    /// Returns an error if the node is not registered in state.
    pub fn heartbeat(&self, node_id: &str) -> (r: Result<()>)
        ensures
            has_key(self.spec_state().model().nodes, node_id@) ==> r is Ok,
            !has_key(self.spec_state().model().nodes, node_id@) ==> (r matches Err(e) && e.is_runtime(
                "heartbeat from unknown node: "@ + node_id@,
            )),
    {
        proof {
            reveal_strlit("heartbeat from unknown node: ");
        }
        match self.fsm.state().get_node(node_id) {
            Some(_) => Ok(()),
            None => Err(Error::Runtime(concat("heartbeat from unknown node: ", node_id))),
        }
    }
}

} // verus!
