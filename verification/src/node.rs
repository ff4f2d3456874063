//! Cluster node (client) representation and scheduling eligibility.
use crate::error::{Error, Result};
use crate::jobspec::{resources_problem, Resources};
use crate::strmap::{lookup, StrMap};
use vstd::prelude::*;

verus! {

/// Lifecycle status of a node as tracked by the servers.
#[derive(Debug, Clone, Copy, PartialEq, Eq, Structural)]
pub enum NodeStatus {
    /// Registering; not yet ready for work.
    Init,
    /// Healthy and ready to receive allocations.
    Ready,
    /// Missed heartbeats; considered down.
    Down,
    /// Partitioned from the servers; allocations may still run.
    Disconnected,
}

impl NodeStatus {
    /// Lowercase wire string for the status, e.g. `Ready` renders as `"ready"`.
    pub open spec fn spec_name(self) -> Seq<char> {
        match self {
            NodeStatus::Init => "initializing"@,
            NodeStatus::Ready => "ready"@,
            NodeStatus::Down => "down"@,
            NodeStatus::Disconnected => "disconnected"@,
        }
    }

    /// Lowercase wire string for the status.
    pub fn as_str(&self) -> (r: &'static str)
        ensures
            r@ == self.spec_name(),
    {
        proof {
            reveal_strlit("initializing");
            reveal_strlit("ready");
            reveal_strlit("down");
            reveal_strlit("disconnected");
        }
        match self {
            NodeStatus::Init => "initializing",
            NodeStatus::Ready => "ready",
            NodeStatus::Down => "down",
            NodeStatus::Disconnected => "disconnected",
        }
    }
}

/// Whether the scheduler may place new work on a node.
#[derive(Debug, Clone, Copy, PartialEq, Eq, Structural)]
pub enum SchedulingEligibility {
    /// New allocations may be placed.
    Eligible,
    /// Operator marked the node ineligible; running allocs are untouched.
    Ineligible,
}

/// A client node advertised to the cluster.
#[derive(Debug, Clone)]
pub struct Node {
    /// Unique node identifier.
    pub id: String,
    /// Human-readable node name.
    pub name: String,
    /// Datacenter the node belongs to.
    pub datacenter: String,
    /// Operator-assigned class used for constraint matching.
    pub node_class: String,
    /// Total resources advertised for scheduling.
    pub resources: Resources,
    /// Current lifecycle status.
    pub status: NodeStatus,
    /// Scheduling eligibility.
    pub eligibility: SchedulingEligibility,
    /// Whether the node is draining its allocations.
    pub draining: bool,
    /// Fingerprinted attributes, e.g. `"os.name" => "linux"`.
    pub attributes: StrMap<String>,
    /// Driver name to healthy flag, e.g. `"docker" => true`.
    pub drivers: StrMap<bool>,
}

/// The first problem with a node registration, if any.
pub open spec fn node_problem(n: Node) -> Option<Seq<char>> {
    if n.id@.len() == 0 {
        Some("node id cannot be empty"@)
    } else if n.name@.len() == 0 {
        Some("node name cannot be empty"@)
    } else if n.datacenter@.len() == 0 {
        Some("node datacenter cannot be empty"@)
    } else {
        None
    }
}

/// Whether a node can receive new allocations.
pub open spec fn node_ready(n: Node) -> bool {
    n.status == NodeStatus::Ready && n.eligibility == SchedulingEligibility::Eligible && !n.draining
}

impl Node {
    /// Validate the node registration.
    ///
    /// # Errors
    ///
    /// Returns [`Error::Config`] if `id`, `name`, or `datacenter` is empty, and
    /// the resources' own `Validation` error if they are invalid.
    pub fn validate(&self) -> (r: Result<()>)
        ensures
            match node_problem(*self) {
                Some(m) => r matches Err(e) && e.is_config(m),
                None => match resources_problem(self.resources) {
                    None => r is Ok,
                    Some(m) => r matches Err(e) && e.is_validation(m),
                },
            },
    {
        proof {
            reveal_strlit("node id cannot be empty");
            reveal_strlit("node name cannot be empty");
            reveal_strlit("node datacenter cannot be empty");
        }
        if self.id.as_str().is_empty() {
            return Err(Error::Config(String::from_str("node id cannot be empty")));
        }
        if self.name.as_str().is_empty() {
            return Err(Error::Config(String::from_str("node name cannot be empty")));
        }
        if self.datacenter.as_str().is_empty() {
            return Err(Error::Config(String::from_str("node datacenter cannot be empty")));
        }
        self.resources.validate()
    }

    /// Whether the node can receive new allocations: status `Ready`,
    /// eligibility `Eligible`, and not draining.
    pub fn is_ready(&self) -> (r: bool)
        ensures
            r == node_ready(*self),
    {
        self.status == NodeStatus::Ready && self.eligibility == SchedulingEligibility::Eligible && !self.draining
    }

    /// Whether `driver` is present and healthy on this node.
    pub fn has_healthy_driver(&self, driver: &str) -> (r: bool)
        ensures
            r == (lookup(self.drivers.pairs(), driver@) == Some(true)),
    {
        match self.drivers.get(driver) {
            Some(h) => *h,
            None => false,
        }
    }
}

} // verus!
