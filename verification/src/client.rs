//! Client agent: the node-side process that registers with a server,
//! heartbeats, and runs the allocations placed on it.
//!
//! The connection, timers and signal handling live in the binary; this
//! module holds the client's state, the lifecycle transitions it goes
//! through, and the registration it announces.
pub use crate::agent::AgentStatus as ClientStatus;
use crate::config::Config;
use crate::jobspec::Resources;
use crate::node::{Node, NodeStatus, SchedulingEligibility};
use crate::rpc::Request;
use crate::strmap::StrMap;
use vstd::prelude::*;

verus! {

/// The server address used when none was set.
pub open spec fn default_server_addr() -> Seq<char> {
    "127.0.0.1:4646"@
}

/// A client agent that manages local task execution.
#[derive(Debug)]
pub struct Client {
    /// Client configuration.
    config: Config,
    /// Current client status.
    status: ClientStatus,
    /// Server address to connect to; empty for the default.
    server_addr: String,
}

/// The registration a client with configuration `c` announces: a node named
/// after the configured node name, in the configured datacenter, with
/// default resources, initializing, eligible, not draining, and with no
/// attributes or drivers yet.
pub open spec fn registration_of(c: Config, n: Node) -> bool {
    &&& n.id@ == c.node_name@
    &&& n.name@ == c.node_name@
    &&& n.datacenter@ == c.datacenter@
    &&& n.node_class@.len() == 0
    &&& n.resources == (Resources { cpu_mhz: 100, memory_mb: 256, network_mbps: 0 })
    &&& n.status == NodeStatus::Init
    &&& n.eligibility == SchedulingEligibility::Eligible
    &&& !n.draining
    &&& n.attributes.pairs().len() == 0
    &&& n.drivers.pairs().len() == 0
}

impl Client {
    /// The configuration.
    pub closed spec fn spec_config(&self) -> Config {
        self.config
    }

    /// The status.
    pub closed spec fn spec_status(&self) -> ClientStatus {
        self.status
    }

    /// The server address as set (empty when unset).
    pub closed spec fn spec_server_addr(&self) -> Seq<char> {
        self.server_addr@
    }

    /// Create a new client with the given configuration.
    pub fn new(config: Config) -> (r: Self)
        ensures
            r.spec_config() == config,
            r.spec_status() == ClientStatus::Initialized,
            r.spec_server_addr().len() == 0,
    {
        Client { config, status: ClientStatus::Initialized, server_addr: String::new() }
    }

    /// The configuration this client was created with.
    pub fn config(&self) -> (r: &Config)
        ensures
            *r == self.spec_config(),
    {
        &self.config
    }

    /// The current status of the client.
    pub fn status(&self) -> (r: ClientStatus)
        ensures
            r == self.spec_status(),
    {
        self.status
    }

    /// Whether the client is currently running.
    pub fn is_running(&self) -> (r: bool)
        ensures
            r == (self.spec_status() == ClientStatus::Running),
    {
        self.status == ClientStatus::Running
    }

    /// Set the server address the client should connect to.
    pub fn set_server_addr(&mut self, addr: String)
        ensures
            final(self).spec_server_addr() == addr@,
            final(self).spec_config() == old(self).spec_config(),
            final(self).spec_status() == old(self).spec_status(),
    {
        self.server_addr = addr;
    }

    /// The server address to connect to: the one set, or `127.0.0.1:4646`
    /// when none was.
    pub fn server_addr(&self) -> (r: &str)
        ensures
            r@ == if self.spec_server_addr().len() == 0 {
                default_server_addr()
            } else {
                self.spec_server_addr()
            },
    {
        if self.server_addr.as_str().is_empty() {
            "127.0.0.1:4646"
        } else {
            self.server_addr.as_str()
        }
    }

    /// The node registration this client announces to the server.
    pub fn registration(&self) -> (r: Node)
        ensures
            registration_of(self.spec_config(), r),
    {
        Node {
            id: self.config.node_name.clone(),
            name: self.config.node_name.clone(),
            datacenter: self.config.datacenter.clone(),
            node_class: String::new(),
            resources: Resources::default(),
            status: NodeStatus::Init,
            eligibility: SchedulingEligibility::Eligible,
            draining: false,
            attributes: StrMap::new(),
            drivers: StrMap::new(),
        }
    }

    /// The request announcing this client's node, sent once connected.
    pub fn register_request(&self) -> (r: Request)
        ensures
            r matches Request::NodeRegister(n) && registration_of(self.spec_config(), n),
    {
        Request::NodeRegister(self.registration())
    }

    /// The heartbeat this client sends on every heartbeat tick.
    pub fn heartbeat_request(&self) -> (r: Request)
        ensures
            r matches Request::NodeHeartbeat { node_id } && node_id@ == self.spec_config().node_name@,
    {
        Request::NodeHeartbeat { node_id: self.config.node_name.clone() }
    }

    /// The poll for this node's allocations, sent on every poll tick.
    pub fn alloc_poll_request(&self) -> (r: Request)
        ensures
            r matches Request::NodeGetAllocs { node_id } && node_id@ == self.spec_config().node_name@,
    {
        Request::NodeGetAllocs { node_id: self.config.node_name.clone() }
    }

    /// Enter the running state before connecting. Returns `false`, changing
    /// nothing, when the client is already running.
    pub fn begin_run(&mut self) -> (started: bool)
        ensures
            started == (old(self).spec_status() != ClientStatus::Running),
            final(self).spec_status() == ClientStatus::Running,
            final(self).spec_config() == old(self).spec_config(),
            final(self).spec_server_addr() == old(self).spec_server_addr(),
    {
        if self.status == ClientStatus::Running {
            return false;
        }
        self.status = ClientStatus::Running;
        true
    }

    /// The first connection failed: the client is back to `Initialized`.
    pub fn connect_failed(&mut self)
        ensures
            final(self).spec_status() == ClientStatus::Initialized,
            final(self).spec_config() == old(self).spec_config(),
            final(self).spec_server_addr() == old(self).spec_server_addr(),
    {
        self.status = ClientStatus::Initialized;
    }

    /// Stop the client: it is `Stopped` afterwards. Returns whether it was
    /// running, that is, whether its background work has to be stopped.
    pub fn stop(&mut self) -> (was_running: bool)
        ensures
            was_running == (old(self).spec_status() == ClientStatus::Running),
            final(self).spec_status() == ClientStatus::Stopped,
            final(self).spec_config() == old(self).spec_config(),
            final(self).spec_server_addr() == old(self).spec_server_addr(),
    {
        let was_running = self.status == ClientStatus::Running;
        self.status = ClientStatus::Stopped;
        was_running
    }
}

} // verus!
