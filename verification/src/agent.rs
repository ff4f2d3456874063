//! Agent lifecycle: the top-level process that holds a client and a server
//! and drives them through start and graceful shutdown.
//!
//! Starting the sub-agents and waiting for a shutdown signal are the
//! binary's work; the agent's own state and its transitions are here.
use crate::client::Client;
use crate::config::Config;
use crate::server::Server;
use vstd::prelude::*;

verus! {

/// Shared lifecycle status of an agent, client or server.
#[derive(Debug, Clone, Copy, PartialEq, Eq, Structural)]
pub enum AgentStatus {
    /// Created but not running.
    Initialized,
    /// Actively running.
    Running,
    /// Stopped.
    Stopped,
}

/// An agent that runs a client and a server.
#[derive(Debug)]
pub struct Agent {
    /// Shared configuration.
    config: Config,
    /// The client, once started.
    client: Option<Client>,
    /// The server, once started.
    server: Option<Server>,
    /// Current agent status.
    status: AgentStatus,
}

/// Whether `after` is the client `before` once stopped (absent stays absent).
pub open spec fn client_stopped(before: Option<Client>, after: Option<Client>) -> bool {
    match before {
        None => after is None,
        Some(c) => (after matches Some(d) && d.spec_status() == AgentStatus::Stopped && d.spec_config()
            == c.spec_config() && d.spec_server_addr() == c.spec_server_addr()),
    }
}

/// Whether `after` is the server `before` once stopped (absent stays absent).
pub open spec fn server_stopped(before: Option<Server>, after: Option<Server>) -> bool {
    match before {
        None => after is None,
        Some(s) => (after matches Some(t) && t.spec_status() == AgentStatus::Stopped && t.spec_config()
            == s.spec_config() && t.spec_endpoint() == s.spec_endpoint()),
    }
}

impl Agent {
    /// The configuration.
    pub closed spec fn spec_config(&self) -> Config {
        self.config
    }

    /// The status.
    pub closed spec fn spec_status(&self) -> AgentStatus {
        self.status
    }

    /// The client, if started.
    pub closed spec fn spec_client(&self) -> Option<Client> {
        self.client
    }

    /// The server, if started.
    pub closed spec fn spec_server(&self) -> Option<Server> {
        self.server
    }

    /// Create a new agent from config. The sub-agents are created when it
    /// starts.
    pub fn new(config: Config) -> (r: Self)
        ensures
            r.spec_config() == config,
            r.spec_status() == AgentStatus::Initialized,
            r.spec_client() is None,
            r.spec_server() is None,
    {
        Agent { config, client: None, server: None, status: AgentStatus::Initialized }
    }

    /// The configuration the agent was created with.
    pub fn config(&self) -> (r: &Config)
        ensures
            *r == self.spec_config(),
    {
        &self.config
    }

    /// The current status.
    pub fn status(&self) -> (r: AgentStatus)
        ensures
            r == self.spec_status(),
    {
        self.status
    }

    /// The client, once started.
    pub fn client(&self) -> (r: Option<&Client>)
        ensures
            match r {
                Some(c) => self.spec_client() == Some(*c),
                None => self.spec_client() is None,
            },
    {
        match &self.client {
            Some(c) => Some(c),
            None => None,
        }
    }

    /// The server, once started.
    pub fn server(&self) -> (r: Option<&Server>)
        ensures
            match r {
                Some(s) => self.spec_server() == Some(*s),
                None => self.spec_server() is None,
            },
    {
        match &self.server {
            Some(s) => Some(s),
            None => None,
        }
    }

    /// The sub-agents to start: a fresh client and a fresh server, both on
    /// the agent's configuration; `None` when the agent is already running
    /// (starting is idempotent).
    pub fn sub_agents(&self) -> (r: Option<(Client, Server)>)
        ensures
            self.spec_status() == AgentStatus::Running ==> r is None,
            self.spec_status() != AgentStatus::Running ==> (r matches Some((c, s)) && c.spec_config()
                == self.spec_config() && c.spec_status() == AgentStatus::Initialized
                && c.spec_server_addr().len() == 0 && s.spec_config() == self.spec_config()
                && s.spec_status() == AgentStatus::Initialized),
    {
        if self.status == AgentStatus::Running {
            return None;
        }
        Some((Client::new(self.config.clone()), Server::new(self.config.clone())))
    }

    /// Hold the started sub-agents: the agent is running.
    pub fn install(&mut self, client: Client, server: Server)
        ensures
            final(self).spec_client() == Some(client),
            final(self).spec_server() == Some(server),
            final(self).spec_status() == AgentStatus::Running,
            final(self).spec_config() == old(self).spec_config(),
    {
        self.client = Some(client);
        self.server = Some(server);
        self.status = AgentStatus::Running;
    }

    /// Stop the sub-agents and mark the agent stopped. A running agent stops
    /// its client and server first; any other agent just becomes `Stopped`.
    pub fn stop(&mut self)
        ensures
            final(self).spec_status() == AgentStatus::Stopped,
            final(self).spec_config() == old(self).spec_config(),
            old(self).spec_status() == AgentStatus::Running ==> client_stopped(
                old(self).spec_client(),
                final(self).spec_client(),
            ) && server_stopped(old(self).spec_server(), final(self).spec_server()),
            old(self).spec_status() != AgentStatus::Running ==> final(self).spec_client() == old(
                self,
            ).spec_client() && final(self).spec_server() == old(self).spec_server(),
    {
        if self.status != AgentStatus::Running {
            self.status = AgentStatus::Stopped;
            return;
        }
        match self.client.as_mut() {
            Some(c) => {
                c.stop();
            },
            None => {},
        }
        match self.server.as_mut() {
            Some(s) => {
                s.stop();
            },
            None => {},
        }
        self.status = AgentStatus::Stopped;
    }
}

} // verus!
