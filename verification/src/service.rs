//! Service registration and health checks.
//!
//! Task groups can register services (with Consul or the native registry)
//! and attach health checks.
use crate::error::{Error, Result};
use crate::text::concat3;
use vstd::prelude::*;

verus! {

/// How a health check probes a service.
#[derive(Debug, Clone, Copy, PartialEq, Eq, Structural)]
pub enum CheckType {
    /// TCP connect check.
    Tcp,
    /// HTTP GET against a path.
    Http,
    /// Run a script in the task and use its exit code.
    Script,
    /// gRPC health check.
    Grpc,
}

/// Where a service is registered.
#[derive(Debug, Clone, Copy, PartialEq, Eq, Structural)]
pub enum ServiceProvider {
    /// Consul service catalog.
    Consul,
    /// The native service registry.
    Nomad,
}

/// A health check attached to a service.
#[derive(Debug, Clone)]
pub struct ServiceCheck {
    /// Check name.
    pub name: String,
    /// Probe kind.
    pub check_type: CheckType,
    /// How often to run the check, in seconds (more than zero).
    pub interval_secs: u64,
    /// Per-probe timeout, in seconds (more than zero, less than
    /// `interval_secs`).
    pub timeout_secs: u64,
    /// Path to request for [`CheckType::Http`]; required for HTTP checks.
    pub path: Option<String>,
}

/// Why a check is invalid, if it is.
pub open spec fn check_problem(c: ServiceCheck) -> Option<Seq<char>> {
    if c.interval_secs == 0 {
        Some("check '"@ + c.name@ + "' interval must be positive"@)
    } else if c.timeout_secs == 0 {
        Some("check '"@ + c.name@ + "' timeout must be positive"@)
    } else if c.timeout_secs >= c.interval_secs {
        Some("check '"@ + c.name@ + "' timeout must be shorter than its interval"@)
    } else if c.check_type == CheckType::Http && c.path is None {
        Some("check '"@ + c.name@ + "' is an HTTP check without a path"@)
    } else {
        None
    }
}

impl ServiceCheck {
    /// Validate the check timing and type-specific requirements.
    ///
    /// # Errors
    ///
    /// Returns [`Error::Config`] if interval or timeout is zero, the timeout
    /// is not shorter than the interval, or an HTTP check has no path.
    pub fn validate(&self) -> (r: Result<()>)
        ensures
            match check_problem(*self) {
                None => r is Ok,
                Some(msg) => r matches Err(e) && e.is_config(msg),
            },
    {
        if self.interval_secs == 0 {
            return Err(Error::Config(concat3("check '", self.name.as_str(), "' interval must be positive")));
        }
        if self.timeout_secs == 0 {
            return Err(Error::Config(concat3("check '", self.name.as_str(), "' timeout must be positive")));
        }
        if self.timeout_secs >= self.interval_secs {
            return Err(Error::Config(concat3("check '", self.name.as_str(), "' timeout must be shorter than its interval")));
        }
        if self.check_type == CheckType::Http && self.path.is_none() {
            return Err(Error::Config(concat3("check '", self.name.as_str(), "' is an HTTP check without a path")));
        }
        Ok(())
    }
}

/// A service exposed by a task group.
#[derive(Debug, Clone)]
pub struct Service {
    /// Service name registered in the catalog.
    pub name: String,
    /// Port label this service is advertised on.
    pub port_label: String,
    /// Registry provider.
    pub provider: ServiceProvider,
    /// Tags applied to the registration.
    pub tags: Vec<String>,
    /// Health checks for the service.
    pub checks: Vec<ServiceCheck>,
}

/// The first problem among checks `k..`.
pub open spec fn checks_problem(cs: Seq<ServiceCheck>, k: int) -> Option<Seq<char>>
    decreases cs.len() - k,
{
    if k < 0 || k >= cs.len() {
        None
    } else {
        match check_problem(cs[k]) {
            Some(m) => Some(m),
            None => checks_problem(cs, k + 1),
        }
    }
}

/// Why a service is invalid, if it is.
pub open spec fn service_problem(s: Service) -> Option<Seq<char>> {
    if s.name@.len() == 0 {
        Some("service name cannot be empty"@)
    } else {
        checks_problem(s.checks@, 0)
    }
}

impl Service {
    /// Validate the service and all of its checks.
    ///
    /// # Errors
    ///
    /// Returns [`Error::Config`] if the name is empty or any check is
    /// invalid (the first invalid check's error).
    pub fn validate(&self) -> (r: Result<()>)
        ensures
            match service_problem(*self) {
                None => r is Ok,
                Some(msg) => r matches Err(e) && e.is_config(msg),
            },
    {
        if self.name.as_str().is_empty() {
            return Err(Error::Config("service name cannot be empty".to_string()));
        }
        let mut i: usize = 0;
        while i < self.checks.len()
            invariant
                i <= self.checks@.len(),
                self.name@.len() > 0,
                checks_problem(self.checks@, 0) == checks_problem(self.checks@, i as int),
            decreases self.checks@.len() - i,
        {
            match self.checks[i].validate() {
                Ok(()) => {},
                Err(e) => {
                    return Err(e);
                },
            }
            i = i + 1;
        }
        Ok(())
    }
}

} // verus!
