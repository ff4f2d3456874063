//! Volume requests and mounts.
//!
//! A task group requests volumes (host or CSI); tasks mount them at a path.
use crate::error::{Error, Result};
use crate::text::{concat3, starts_with_char};
use vstd::prelude::*;

verus! {

/// The backing kind of a volume.
#[derive(Debug, Clone, Copy, PartialEq, Eq, Structural)]
pub enum VolumeType {
    /// A host path made available by the node.
    Host,
    /// A CSI-provisioned volume.
    Csi,
}

/// A task group's request for a volume.
#[derive(Debug, Clone)]
pub struct VolumeRequest {
    /// Group-local name, referenced by mounts.
    pub name: String,
    /// Volume kind.
    pub volume_type: VolumeType,
    /// Source: host volume name or CSI volume id.
    pub source: String,
    /// Whether the request is read-only.
    pub read_only: bool,
}

/// Why a volume request is invalid, if it is.
pub open spec fn request_problem(r: VolumeRequest) -> Option<Seq<char>> {
    if r.name@.len() == 0 {
        Some("volume request name cannot be empty"@)
    } else if r.source@.len() == 0 {
        Some("volume request source cannot be empty"@)
    } else {
        None
    }
}

impl VolumeRequest {
    /// Validate the volume request.
    ///
    /// # Errors
    ///
    /// Returns [`Error::Config`] if `name` or `source` is empty.
    pub fn validate(&self) -> (r: Result<()>)
        ensures
            match request_problem(*self) {
                None => r is Ok,
                Some(msg) => r matches Err(e) && e.is_config(msg),
            },
    {
        if self.name.as_str().is_empty() {
            return Err(Error::Config("volume request name cannot be empty".to_string()));
        }
        if self.source.as_str().is_empty() {
            return Err(Error::Config("volume request source cannot be empty".to_string()));
        }
        Ok(())
    }
}

/// A task's mount of a requested volume.
#[derive(Debug, Clone)]
pub struct VolumeMount {
    /// Name of the [`VolumeRequest`] to mount.
    pub volume: String,
    /// Absolute destination path inside the task.
    pub destination: String,
    /// Whether the mount is read-only.
    pub read_only: bool,
}

/// Why a mount is invalid, if it is.
pub open spec fn mount_problem(m: VolumeMount) -> Option<Seq<char>> {
    if m.volume@.len() == 0 {
        Some("volume mount volume name cannot be empty"@)
    } else if !(m.destination@.len() > 0 && m.destination@[0] == '/') {
        Some("volume mount destination '"@ + m.destination@ + "' is not an absolute path"@)
    } else {
        None
    }
}

impl VolumeMount {
    /// Validate the mount.
    ///
    /// # Errors
    ///
    /// Returns [`Error::Config`] if `volume` is empty or `destination` is not
    /// an absolute path.
    pub fn validate(&self) -> (r: Result<()>)
        ensures
            match mount_problem(*self) {
                None => r is Ok,
                Some(msg) => r matches Err(e) && e.is_config(msg),
            },
    {
        if self.volume.as_str().is_empty() {
            return Err(Error::Config("volume mount volume name cannot be empty".to_string()));
        }
        if !starts_with_char(self.destination.as_str(), '/') {
            return Err(
                Error::Config(concat3("volume mount destination '", self.destination.as_str(), "' is not an absolute path")),
            );
        }
        Ok(())
    }
}

} // verus!
