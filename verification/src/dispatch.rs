//! Parameterized jobs and dispatch.
//!
//! A parameterized job is a template dispatched with metadata and an optional
//! payload.
use crate::error::{Error, Result};
use crate::strmap::{has_key, Pairs, StrMap};
use crate::text::{concat3, has_string, strings_contain};
use vstd::prelude::*;

verus! {

/// Whether a dispatch payload is allowed or required.
#[derive(Debug, Clone, Copy, PartialEq, Eq, Structural)]
pub enum PayloadMode {
    /// Payload may be supplied.
    Optional,
    /// Payload must be supplied.
    Required,
    /// Payload must not be supplied.
    Forbidden,
}

/// The parameterized-job template configuration.
#[derive(Debug, Clone)]
pub struct ParameterizedJob {
    /// Metadata keys that every dispatch must provide.
    pub meta_required: Vec<String>,
    /// Metadata keys a dispatch may optionally provide.
    pub meta_optional: Vec<String>,
    /// Payload requirement.
    pub payload: PayloadMode,
}

/// A single dispatch invocation.
#[derive(Debug, Clone)]
pub struct DispatchRequest {
    /// Supplied metadata.
    pub meta: StrMap<String>,
    /// Supplied payload bytes, if any.
    pub payload: Option<Vec<u8>>,
}

/// First required key (in declaration order, from position `k` on) that the
/// metadata lacks.
pub open spec fn missing_required(required: Seq<String>, meta: Pairs<String>, k: int) -> Option<Seq<char>>
    decreases required.len() - k,
{
    if k < 0 || k >= required.len() {
        None
    } else if !has_key(meta, required[k]@) {
        Some(required[k]@)
    } else {
        missing_required(required, meta, k + 1)
    }
}

/// First supplied key (in the metadata's order, from position `k` on) that
/// the template does not declare.
pub open spec fn undeclared_key(t: ParameterizedJob, meta: Pairs<String>, k: int) -> Option<Seq<char>>
    decreases meta.len() - k,
{
    if k < 0 || k >= meta.len() {
        None
    } else if !has_string(t.meta_required@, meta[k].0) && !has_string(t.meta_optional@, meta[k].0) {
        Some(meta[k].0)
    } else {
        undeclared_key(t, meta, k + 1)
    }
}

/// Why `r` is not a valid dispatch of `t`, if it is not.
pub open spec fn dispatch_problem(t: ParameterizedJob, r: DispatchRequest) -> Option<Seq<char>> {
    match missing_required(t.meta_required@, r.meta.pairs(), 0) {
        Some(key) => Some("dispatch missing required meta key '"@ + key + "'"@),
        None => match undeclared_key(t, r.meta.pairs(), 0) {
            Some(key) => Some("dispatch meta key '"@ + key + "' is not declared in the parameterized job"@),
            None => if t.payload == PayloadMode::Forbidden && r.payload is Some {
                Some("dispatch payload is forbidden by the job spec"@)
            } else if t.payload == PayloadMode::Required && r.payload is None {
                Some("dispatch payload is required by the job spec"@)
            } else {
                None
            },
        },
    }
}

impl ParameterizedJob {
    /// Validate `request` against this template.
    ///
    /// # Errors
    ///
    /// Returns [`Error::Config`] if a required meta key is missing, an
    /// unknown meta key is supplied, or the payload presence violates the
    /// [`PayloadMode`].
    pub fn validate_dispatch(&self, request: &DispatchRequest) -> (r: Result<()>)
        ensures
            match dispatch_problem(*self, *request) {
                None => r is Ok,
                Some(msg) => r matches Err(e) && e.is_config(msg),
            },
    {
        let mut i: usize = 0;
        while i < self.meta_required.len()
            invariant
                i <= self.meta_required@.len(),
                missing_required(self.meta_required@, request.meta.pairs(), 0) == missing_required(
                    self.meta_required@,
                    request.meta.pairs(),
                    i as int,
                ),
            decreases self.meta_required@.len() - i,
        {
            let required = &self.meta_required[i];
            if !request.meta.contains_key(required.as_str()) {
                return Err(Error::Config(concat3("dispatch missing required meta key '", required.as_str(), "'")));
            }
            i = i + 1;
        }
        let mut k: usize = 0;
        while k < request.meta.len()
            invariant
                k <= request.meta.pairs().len(),
                missing_required(self.meta_required@, request.meta.pairs(), 0) is None,
                undeclared_key(*self, request.meta.pairs(), 0) == undeclared_key(*self, request.meta.pairs(), k as int),
            decreases request.meta.pairs().len() - k,
        {
            let key = request.meta.key_at(k);
            if !strings_contain(&self.meta_required, key.as_str()) && !strings_contain(&self.meta_optional, key.as_str()) {
                return Err(
                    Error::Config(
                        concat3("dispatch meta key '", key.as_str(), "' is not declared in the parameterized job"),
                    ),
                );
            }
            k = k + 1;
        }
        match self.payload {
            PayloadMode::Forbidden => {
                if request.payload.is_some() {
                    return Err(Error::Config("dispatch payload is forbidden by the job spec".to_string()));
                }
            },
            PayloadMode::Required => {
                if request.payload.is_none() {
                    return Err(Error::Config("dispatch payload is required by the job spec".to_string()));
                }
            },
            PayloadMode::Optional => {},
        }
        Ok(())
    }
}

} // verus!
