//! Templates rendered into a task's filesystem.
//!
//! A template renders dynamic content to a destination file and reacts to
//! changes.
use crate::error::{Error, Result};
use vstd::prelude::*;

verus! {

/// What to do when a rendered template changes on disk.
#[derive(Debug, Clone, Copy, PartialEq, Eq, Structural)]
pub enum ChangeMode {
    /// Do nothing.
    Noop,
    /// Restart the task.
    Restart,
    /// Send a signal to the task.
    Signal,
}

/// A template rendered into the task.
#[derive(Debug, Clone)]
pub struct Template {
    /// Path to a template file in the task dir; exclusive with `embedded`.
    pub source: Option<String>,
    /// Inline template body; exclusive with `source`.
    pub embedded: Option<String>,
    /// Destination path the rendered output is written to.
    pub destination: String,
    /// Reaction when the rendered content changes.
    pub change_mode: ChangeMode,
    /// Signal to send when `change_mode` is [`ChangeMode::Signal`].
    pub change_signal: Option<String>,
}

/// Why a template is invalid, if it is.
pub open spec fn template_problem(t: Template) -> Option<Seq<char>> {
    if t.destination@.len() == 0 {
        Some("template destination cannot be empty"@)
    } else if t.source is Some && t.embedded is Some {
        Some("template cannot have both a source and an embedded body"@)
    } else if t.source is None && t.embedded is None {
        Some("template needs a source or an embedded body"@)
    } else if t.change_mode == ChangeMode::Signal && t.change_signal is None {
        Some("template change_mode signal requires a change_signal"@)
    } else {
        None
    }
}

impl Template {
    /// Validate the template.
    ///
    /// # Errors
    ///
    /// Returns [`Error::Config`] if `destination` is empty, if neither or
    /// both of `source` and `embedded` are set, or if `change_mode` is
    /// [`ChangeMode::Signal`] without a `change_signal`.
    pub fn validate(&self) -> (r: Result<()>)
        ensures
            match template_problem(*self) {
                None => r is Ok,
                Some(msg) => r matches Err(e) && e.is_config(msg),
            },
    {
        if self.destination.as_str().is_empty() {
            return Err(Error::Config("template destination cannot be empty".to_string()));
        }
        if self.source.is_some() && self.embedded.is_some() {
            return Err(Error::Config("template cannot have both a source and an embedded body".to_string()));
        }
        if self.source.is_none() && self.embedded.is_none() {
            return Err(Error::Config("template needs a source or an embedded body".to_string()));
        }
        if self.change_mode == ChangeMode::Signal && self.change_signal.is_none() {
            return Err(Error::Config("template change_mode signal requires a change_signal".to_string()));
        }
        Ok(())
    }
}

} // verus!
