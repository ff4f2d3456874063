//! Namespaces: tenancy boundaries for jobs and variables.
use crate::error::{Error, Result};
use crate::text::concat3;
use vstd::prelude::*;

verus! {

/// A tenancy namespace.
#[derive(Debug, Clone)]
pub struct Namespace {
    /// Namespace name (lowercase alphanumerics and dashes).
    pub name: String,
    /// Human-readable description.
    pub description: String,
}

/// Whether `c` may appear in a namespace name: `[a-z0-9-]`.
pub open spec fn name_char(c: char) -> bool {
    ('a' <= c && c <= 'z') || ('0' <= c && c <= '9') || c == '-'
}

/// Why a namespace is invalid, if it is.
pub open spec fn namespace_problem(n: Namespace) -> Option<Seq<char>> {
    if n.name@.len() == 0 {
        Some("namespace name cannot be empty"@)
    } else if exists|i: int| 0 <= i < n.name@.len() && !name_char(#[trigger] n.name@[i]) {
        Some("namespace name '"@ + n.name@ + "' must match [a-z0-9-]+"@)
    } else {
        None
    }
}

impl Namespace {
    /// Validate the namespace name.
    ///
    /// # Errors
    ///
    /// Returns [`Error::Config`] if `name` is empty or contains characters
    /// outside `[a-z0-9-]`.
    pub fn validate(&self) -> (r: Result<()>)
        ensures
            match namespace_problem(*self) {
                None => r is Ok,
                Some(msg) => r matches Err(e) && e.is_config(msg),
            },
    {
        if self.name.as_str().is_empty() {
            return Err(Error::Config("namespace name cannot be empty".to_string()));
        }
        let s = self.name.as_str();
        let n = s.unicode_len();
        let mut i: usize = 0;
        while i < n
            invariant
                s@ == self.name@,
                n == s@.len(),
                i <= n,
                forall|j: int| 0 <= j < i ==> name_char(#[trigger] s@[j]),
            decreases n - i,
        {
            let c = s.get_char(i);
            if !(('a' <= c && c <= 'z') || ('0' <= c && c <= '9') || c == '-') {
                return Err(Error::Config(concat3("namespace name '", s, "' must match [a-z0-9-]+")));
            }
            i = i + 1;
        }
        Ok(())
    }
}

} // verus!
