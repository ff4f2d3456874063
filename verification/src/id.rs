//! Strongly-typed identifiers for jobs and evaluations.
use vstd::prelude::*;
use vstd::std_specs::cmp::PartialEqSpecImpl;

verus! {

/// Identifies a job by its (unique) name.
#[derive(Debug, Hash)]
pub struct JobId(String);

/// Identifies a scheduler evaluation.
#[derive(Debug, Hash)]
pub struct EvalId(String);

impl View for JobId {
    type V = Seq<char>;

    closed spec fn view(&self) -> Seq<char> {
        self.0@
    }
}

impl View for EvalId {
    type V = Seq<char>;

    closed spec fn view(&self) -> Seq<char> {
        self.0@
    }
}

impl JobId {
    /// Wrap a string as a job id.
    pub fn new(s: String) -> (r: Self)
        ensures
            r@ == s@,
    {
        JobId(s)
    }

    /// A job id with the characters of `s`.
    pub fn from_str(s: &str) -> (r: Self)
        ensures
            r@ == s@,
    {
        JobId(s.to_owned())
    }

    /// View the id as a string slice.
    pub fn as_str(&self) -> (r: &str)
        ensures
            r@ == self@,
    {
        self.0.as_str()
    }

    /// Whether the id is the empty string.
    pub fn is_empty(&self) -> (r: bool)
        ensures
            r == (self@.len() == 0),
    {
        self.0.as_str().is_empty()
    }
}

impl EvalId {
    /// Wrap a string as an evaluation id.
    pub fn new(s: String) -> (r: Self)
        ensures
            r@ == s@,
    {
        EvalId(s)
    }

    /// An evaluation id with the characters of `s`.
    pub fn from_str(s: &str) -> (r: Self)
        ensures
            r@ == s@,
    {
        EvalId(s.to_owned())
    }

    /// View the id as a string slice.
    pub fn as_str(&self) -> (r: &str)
        ensures
            r@ == self@,
    {
        self.0.as_str()
    }

    /// Whether the id is the empty string.
    pub fn is_empty(&self) -> (r: bool)
        ensures
            r == (self@.len() == 0),
    {
        self.0.as_str().is_empty()
    }
}

impl Clone for JobId {
    fn clone(&self) -> (r: Self)
        ensures
            r == *self,
    {
        JobId(self.0.clone())
    }
}

impl Clone for EvalId {
    fn clone(&self) -> (r: Self)
        ensures
            r == *self,
    {
        EvalId(self.0.clone())
    }
}

impl PartialEq for JobId {
    fn eq(&self, other: &Self) -> (r: bool) {
        self.0 == other.0
    }
}

impl PartialEqSpecImpl for JobId {
    open spec fn obeys_eq_spec() -> bool {
        true
    }

    open spec fn eq_spec(&self, other: &Self) -> bool {
        self@ == other@
    }
}

impl Eq for JobId {
}

impl PartialEq for EvalId {
    fn eq(&self, other: &Self) -> (r: bool) {
        self.0 == other.0
    }
}

impl PartialEqSpecImpl for EvalId {
    open spec fn obeys_eq_spec() -> bool {
        true
    }

    open spec fn eq_spec(&self, other: &Self) -> bool {
        self@ == other@
    }
}

impl Eq for EvalId {
}

} // verus!
