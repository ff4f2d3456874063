//! Node fingerprinting.
//!
//! Fingerprinters detect a node's resources, drivers and attributes so the
//! scheduler can match constraints.
use crate::error::Result;
use crate::strmap::{lookup, StrMap};
use vstd::prelude::*;

verus! {

/// Detects a slice of a node's attributes.
pub trait Fingerprinter {
    /// Stable name of this fingerprinter, e.g. `"cpu"`.
    fn name(&self) -> &'static str;

    /// Detect attributes for the node (e.g. `"cpu.totalcompute" => "4000"`).
    ///
    /// # Errors
    ///
    /// Returns an error if detection fails (e.g. a probe cannot be read).
    fn detect(&self) -> Result<StrMap<String>>;
}

/// Fingerprints CPU capacity; reports a fixed total compute of 4000 MHz.
#[derive(Debug, Default)]
pub struct CpuFingerprinter;

impl Fingerprinter for CpuFingerprinter {
    fn name(&self) -> (r: &'static str)
        ensures
            r@ == "cpu"@,
    {
        "cpu"
    }

    fn detect(&self) -> (r: Result<StrMap<String>>)
        ensures
            r matches Ok(attrs) && attrs.pairs().len() == 1 && (lookup(attrs.pairs(), "cpu.totalcompute"@) matches Some(
                v,
            ) && v@ == "4000"@),
    {
        let mut attrs: StrMap<String> = StrMap::new();
        let _ = attrs.insert("cpu.totalcompute".to_string(), "4000".to_string());
        proof {
            crate::strmap::lemma_upsert(Seq::<(Seq<char>, String)>::empty(), "cpu.totalcompute"@, attrs.pairs()[0].1);
        }
        Ok(attrs)
    }
}

} // verus!
