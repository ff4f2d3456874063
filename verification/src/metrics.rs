//! Telemetry: the kinds of metric samples the agent emits. Samples carry
//! floating-point values and are recorded by the binary's sink.
use vstd::prelude::*;

verus! {

/// The kind of a metric.
#[derive(Debug, Clone, Copy, PartialEq, Eq, Structural)]
pub enum MetricKind {
    /// Monotonic counter.
    Counter,
    /// Point-in-time value.
    Gauge,
    /// Duration sample.
    Timer,
}

} // verus!
