//! Handles on the monitoring and protection values that the middleware
//! orchestrator carries through to the router unchanged.
use vstd::prelude::*;

verus! {

/// A shared monitoring state (statistics and metrics), identified by `handle`.
#[derive(Debug, Clone, Copy, PartialEq, Eq, Structural)]
pub struct MonitoringState {
    pub handle: u64,
}

/// Settings of the performance-monitoring middleware, identified by `handle`.
#[derive(Debug, Clone, Copy, PartialEq, Eq, Structural)]
pub struct PerformanceMonitoringConfig {
    pub handle: u64,
}

impl Default for PerformanceMonitoringConfig {
    /// The default performance-monitoring settings, handle 0.
    fn default() -> (res: Self)
        ensures
            res.handle == 0,
    {
        PerformanceMonitoringConfig { handle: 0 }
    }
}

/// A protection stack (DDoS, IP filter, rate and size limits), identified by `handle`.
#[derive(Debug, Clone, Copy, PartialEq, Eq, Structural)]
pub struct ProtectionStack {
    pub handle: u64,
}

} // verus!
