//! Audit-log configuration.

use vstd::prelude::*;

verus! {

/// Configuration for an [`crate::security::audit::AuditLog`].
#[derive(Debug, Clone)]
pub struct AuditConfig {
    /// Maximum number of recent events retained in memory for inspection.
    pub capacity: usize,
    /// Optional path to a durable, append-only, hash-chained audit file. When set,
    /// every recorded event is also persisted there (surviving restarts and
    /// resisting tampering); without one the log is RAM-only.
    pub sink_path: Option<String>,
}

impl Default for AuditConfig {
    fn default() -> (r: AuditConfig)
        ensures
            r.capacity == 1024,
            r.sink_path is None,
    {
        AuditConfig { capacity: 1024, sink_path: None }
    }
}

} // verus!
