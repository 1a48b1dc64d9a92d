//! What the firewall decides of a connection.

use vstd::prelude::*;

verus! {

/// Why the firewall denied a connection.
#[derive(Debug, Clone, Copy, PartialEq, Eq, Structural)]
pub enum DenyReason {
    /// The source IP is on the blocklist.
    Blocklisted,
    /// The source IP exceeded its rate-limit quota.
    RateLimited,
}

/// The outcome of a firewall check.
#[derive(Debug, Clone, Copy, PartialEq, Eq, Structural)]
pub enum Decision {
    /// The connection is permitted.
    Allow,
    /// The connection is denied for the given reason.
    Deny(DenyReason),
}

} // verus!
