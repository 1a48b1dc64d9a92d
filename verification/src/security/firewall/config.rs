//! Firewall configuration.

use vstd::prelude::*;

use crate::clock::{Duration, NANOS_PER_SEC};
use crate::ip::IpAddr;
use crate::security::firewall::limit::Quota;

verus! {

/// Configuration for a [`crate::security::firewall::Firewall`].
#[derive(Debug, Clone)]
pub struct FirewallConfig {
    /// Per-IP request quota (rate limit + burst).
    pub quota: Quota,
    /// IPs always permitted (bypass the rate limit).
    pub allow: Vec<IpAddr>,
    /// IPs always denied.
    pub block: Vec<IpAddr>,
    /// Capacity of the recent-decision trace ring.
    pub trace_capacity: usize,
    /// Hard cap on the number of distinct IPs the connection tracker retains.
    /// Once reached, new IPs go uncounted until idle ones are evicted: a backstop so
    /// a distinct-IP flood cannot exhaust memory. Tighten under memory pressure.
    pub max_tracked_ips: usize,
    /// How long an IP's tracker entry survives without being seen before it is
    /// eligible for eviction.
    pub idle_ttl: Duration,
}

impl Default for FirewallConfig {
    fn default() -> (r: FirewallConfig)
        ensures
            r.quota.max_burst == 30,
            r.quota.replenish_nanos == 2_000_000_000,
            r.quota.valid(),
            r.allow@.len() == 0,
            r.block@.len() == 0,
            r.trace_capacity == 256,
            r.max_tracked_ips == 100_000,
            r.idle_ttl.nanos == 600 * NANOS_PER_SEC,
    {
        FirewallConfig {
            // 30 connections/minute/IP, bursting up to 30.
            quota: Quota::per_minute(30),
            allow: Vec::new(),
            block: Vec::new(),
            trace_capacity: 256,
            max_tracked_ips: 100_000,
            idle_ttl: Duration::from_secs(600),
        }
    }
}

} // verus!
