//! The firewall and its parts.

use snail::clock::{Duration, Timestamp};
use snail::ip::{IpAddr, Ipv4Addr, Ipv6Addr};
use snail::security::firewall::limit::{Quota, RateMeter};
use snail::security::firewall::track::PRUNE_INTERVAL;
use snail::security::firewall::{
    AllowList, BlockList, ConnectionTracker, Decision, DecisionTrace, DenyReason, Firewall,
    FirewallConfig, FirewallManager, PauseSwitch,
};

fn ip(n: u8) -> IpAddr {
    IpAddr::V4(Ipv4Addr::new(10, 0, 0, n))
}

fn wide_ip(n: u32) -> IpAddr {
    IpAddr::V4(Ipv4Addr { bits: n })
}

fn at(secs: u64) -> Timestamp {
    Timestamp::from_secs(secs)
}

#[test]
fn insert_contains_remove() {
    let ip = IpAddr::V4(Ipv4Addr::new(203, 0, 113, 7));
    let mut list = BlockList::new();
    assert!(list.insert(ip));
    assert!(list.contains(&ip));
    assert!(list.remove(&ip));
    assert!(!list.contains(&ip));
}

#[test]
fn lists_report_what_changes() {
    let mut list = AllowList::new();
    assert!(list.is_empty());
    assert!(list.insert(ip(1)));
    assert!(!list.insert(ip(1)));
    assert!(list.insert(ip(2)));
    assert_eq!(list.len(), 2);
    assert!(list.remove(&ip(1)));
    assert!(!list.remove(&ip(1)));
    assert!(!list.is_empty());
    assert!(list.contains(&ip(2)) && !list.contains(&ip(1)));
}

#[test]
fn blocklisted_ip_is_denied() {
    let cfg = FirewallConfig {
        block: vec![ip(9)],
        ..FirewallConfig::default()
    };
    let mut fw = Firewall::new(&cfg, at(0));
    assert_eq!(
        fw.check(ip(9), at(0)),
        Decision::Deny(DenyReason::Blocklisted)
    );
}

#[test]
fn allowlisted_ip_bypasses_blocklist_and_rate_limit() {
    let cfg = FirewallConfig {
        allow: vec![ip(1)],
        block: vec![ip(1)],
        quota: Quota::per_second(1),
        ..FirewallConfig::default()
    };
    let mut fw = Firewall::new(&cfg, at(0));
    // Allowlist is checked before blocklist and rate limit.
    for _ in 0..5 {
        assert_eq!(fw.check(ip(1), at(0)), Decision::Allow);
    }
}

#[test]
fn rate_limit_denies_after_burst_then_recovers_with_clock() {
    let cfg = FirewallConfig {
        quota: Quota::per_second(2), // burst 2, replenish 1 per 500ms
        ..FirewallConfig::default()
    };
    let start = at(0);
    let mut fw = Firewall::new(&cfg, start);

    assert_eq!(fw.check(ip(2), start), Decision::Allow);
    assert_eq!(fw.check(ip(2), start), Decision::Allow);
    assert_eq!(
        fw.check(ip(2), start),
        Decision::Deny(DenyReason::RateLimited)
    );

    // A second later the burst is replenished.
    assert_eq!(fw.check(ip(2), at(1)), Decision::Allow);
}

#[test]
fn pause_permits_even_blocklisted_then_resume_restores() {
    let cfg = FirewallConfig {
        block: vec![ip(9)],
        ..FirewallConfig::default()
    };
    let mut fw = Firewall::new(&cfg, at(0));
    fw.pause();
    assert_eq!(fw.check(ip(9), at(0)), Decision::Allow);
    fw.resume();
    assert_eq!(
        fw.check(ip(9), at(0)),
        Decision::Deny(DenyReason::Blocklisted)
    );
}

#[test]
fn checks_are_tracked_and_traced() {
    let mut fw = Firewall::new(&FirewallConfig::default(), at(0));
    fw.check(ip(3), at(0));
    fw.check(ip(3), at(0));
    assert_eq!(fw.attempts(&ip(3)), 2);
    assert_eq!(fw.trace_len(), 2);
}

#[test]
fn quotas_are_per_address_and_family() {
    let cfg = FirewallConfig {
        quota: Quota::per_hour(1),
        ..FirewallConfig::default()
    };
    let mut fw = Firewall::new(&cfg, at(0));
    let v4 = IpAddr::V4(Ipv4Addr { bits: 7 });
    let v6 = IpAddr::V6(Ipv6Addr { bits: 7 });
    assert_eq!(fw.check(v4, at(0)), Decision::Allow);
    assert_eq!(fw.check(v4, at(1)), Decision::Deny(DenyReason::RateLimited));
    assert_eq!(fw.check(v6, at(1)), Decision::Allow);
    assert_eq!(fw.check(v4, at(3600)), Decision::Allow);
}

#[test]
fn a_meter_counts_what_it_admits() {
    let quota = Quota::per_minute(3); // one per 20 s
    let mut meter = RateMeter::new(quota, at(100));
    for _ in 0..3 {
        assert!(meter.check(ip(1), at(100)));
    }
    assert!(!meter.check(ip(1), at(119)));
    assert!(meter.check(ip(1), at(120)));
    assert!(!meter.check(ip(1), at(120)));
    // Time does not run back for the meter.
    assert!(!meter.check(ip(1), at(50)));
    assert!(meter.is_in_range(at(1_000_000)));
    assert!(!meter.is_in_range(Timestamp { nanos: 1 << 100 }));
}

#[test]
fn quotas_know_what_is_valid() {
    assert_eq!(Quota::per_second(4).replenish_nanos, 250_000_000);
    assert_eq!(Quota::per_minute(30).replenish_nanos, 2_000_000_000);
    assert!(Quota::per_second(u32::MAX).is_valid());
    assert!(!Quota { max_burst: 0, replenish_nanos: 1 }.is_valid());
    assert!(!Quota { max_burst: u32::MAX, replenish_nanos: u64::MAX }.is_valid());
}

#[test]
fn runtime_lists_apply_to_later_checks() {
    let mut fw = Firewall::new(&FirewallConfig::default(), at(0));
    fw.block_ip(ip(4));
    assert_eq!(
        fw.check(ip(4), at(0)),
        Decision::Deny(DenyReason::Blocklisted)
    );
    fw.allow_ip(ip(4));
    assert_eq!(fw.check(ip(4), at(0)), Decision::Allow);
    assert!(fw.is_ready(ip(4), at(0)));
}

#[test]
fn configured_limits_reach_the_tracker_and_the_trace() {
    let cfg = FirewallConfig {
        trace_capacity: 2,
        max_tracked_ips: 1,
        ..FirewallConfig::default()
    };
    let mut fw = Firewall::new(&cfg, at(0));
    for n in 1..=4 {
        fw.check(ip(n), at(0));
    }
    assert_eq!(fw.trace_len(), 2);
    assert_eq!(fw.attempts(&ip(1)), 1);
    assert_eq!(fw.attempts(&ip(2)), 0);
}

#[test]
fn reload_applies_new_policy() {
    let mut mgr = FirewallManager::new(FirewallConfig::default(), at(0));
    assert_eq!(mgr.firewall_mut().check(ip(5), at(0)), Decision::Allow);

    mgr.reload(
        FirewallConfig {
            block: vec![ip(5)],
            ..FirewallConfig::default()
        },
        at(1),
    );
    assert_eq!(
        mgr.firewall_mut().check(ip(5), at(1)),
        Decision::Deny(DenyReason::Blocklisted)
    );
    assert_eq!(mgr.config().block, vec![ip(5)]);
    assert_eq!(mgr.firewall().attempts(&ip(5)), 1);
}

#[test]
fn toggles_between_enforcing_and_paused() {
    let mut s = PauseSwitch::new();
    assert!(!s.is_paused());
    s.pause();
    assert!(s.is_paused());
    s.resume();
    assert!(!s.is_paused());
}

#[test]
fn reports_only_real_transitions() {
    let mut s = PauseSwitch::new();
    assert!(s.pause(), "first pause is a transition");
    assert!(!s.pause(), "re-pausing is not a transition");
    assert!(s.resume(), "first resume is a transition");
    assert!(!s.resume(), "re-resuming is not a transition");
}

#[test]
fn ring_is_bounded_and_evicts_oldest() {
    let mut t = DecisionTrace::new(2);
    t.record(ip(1), Decision::Allow);
    t.record(ip(2), Decision::Deny(DenyReason::RateLimited));
    t.record(ip(3), Decision::Allow);
    assert_eq!(t.len(), 2);
    // ip(1) was evicted; oldest retained is ip(2).
    assert_eq!(t.recent().first().unwrap().0, ip(2));
}

#[test]
fn zero_capacity_is_clamped_to_one() {
    let mut t = DecisionTrace::new(0);
    assert!(t.is_empty());
    t.record(ip(1), Decision::Allow);
    assert_eq!(t.len(), 1);
    t.record(ip(2), Decision::Allow);
    assert_eq!(t.recent(), vec![(ip(2), Decision::Allow)]);
}

#[test]
fn record_increments_per_ip() {
    let one = wide_ip(1);
    let mut t = ConnectionTracker::new();
    assert_eq!(t.record_at(one, at(0)), 1);
    assert_eq!(t.record_at(one, at(0)), 2);
    assert_eq!(t.attempts(&one), 2);
    assert_eq!(t.attempts(&wide_ip(2)), 0);
}

#[test]
fn hard_cap_bounds_distinct_ips() {
    let mut t = ConnectionTracker::with_limits(Duration::from_secs(600), 100);
    let now = at(0);
    for n in 0..5000 {
        t.record_at(wide_ip(n), now);
    }
    assert!(
        t.tracked_ips() <= 100,
        "tracker must stay within the cap, got {}",
        t.tracked_ips()
    );
}

#[test]
fn idle_entries_are_evicted_on_sweep() {
    let ttl = Duration::from_secs(600);
    let mut t = ConnectionTracker::with_limits(ttl, 100_000);
    let start = at(0);
    // Seed one IP, then drive PRUNE_INTERVAL records from fresh IPs far in the
    // future so the seeded entry is now idle past its TTL and gets swept.
    t.record_at(wide_ip(1), start);
    let later = at(600 + 1);
    for n in 0..PRUNE_INTERVAL {
        t.record_at(wide_ip(10_000 + n), later);
    }
    assert_eq!(
        t.attempts(&wide_ip(1)),
        0,
        "the idle entry should be evicted"
    );
}

#[test]
fn firewall_defaults() {
    let c = FirewallConfig::default();
    assert_eq!(c.quota.max_burst, 30);
    assert!(c.allow.is_empty() && c.block.is_empty());
    assert_eq!(c.trace_capacity, 256);
    assert_eq!(c.max_tracked_ips, 100_000);
    assert_eq!(c.idle_ttl, Duration::from_secs(600));
}
