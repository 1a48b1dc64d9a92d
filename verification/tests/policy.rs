//! Greylisting and authentication throttling.

use snail::clock::{Duration, Timestamp};
use snail::ip::{IpAddr, Ipv4Addr, Ipv6Addr};
use snail::security::greylist::{GreyDecision, Greylist, GreylistConfig};
use snail::security::throttle::{AuthThrottle, ThrottleConfig};

fn at(secs: u64) -> Timestamp {
    Timestamp::from_secs(secs)
}

// ---------------------------------------------------------------------------
// Greylist
// ---------------------------------------------------------------------------

fn grey_cfg() -> GreylistConfig {
    GreylistConfig {
        delay: Duration::from_secs(60),
        pending_ttl: Duration::from_secs(3600),
        pass_ttl: Duration::from_secs(86_400),
        max_entries: 100,
    }
}

fn mail_ip(last: u8) -> IpAddr {
    IpAddr::V4(Ipv4Addr::new(203, 0, 113, last))
}

#[test]
fn first_attempt_defers_then_retry_after_delay_passes() {
    let mut g = Greylist::new(grey_cfg());
    // First sight: defer.
    assert_eq!(
        g.check_at(mail_ip(1), "a@x.test", "b@y.test", at(1000)),
        GreyDecision::Defer
    );
    // Retry too soon: still deferred.
    assert_eq!(
        g.check_at(mail_ip(1), "a@x.test", "b@y.test", at(1030)),
        GreyDecision::Defer
    );
    // Retry after the delay: accepted.
    assert_eq!(
        g.check_at(mail_ip(1), "a@x.test", "b@y.test", at(1061)),
        GreyDecision::Allow
    );
    // Subsequently whitelisted (passed): immediate accept.
    assert_eq!(
        g.check_at(mail_ip(1), "a@x.test", "b@y.test", at(1062)),
        GreyDecision::Allow
    );
}

#[test]
fn triplet_is_specific_to_ip_sender_recipient() {
    let mut g = Greylist::new(grey_cfg());
    g.check_at(mail_ip(1), "a@x.test", "b@y.test", at(1000)); // defer + record
    // Different recipient: a new triplet, also deferred.
    assert_eq!(
        g.check_at(mail_ip(1), "a@x.test", "c@y.test", at(1000)),
        GreyDecision::Defer
    );
    // Different sender: new triplet.
    assert_eq!(
        g.check_at(mail_ip(1), "z@x.test", "b@y.test", at(1000)),
        GreyDecision::Defer
    );
    assert_eq!(g.tracked_triplets(), 3);
}

#[test]
fn same_network_is_treated_as_one_source() {
    let mut g = Greylist::new(grey_cfg());
    // First attempt from .1, retry from .2 in the same /24: recognised.
    assert_eq!(
        g.check_at(mail_ip(1), "a@x.test", "b@y.test", at(1000)),
        GreyDecision::Defer
    );
    assert_eq!(
        g.check_at(mail_ip(2), "a@x.test", "b@y.test", at(1061)),
        GreyDecision::Allow,
        "a /24 neighbour's retry after the delay is accepted"
    );
}

#[test]
fn pending_triplets_expire() {
    let mut g = Greylist::new(grey_cfg());
    g.check_at(mail_ip(1), "a@x.test", "b@y.test", at(1000));
    assert_eq!(g.tracked_triplets(), 1);
    // Past pending_ttl with no retry: pruned on the next check.
    let _ = g.check_at(mail_ip(9), "q@x.test", "r@y.test", at(1000 + 3601));
    assert!(
        g.tracked_triplets() <= 1,
        "the stale pending triplet was pruned, got {}",
        g.tracked_triplets()
    );
}

#[test]
fn fail_open_at_capacity() {
    let mut g = Greylist::new(GreylistConfig {
        max_entries: 1,
        ..grey_cfg()
    });
    assert_eq!(
        g.check_at(mail_ip(1), "a@x.test", "b@y.test", at(1000)),
        GreyDecision::Defer
    );
    // At capacity, an unseen triplet is allowed rather than blocking mail.
    assert_eq!(
        g.check_at(mail_ip(2), "c@x.test", "d@y.test", at(1000)),
        GreyDecision::Allow
    );
    assert_eq!(g.tracked_triplets(), 1);
}

#[test]
fn triplets_ignore_case_and_the_low_half_of_ipv6() {
    let mut g = Greylist::new(grey_cfg());
    let a = IpAddr::V6(Ipv6Addr::parse("2001:db8::1").unwrap());
    let b = IpAddr::V6(Ipv6Addr::parse("2001:db8::ffff:0:0:2").unwrap());
    let c = IpAddr::V6(Ipv6Addr::parse("2001:db8:0:1::1").unwrap());
    assert_eq!(g.check_at(a, "A@X.test", "b@y.test", at(0)), GreyDecision::Defer);
    assert_eq!(g.check_at(b, "a@x.TEST", "B@y.test", at(60)), GreyDecision::Allow);
    assert_eq!(g.check_at(c, "a@x.test", "b@y.test", at(60)), GreyDecision::Defer);
}

#[test]
fn passed_triplets_are_forgotten_after_their_lifetime() {
    let mut g = Greylist::new(grey_cfg());
    g.check_at(mail_ip(1), "a@x.test", "b@y.test", at(0));
    assert_eq!(g.check_at(mail_ip(1), "a@x.test", "b@y.test", at(60)), GreyDecision::Allow);
    assert_eq!(
        g.check_at(mail_ip(1), "a@x.test", "b@y.test", at(60 + 86_399)),
        GreyDecision::Allow
    );
    assert_eq!(
        g.check_at(mail_ip(1), "a@x.test", "b@y.test", at(60 + 86_399 + 86_400)),
        GreyDecision::Defer
    );
}

#[test]
fn greylist_defaults() {
    let c = GreylistConfig::default();
    assert_eq!(c.delay, Duration::from_secs(60));
    assert_eq!(c.pending_ttl, Duration::from_secs(6 * 3600));
    assert_eq!(c.pass_ttl, Duration::from_secs(30 * 86_400));
    assert_eq!(c.max_entries, 100_000);
}

// ---------------------------------------------------------------------------
// Throttle
// ---------------------------------------------------------------------------

fn client(last: u8) -> IpAddr {
    IpAddr::V4(Ipv4Addr::new(127, 0, 0, last))
}

fn throttle_cfg() -> ThrottleConfig {
    ThrottleConfig {
        max_failures: 3,
        lockout: Duration::from_secs(900),
    }
}

#[test]
fn allows_below_threshold_then_locks_at_threshold() {
    let mut t = AuthThrottle::new(throttle_cfg());
    let now = at(1000);
    assert!(t.check_at(client(1), now));
    t.record_failure_at(client(1), now);
    t.record_failure_at(client(1), now);
    assert!(
        t.check_at(client(1), now),
        "two failures is still under the limit"
    );
    t.record_failure_at(client(1), now); // third trips the lockout
    assert!(
        !t.check_at(client(1), now),
        "locked once the threshold is reached"
    );
}

#[test]
fn success_clears_the_failure_history() {
    let mut t = AuthThrottle::new(throttle_cfg());
    let now = at(1000);
    for _ in 0..3 {
        t.record_failure_at(client(1), now);
    }
    assert!(!t.check_at(client(1), now));
    t.record_success(client(1));
    assert!(t.check_at(client(1), now), "a success unlocks the IP");
    assert_eq!(t.failures(client(1)), 0);
}

#[test]
fn lockout_expires_after_the_window() {
    let mut t = AuthThrottle::new(throttle_cfg());
    let now = at(1000);
    for _ in 0..3 {
        t.record_failure_at(client(1), now);
    }
    assert!(!t.check_at(client(1), now));
    assert!(
        t.check_at(client(1), at(1000 + 901)),
        "the lockout lifts after its window"
    );
}

#[test]
fn lockout_is_per_ip() {
    let mut t = AuthThrottle::new(throttle_cfg());
    let now = at(1000);
    for _ in 0..3 {
        t.record_failure_at(client(1), now);
    }
    assert!(!t.check_at(client(1), now));
    assert!(t.check_at(client(2), now), "a different IP is unaffected");
}

#[test]
fn failures_while_locked_do_not_extend_the_lockout() {
    let mut t = AuthThrottle::new(throttle_cfg());
    for _ in 0..3 {
        t.record_failure_at(client(1), at(0));
    }
    t.record_failure_at(client(1), at(899));
    assert!(!t.check_at(client(1), at(899)));
    assert!(t.check_at(client(1), at(900)));
}

#[test]
fn a_fresh_window_follows_a_lockout() {
    let mut t = AuthThrottle::new(throttle_cfg());
    for _ in 0..3 {
        t.record_failure_at(client(1), at(0));
    }
    t.record_failure_at(client(1), at(100)); // seen while locked
    t.record_failure_at(client(1), at(950)); // first of a new window
    assert_eq!(t.failures(client(1)), 1);
    assert!(t.check_at(client(1), at(950)));
}

#[test]
fn failures_are_forgotten_after_the_window() {
    let mut t = AuthThrottle::new(throttle_cfg());
    t.record_failure_at(client(1), at(0));
    t.record_failure_at(client(1), at(10));
    assert_eq!(t.failures(client(1)), 2);
    t.record_failure_at(client(1), at(10 + 900));
    assert_eq!(t.failures(client(1)), 1);
}

#[test]
fn throttle_defaults() {
    let c = ThrottleConfig::default();
    assert_eq!(c.max_failures, 5);
    assert_eq!(c.lockout, Duration::from_secs(900));
}
