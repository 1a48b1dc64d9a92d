//! Brute-force authentication throttle: a per-IP failed-attempt counter with a
//! hard lockout, shared across connections so reconnecting does not reset the
//! budget. Consulted by the client-facing protocol loops (IMAP, POP3, submission) on
//! each credential check; distinct from the connection-rate firewall.

use vstd::prelude::*;

use crate::assoc::{kept, Assoc};
use crate::clock::{Duration, Timestamp, LATEST_NANOS, NANOS_PER_SEC};
use crate::ip::IpAddr;

verus! {

/// Throttle policy: how many failed attempts an IP may make before it is locked
/// out, and for how long.
#[derive(Debug, Clone, Copy)]
pub struct ThrottleConfig {
    /// Failed attempts from one IP that trigger a lockout.
    pub max_failures: u32,
    /// How long an IP stays locked out once the threshold is reached.
    pub lockout: Duration,
}

impl Default for ThrottleConfig {
    fn default() -> (r: ThrottleConfig)
        ensures
            r.max_failures == 5,
            r.lockout.nanos == 15 * 60 * NANOS_PER_SEC,
    {
        ThrottleConfig { max_failures: 5, lockout: Duration::from_secs(15 * 60) }
    }
}

/// One IP's failed-attempt record.
#[derive(Debug, Clone, Copy)]
pub struct Attempt {
    pub failures: u32,
    pub locked_until: Option<Timestamp>,
    pub last_seen: Timestamp,
}

impl Attempt {
    /// Whether the address is locked out.
    pub open spec fn locked(self, now: Timestamp) -> bool {
        match self.locked_until {
            Some(until) => until.nanos > now.nanos,
            None => false,
        }
    }

    /// Whether the record still matters: it is locked, or was seen within the lockout
    /// window.
    pub open spec fn live(self, now: Timestamp, lockout: Duration) -> bool {
        self.locked(now) || match self.last_seen.plus(lockout) {
            Some(deadline) => deadline.nanos > now.nanos,
            None => false,
        }
    }

    fn is_locked(&self, now: Timestamp) -> (r: bool)
        ensures
            r == self.locked(now),
    {
        match self.locked_until {
            Some(until) => until.nanos > now.nanos,
            None => false,
        }
    }

    fn is_live(&self, now: Timestamp, lockout: Duration) -> (r: bool)
        ensures
            r == self.live(now, lockout),
    {
        self.is_locked(now) || match self.last_seen.checked_add(lockout) {
            Some(deadline) => deadline.nanos > now.nanos,
            None => false,
        }
    }
}

/// Whether an address may attempt authentication: it is not locked out.
pub open spec fn may_attempt(records: Map<IpAddr, Attempt>, ip: IpAddr, now: Timestamp) -> bool {
    !(records.contains_key(ip) && records[ip].locked(now))
}

/// The records that still matter.
pub open spec fn current_records(
    records: Map<IpAddr, Attempt>,
    now: Timestamp,
    lockout: Duration,
) -> Map<IpAddr, Attempt> {
    kept(records, |a: Attempt| a.live(now, lockout))
}

/// How many failures of an address count towards a lockout: none where it has no
/// record that matters or a lockout of it is over.
pub open spec fn counted_failures(
    records: Map<IpAddr, Attempt>,
    config: ThrottleConfig,
    ip: IpAddr,
    now: Timestamp,
) -> nat {
    let current = current_records(records, now, config.lockout);
    if current.contains_key(ip) && current[ip].locked_until is None {
        current[ip].failures as nat
    } else {
        0
    }
}

/// The records after a failed attempt. A locked address stays as it is, but is seen
/// now. Otherwise the failure counts, and locks the address out from now on once the
/// threshold is reached.
pub open spec fn after_failure(
    records: Map<IpAddr, Attempt>,
    config: ThrottleConfig,
    ip: IpAddr,
    now: Timestamp,
) -> Map<IpAddr, Attempt> {
    let current = current_records(records, now, config.lockout);
    if current.contains_key(ip) && current[ip].locked(now) {
        current.insert(
            ip,
            Attempt {
                failures: current[ip].failures,
                locked_until: current[ip].locked_until,
                last_seen: now,
            },
        )
    } else {
        let failures = counted_failures(records, config, ip, now) + 1;
        current.insert(
            ip,
            Attempt {
                failures: failures as u32,
                locked_until: if failures >= config.max_failures {
                    now.plus(config.lockout)
                } else {
                    None
                },
                last_seen: now,
            },
        )
    }
}

/// A per-IP authentication throttle.
pub struct AuthThrottle {
    config: ThrottleConfig,
    records: Assoc<IpAddr, Attempt>,
}

impl View for AuthThrottle {
    type V = Map<IpAddr, Attempt>;

    closed spec fn view(&self) -> Map<IpAddr, Attempt> {
        self.records@
    }
}

impl AuthThrottle {
    /// The policy.
    pub closed spec fn policy(&self) -> ThrottleConfig {
        self.config
    }

    /// Build a throttle with the given policy.
    pub fn new(config: ThrottleConfig) -> (r: AuthThrottle)
        ensures
            r.policy() == config,
            r@ == Map::<IpAddr, Attempt>::empty(),
    {
        AuthThrottle { config, records: Assoc::new() }
    }

    /// Whether `ip` may currently attempt authentication (`false` while locked out).
    pub fn check_at(&self, ip: IpAddr, now: Timestamp) -> (r: bool)
        ensures
            r == may_attempt(self@, ip, now),
    {
        match self.records.get(&ip) {
            Some(attempt) => !attempt.is_locked(now),
            None => true,
        }
    }

    /// How many failures of `ip` are on record.
    pub fn failures(&self, ip: IpAddr) -> (r: u32)
        ensures
            r == if self@.contains_key(ip) {
                self@[ip].failures
            } else {
                0
            },
    {
        match self.records.get(&ip) {
            Some(attempt) => attempt.failures,
            None => 0,
        }
    }

    /// Record a failed authentication attempt from `ip`, locking it out once the
    /// configured threshold is reached.
    pub fn record_failure_at(&mut self, ip: IpAddr, now: Timestamp)
        requires
            counted_failures(old(self)@, old(self).policy(), ip, now) < u32::MAX,
        ensures
            final(self)@ == after_failure(old(self)@, old(self).policy(), ip, now),
            final(self).policy() == old(self).policy(),
    {
        let config = self.config;
        let lockout = config.lockout;
        let ghost before = self.records@;
        let keep = |a: &Attempt| -> (live: bool)
            ensures
                live == a.live(now, lockout),
            { a.is_live(now, lockout) };
        self.records.retain(keep, Ghost(|a: Attempt| a.live(now, lockout)));
        assert(self.records@ == current_records(before, now, lockout));
        let found: Option<Attempt> = match self.records.get(&ip) {
            Some(attempt) => Some(*attempt),
            None => None,
        };
        let mut failures: u32 = 0;
        if let Some(attempt) = found {
            // Already locked out: the failure changes nothing until the lock lifts.
            if attempt.is_locked(now) {
                self.records.insert(
                    ip,
                    Attempt {
                        failures: attempt.failures,
                        locked_until: attempt.locked_until,
                        last_seen: now,
                    },
                );
                return;
            }
            // Where a prior lockout has elapsed, a fresh window begins.
            if attempt.locked_until.is_none() {
                failures = attempt.failures;
            }
        }
        failures = failures + 1;
        let locked_until = if failures >= config.max_failures {
            now.checked_add(lockout)
        } else {
            None
        };
        self.records.insert(ip, Attempt { failures, locked_until, last_seen: now });
    }

    /// Clear `ip`'s failure history after a successful authentication.
    pub fn record_success(&mut self, ip: IpAddr)
        ensures
            final(self)@ == old(self)@.remove(ip),
            final(self).policy() == old(self).policy(),
    {
        self.records.remove(&ip);
    }
}

// ---------------------------------------------------------------------------
// Laws
// ---------------------------------------------------------------------------

/// The failure that reaches the threshold locks the address out, for the lockout
/// window and no longer.
pub proof fn law_threshold_locks_for_the_window(
    records: Map<IpAddr, Attempt>,
    config: ThrottleConfig,
    ip: IpAddr,
    now: Timestamp,
    later: Timestamp,
)
    requires
        may_attempt(records, ip, now),
        counted_failures(records, config, ip, now) + 1 >= config.max_failures,
        counted_failures(records, config, ip, now) < u32::MAX,
        now.plus(config.lockout) is Some,
        now.nanos <= later.nanos,
    ensures
        may_attempt(after_failure(records, config, ip, now), ip, later) <==> later.nanos - now.nanos
            >= config.lockout.nanos,
{
}

/// A failure below the threshold does not lock the address out.
pub proof fn law_below_the_threshold_stays_open(
    records: Map<IpAddr, Attempt>,
    config: ThrottleConfig,
    ip: IpAddr,
    now: Timestamp,
    later: Timestamp,
)
    requires
        may_attempt(records, ip, now),
        counted_failures(records, config, ip, now) + 1 < config.max_failures,
    ensures
        may_attempt(after_failure(records, config, ip, now), ip, later),
{
}

/// Failures add up: after one, one more counts while the window has not passed.
pub proof fn law_failures_add_up(
    records: Map<IpAddr, Attempt>,
    config: ThrottleConfig,
    ip: IpAddr,
    now: Timestamp,
    later: Timestamp,
)
    requires
        may_attempt(records, ip, now),
        counted_failures(records, config, ip, now) + 1 < config.max_failures,
        now.plus(config.lockout) is Some,
        later.nanos < now.plus(config.lockout)->0.nanos,
    ensures
        counted_failures(after_failure(records, config, ip, now), config, ip, later)
            == counted_failures(records, config, ip, now) + 1,
{
    let after = after_failure(records, config, ip, now);
    assert(after[ip].live(later, config.lockout));
    assert(current_records(after, later, config.lockout).contains_key(ip));
}

/// A failure while locked out does not lengthen the lockout.
pub proof fn law_failure_while_locked_does_not_extend(
    records: Map<IpAddr, Attempt>,
    config: ThrottleConfig,
    ip: IpAddr,
    now: Timestamp,
    later: Timestamp,
)
    requires
        !may_attempt(records, ip, now),
    ensures
        may_attempt(after_failure(records, config, ip, now), ip, later) == may_attempt(
            records,
            ip,
            later,
        ),
{
    assert(records[ip].live(now, config.lockout));
    assert(current_records(records, now, config.lockout).contains_key(ip));
}

/// A failure of one address locks out no other and unlocks none that is locked.
pub proof fn law_lockout_is_per_address(
    records: Map<IpAddr, Attempt>,
    config: ThrottleConfig,
    ip: IpAddr,
    other: IpAddr,
    now: Timestamp,
    later: Timestamp,
)
    requires
        other != ip,
        now.nanos <= later.nanos,
    ensures
        may_attempt(after_failure(records, config, ip, now), other, later) == may_attempt(
            records,
            other,
            later,
        ),
{
    if records.contains_key(other) && records[other].locked(later) {
        assert(records[other].locked(now));
        assert(current_records(records, now, config.lockout).contains_key(other));
    }
}

/// A success clears the history: the address may try again, with nothing counted.
pub proof fn law_success_clears_the_history(
    records: Map<IpAddr, Attempt>,
    config: ThrottleConfig,
    ip: IpAddr,
    now: Timestamp,
)
    ensures
        may_attempt(records.remove(ip), ip, now),
        counted_failures(records.remove(ip), config, ip, now) == 0,
{
}

/// Failures are forgotten once the lockout window has passed since the last one, whether or
/// not they locked the address out.
pub proof fn law_old_failures_are_forgotten(
    records: Map<IpAddr, Attempt>,
    config: ThrottleConfig,
    ip: IpAddr,
    now: Timestamp,
    later: Timestamp,
)
    requires
        may_attempt(records, ip, now),
        counted_failures(records, config, ip, now) < u32::MAX,
        now.nanos + config.lockout.nanos <= LATEST_NANOS,
        later.nanos >= now.nanos + config.lockout.nanos,
    ensures
        counted_failures(after_failure(records, config, ip, now), config, ip, later) == 0,
        may_attempt(after_failure(records, config, ip, now), ip, later),
{
    let after = after_failure(records, config, ip, now);
    assert(!after[ip].live(later, config.lockout));
}

/// A lockout that is over leaves nothing to count, though the address was seen since.
pub proof fn law_lockout_that_is_over_starts_anew(
    records: Map<IpAddr, Attempt>,
    config: ThrottleConfig,
    ip: IpAddr,
    now: Timestamp,
)
    requires
        may_attempt(records, ip, now),
        records.contains_key(ip),
        records[ip].locked_until is Some,
    ensures
        counted_failures(records, config, ip, now) == 0,
{
}

/// A failure of one address counts for no other.
pub proof fn law_failures_are_per_address(
    records: Map<IpAddr, Attempt>,
    config: ThrottleConfig,
    ip: IpAddr,
    other: IpAddr,
    now: Timestamp,
    later: Timestamp,
)
    requires
        other != ip,
        now.nanos <= later.nanos,
    ensures
        counted_failures(after_failure(records, config, ip, now), config, other, later)
            == counted_failures(records, config, other, later),
{
    let after = after_failure(records, config, ip, now);
    if records.contains_key(other) {
        if records[other].live(later, config.lockout) {
            assert(records[other].live(now, config.lockout));
            assert(current_records(records, now, config.lockout).contains_key(other));
            assert(after[other] == records[other]);
            assert(current_records(after, later, config.lockout).contains_key(other));
            assert(current_records(records, later, config.lockout).contains_key(other));
        }
    }
}

} // verus!
