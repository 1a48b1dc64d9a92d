//! The `Firewall`: composes the allow/block lists, a rate limiter, connection
//! tracking, a decision trace, and a pause switch into one check.

use vstd::prelude::*;

use crate::clock::Timestamp;
use crate::ip::IpAddr;
use crate::ring::ring_push;
use crate::security::firewall::allow::AllowList;
use crate::security::firewall::block::BlockList;
use crate::security::firewall::config::FirewallConfig;
use crate::security::firewall::decision::{Decision, DenyReason};
use crate::security::firewall::limit::{MeterView, RateMeter};
use crate::security::firewall::pause::PauseSwitch;
use crate::security::firewall::trace::DecisionTrace;
use crate::security::firewall::track::{ConnectionTracker, TrackerView};

verus! {

/// What a [`Firewall`] holds.
pub struct FirewallView {
    pub meter: MeterView,
    pub allow: Set<IpAddr>,
    pub block: Set<IpAddr>,
    pub tracker: TrackerView,
    pub trace: Seq<(IpAddr, Decision)>,
    pub trace_capacity: nat,
    pub paused: bool,
}

impl FirewallView {
    /// A firewall as its configuration makes it.
    pub open spec fn built(config: FirewallConfig, now: Timestamp) -> FirewallView {
        FirewallView {
            meter: MeterView::fresh(config.quota, now),
            allow: config.allow@.to_set(),
            block: config.block@.to_set(),
            tracker: TrackerView::empty(config.idle_ttl, config.max_tracked_ips),
            trace: Seq::empty(),
            trace_capacity: if config.trace_capacity == 0 {
                1
            } else {
                config.trace_capacity as nat
            },
            paused: false,
        }
    }

    /// Whether nothing but the quota decides: enforcement is on, and the address is on
    /// neither list.
    pub open spec fn metered(self, ip: IpAddr) -> bool {
        !self.paused && !self.allow.contains(ip) && !self.block.contains(ip)
    }

    /// The decision on a connection: paused (allow), then the allowlist (allow), then
    /// the blocklist (deny), then the rate limit.
    pub open spec fn decision(self, ip: IpAddr, now: Timestamp) -> Decision {
        if self.paused || self.allow.contains(ip) {
            Decision::Allow
        } else if self.block.contains(ip) {
            Decision::Deny(DenyReason::Blocklisted)
        } else if self.meter.admits(ip, now) {
            Decision::Allow
        } else {
            Decision::Deny(DenyReason::RateLimited)
        }
    }

    /// The firewall after a check: the attempt is tracked, the decision traced, and the
    /// quota charged where it decides.
    pub open spec fn checked(self, ip: IpAddr, now: Timestamp) -> FirewallView {
        FirewallView {
            meter: if self.metered(ip) {
                self.meter.asked(ip, now)
            } else {
                self.meter
            },
            tracker: self.tracker.recorded(ip, now),
            trace: ring_push(self.trace, self.trace_capacity, (ip, self.decision(ip, now))),
            ..self
        }
    }

    /// Whether a check can be counted: the attempt counter has room, and so has the
    /// meter's clock where the quota decides.
    pub open spec fn ready(self, ip: IpAddr, now: Timestamp) -> bool {
        (self.metered(ip) ==> self.meter.in_range(now)) && self.tracker.count(ip) < u64::MAX
    }
}

/// Connection policy for the public-facing server. The time of each check is
/// handed in, so a caller can drive it by any clock.
pub struct Firewall {
    meter: RateMeter,
    allow: AllowList,
    block: BlockList,
    tracker: ConnectionTracker,
    trace: DecisionTrace,
    pause: PauseSwitch,
}

impl View for Firewall {
    type V = FirewallView;

    closed spec fn view(&self) -> FirewallView {
        FirewallView {
            meter: self.meter@,
            allow: self.allow@,
            block: self.block@,
            tracker: self.tracker@,
            trace: self.trace@,
            trace_capacity: self.trace.cap(),
            paused: self.pause@,
        }
    }
}

impl Firewall {
    /// Build a firewall from `config`, whose clock starts at `now`.
    pub fn new(config: &FirewallConfig, now: Timestamp) -> (r: Firewall)
        requires
            config.quota.valid(),
        ensures
            r@ == FirewallView::built(*config, now),
    {
        let mut allow = AllowList::new();
        let mut i: usize = 0;
        assert(config.allow@.take(0).to_set() =~= Set::<IpAddr>::empty());
        while i < config.allow.len()
            invariant
                i <= config.allow@.len(),
                allow@ == config.allow@.take(i as int).to_set(),
            decreases config.allow@.len() - i,
        {
            allow.insert(config.allow[i]);
            proof {
                lemma_to_set_step(config.allow@, i as int);
            }
            i = i + 1;
        }
        let mut block = BlockList::new();
        let mut j: usize = 0;
        assert(config.block@.take(0).to_set() =~= Set::<IpAddr>::empty());
        while j < config.block.len()
            invariant
                j <= config.block@.len(),
                block@ == config.block@.take(j as int).to_set(),
            decreases config.block@.len() - j,
        {
            block.insert(config.block[j]);
            proof {
                lemma_to_set_step(config.block@, j as int);
            }
            j = j + 1;
        }
        assert(config.allow@.take(i as int) =~= config.allow@);
        assert(config.block@.take(j as int) =~= config.block@);
        Firewall {
            meter: RateMeter::new(config.quota, now),
            allow,
            block,
            tracker: ConnectionTracker::with_limits(config.idle_ttl, config.max_tracked_ips),
            trace: DecisionTrace::new(config.trace_capacity),
            pause: PauseSwitch::new(),
        }
    }

    /// Whether a check of `ip` at `now` can be counted.
    pub fn is_ready(&self, ip: IpAddr, now: Timestamp) -> (r: bool)
        ensures
            r == self@.ready(ip, now),
    {
        let metered = !self.pause.is_paused() && !self.allow.contains(&ip) && !self.block.contains(
            &ip,
        );
        (!metered || self.meter.is_in_range(now)) && self.tracker.attempts(&ip) < u64::MAX
    }

    /// Decide whether a connection from `ip` is permitted.
    ///
    /// Evaluation order: paused (allow), allowlist (allow), blocklist (deny), rate
    /// limit. Every call is tracked and traced.
    pub fn check(&mut self, ip: IpAddr, now: Timestamp) -> (r: Decision)
        requires
            old(self)@.ready(ip, now),
        ensures
            r == old(self)@.decision(ip, now),
            final(self)@ == old(self)@.checked(ip, now),
    {
        self.tracker.record_at(ip, now);
        let decision = if self.pause.is_paused() || self.allow.contains(&ip) {
            Decision::Allow
        } else if self.block.contains(&ip) {
            Decision::Deny(DenyReason::Blocklisted)
        } else if self.meter.check(ip, now) {
            Decision::Allow
        } else {
            Decision::Deny(DenyReason::RateLimited)
        };
        self.trace.record(ip, decision);
        decision
    }

    /// Add `ip` to the runtime allowlist.
    pub fn allow_ip(&mut self, ip: IpAddr)
        ensures
            final(self)@ == (FirewallView { allow: old(self)@.allow.insert(ip), ..old(self)@ }),
    {
        self.allow.insert(ip);
    }

    /// Add `ip` to the runtime blocklist.
    pub fn block_ip(&mut self, ip: IpAddr)
        ensures
            final(self)@ == (FirewallView { block: old(self)@.block.insert(ip), ..old(self)@ }),
    {
        self.block.insert(ip);
    }

    /// Pause enforcement (permit everything).
    pub fn pause(&mut self)
        ensures
            final(self)@ == (FirewallView { paused: true, ..old(self)@ }),
    {
        self.pause.pause();
    }

    /// Resume enforcement.
    pub fn resume(&mut self)
        ensures
            final(self)@ == (FirewallView { paused: false, ..old(self)@ }),
    {
        self.pause.resume();
    }

    /// Attempts recorded for `ip` so far.
    pub fn attempts(&self, ip: &IpAddr) -> (r: u64)
        ensures
            r == self@.tracker.count(*ip),
    {
        self.tracker.attempts(ip)
    }

    /// Number of decisions currently retained in the trace ring.
    pub fn trace_len(&self) -> (r: usize)
        ensures
            r == self@.trace.len(),
            r <= self@.trace_capacity,
    {
        self.trace.len()
    }
}

proof fn lemma_to_set_step(all: Seq<IpAddr>, i: int)
    requires
        0 <= i < all.len(),
    ensures
        all.take(i + 1).to_set() == all.take(i).to_set().insert(all[i]),
{
    let next = all.take(i + 1);
    assert(next =~= all.take(i).push(all[i]));
    assert forall|ip: IpAddr| #[trigger]
        next.to_set().contains(ip) == all.take(i).to_set().insert(all[i]).contains(ip) by {
        if next.contains(ip) {
            let k = choose|k: int| 0 <= k < next.len() && next[k] == ip;
            if k < i {
                assert(all.take(i)[k] == ip);
            }
        }
        if all.take(i).contains(ip) {
            let k = choose|k: int| 0 <= k < all.take(i).len() && all.take(i)[k] == ip;
            assert(next[k] == ip);
        }
        assert(next[i] == all[i]);
    }
    assert(next.to_set() =~= all.take(i).to_set().insert(all[i]));
}

// ---------------------------------------------------------------------------
// Laws
// ---------------------------------------------------------------------------

/// While paused, everything is permitted and no quota is used.
pub proof fn law_paused_permits_everything(fw: FirewallView, ip: IpAddr, now: Timestamp)
    requires
        fw.paused,
    ensures
        fw.decision(ip, now) == Decision::Allow,
        fw.checked(ip, now).meter == fw.meter,
{
}

/// An address on the allowlist is permitted, whatever the blocklist and the quota say.
pub proof fn law_allowlist_bypasses_blocklist_and_quota(
    fw: FirewallView,
    ip: IpAddr,
    now: Timestamp,
)
    requires
        fw.allow.contains(ip),
    ensures
        fw.decision(ip, now) == Decision::Allow,
        fw.checked(ip, now).meter == fw.meter,
{
}

/// While enforcing, an address on the blocklist and not on the allowlist is denied.
pub proof fn law_blocklist_denies(fw: FirewallView, ip: IpAddr, now: Timestamp)
    requires
        !fw.paused,
        fw.block.contains(ip),
        !fw.allow.contains(ip),
    ensures
        fw.decision(ip, now) == Decision::Deny(DenyReason::Blocklisted),
{
}

/// Every check leaves its decision as the latest entry of the trace.
pub proof fn law_every_check_is_traced(fw: FirewallView, ip: IpAddr, now: Timestamp)
    requires
        1 <= fw.trace_capacity,
        fw.trace.len() <= fw.trace_capacity,
    ensures
        fw.checked(ip, now).trace.len() >= 1,
        fw.checked(ip, now).trace.len() <= fw.trace_capacity,
        fw.checked(ip, now).trace.last() == (ip, fw.decision(ip, now)),
{
}

/// A check changes neither list nor the switch.
pub proof fn law_check_keeps_the_policy(fw: FirewallView, ip: IpAddr, now: Timestamp)
    ensures
        fw.checked(ip, now).allow == fw.allow,
        fw.checked(ip, now).block == fw.block,
        fw.checked(ip, now).paused == fw.paused,
{
}

/// While enforcing, the quota decides on an address that is on neither list, and is charged
/// for it.
pub proof fn law_quota_decides_for_the_unlisted(fw: FirewallView, ip: IpAddr, now: Timestamp)
    requires
        !fw.paused,
        !fw.allow.contains(ip),
        !fw.block.contains(ip),
    ensures
        fw.decision(ip, now) == if fw.meter.admits(ip, now) {
            Decision::Allow
        } else {
            Decision::Deny(DenyReason::RateLimited)
        },
        fw.checked(ip, now).meter == fw.meter.asked(ip, now),
{
}

/// Every check is tracked, whatever it decides, and a denial by the blocklist uses no quota.
pub proof fn law_every_check_is_tracked(fw: FirewallView, ip: IpAddr, now: Timestamp)
    ensures
        fw.checked(ip, now).tracker == fw.tracker.recorded(ip, now),
        fw.checked(ip, now).trace_capacity == fw.trace_capacity,
        fw.block.contains(ip) ==> fw.checked(ip, now).meter == fw.meter,
{
}

/// A firewall starts enforcing, with the addresses that its configuration lists and nothing
/// tracked or traced, and keeps one decision at least.
pub proof fn law_firewall_starts_as_configured(config: FirewallConfig, now: Timestamp, ip: IpAddr)
    ensures
        ({
            let fw = FirewallView::built(config, now);
            &&& !fw.paused
            &&& fw.allow.contains(ip) <==> exists|i: int|
                0 <= i < config.allow@.len() && #[trigger] config.allow@[i] == ip
            &&& fw.block.contains(ip) <==> exists|i: int|
                0 <= i < config.block@.len() && #[trigger] config.block@[i] == ip
            &&& fw.tracker.count(ip) == 0
            &&& fw.tracker.idle_ttl == config.idle_ttl
            &&& fw.tracker.max_tracked == config.max_tracked_ips
            &&& fw.trace.len() == 0
            &&& config.trace_capacity >= 1 ==> fw.trace_capacity == config.trace_capacity
            &&& config.trace_capacity == 0 ==> fw.trace_capacity == 1
            &&& fw.meter.started == now
        }),
{
    if config.allow@.to_set().contains(ip) {
        assert(config.allow@.contains(ip));
    }
    if config.block@.to_set().contains(ip) {
        assert(config.block@.contains(ip));
    }
}

} // verus!
