//! Per-IP connection/attempt tracking, bounded so a distinct-IP flood cannot
//! grow it without limit (memory-exhaustion DoS).

use vstd::prelude::*;
use vstd::set_lib::lemma_len_subset;

use crate::assoc::{kept, Assoc};
use crate::clock::{Duration, Timestamp, NANOS_PER_SEC};
use crate::ip::IpAddr;

verus! {

/// Run an idle-eviction sweep once every this many `record_at` calls (amortised, so
/// the sweep does not weigh on each call).
pub const PRUNE_INTERVAL: u32 = 1024;

/// A single IP's running attempt count and most-recent sighting.
#[derive(Debug, Clone, Copy)]
pub struct AttemptRecord {
    /// Number of attempts recorded.
    pub attempts: u64,
    /// When the most recent attempt was recorded.
    pub last_seen: Timestamp,
}

/// What a [`ConnectionTracker`] holds.
pub struct TrackerView {
    pub records: Map<IpAddr, AttemptRecord>,
    pub idle_ttl: Duration,
    pub max_tracked: usize,
    pub since_prune: u32,
}

impl TrackerView {
    /// A tracker that has seen nothing.
    pub open spec fn empty(idle_ttl: Duration, max_tracked: usize) -> TrackerView {
        TrackerView { records: Map::empty(), idle_ttl, max_tracked, since_prune: 0 }
    }

    /// The records of addresses seen within the idle lifetime.
    pub open spec fn fresh(self, now: Timestamp) -> Map<IpAddr, AttemptRecord> {
        kept(
            self.records,
            |r: AttemptRecord| now.since(r.last_seen).nanos < self.idle_ttl.nanos,
        )
    }

    /// The tracker after the sweep that is due on every [`PRUNE_INTERVAL`]th attempt.
    pub open spec fn swept(self, now: Timestamp) -> TrackerView {
        if self.since_prune + 1 >= PRUNE_INTERVAL {
            TrackerView { records: self.fresh(now), since_prune: 0, ..self }
        } else {
            TrackerView { since_prune: (self.since_prune + 1) as u32, ..self }
        }
    }

    /// How many attempts of an address are on record.
    pub open spec fn count(self, ip: IpAddr) -> nat {
        if self.records.contains_key(ip) {
            self.records[ip].attempts as nat
        } else {
            0
        }
    }

    /// The tracker after an attempt: a known address counts one more, an unknown one
    /// is recorded while there is room.
    pub open spec fn recorded(self, ip: IpAddr, now: Timestamp) -> TrackerView {
        let t = self.swept(now);
        if t.records.contains_key(ip) || t.records.len() < t.max_tracked {
            TrackerView {
                records: t.records.insert(
                    ip,
                    AttemptRecord { attempts: (t.count(ip) + 1) as u64, last_seen: now },
                ),
                ..t
            }
        } else {
            t
        }
    }
}

/// Tracks how often each IP has been seen and when. This counter is observational:
/// the firewall does not decide by it (but by the rate limiter and the allow/block
/// lists), so under a flood it may stop recording new IPs once at capacity rather than
/// grow without bound.
pub struct ConnectionTracker {
    records: Assoc<IpAddr, AttemptRecord>,
    /// Entries idle at least this long are evicted on the next sweep.
    idle_ttl: Duration,
    /// Hard cap on retained IPs.
    max_tracked: usize,
    /// `record_at` calls since the last sweep.
    since_prune: u32,
}

impl View for ConnectionTracker {
    type V = TrackerView;

    closed spec fn view(&self) -> TrackerView {
        TrackerView {
            records: self.records@,
            idle_ttl: self.idle_ttl,
            max_tracked: self.max_tracked,
            since_prune: self.since_prune,
        }
    }
}

impl Default for ConnectionTracker {
    fn default() -> (r: ConnectionTracker)
        ensures
            r@ == TrackerView::empty(Duration { nanos: (600 * NANOS_PER_SEC) as u128 }, 100_000),
    {
        ConnectionTracker::with_limits(Duration::from_secs(600), 100_000)
    }
}

impl ConnectionTracker {
    #[verifier::type_invariant]
    spec fn bounded(self) -> bool {
        self.records@.dom().finite() && self.records@.len() <= self.max_tracked
    }

    /// Create an empty tracker with default limits (10-minute idle TTL, 100k IPs).
    pub fn new() -> (r: ConnectionTracker)
        ensures
            r@ == TrackerView::empty(Duration { nanos: (600 * NANOS_PER_SEC) as u128 }, 100_000),
    {
        ConnectionTracker::with_limits(Duration::from_secs(600), 100_000)
    }

    /// Create an empty tracker with explicit eviction limits.
    pub fn with_limits(idle_ttl: Duration, max_tracked: usize) -> (r: ConnectionTracker)
        ensures
            r@ == TrackerView::empty(idle_ttl, max_tracked),
    {
        ConnectionTracker { records: Assoc::new(), idle_ttl, max_tracked, since_prune: 0 }
    }

    /// Record an attempt from `ip`, returning its running total (1 for an address that
    /// goes untracked because the tracker is full).
    pub fn record_at(&mut self, ip: IpAddr, now: Timestamp) -> (r: u64)
        requires
            old(self)@.count(ip) < u64::MAX,
        ensures
            final(self)@ == old(self)@.recorded(ip, now),
            r == old(self)@.swept(now).count(ip) + 1,
    {
        proof {
            use_type_invariant(&*self);
        }
        let due = self.since_prune >= PRUNE_INTERVAL - 1;
        if due {
            self.prune(now);
        } else {
            self.since_prune = self.since_prune + 1;
        }
        proof {
            use_type_invariant(&*self);
        }
        assert(self@.records =~= old(self)@.swept(now).records);
        let count = self.records.len();
        let known: Option<AttemptRecord> = match self.records.get(&ip) {
            Some(record) => Some(*record),
            None => None,
        };
        let mut records: Assoc<IpAddr, AttemptRecord> = Assoc::new();
        std::mem::swap(&mut records, &mut self.records);
        match known {
            Some(record) => {
                let attempts = record.attempts + 1;
                records.insert(ip, AttemptRecord { attempts, last_seen: now });
                self.records = records;
                attempts
            },
            None => {
                // A new IP. Between sweeps, once full, stop growing: this counter is
                // observational, so dropping the entry is safe.
                if count < self.max_tracked {
                    records.insert(ip, AttemptRecord { attempts: 1, last_seen: now });
                }
                self.records = records;
                1
            },
        }
    }

    /// Evict entries idle for the TTL or longer.
    fn prune(&mut self, now: Timestamp)
        ensures
            final(self)@ == (TrackerView {
                records: old(self)@.fresh(now),
                since_prune: 0,
                ..old(self)@
            }),
    {
        proof {
            use_type_invariant(&*self);
        }
        let ttl = self.idle_ttl;
        let ghost before = self.records@;
        let mut records: Assoc<IpAddr, AttemptRecord> = Assoc::new();
        std::mem::swap(&mut records, &mut self.records);
        let keep = |r: &AttemptRecord| -> (fresh: bool)
            ensures
                fresh == (now.since(r.last_seen).nanos < ttl.nanos),
            { now.saturating_duration_since(r.last_seen).nanos < ttl.nanos };
        records.retain(
            keep,
            Ghost(|r: AttemptRecord| now.since(r.last_seen).nanos < ttl.nanos),
        );
        proof {
            lemma_len_subset(records@.dom(), before.dom());
            assert(records@ =~= old(self)@.fresh(now));
        }
        self.records = records;
        self.since_prune = 0;
    }

    /// Attempts recorded for `ip` (0 if never seen, or if it went untracked
    /// because the tracker was at capacity during a flood).
    pub fn attempts(&self, ip: &IpAddr) -> (r: u64)
        ensures
            r == self@.count(*ip),
    {
        match self.records.get(ip) {
            Some(record) => record.attempts,
            None => 0,
        }
    }

    /// Number of distinct IPs on record, never more than the cap.
    pub fn tracked_ips(&self) -> (r: usize)
        ensures
            r == self@.records.len(),
            r <= self@.max_tracked,
    {
        proof {
            use_type_invariant(self);
        }
        self.records.len()
    }
}

// ---------------------------------------------------------------------------
// Laws
// ---------------------------------------------------------------------------

/// An attempt counts one more for a known address that is not swept away.
pub proof fn law_attempts_count_up(t: TrackerView, ip: IpAddr, now: Timestamp)
    requires
        t.records.contains_key(ip),
        t.count(ip) < u64::MAX,
        now.since(t.records[ip].last_seen).nanos < t.idle_ttl.nanos,
    ensures
        t.recorded(ip, now).count(ip) == t.count(ip) + 1,
{
    assert(t.fresh(now).contains_key(ip));
}

/// A sweep evicts every address that has been idle for the lifetime.
pub proof fn law_sweep_evicts_the_idle(t: TrackerView, ip: IpAddr, other: IpAddr, now: Timestamp)
    requires
        t.since_prune + 1 >= PRUNE_INTERVAL,
        other != ip,
        t.records.contains_key(other),
        now.since(t.records[other].last_seen).nanos >= t.idle_ttl.nanos,
    ensures
        t.recorded(ip, now).count(other) == 0,
{
}

/// An address that is not on record is recorded with one attempt while there is room, and
/// goes unrecorded where there is none.
pub proof fn law_new_address_is_recorded_while_there_is_room(
    t: TrackerView,
    ip: IpAddr,
    now: Timestamp,
)
    requires
        !t.records.contains_key(ip),
        t.since_prune + 1 < 1024,
    ensures
        t.records.len() < t.max_tracked ==> t.recorded(ip, now).count(ip) == 1 && t.recorded(
            ip,
            now,
        ).records[ip].last_seen == now,
        t.records.len() >= t.max_tracked ==> t.recorded(ip, now).records == t.records,
{
}

/// An attempt leaves the counts of other addresses, but for a sweep, which comes with every
/// thousand and twenty-fourth attempt and takes away the idle alone.
pub proof fn law_attempt_keeps_other_counts(
    t: TrackerView,
    ip: IpAddr,
    other: IpAddr,
    now: Timestamp,
)
    requires
        other != ip,
    ensures
        t.since_prune + 1 < 1024 ==> t.recorded(ip, now).count(other) == t.count(other),
        t.records.contains_key(other) && now.since(t.records[other].last_seen).nanos
            < t.idle_ttl.nanos ==> t.recorded(ip, now).count(other) == t.count(other),
        t.since_prune + 1 < 1024 ==> t.recorded(ip, now).since_prune == t.since_prune + 1,
        t.since_prune + 1 >= 1024 ==> t.recorded(ip, now).since_prune == 0,
        t.recorded(ip, now).idle_ttl == t.idle_ttl,
        t.recorded(ip, now).max_tracked == t.max_tracked,
{
    if t.records.contains_key(other) && now.since(t.records[other].last_seen).nanos
        < t.idle_ttl.nanos {
        assert(t.fresh(now).contains_key(other));
    }
}

} // verus!
