//! Greylisting (RFC 6647 §2.5): temporarily defer the first delivery attempt for
//! an unseen `(network, sender, recipient)` triplet, then accept it once the sender
//! retries after a short delay. Spam bots rarely retry; legitimate MTAs do. State is
//! per-triplet and bounded.
//!
//! The source is keyed by network (IPv4 `/24`, IPv6 `/64`) rather than exact IP, so
//! a sender whose retries come from a different host in the same provider pool is
//! still recognised, a common cause of greylisting breakage otherwise.

use vstd::prelude::*;
use vstd::set_lib::lemma_len_subset;

use crate::assoc::{kept, Assoc, Key};
use crate::clock::{Duration, Timestamp, LATEST_NANOS, NANOS_PER_SEC};
use crate::ip::{IpAddr, Ipv4Addr, Ipv6Addr};
use crate::text::{chars_of, lowered, same_ignoring_case, str_eq, string_of, to_lower};

verus! {

/// Greylisting policy.
#[derive(Debug, Clone, Copy)]
pub struct GreylistConfig {
    /// Minimum wait before a retried triplet is accepted.
    pub delay: Duration,
    /// How long a still-pending (deferred, not-yet-retried) triplet is remembered;
    /// after this it is forgotten and a fresh attempt starts the delay over.
    pub pending_ttl: Duration,
    /// How long a passed triplet is whitelisted (later mail skips the delay).
    pub pass_ttl: Duration,
    /// Hard cap on tracked triplets (memory bound). At capacity, unseen triplets
    /// are allowed (fail-open) so a flood cannot block all mail.
    pub max_entries: usize,
}

impl Default for GreylistConfig {
    fn default() -> (r: GreylistConfig)
        ensures
            r.delay.nanos == 60 * NANOS_PER_SEC,
            r.pending_ttl.nanos == 6 * 60 * 60 * NANOS_PER_SEC,
            r.pass_ttl.nanos == 30 * 24 * 60 * 60 * NANOS_PER_SEC,
            r.max_entries == 100_000,
    {
        GreylistConfig {
            delay: Duration::from_secs(60),
            pending_ttl: Duration::from_secs(6 * 60 * 60),
            pass_ttl: Duration::from_secs(30 * 24 * 60 * 60),
            max_entries: 100_000,
        }
    }
}

/// The greylisting decision for one delivery attempt.
#[derive(Debug, Clone, Copy, PartialEq, Eq, Structural)]
pub enum GreyDecision {
    /// Accept the recipient.
    Allow,
    /// Temporarily refuse (`4xx`); the sender should retry after the delay.
    Defer,
}

/// What a delivery attempt is recognised by: the source network, and the sender and
/// recipient in lowercase.
pub struct Triplet {
    pub network: IpAddr,
    pub sender: String,
    pub recipient: String,
}

/// What a [`Triplet`] holds.
pub struct TripletView {
    pub network: IpAddr,
    pub sender: Seq<char>,
    pub recipient: Seq<char>,
}

impl View for Triplet {
    type V = TripletView;

    open spec fn view(&self) -> TripletView {
        TripletView { network: self.network, sender: self.sender@, recipient: self.recipient@ }
    }
}

impl Key for Triplet {
    fn same(&self, other: &Self) -> (r: bool) {
        self.network == other.network && str_eq(self.sender.as_str(), other.sender.as_str())
            && str_eq(self.recipient.as_str(), other.recipient.as_str())
    }
}

/// What is remembered of a triplet.
#[derive(Debug, Clone, Copy)]
pub struct Entry {
    pub first_seen: Timestamp,
    pub last_seen: Timestamp,
    pub passed: bool,
}

impl Entry {
    /// Whether the entry is still remembered: less than its lifetime has passed since
    /// it was last seen.
    pub open spec fn live(self, now: Timestamp, config: GreylistConfig) -> bool {
        let ttl = if self.passed {
            config.pass_ttl
        } else {
            config.pending_ttl
        };
        match self.last_seen.plus(ttl) {
            Some(deadline) => deadline.nanos > now.nanos,
            None => false,
        }
    }

    fn is_live(&self, now: Timestamp, config: GreylistConfig) -> (r: bool)
        ensures
            r == self.live(now, config),
    {
        let ttl = if self.passed {
            config.pass_ttl
        } else {
            config.pending_ttl
        };
        match self.last_seen.checked_add(ttl) {
            Some(deadline) => deadline.nanos > now.nanos,
            None => false,
        }
    }
}

/// The greylisting network of an address: IPv4 `/24`, IPv6 `/64`.
pub open spec fn network_of(ip: IpAddr) -> IpAddr {
    match ip {
        IpAddr::V4(v4) => IpAddr::V4(
            Ipv4Addr { bits: (v4.bits - v4.bits % 0x100) as u32 },
        ),
        IpAddr::V6(v6) => IpAddr::V6(
            Ipv6Addr { bits: (v6.bits - v6.bits % 0x1_0000_0000_0000_0000) as u128 },
        ),
    }
}

/// The triplet of a delivery attempt.
pub open spec fn triplet(ip: IpAddr, sender: Seq<char>, recipient: Seq<char>) -> TripletView {
    TripletView {
        network: network_of(ip),
        sender: lowered(sender),
        recipient: lowered(recipient),
    }
}

/// The triplets that are still remembered.
pub open spec fn remembered(
    entries: Map<TripletView, Entry>,
    now: Timestamp,
    config: GreylistConfig,
) -> Map<TripletView, Entry> {
    kept(entries, |e: Entry| e.live(now, config))
}

/// Whether a sender has waited at least the delay before retrying.
pub open spec fn waited(entry: Entry, now: Timestamp, config: GreylistConfig) -> bool {
    now.nanos >= entry.first_seen.nanos && now.nanos - entry.first_seen.nanos >= config.delay.nanos
}

/// The decision on a delivery attempt, and what is tracked afterwards. A triplet
/// that is remembered is seen now and allowed once it has passed or waited; an
/// unseen one is deferred and remembered from now, or allowed where the greylist is
/// full.
pub open spec fn attempt(
    entries: Map<TripletView, Entry>,
    config: GreylistConfig,
    key: TripletView,
    now: Timestamp,
) -> (GreyDecision, Map<TripletView, Entry>) {
    let live = remembered(entries, now, config);
    if live.contains_key(key) {
        let entry = live[key];
        let passed = entry.passed || waited(entry, now, config);
        (
            if passed {
                GreyDecision::Allow
            } else {
                GreyDecision::Defer
            },
            live.insert(key, Entry { first_seen: entry.first_seen, last_seen: now, passed }),
        )
    } else if live.len() >= config.max_entries {
        (GreyDecision::Allow, live)
    } else {
        (
            GreyDecision::Defer,
            live.insert(key, Entry { first_seen: now, last_seen: now, passed: false }),
        )
    }
}

/// A per-triplet greylist.
pub struct Greylist {
    config: GreylistConfig,
    entries: Assoc<Triplet, Entry>,
}

impl View for Greylist {
    type V = Map<TripletView, Entry>;

    closed spec fn view(&self) -> Map<TripletView, Entry> {
        self.entries@
    }
}

impl Greylist {
    #[verifier::type_invariant]
    spec fn bounded(self) -> bool {
        self.entries@.dom().finite() && self.entries@.len() <= self.config.max_entries
    }

    /// The policy.
    pub closed spec fn policy(&self) -> GreylistConfig {
        self.config
    }

    /// Build a greylist with the given policy.
    pub fn new(config: GreylistConfig) -> (r: Greylist)
        ensures
            r.policy() == config,
            r@ == Map::<TripletView, Entry>::empty(),
    {
        Greylist { config, entries: Assoc::new() }
    }

    /// Decide whether to accept a `(source IP, sender, recipient)` delivery now.
    pub fn check_at(&mut self, ip: IpAddr, sender: &str, recipient: &str, now: Timestamp) -> (r:
        GreyDecision)
        ensures
            (r, final(self)@) == attempt(
                old(self)@,
                old(self).policy(),
                triplet(ip, sender@, recipient@),
                now,
            ),
            final(self).policy() == old(self).policy(),
    {
        proof {
            use_type_invariant(&*self);
        }
        let key = Triplet {
            network: mask_ip(ip),
            sender: to_lower_string(sender),
            recipient: to_lower_string(recipient),
        };
        let config = self.config;
        let ghost before = self.entries@;
        let mut entries: Assoc<Triplet, Entry> = Assoc::new();
        std::mem::swap(&mut entries, &mut self.entries);
        let keep = |e: &Entry| -> (live: bool)
            ensures
                live == e.live(now, config),
            { e.is_live(now, config) };
        entries.retain(keep, Ghost(|e: Entry| e.live(now, config)));
        let ghost live = remembered(before, now, config);
        let count = entries.len();
        proof {
            assert(entries@ == live);
            lemma_len_subset(live.dom(), before.dom());
        }
        let found: Option<Entry> = match entries.get(&key) {
            Some(entry) => Some(*entry),
            None => None,
        };
        match found {
            Some(entry) => {
                let passed = entry.passed || (now.nanos >= entry.first_seen.nanos && now.nanos
                    - entry.first_seen.nanos >= config.delay.nanos);
                entries.insert(
                    key,
                    Entry { first_seen: entry.first_seen, last_seen: now, passed },
                );
                self.entries = entries;
                if passed {
                    GreyDecision::Allow
                } else {
                    GreyDecision::Defer
                }
            },
            None => {
                // Unseen triplet. Under a flood at capacity, fail open rather than block.
                if count >= config.max_entries {
                    self.entries = entries;
                    return GreyDecision::Allow;
                }
                entries.insert(key, Entry { first_seen: now, last_seen: now, passed: false });
                self.entries = entries;
                GreyDecision::Defer
            },
        }
    }

    /// Number of triplets currently tracked, never more than the cap.
    pub fn tracked_triplets(&self) -> (r: usize)
        ensures
            r == self@.len(),
            r <= self.policy().max_entries,
    {
        proof {
            use_type_invariant(self);
        }
        self.entries.len()
    }
}

/// A string in ASCII lowercase.
fn to_lower_string(s: &str) -> (r: String)
    ensures
        r@ == lowered(s@),
{
    let chars = chars_of(s);
    let low = to_lower(chars.as_slice());
    string_of(low.as_slice())
}

/// Mask an IP to its greylisting network: IPv4 `/24`, IPv6 `/64`.
fn mask_ip(ip: IpAddr) -> (r: IpAddr)
    ensures
        r == network_of(ip),
{
    match ip {
        IpAddr::V4(v4) => IpAddr::V4(Ipv4Addr { bits: v4.bits - v4.bits % 0x100 }),
        IpAddr::V6(v6) => IpAddr::V6(
            Ipv6Addr { bits: v6.bits - v6.bits % 0x1_0000_0000_0000_0000 },
        ),
    }
}

// ---------------------------------------------------------------------------
// Laws
// ---------------------------------------------------------------------------

/// The first attempt of an unseen triplet is deferred while the greylist is not
/// full, and allowed where it is.
pub proof fn law_unseen_triplet_is_deferred_unless_full(
    entries: Map<TripletView, Entry>,
    config: GreylistConfig,
    key: TripletView,
    now: Timestamp,
)
    requires
        !entries.contains_key(key),
    ensures
        attempt(entries, config, key, now).0 == if remembered(entries, now, config).len()
            >= config.max_entries {
            GreyDecision::Allow
        } else {
            GreyDecision::Defer
        },
{
}

/// A deferred triplet that retries after the delay, and before it is forgotten, is
/// allowed; one that retries too soon is deferred again.
pub proof fn law_retry_after_the_delay_passes(
    entries: Map<TripletView, Entry>,
    config: GreylistConfig,
    key: TripletView,
    first: Timestamp,
    retry: Timestamp,
)
    requires
        attempt(entries, config, key, first).0 == GreyDecision::Defer,
        !entries.contains_key(key),
        first.nanos <= retry.nanos,
        first.plus(config.pending_ttl) is Some,
        retry.nanos < first.plus(config.pending_ttl)->0.nanos,
    ensures
        attempt(attempt(entries, config, key, first).1, config, key, retry).0 == if retry.nanos
            - first.nanos >= config.delay.nanos {
            GreyDecision::Allow
        } else {
            GreyDecision::Defer
        },
{
    let after = attempt(entries, config, key, first).1;
    let entry = Entry { first_seen: first, last_seen: first, passed: false };
    assert(after[key] == entry);
    assert(entry.live(retry, config));
    assert(remembered(after, retry, config).contains_key(key));
}

/// A triplet that has passed stays allowed while each message follows the last one
/// within the pass lifetime.
pub proof fn law_passed_triplet_stays_allowed(
    entries: Map<TripletView, Entry>,
    config: GreylistConfig,
    key: TripletView,
    now: Timestamp,
)
    requires
        entries.contains_key(key),
        entries[key].passed,
        entries[key].live(now, config),
    ensures
        attempt(entries, config, key, now).0 == GreyDecision::Allow,
        attempt(entries, config, key, now).1.contains_key(key),
        attempt(entries, config, key, now).1[key].passed,
        attempt(entries, config, key, now).1[key].last_seen == now,
{
    assert(remembered(entries, now, config).contains_key(key));
}

/// Whether two addresses are in one greylisting network: IPv4 addresses that agree in
/// their first 24 bits, IPv6 addresses that agree in their first 64.
pub open spec fn neighbours(a: IpAddr, b: IpAddr) -> bool {
    match (a, b) {
        (IpAddr::V4(x), IpAddr::V4(y)) => x.bits / 0x100 == y.bits / 0x100,
        (IpAddr::V6(x), IpAddr::V6(y)) => x.bits / 0x1_0000_0000_0000_0000 == y.bits
            / 0x1_0000_0000_0000_0000,
        _ => false,
    }
}

/// Two attempts are one triplet exactly where their addresses are of one network and
/// their senders, and their recipients, differ in case only.
pub proof fn law_neighbours_share_a_triplet(
    a: IpAddr,
    b: IpAddr,
    sender: Seq<char>,
    other_sender: Seq<char>,
    recipient: Seq<char>,
    other_recipient: Seq<char>,
)
    ensures
        triplet(a, sender, recipient) == triplet(b, other_sender, other_recipient) <==> neighbours(
            a,
            b,
        ) && same_ignoring_case(sender, other_sender) && same_ignoring_case(
            recipient,
            other_recipient,
        ),
{
}

/// An attempt changes what is remembered of no other triplet, but that one whose
/// lifetime is over is forgotten.
pub proof fn law_attempt_keeps_other_triplets(
    entries: Map<TripletView, Entry>,
    config: GreylistConfig,
    key: TripletView,
    other: TripletView,
    now: Timestamp,
)
    requires
        other != key,
    ensures
        ({
            let after = attempt(entries, config, key, now).1;
            &&& after.contains_key(other) <==> entries.contains_key(other) && entries[other].live(
                now,
                config,
            )
            &&& after.contains_key(other) ==> after[other] == entries[other]
        }),
{
}

/// A triplet that has passed is remembered until the pass lifetime after it was last seen,
/// and one that has not until the pending lifetime after that.
pub proof fn law_lifetimes_run_from_the_last_attempt(
    entry: Entry,
    config: GreylistConfig,
    now: Timestamp,
)
    requires
        entry.last_seen.nanos + config.pass_ttl.nanos <= LATEST_NANOS,
        entry.last_seen.nanos + config.pending_ttl.nanos <= LATEST_NANOS,
    ensures
        entry.passed ==> (entry.live(now, config) <==> now.nanos < entry.last_seen.nanos
            + config.pass_ttl.nanos),
        !entry.passed ==> (entry.live(now, config) <==> now.nanos < entry.last_seen.nanos
            + config.pending_ttl.nanos),
{
}

/// A retry that comes too early does not start the delay over: the triplet is allowed once
/// the delay has passed since its first attempt.
pub proof fn law_early_retry_does_not_restart_the_delay(
    entries: Map<TripletView, Entry>,
    config: GreylistConfig,
    key: TripletView,
    first: Timestamp,
    early: Timestamp,
    retry: Timestamp,
)
    requires
        attempt(entries, config, key, first).0 == GreyDecision::Defer,
        !entries.contains_key(key),
        first.nanos <= early.nanos <= retry.nanos,
        early.nanos - first.nanos < config.delay.nanos,
        retry.nanos - first.nanos >= config.delay.nanos,
        early.nanos + config.pending_ttl.nanos <= LATEST_NANOS,
        early.nanos < first.nanos + config.pending_ttl.nanos,
        retry.nanos < early.nanos + config.pending_ttl.nanos,
    ensures
        ({
            let once = attempt(entries, config, key, first).1;
            let twice = attempt(once, config, key, early).1;
            attempt(once, config, key, early).0 == GreyDecision::Defer && attempt(
                twice,
                config,
                key,
                retry,
            ).0 == GreyDecision::Allow
        }),
{
    let once = attempt(entries, config, key, first).1;
    assert(once[key] == Entry { first_seen: first, last_seen: first, passed: false });
    assert(remembered(once, early, config).contains_key(key));
    let twice = attempt(once, config, key, early).1;
    assert(twice[key] == Entry { first_seen: first, last_seen: early, passed: false });
    assert(remembered(twice, retry, config).contains_key(key));
}

/// A triplet that is not remembered any more is as good as unseen: it is deferred anew and
/// its delay starts over, unless the greylist is full, in which case it is allowed and
/// nothing is remembered of it.
pub proof fn law_forgotten_triplet_starts_over(
    entries: Map<TripletView, Entry>,
    config: GreylistConfig,
    key: TripletView,
    now: Timestamp,
)
    requires
        entries.contains_key(key) ==> !entries[key].live(now, config),
    ensures
        ({
            let (decision, after) = attempt(entries, config, key, now);
            let full = remembered(entries, now, config).len() >= config.max_entries;
            &&& !full ==> decision == GreyDecision::Defer && after.contains_key(key)
                && after[key].first_seen == now && after[key].last_seen == now && !after[key].passed
            &&& full ==> decision == GreyDecision::Allow && !after.contains_key(key)
        }),
{
}

/// A triplet that is allowed by its retry is allowed again within the pass lifetime, without
/// a delay.
pub proof fn law_allowed_retry_is_whitelisted(
    entries: Map<TripletView, Entry>,
    config: GreylistConfig,
    key: TripletView,
    now: Timestamp,
    later: Timestamp,
)
    requires
        entries.contains_key(key),
        entries[key].live(now, config),
        attempt(entries, config, key, now).0 == GreyDecision::Allow,
        now.nanos + config.pass_ttl.nanos <= LATEST_NANOS,
        now.nanos <= later.nanos < now.nanos + config.pass_ttl.nanos,
    ensures
        attempt(attempt(entries, config, key, now).1, config, key, later).0 == GreyDecision::Allow,
{
    assert(remembered(entries, now, config).contains_key(key));
    let after = attempt(entries, config, key, now).1;
    assert(after[key].passed && after[key].last_seen == now);
    assert(remembered(after, later, config).contains_key(key));
}

} // verus!
