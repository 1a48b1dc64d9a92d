//! MTA-STS (RFC 8461): discover, fetch, cache, and apply a recipient domain's
//! SMTP MTA Strict Transport Security policy.
//!
//! [`MtaStsResolver`] is the entry point used by the outbound relay. Given a
//! recipient domain, whoever drives it
//!
//! 1. looks up the discovery TXT at [`discovery_name`] for the policy `id`
//!    ([`discover_id`], §3.1),
//! 2. asks [`MtaStsResolver::policy_for`], which reuses a cached policy whose `id`
//!    still matches, or else says that the policy is to be fetched,
//! 3. fetches `https://mta-sts.<domain>/.well-known/mta-sts.txt` over a
//!    PKIX-authenticated connection (§3.3) and parses it (§3.2),
//! 4. hands the result to [`MtaStsResolver::finish_fetch`], which caches it:
//!    positively for the policy's `max_age`, negatively for a short window when
//!    there is no usable policy. That bounds both memory and the rate of network
//!    probing.
//!
//! The relay then asks the returned [`MtaStsPolicy`] whether each candidate MX is
//! authorized ([`MtaStsPolicy::allows_mx`]) and, in `enforce` mode, requires a
//! PKIX-validated TLS connection with no cleartext fallback.

pub mod fetch;
pub mod laws;
pub mod policy;

pub use policy::{parse_sts_txt, MtaStsMode, MtaStsPolicy};

use rustls::ClientConfig;
use std::sync::Arc;
use vstd::prelude::*;

use crate::assoc::Assoc;
use crate::clock::{Duration, Timestamp, NANOS_PER_SEC};
use crate::network::dns::txt::TxtRecord;
use crate::network::error::NetworkError;
use crate::network::mta_sts::policy::{discovered_id, MtaStsPolicyView};
use crate::network::tls::{trusted_anchors, with_mozilla, TlsConfig};
use crate::text::{
    chars_of, lowered, opt_view, str_eq, string_of, to_lower, trim_trailing_dots,
    without_trailing_dots,
};

verus! {

/// Cap on the number of cached policies (positive and negative). Bounds memory
/// under a flood of mail to high-cardinality recipient domains; the oldest entry
/// by fetch time is evicted when a new domain would exceed the cap.
pub const MAX_CACHE: usize = 4096;

/// How long a "no usable policy" result is remembered before re-probing, in
/// seconds, so a broken or absent policy host is not re-contacted once per queued
/// message.
pub const NEGATIVE_TTL_SECS: u64 = 600;

/// One cached MTA-STS lookup, positive (a policy) or negative (no usable policy).
pub struct CacheEntry {
    /// The discovery TXT `id` this entry was stored for (`None` when there was no
    /// usable discovery record).
    pub id: Option<String>,
    /// The in-force policy, or `None` for a negative entry.
    pub policy: Option<MtaStsPolicy>,
    /// When the entry was stored.
    pub fetched: Timestamp,
    /// How long the entry stays valid (policy `max_age`, or the negative window).
    pub ttl: Duration,
}

/// What a [`CacheEntry`] holds.
pub struct CacheEntryView {
    pub id: Option<Seq<char>>,
    pub policy: Option<MtaStsPolicyView>,
    pub fetched: Timestamp,
    pub ttl: Duration,
}

/// The view of an optional policy.
pub open spec fn policy_view(p: Option<MtaStsPolicy>) -> Option<MtaStsPolicyView> {
    match p {
        Some(p) => Some(p@),
        None => None,
    }
}

impl View for CacheEntry {
    type V = CacheEntryView;

    open spec fn view(&self) -> CacheEntryView {
        CacheEntryView {
            id: opt_view(self.id),
            policy: policy_view(self.policy),
            fetched: self.fetched,
            ttl: self.ttl,
        }
    }
}

impl CacheEntryView {
    /// Whether the entry is still valid: less than its lifetime has passed.
    pub open spec fn fresh(self, now: Timestamp) -> bool {
        now.since(self.fetched).nanos < self.ttl.nanos
    }
}

impl CacheEntry {
    fn is_fresh(&self, now: Timestamp) -> (r: bool)
        ensures
            r == self@.fresh(now),
    {
        now.saturating_duration_since(self.fetched).nanos < self.ttl.nanos
    }
}

/// What is known of a domain's policy.
pub enum Lookup {
    /// The in-force policy, or that there is none.
    Known(Option<MtaStsPolicy>),
    /// The policy is to be fetched from the policy host.
    Fetch,
}

/// What a [`Lookup`] says.
pub enum LookupView {
    Known(Option<MtaStsPolicyView>),
    Fetch,
}

impl View for Lookup {
    type V = LookupView;

    open spec fn view(&self) -> LookupView {
        match self {
            Lookup::Known(p) => LookupView::Known(policy_view(*p)),
            Lookup::Fetch => LookupView::Fetch,
        }
    }
}

/// A domain as the cache keys it: lowercased, without trailing dots.
pub open spec fn normalized(domain: Seq<char>) -> Seq<char> {
    lowered(without_trailing_dots(domain))
}

/// A domain as the cache keys it: lowercased, without trailing dots.
pub fn normalize(domain: &str) -> (r: String)
    ensures
        r@ == normalized(domain@),
{
    let chars = chars_of(domain);
    let low = to_lower(trim_trailing_dots(chars.as_slice()));
    string_of(low.as_slice())
}

/// The name of a domain's discovery TXT record.
pub fn discovery_name(domain: &str) -> (r: String)
    ensures
        r@ == "_mta-sts."@ + domain@,
{
    let mut name = "_mta-sts.".to_string();
    name.append(domain);
    name
}

/// The first policy id that a sequence of TXT records gives.
pub open spec fn first_id(txts: Seq<TxtRecord>) -> Option<Seq<char>>
    decreases txts.len(),
{
    if txts.len() == 0 {
        None
    } else {
        match discovered_id(txts[0].0@) {
            Some(id) => Some(id),
            None => first_id(txts.drop_first()),
        }
    }
}

/// The policy id that the discovery TXT records of a domain give.
pub fn discover_id(txts: &Vec<TxtRecord>) -> (r: Option<String>)
    ensures
        opt_view(r) == first_id(txts@),
{
    let mut i: usize = 0;
    assert(txts@.skip(0) =~= txts@);
    while i < txts.len()
        invariant
            i <= txts@.len(),
            first_id(txts@) == first_id(txts@.skip(i as int)),
        decreases txts.len() - i,
    {
        assert(txts@.skip(i as int).drop_first() =~= txts@.skip(i + 1));
        if let Some(id) = parse_sts_txt(txts[i].0.as_str()) {
            return Some(id);
        }
        i = i + 1;
    }
    None
}

/// A negative entry: no usable policy, for the negative window.
pub open spec fn negative(id: Option<Seq<char>>, now: Timestamp) -> CacheEntryView {
    CacheEntryView {
        id,
        policy: None,
        fetched: now,
        ttl: Duration { nanos: (NEGATIVE_TTL_SECS * NANOS_PER_SEC) as u128 },
    }
}

/// A positive entry: the policy, for its `max_age` and at least a second.
pub open spec fn positive(id: Seq<char>, policy: MtaStsPolicyView, now: Timestamp) -> CacheEntryView {
    CacheEntryView {
        id: Some(id),
        policy: Some(policy),
        fetched: now,
        ttl: Duration {
            nanos: ((if policy.max_age > 1 {
                policy.max_age
            } else {
                1nat
            }) * NANOS_PER_SEC) as u128,
        },
    }
}

/// What the cache says of a domain whose discovery record gives `id`: a fresh
/// entry that was stored for this id, or a fresh negative entry where there still
/// is no discovery record. Otherwise the cache says nothing.
pub open spec fn cached_answer(
    cache: Map<Seq<char>, CacheEntryView>,
    domain: Seq<char>,
    id: Option<Seq<char>>,
    now: Timestamp,
) -> Option<Option<MtaStsPolicyView>> {
    let entry = cache[domain];
    if cache.contains_key(domain) && entry.fresh(now) {
        if id is Some && entry.id == id {
            Some(entry.policy)
        } else if id is None && entry.id is None && entry.policy is None {
            Some(None)
        } else {
            None
        }
    } else {
        None
    }
}

/// Whether an entry is an oldest one of the cache.
pub open spec fn oldest(cache: Map<Seq<char>, CacheEntryView>, domain: Seq<char>) -> bool {
    cache.contains_key(domain) && forall|other: Seq<char>| #[trigger]
        cache.contains_key(other) ==> cache[domain].fetched.nanos <= cache[other].fetched.nanos
}

/// Whether the cache went from `before` to `after` by storing an entry: the entry
/// stands under its domain, and one oldest entry has made way where the cache was
/// full and the domain is new.
pub open spec fn stored(
    before: Map<Seq<char>, CacheEntryView>,
    after: Map<Seq<char>, CacheEntryView>,
    domain: Seq<char>,
    entry: CacheEntryView,
) -> bool {
    if before.len() >= MAX_CACHE && !before.contains_key(domain) {
        exists|gone: Seq<char>| #[trigger]
            oldest(before, gone) && after == before.remove(gone).insert(domain, entry)
    } else {
        after == before.insert(domain, entry)
    }
}

/// Resolves and caches MTA-STS policies (RFC 8461) for the outbound relay.
///
/// Holds a single PKIX-verifying client TLS configuration, used both to fetch policies
/// over HTTPS and, by [`MtaStsResolver::pkix_config`], to enforce authenticated TLS to a
/// policy-matched MX.
pub struct MtaStsResolver {
    pkix: Arc<ClientConfig>,
    cache: Assoc<String, CacheEntry>,
}

impl View for MtaStsResolver {
    type V = Map<Seq<char>, CacheEntryView>;

    closed spec fn view(&self) -> Map<Seq<char>, CacheEntryView> {
        entry_views(self.cache@)
    }
}

/// The views of a map of entries.
spec fn entry_views(entries: Map<Seq<char>, CacheEntry>) -> Map<Seq<char>, CacheEntryView> {
    entries.map_values(|e: CacheEntry| e@)
}

impl MtaStsResolver {
    #[verifier::type_invariant]
    spec fn bounded(self) -> bool {
        self.cache@.dom().finite() && self.cache@.len() <= MAX_CACHE
    }

    /// The client TLS configuration the resolver holds.
    pub closed spec fn pkix(&self) -> ClientConfig {
        *self.pkix
    }

    /// A resolver with nothing cached and a PKIX-verifying client TLS configuration from
    /// the bundled webpki roots.
    ///
    /// # Errors
    /// None: the bundled trust anchors are there ([`TlsConfig::pkix_client`]).
    pub fn new() -> (r: Result<MtaStsResolver, NetworkError>)
        ensures
            r matches Ok(resolver) && resolver@ == Map::<Seq<char>, CacheEntryView>::empty()
                && trusted_anchors(resolver.pkix()) == with_mozilla(Seq::empty())
                && trusted_anchors(resolver.pkix()).len() > 0,
    {
        let pkix = match TlsConfig::pkix_client() {
            Ok(pkix) => pkix,
            Err(e) => {
                return Err(e);
            },
        };
        let r = MtaStsResolver { pkix, cache: Assoc::new() };
        assert(r@ =~= Map::<Seq<char>, CacheEntryView>::empty());
        Ok(r)
    }

    /// The PKIX-verifying client configuration the relay uses for enforced TLS: the same
    /// trust anchors used to fetch the policy.
    pub fn pkix_config(&self) -> (r: &Arc<ClientConfig>)
        ensures
            **r == self.pkix(),
    {
        &self.pkix
    }

    /// The number of cached lookups, never more than the cap.
    pub fn len(&self) -> (r: usize)
        ensures
            r == self@.len(),
            r <= MAX_CACHE,
    {
        proof {
            use_type_invariant(self);
            assert(self@.dom() =~= self.cache@.dom());
        }
        self.cache.len()
    }

    /// Whether nothing is cached.
    pub fn is_empty(&self) -> (r: bool)
        ensures
            r == (self@.len() == 0),
    {
        self.len() == 0
    }

    /// Store an entry, evicting an oldest one where the cache is full.
    pub fn store(&mut self, domain: String, entry: CacheEntry)
        ensures
            stored(old(self)@, final(self)@, domain@, entry@),
            final(self).pkix() == old(self).pkix(),
    {
        proof {
            use_type_invariant(&*self);
        }
        let ghost before = self.cache@;
        let mut cache: Assoc<String, CacheEntry> = Assoc::new();
        std::mem::swap(&mut cache, &mut self.cache);
        let ghost views = entry_views(before);
        assert(views.dom() =~= before.dom());
        if cache.len() >= MAX_CACHE && !cache.contains(&domain) {
            let gone = oldest_domain(&cache);
            cache.remove(&gone);
            proof {
                assert(oldest(views, gone@));
                assert(entry_views(before.remove(gone@).insert(domain@, entry)) =~= views.remove(
                    gone@,
                ).insert(domain@, entry@));
            }
        } else {
            assert(entry_views(before.insert(domain@, entry)) =~= views.insert(domain@, entry@));
        }
        cache.insert(domain, entry);
        self.cache = cache;
    }

    /// Resolve the in-force MTA-STS policy for `domain`, whose discovery record
    /// gives `id`: from the cache, or that there is none where there is no discovery
    /// record; otherwise the policy is to be fetched and handed to
    /// [`MtaStsResolver::finish_fetch`]. That there is none is remembered for the
    /// negative window.
    pub fn policy_for(&mut self, domain: &str, id: &Option<String>, now: Timestamp) -> (r: Lookup)
        ensures
            match cached_answer(old(self)@, normalized(domain@), opt_view(*id), now) {
                Some(known) => r@ == LookupView::Known(known) && final(self)@ == old(self)@,
                None => if id is None {
                    r@ == LookupView::Known(None) && stored(
                        old(self)@,
                        final(self)@,
                        normalized(domain@),
                        negative(None, now),
                    )
                } else {
                    r@ is Fetch && final(self)@ == old(self)@
                },
            },
            final(self).pkix() == old(self).pkix(),
    {
        let domain = normalize(domain);
        if let Some(entry) = self.cache.get(&domain) {
            assert(self@[domain@] == entry@);
            if entry.is_fresh(now) {
                match (id, &entry.id) {
                    (Some(txt_id), Some(cached_id)) => {
                        if str_eq(txt_id.as_str(), cached_id.as_str()) {
                            return Lookup::Known(copy_policy(&entry.policy));
                        }
                    },
                    (None, None) => {
                        if entry.policy.is_none() {
                            return Lookup::Known(None);
                        }
                    },
                    _ => {},
                }
            }
        }
        if id.is_none() {
            let entry = CacheEntry {
                id: None,
                policy: None,
                fetched: now,
                ttl: Duration::from_secs(NEGATIVE_TTL_SECS),
            };
            self.store(domain, entry);
            return Lookup::Known(None);
        }
        Lookup::Fetch
    }

    /// Take the result of fetching and parsing the policy of `domain`, whose discovery
    /// record gives `id` (`None`: the fetch or the parse failed), and return the policy
    /// in force. A fetched policy is cached for its `max_age`. Where the fetch failed, a
    /// cached policy that has not expired keeps applying (RFC 8461 §5); with none, that
    /// there is no usable policy is remembered for the negative window.
    pub fn finish_fetch(
        &mut self,
        domain: &str,
        id: String,
        fetched: Option<MtaStsPolicy>,
        now: Timestamp,
    ) -> (r: Option<MtaStsPolicy>)
        ensures
            ({
                let d = normalized(domain@);
                let entry = old(self)@[d];
                match fetched {
                    Some(policy) => policy_view(r) == Some(policy@) && stored(
                        old(self)@,
                        final(self)@,
                        d,
                        positive(id@, policy@, now),
                    ),
                    None => if old(self)@.contains_key(d) && entry.fresh(now) && entry.policy is Some {
                        policy_view(r) == entry.policy && final(self)@ == old(self)@
                    } else {
                        r is None && stored(old(self)@, final(self)@, d, negative(Some(id@), now))
                    },
                }
            }),
            final(self).pkix() == old(self).pkix(),
    {
        let domain = normalize(domain);
        match fetched {
            Some(policy) => {
                let age = if policy.max_age > 1 {
                    policy.max_age
                } else {
                    1
                };
                let kept = policy.clone();
                let entry = CacheEntry {
                    id: Some(id),
                    policy: Some(kept),
                    fetched: now,
                    ttl: Duration::from_secs(age),
                };
                self.store(domain, entry);
                Some(policy)
            },
            None => {
                if let Some(entry) = self.cache.get(&domain) {
                    assert(self@[domain@] == entry@);
                    if entry.is_fresh(now) {
                        if let Some(policy) = &entry.policy {
                            return Some(policy.clone());
                        }
                    }
                }
                let entry = CacheEntry {
                    id: Some(id),
                    policy: None,
                    fetched: now,
                    ttl: Duration::from_secs(NEGATIVE_TTL_SECS),
                };
                self.store(domain, entry);
                None
            },
        }
    }
}

/// A copy of an optional policy.
fn copy_policy(p: &Option<MtaStsPolicy>) -> (r: Option<MtaStsPolicy>)
    ensures
        policy_view(r) == policy_view(*p),
{
    match p {
        Some(p) => Some(p.clone()),
        None => None,
    }
}

/// The domain of an oldest entry.
fn oldest_domain(cache: &Assoc<String, CacheEntry>) -> (r: String)
    requires
        cache@.len() > 0,
    ensures
        cache@.contains_key(r@),
        forall|other: Seq<char>| #[trigger]
            cache@.contains_key(other) ==> cache@[r@].fetched.nanos <= cache@[other].fetched.nanos,
{
    let n = cache.len();
    let mut best: usize = 0;
    let mut i: usize = 1;
    let (k, e) = cache.nth(0);
    let ghost keys = cache.keys();
    let mut best_time: u128 = e.fetched.nanos;
    while i < n
        invariant
            n == cache@.len(),
            keys == cache.keys(),
            keys.len() == n,
            best < n,
            1 <= i <= n,
            best_time == cache@[keys[best as int]].fetched.nanos,
            forall|j: int| 0 <= j < i ==> best_time <= cache@[#[trigger] keys[j]].fetched.nanos,
        decreases n - i,
    {
        let (k, e) = cache.nth(i);
        if e.fetched.nanos < best_time {
            best = i;
            best_time = e.fetched.nanos;
        }
        i = i + 1;
    }
    let (k, e) = cache.nth(best);
    assert forall|other: Seq<char>| #[trigger] cache@.contains_key(other) implies cache@[k@].fetched.nanos
        <= cache@[other].fetched.nanos by {
        assert(keys.contains(other));
        let j = choose|j: int| 0 <= j < keys.len() && keys[j] == other;
        assert(best_time <= cache@[keys[j]].fetched.nanos);
    }
    k.clone()
}

// ---------------------------------------------------------------------------
// Laws
// ---------------------------------------------------------------------------

/// A fetched policy is reused without another fetch while the discovery record
/// gives the same id and the policy's `max_age` has not passed.
pub proof fn law_fetched_policy_is_reused(
    before: Map<Seq<char>, CacheEntryView>,
    after: Map<Seq<char>, CacheEntryView>,
    domain: Seq<char>,
    id: Seq<char>,
    policy: MtaStsPolicyView,
    fetched: Timestamp,
    now: Timestamp,
)
    requires
        stored(before, after, domain, positive(id, policy, fetched)),
        policy.max_age <= u64::MAX,
        now.since(fetched).nanos < policy.max_age * NANOS_PER_SEC,
    ensures
        cached_answer(after, domain, Some(id), now) == Some(Some(policy)),
{
    assert(policy.max_age * NANOS_PER_SEC <= u64::MAX * NANOS_PER_SEC)
        by (nonlinear_arith)
        requires
            policy.max_age <= u64::MAX,
    ;
}

/// A policy host that gave no usable policy is not asked again within the negative
/// window while the discovery record gives the same id.
pub proof fn law_failed_fetch_is_remembered(
    before: Map<Seq<char>, CacheEntryView>,
    after: Map<Seq<char>, CacheEntryView>,
    domain: Seq<char>,
    id: Option<Seq<char>>,
    failed: Timestamp,
    now: Timestamp,
)
    requires
        stored(before, after, domain, negative(id, failed)),
        now.since(failed).nanos < NEGATIVE_TTL_SECS * NANOS_PER_SEC,
    ensures
        cached_answer(after, domain, id, now) == Some(None::<MtaStsPolicyView>),
{
}

/// A changed discovery id is never answered from the cache.
pub proof fn law_changed_id_is_not_answered_from_cache(
    cache: Map<Seq<char>, CacheEntryView>,
    domain: Seq<char>,
    id: Seq<char>,
    now: Timestamp,
)
    requires
        cache.contains_key(domain) ==> cache[domain].id != Some(id),
    ensures
        cached_answer(cache, domain, Some(id), now) is None,
{
}

/// Storing an entry changes what is cached of no other domain, but that one oldest
/// entry may go.
pub proof fn law_store_keeps_other_entries(
    before: Map<Seq<char>, CacheEntryView>,
    after: Map<Seq<char>, CacheEntryView>,
    domain: Seq<char>,
    entry: CacheEntryView,
    other: Seq<char>,
)
    requires
        stored(before, after, domain, entry),
        other != domain,
    ensures
        after.contains_key(other) ==> before.contains_key(other) && after[other] == before[other],
        before.contains_key(other) && !after.contains_key(other) ==> oldest(before, other),
{
}

} // verus!
