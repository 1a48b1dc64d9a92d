//! Per-IP rate limiting, on a keyed `governor` limiter whose clock follows the time
//! that callers hand in.

use governor::clock::{Clock, FakeRelativeClock};
use governor::middleware::NoOpMiddleware;
use governor::nanos::Nanos;
use governor::state::keyed::DefaultKeyedStateStore;
use vstd::prelude::*;

use crate::clock::Timestamp;
use crate::ip::IpAddr;

verus! {

/// A rate-limiting quota: how many requests may come at once, and how long it takes
/// for one of them to be replenished.
#[derive(Debug, Clone, Copy)]
pub struct Quota {
    /// Requests that may come at once.
    pub max_burst: u32,
    /// Nanoseconds after which one request is replenished.
    pub replenish_nanos: u64,
}

impl Quota {
    /// The time between two requests at the sustained rate, a nanosecond at least.
    pub open spec fn spacing(self) -> nat {
        if self.replenish_nanos == 0 {
            1
        } else {
            self.replenish_nanos as nat
        }
    }

    /// How far requests may run ahead of the sustained rate.
    pub open spec fn tolerance(self) -> nat {
        (self.spacing() * (self.max_burst - 1)) as nat
    }

    /// Whether the quota lets anything through at all, and its burst is replenished
    /// within the 584 years that the limiter's clock can show.
    pub open spec fn valid(self) -> bool {
        self.max_burst > 0 && self.spacing() * self.max_burst <= u64::MAX
    }

    /// Whether the quota is valid.
    pub fn is_valid(&self) -> (r: bool)
        ensures
            r == self.valid(),
    {
        let spacing = self.spacing_nanos();
        assert(spacing * self.max_burst <= u64::MAX * u32::MAX) by (nonlinear_arith)
            requires
                spacing <= u64::MAX,
                self.max_burst <= u32::MAX,
        ;
        self.max_burst > 0 && spacing as u128 * self.max_burst as u128 <= u64::MAX as u128
    }

    fn spacing_nanos(&self) -> (r: u64)
        ensures
            r == self.spacing(),
    {
        if self.replenish_nanos == 0 {
            1
        } else {
            self.replenish_nanos
        }
    }

    /// A quota of `cells` requests per second, all of which may come at once.
    pub fn per_second(cells: u32) -> (r: Quota)
        requires
            cells > 0,
        ensures
            r.max_burst == cells,
            r.replenish_nanos == 1_000_000_000u64 / cells as u64,
            r.valid(),
    {
        Quota::per_window(cells, 1_000_000_000)
    }

    /// A quota of `cells` requests per minute, all of which may come at once.
    pub fn per_minute(cells: u32) -> (r: Quota)
        requires
            cells > 0,
        ensures
            r.max_burst == cells,
            r.replenish_nanos == 60_000_000_000u64 / cells as u64,
            r.valid(),
    {
        Quota::per_window(cells, 60_000_000_000)
    }

    /// A quota of `cells` requests per hour, all of which may come at once.
    pub fn per_hour(cells: u32) -> (r: Quota)
        requires
            cells > 0,
        ensures
            r.max_burst == cells,
            r.replenish_nanos == 3_600_000_000_000u64 / cells as u64,
            r.valid(),
    {
        Quota::per_window(cells, 3_600_000_000_000)
    }

    fn per_window(cells: u32, window_nanos: u64) -> (r: Quota)
        requires
            cells > 0,
            window_nanos <= 3_600_000_000_000,
        ensures
            r.max_burst == cells,
            r.replenish_nanos == window_nanos / cells as u64,
            r.valid(),
    {
        let r = Quota { max_burst: cells, replenish_nanos: window_nanos / cells as u64 };
        proof {
            let n = cells as int;
            let w = window_nanos as int;
            let q = r.replenish_nanos as int;
            assert(q * n <= w) by (nonlinear_arith)
                requires
                    q == w / n,
                    n > 0,
                    w >= 0,
            ;
        }
        r
    }
}

/// A keyed `governor::RateLimiter` on a `FakeRelativeClock`, which stands still but
/// for the advances it is told of.
#[verifier::external_body]
pub struct Limiter {
    inner: governor::RateLimiter<
        (bool, u128),
        DefaultKeyedStateStore<(bool, u128)>,
        FakeRelativeClock,
        NoOpMiddleware<Nanos>,
    >,
}

/// When the next request of each known key is due at the sustained rate, in
/// nanoseconds since the limiter was made.
pub uninterp spec fn due_times(limiter: Limiter) -> Map<(bool, u128), nat>;

/// What the limiter's clock shows, in nanoseconds since the limiter was made.
pub uninterp spec fn clock_reading(limiter: Limiter) -> nat;

/// The time between two requests at the limiter's sustained rate.
pub uninterp spec fn limiter_spacing(limiter: Limiter) -> nat;

/// How far requests may run ahead of the limiter's sustained rate.
pub uninterp spec fn limiter_tolerance(limiter: Limiter) -> nat;

impl Limiter {
    /// Calls `governor::RateLimiter::new` with a quota of one request per
    /// `spacing_nanos`, in bursts of up to `max_burst`, an empty
    /// `DefaultKeyedStateStore` and a fresh `FakeRelativeClock`. No key is known, the
    /// clock is at zero, and the limiter tolerates what the rest of a burst takes.
    #[verifier::external_body]
    fn new(spacing_nanos: u64, max_burst: u32) -> (r: Limiter)
        requires
            spacing_nanos > 0,
            max_burst > 0,
            spacing_nanos * (max_burst - 1) <= u64::MAX,
        ensures
            due_times(r) == nothing_due(),
            clock_reading(r) == 0,
            limiter_spacing(r) == spacing_nanos,
            limiter_tolerance(r) == spacing_nanos * (max_burst - 1),
    {
        let quota = governor::Quota::with_period(std::time::Duration::from_nanos(spacing_nanos))
            .unwrap()
            .allow_burst(std::num::NonZeroU32::new(max_burst).unwrap());
        let store = DefaultKeyedStateStore::default();
        Limiter { inner: governor::RateLimiter::new(quota, store, FakeRelativeClock::default()) }
    }

    /// Calls `FakeRelativeClock::now` on the limiter's clock: the nanoseconds it was
    /// advanced by so far.
    #[verifier::external_body]
    fn now(&self) -> (r: u64)
        ensures
            r == clock_reading(*self),
    {
        self.inner.clock().now().as_u64()
    }

    /// Calls `FakeRelativeClock::advance` on the limiter's clock: the clock shows that
    /// much more, and nothing else changes.
    #[verifier::external_body]
    fn advance(&mut self, nanos: u64)
        requires
            clock_reading(*old(self)) + nanos <= u64::MAX,
        ensures
            clock_reading(*final(self)) == clock_reading(*old(self)) + nanos,
            due_times(*final(self)) == due_times(*old(self)),
            limiter_spacing(*final(self)) == limiter_spacing(*old(self)),
            limiter_tolerance(*final(self)) == limiter_tolerance(*old(self)),
        no_unwind
    {
        self.inner.clock().advance(std::time::Duration::from_nanos(nanos))
    }

    /// Calls `governor::RateLimiter::check_key`. A key conforms where its next request
    /// is due now (as it is for an unknown key) or within the tolerance; the one
    /// after a conforming request is due one spacing later. A request that does not
    /// conform changes nothing.
    #[verifier::external_body]
    fn check_key(&mut self, key: (bool, u128)) -> (r: bool)
        requires
            clock_reading(*old(self)) + limiter_tolerance(*old(self)) + limiter_spacing(*old(self))
                <= u64::MAX,
        ensures
            r == conforms(
                due_times(*old(self)),
                clock_reading(*old(self)),
                limiter_tolerance(*old(self)),
                key,
            ),
            due_times(*final(self)) == if r {
                let clock = clock_reading(*old(self));
                let due = due_time(due_times(*old(self)), clock, key);
                due_times(*old(self)).insert(
                    key,
                    if due < clock {
                        clock + limiter_spacing(*old(self))
                    } else {
                        due + limiter_spacing(*old(self))
                    },
                )
            } else {
                due_times(*old(self))
            },
            clock_reading(*final(self)) == clock_reading(*old(self)),
            limiter_spacing(*final(self)) == limiter_spacing(*old(self)),
            limiter_tolerance(*final(self)) == limiter_tolerance(*old(self)),
        no_unwind
    {
        self.inner.check_key(&key).is_ok()
    }
}

/// What is due where no key is known.
pub open spec fn nothing_due() -> Map<(bool, u128), nat> {
    Map::empty()
}

/// When the next request of a key is due: now for an unknown one.
pub open spec fn due_time(due: Map<(bool, u128), nat>, clock: nat, key: (bool, u128)) -> nat {
    if due.contains_key(key) {
        due[key]
    } else {
        clock
    }
}

/// Whether a request of a key comes no earlier than the tolerance allows.
pub open spec fn conforms(
    due: Map<(bool, u128), nat>,
    clock: nat,
    tolerance: nat,
    key: (bool, u128),
) -> bool {
    due_time(due, clock, key) <= clock + tolerance
}

/// The key that an address is limited by: its family and its bits.
pub open spec fn key_of(ip: IpAddr) -> (bool, u128) {
    match ip {
        IpAddr::V4(v4) => (false, v4.bits as u128),
        IpAddr::V6(v6) => (true, v6.bits),
    }
}

/// What a [`RateMeter`] holds.
pub struct MeterView {
    /// When the next request of each known key is due, in nanoseconds since `started`.
    pub due: Map<(bool, u128), nat>,
    /// The latest time the meter was asked at, in nanoseconds since `started`.
    pub clock: nat,
    pub spacing: nat,
    pub tolerance: nat,
    pub started: Timestamp,
}

impl MeterView {
    /// A meter that has seen nothing.
    pub open spec fn fresh(quota: Quota, started: Timestamp) -> MeterView {
        MeterView {
            due: nothing_due(),
            clock: 0,
            spacing: quota.spacing(),
            tolerance: quota.tolerance(),
            started,
        }
    }

    /// What the meter's clock shows when it is asked at `now`: time since it started,
    /// which never runs back.
    pub open spec fn reading(self, now: Timestamp) -> nat {
        let elapsed = now.since(self.started).nanos as nat;
        if elapsed > self.clock {
            elapsed
        } else {
            self.clock
        }
    }

    /// Whether the meter's clock can show `now` and what may follow it, which it can for
    /// about 584 years.
    pub open spec fn in_range(self, now: Timestamp) -> bool {
        self.reading(now) + self.tolerance + self.spacing <= u64::MAX
    }

    /// Whether a request from `ip` is within its quota.
    pub open spec fn admits(self, ip: IpAddr, now: Timestamp) -> bool {
        conforms(self.due, self.reading(now), self.tolerance, key_of(ip))
    }

    /// The meter after a request from `ip`.
    pub open spec fn asked(self, ip: IpAddr, now: Timestamp) -> MeterView {
        let clock = self.reading(now);
        let due = due_time(self.due, clock, key_of(ip));
        MeterView {
            due: if self.admits(ip, now) {
                self.due.insert(
                    key_of(ip),
                    if due < clock {
                        clock + self.spacing
                    } else {
                        due + self.spacing
                    },
                )
            } else {
                self.due
            },
            clock,
            ..self
        }
    }
}

/// A per-IP rate limit.
pub struct RateMeter {
    limiter: Limiter,
    /// The last reading of the clock at which a burst can still be timed.
    last: u64,
    started: Timestamp,
}

impl View for RateMeter {
    type V = MeterView;

    closed spec fn view(&self) -> MeterView {
        MeterView {
            due: due_times(self.limiter),
            clock: clock_reading(self.limiter),
            spacing: limiter_spacing(self.limiter),
            tolerance: limiter_tolerance(self.limiter),
            started: self.started,
        }
    }
}

impl RateMeter {
    #[verifier::type_invariant]
    spec fn in_step(self) -> bool {
        self.last + limiter_tolerance(self.limiter) + limiter_spacing(self.limiter) == u64::MAX
    }

    /// Build a meter for a quota, whose clock starts at `now`.
    pub fn new(quota: Quota, now: Timestamp) -> (r: RateMeter)
        requires
            quota.valid(),
        ensures
            r@ == MeterView::fresh(quota, now),
    {
        let spacing = quota.spacing_nanos();
        proof {
            let t = spacing as int;
            let n = quota.max_burst as int;
            assert(t * (n - 1) + t == t * n) by (nonlinear_arith);
            assert(t * (n - 1) >= 0) by (nonlinear_arith)
                requires
                    t >= 1,
                    n >= 1,
            ;
        }
        let limiter = Limiter::new(spacing, quota.max_burst);
        let last = u64::MAX - spacing * quota.max_burst as u64;
        RateMeter { limiter, last, started: now }
    }

    /// Whether the meter can be asked at `now`.
    pub fn is_in_range(&self, now: Timestamp) -> (r: bool)
        ensures
            r == self@.in_range(now),
    {
        proof {
            use_type_invariant(self);
        }
        let elapsed = now.saturating_duration_since(self.started).nanos;
        elapsed <= self.last as u128 && self.limiter.now() <= self.last
    }

    /// Count a request from `ip`: whether it is within its quota.
    pub fn check(&mut self, ip: IpAddr, now: Timestamp) -> (r: bool)
        requires
            old(self)@.in_range(now),
        ensures
            r == old(self)@.admits(ip, now),
            final(self)@ == old(self)@.asked(ip, now),
    {
        let key = match ip {
            IpAddr::V4(v4) => (false, v4.bits as u128),
            IpAddr::V6(v6) => (true, v6.bits),
        };
        let elapsed = now.saturating_duration_since(self.started).nanos;
        let clock = self.limiter.now();
        proof {
            use_type_invariant(&*self);
        }
        if elapsed > clock as u128 {
            self.limiter.advance((elapsed - clock as u128) as u64);
        }
        proof {
            use_type_invariant(&*self);
        }
        self.limiter.check_key(key)
    }
}

// ---------------------------------------------------------------------------
// Laws
// ---------------------------------------------------------------------------

/// The meter after `count` requests from `ip` at `now`.
pub open spec fn asked_times(meter: MeterView, ip: IpAddr, now: Timestamp, count: nat) -> MeterView
    decreases count,
{
    if count == 0 {
        meter
    } else {
        asked_times(meter, ip, now, (count - 1) as nat).asked(ip, now)
    }
}

proof fn lemma_asked_times(
    quota: Quota,
    meter: MeterView,
    ip: IpAddr,
    now: Timestamp,
    count: nat,
)
    requires
        quota.valid(),
        meter.spacing == quota.spacing(),
        meter.tolerance == quota.tolerance(),
        !meter.due.contains_key(key_of(ip)),
        count <= quota.max_burst,
    ensures
        asked_times(meter, ip, now, count).spacing == meter.spacing,
        asked_times(meter, ip, now, count).tolerance == meter.tolerance,
        asked_times(meter, ip, now, count).started == meter.started,
        asked_times(meter, ip, now, count).reading(now) == meter.reading(now),
        count == 0 ==> asked_times(meter, ip, now, count) == meter,
        count > 0 ==> {
            &&& asked_times(meter, ip, now, count).due.contains_key(key_of(ip))
            &&& asked_times(meter, ip, now, count).due[key_of(ip)] == meter.reading(now)
                + meter.spacing * count
        },
    decreases count,
{
    if count > 0 {
        let before = (count - 1) as nat;
        lemma_asked_times(quota, meter, ip, now, before);
        let t = meter.spacing as int;
        let n = quota.max_burst as int;
        let k = before as int;
        assert(t * k <= t * (n - 1)) by (nonlinear_arith)
            requires
                t >= 1,
                k <= n - 1,
        ;
        assert(t * k + t == t * (k + 1)) by (nonlinear_arith);
        assert(t * k >= 0) by (nonlinear_arith)
            requires
                t >= 1,
                k >= 0,
        ;
    }
}

/// An address that is new to the meter has its whole burst admitted at once, and
/// nothing beyond it.
pub proof fn law_burst_is_admitted_then_denied(
    quota: Quota,
    meter: MeterView,
    ip: IpAddr,
    now: Timestamp,
    count: nat,
)
    requires
        quota.valid(),
        meter.spacing == quota.spacing(),
        meter.tolerance == quota.tolerance(),
        !meter.due.contains_key(key_of(ip)),
        count <= quota.max_burst,
    ensures
        asked_times(meter, ip, now, count).admits(ip, now) <==> count < quota.max_burst,
{
    lemma_asked_times(quota, meter, ip, now, count);
    let t = meter.spacing as int;
    let n = quota.max_burst as int;
    let k = count as int;
    if k < n {
        assert(t * k <= t * (n - 1)) by (nonlinear_arith)
            requires
                t >= 1,
                k <= n - 1,
        ;
    } else {
        assert(t * k > t * (n - 1)) by (nonlinear_arith)
            requires
                t >= 1,
                k == n,
        ;
    }
}

/// A burst that is used up recovers: once the meter's clock has moved on by the time
/// it takes to replenish one request, the address is admitted again.
pub proof fn law_quota_recovers(
    quota: Quota,
    meter: MeterView,
    ip: IpAddr,
    now: Timestamp,
    later: Timestamp,
)
    requires
        quota.valid(),
        meter.spacing == quota.spacing(),
        meter.tolerance == quota.tolerance(),
        !meter.due.contains_key(key_of(ip)),
        meter.reading(later) >= meter.reading(now) + meter.spacing,
    ensures
        asked_times(meter, ip, now, quota.max_burst as nat).admits(ip, later),
{
    lemma_asked_times(quota, meter, ip, now, quota.max_burst as nat);
    let t = meter.spacing as int;
    let n = quota.max_burst as int;
    assert(t * (n - 1) + t == t * n) by (nonlinear_arith);
    assert(t * (n - 1) >= 0) by (nonlinear_arith)
        requires
            t >= 1,
            n >= 1,
    ;
}

/// Requests of one address do not use up another's quota.
pub proof fn law_quotas_are_per_address(
    meter: MeterView,
    ip: IpAddr,
    other: IpAddr,
    now: Timestamp,
)
    requires
        other != ip,
    ensures
        meter.asked(ip, now).admits(other, now) == meter.admits(other, now),
{
    assert(key_of(other) != key_of(ip));
}

/// A burst that is used up is denied until one request is replenished.
pub proof fn law_used_up_quota_denies(
    quota: Quota,
    meter: MeterView,
    ip: IpAddr,
    now: Timestamp,
    later: Timestamp,
)
    requires
        quota.valid(),
        meter.spacing == quota.spacing(),
        meter.tolerance == quota.tolerance(),
        !meter.due.contains_key(key_of(ip)),
        meter.reading(now) <= meter.reading(later) < meter.reading(now) + meter.spacing,
    ensures
        !asked_times(meter, ip, now, quota.max_burst as nat).admits(ip, later),
{
    lemma_asked_times(quota, meter, ip, now, quota.max_burst as nat);
    lemma_asked_clock(meter, ip, now, quota.max_burst as nat);
    let t = meter.spacing as int;
    let n = quota.max_burst as int;
    assert(t * (n - 1) + t == t * n) by (nonlinear_arith);
}

proof fn lemma_asked_clock(meter: MeterView, ip: IpAddr, now: Timestamp, count: nat)
    ensures
        asked_times(meter, ip, now, count).clock == meter.clock || asked_times(
            meter,
            ip,
            now,
            count,
        ).clock == meter.reading(now),
        asked_times(meter, ip, now, count).started == meter.started,
    decreases count,
{
    if count > 0 {
        lemma_asked_clock(meter, ip, now, (count - 1) as nat);
    }
}

/// A request that is denied uses up nothing, and the meter's clock shows the time since it
/// started or, where it was asked at a later time before, that one.
pub proof fn law_denied_request_uses_nothing(meter: MeterView, ip: IpAddr, now: Timestamp)
    ensures
        !meter.admits(ip, now) ==> meter.asked(ip, now).due == meter.due,
        meter.asked(ip, now).clock >= meter.clock,
        now.nanos >= meter.started.nanos ==> meter.asked(ip, now).clock >= now.nanos
            - meter.started.nanos,
        meter.asked(ip, now).clock == meter.clock || meter.asked(ip, now).clock == now.nanos
            - meter.started.nanos,
        meter.asked(ip, now).spacing == meter.spacing,
        meter.asked(ip, now).tolerance == meter.tolerance,
        meter.asked(ip, now).started == meter.started,
{
}

/// Idle time saves up no more than the quota: an address whose next request has long been due
/// is metered as one that was never seen.
pub proof fn law_idle_time_saves_nothing(meter: MeterView, ip: IpAddr, now: Timestamp)
    requires
        meter.due.contains_key(key_of(ip)),
        meter.due[key_of(ip)] <= meter.clock || meter.due[key_of(ip)] + meter.started.nanos
            <= now.nanos,
    ensures
        ({
            let unseen = MeterView { due: meter.due.remove(key_of(ip)), ..meter };
            &&& meter.admits(ip, now)
            &&& unseen.admits(ip, now)
            &&& meter.asked(ip, now).due == unseen.asked(ip, now).due
            &&& meter.asked(ip, now).clock == unseen.asked(ip, now).clock
        }),
{
    let unseen = MeterView { due: meter.due.remove(key_of(ip)), ..meter };
    assert(meter.asked(ip, now).due =~= unseen.asked(ip, now).due);
}

/// A meter starts with nothing due, and paces requests by the time that one takes to be
/// replenished, which is a nanosecond at least.
pub proof fn law_fresh_meter_paces_by_its_quota(quota: Quota, started: Timestamp, ip: IpAddr)
    requires
        quota.max_burst > 0,
    ensures
        !MeterView::fresh(quota, started).due.contains_key(key_of(ip)),
        MeterView::fresh(quota, started).clock == 0,
        MeterView::fresh(quota, started).started == started,
        quota.replenish_nanos > 0 ==> MeterView::fresh(quota, started).spacing
            == quota.replenish_nanos,
        quota.replenish_nanos == 0 ==> MeterView::fresh(quota, started).spacing == 1,
        MeterView::fresh(quota, started).tolerance + MeterView::fresh(quota, started).spacing
            == MeterView::fresh(quota, started).spacing * quota.max_burst,
{
    let t = quota.spacing() as int;
    let n = quota.max_burst as int;
    assert(t * (n - 1) + t == t * n) by (nonlinear_arith);
    assert(t * (n - 1) >= 0) by (nonlinear_arith)
        requires
            t >= 1,
            n >= 1,
    ;
}

} // verus!
