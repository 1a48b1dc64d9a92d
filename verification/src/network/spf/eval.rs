//! SPF evaluation engine (RFC 7208 §4–§6): `check_host()` with the mandatory
//! DNS-lookup budget (at most 10 querying terms, at most 2 void lookups), CIDR
//! matching, macro-expanded domain-specs, and recursive `include` and `redirect`.
//!
//! The lookups themselves happen outside. [`evaluate`] is a function of the answers
//! received so far: it either says what to ask next or what the result is. Whoever
//! drives it asks, appends the answer, and calls again.
//!
//! DNS-error classification note: "no records" and transient failures are not told
//! apart, so a failed lookup counts as no record (the policy fetch gives no result;
//! a sub-lookup is a void no-match) rather than `TempError`. The variant is
//! retained in [`SpfResult`] for callers (DMARC) that must handle it.

use vstd::prelude::*;

use crate::ip::{cidr4, cidr6, in_net4, in_net6, IpAddr};
use crate::network::dns::a::AddressRecord;
use crate::network::dns::lookup::{DnsAnswer, DnsQuery, DnsQueryView};
use crate::network::dns::mx::MxRecord;
use crate::network::dns::reverse::PtrRecord;
use crate::network::dns::txt::TxtRecord;
use crate::network::spf::macro_expand::{expand, expanded, MacroContext, MacroContextView};
use crate::network::spf::record::{
    directive_views, version_term, DirectiveView, Mechanism, MechanismView, Qualifier, SpfRecord,
};
use crate::text::{
    chars_eq, chars_of, eq_ignore_case, lowered, opt_view, pieces, push_all, rcut, rsplit_once,
    split_words, string_of, to_lower, words,
};

verus! {

/// The result of an SPF check (RFC 7208 §2.6).
#[derive(Debug, Clone, Copy, PartialEq, Eq, Structural)]
pub enum SpfResult {
    /// The client is authorized to send for the identity.
    Pass,
    /// The client is explicitly not authorized (`-all` or a `-` qualifier matched).
    Fail,
    /// Weak "not authorized" (`~all`): accept but mark.
    SoftFail,
    /// Explicitly no assertion (`?`).
    Neutral,
    /// The domain publishes no (usable) SPF record (`none`).
    NoRecord,
    /// A transient error prevented evaluation (reserved; see module note).
    TempError,
    /// The SPF record is syntactically invalid or exceeded a processing limit.
    PermError,
}

impl SpfResult {
    /// The token used in a `Received-SPF` header and by DMARC.
    pub open spec fn token(self) -> Seq<char> {
        match self {
            SpfResult::Pass => "pass"@,
            SpfResult::Fail => "fail"@,
            SpfResult::SoftFail => "softfail"@,
            SpfResult::Neutral => "neutral"@,
            SpfResult::NoRecord => "none"@,
            SpfResult::TempError => "temperror"@,
            SpfResult::PermError => "permerror"@,
        }
    }

    /// The lowercase token used in a `Received-SPF` header and by DMARC.
    pub fn as_str(self) -> (r: &'static str)
        ensures
            r@ == self.token(),
    {
        match self {
            SpfResult::Pass => "pass",
            SpfResult::Fail => "fail",
            SpfResult::SoftFail => "softfail",
            SpfResult::Neutral => "neutral",
            SpfResult::NoRecord => "none",
            SpfResult::TempError => "temperror",
            SpfResult::PermError => "permerror",
        }
    }
}

/// Max DNS-querying terms per evaluation (RFC 7208 §4.6.4).
pub const MAX_LOOKUPS: u32 = 10;

/// Max void (empty or NXDOMAIN) lookups before `PermError` (§4.6.4).
pub const MAX_VOID: u32 = 2;

/// Max MX hosts or PTR names processed by one mechanism (§5.4, §5.5).
pub const MAX_HOSTS: usize = 10;

/// Where an evaluation stands: what to ask next, or its result.
pub enum SpfStep {
    /// Ask this, append the answer, and evaluate again.
    Ask(DnsQuery),
    /// The result.
    Done(SpfResult),
}

/// What an [`SpfStep`] says.
pub enum SpfStepView {
    Ask(DnsQueryView),
    Done(SpfResult),
}

impl View for SpfStep {
    type V = SpfStepView;

    open spec fn view(&self) -> SpfStepView {
        match self {
            SpfStep::Ask(query) => SpfStepView::Ask(query@),
            SpfStep::Done(result) => SpfStepView::Done(*result),
        }
    }
}

/// Outcome of evaluating a single mechanism.
#[derive(Debug, Clone, Copy, PartialEq, Eq, Structural)]
pub enum MechOutcome {
    /// The mechanism matched; its qualifier decides the result.
    Match,
    /// The mechanism did not match; evaluation continues.
    NoMatch,
    /// Evaluation must terminate immediately with this result (limit or error).
    Error(SpfResult),
}

// ---------------------------------------------------------------------------
// Model
// ---------------------------------------------------------------------------

/// What an evaluation is about: the client address, the sender and the HELO name.
pub struct SpfSubject {
    pub ip: IpAddr,
    pub sender_local: Seq<char>,
    pub sender_domain: Seq<char>,
    pub helo: Seq<char>,
}

/// How much of its budgets an evaluation has used, and how many answers.
pub struct SpfProgress {
    pub lookups: nat,
    pub void: nat,
    pub asked: nat,
}

/// A computation that goes on with a value, or stops because an answer is missing.
pub enum Flow<T> {
    Ask(DnsQueryView),
    Go(T, SpfProgress),
}

/// The next answer, taken as TXT records.
pub open spec fn answered_txt(answers: Seq<DnsAnswer>, p: SpfProgress) -> Seq<TxtRecord> {
    match answers[p.asked as int] {
        DnsAnswer::Txt(records) => records@,
        _ => Seq::empty(),
    }
}

/// The next answer, taken as addresses.
pub open spec fn answered_addresses(answers: Seq<DnsAnswer>, p: SpfProgress) -> Seq<
    AddressRecord,
> {
    match answers[p.asked as int] {
        DnsAnswer::Addresses(records) => records@,
        _ => Seq::empty(),
    }
}

/// The next answer, taken as MX records.
pub open spec fn answered_exchanges(answers: Seq<DnsAnswer>, p: SpfProgress) -> Seq<MxRecord> {
    match answers[p.asked as int] {
        DnsAnswer::Exchanges(records) => records@,
        _ => Seq::empty(),
    }
}

/// The next answer, taken as PTR records.
pub open spec fn answered_pointers(answers: Seq<DnsAnswer>, p: SpfProgress) -> Seq<PtrRecord> {
    match answers[p.asked as int] {
        DnsAnswer::Pointers(records) => records@,
        _ => Seq::empty(),
    }
}

/// One more answer used.
pub open spec fn asked_one(p: SpfProgress) -> SpfProgress {
    SpfProgress { asked: p.asked + 1, ..p }
}

/// One more querying term charged.
pub open spec fn charged(p: SpfProgress) -> SpfProgress {
    SpfProgress { lookups: p.lookups + 1, ..p }
}

/// One more void lookup charged.
pub open spec fn voided(p: SpfProgress) -> SpfProgress {
    SpfProgress { void: p.void + 1, ..p }
}

/// Whether another querying term fits in the budget.
pub open spec fn may_look_up(p: SpfProgress) -> bool {
    p.lookups < MAX_LOOKUPS
}

/// An evaluation over its limits.
pub open spec fn over_limit(p: SpfProgress) -> Flow<MechOutcome> {
    Flow::Go(MechOutcome::Error(SpfResult::PermError), p)
}

/// A match or no match.
pub open spec fn outcome(matched: bool, p: SpfProgress) -> Flow<MechOutcome> {
    Flow::Go(
        if matched {
            MechOutcome::Match
        } else {
            MechOutcome::NoMatch
        },
        p,
    )
}

/// The expansion of a domain-spec; nothing where a macro in it is malformed.
pub open spec fn expansion(s: SpfSubject, spec: Seq<char>, current: Seq<char>) -> Option<
    Seq<char>,
> {
    match expanded(
        spec,
        MacroContextView {
            ip: s.ip,
            sender_local: s.sender_local,
            sender_domain: s.sender_domain,
            helo: s.helo,
            domain: current,
        },
    ) {
        Ok(text) => Some(text),
        Err(_) => None,
    }
}

/// A mechanism's target: its expanded domain-spec, or the current domain where it
/// has none.
pub open spec fn target_of(s: SpfSubject, domain: Option<Seq<char>>, current: Seq<char>) -> Option<
    Seq<char>,
> {
    match domain {
        Some(spec) => expansion(s, spec, current),
        None => Some(current),
    }
}

/// Whether a client address falls within a resolved address's network, matching
/// address families (RFC 7208 §5.6: no IPv4/IPv6 cross-matching).
pub open spec fn in_net(client: IpAddr, net: IpAddr, v4: u8, v6: u8) -> bool {
    match (client, net) {
        (IpAddr::V4(c), IpAddr::V4(n)) => in_net4(n, v4, c),
        (IpAddr::V6(c), IpAddr::V6(n)) => in_net6(n, v6, c),
        _ => false,
    }
}

/// Whether a client address falls within the network of any of the addresses.
pub open spec fn any_in_net(client: IpAddr, addrs: Seq<AddressRecord>, v4: u8, v6: u8) -> bool {
    exists|i: int| 0 <= i < addrs.len() && in_net(client, (#[trigger] addrs[i]).0, v4, v6)
}

/// The `a` mechanism (§5.3): the client is among the target's addresses.
pub open spec fn a_outcome(
    s: SpfSubject,
    answers: Seq<DnsAnswer>,
    p: SpfProgress,
    domain: Option<Seq<char>>,
    current: Seq<char>,
    v4: u8,
    v6: u8,
) -> Flow<MechOutcome> {
    if !may_look_up(p) {
        over_limit(p)
    } else {
        let p = charged(p);
        match target_of(s, domain, current) {
            None => over_limit(p),
            Some(target) => if p.asked >= answers.len() {
                Flow::Ask(DnsQueryView::Addresses(target))
            } else {
                let addrs = answered_addresses(answers, p);
                let p = asked_one(p);
                if addrs.len() > 0 {
                    outcome(any_in_net(s.ip, addrs, v4, v6), p)
                } else if p.void >= MAX_VOID {
                    over_limit(p)
                } else {
                    outcome(false, voided(p))
                }
            },
        }
    }
}

/// The addresses of MX hosts from the `i`-th on, at most ten hosts in all: whether
/// the client is among those of one of them.
pub open spec fn mx_hosts_outcome(
    s: SpfSubject,
    answers: Seq<DnsAnswer>,
    p: SpfProgress,
    mxs: Seq<MxRecord>,
    i: int,
    v4: u8,
    v6: u8,
) -> Flow<MechOutcome>
    decreases mxs.len() - i,
{
    if i < 0 || i >= mxs.len() || i >= MAX_HOSTS {
        outcome(false, p)
    } else if p.asked >= answers.len() {
        Flow::Ask(DnsQueryView::Addresses(mxs[i].exchange@))
    } else {
        let addrs = answered_addresses(answers, p);
        if any_in_net(s.ip, addrs, v4, v6) {
            outcome(true, asked_one(p))
        } else {
            mx_hosts_outcome(s, answers, asked_one(p), mxs, i + 1, v4, v6)
        }
    }
}

/// The `mx` mechanism (§5.4): the client is among the addresses of the target's MX
/// hosts, of which at most ten are resolved.
pub open spec fn mx_outcome(
    s: SpfSubject,
    answers: Seq<DnsAnswer>,
    p: SpfProgress,
    domain: Option<Seq<char>>,
    current: Seq<char>,
    v4: u8,
    v6: u8,
) -> Flow<MechOutcome> {
    if !may_look_up(p) {
        over_limit(p)
    } else {
        let p = charged(p);
        match target_of(s, domain, current) {
            None => over_limit(p),
            Some(target) => if p.asked >= answers.len() {
                Flow::Ask(DnsQueryView::Exchanges(target))
            } else {
                let mxs = answered_exchanges(answers, p);
                let p = asked_one(p);
                if mxs.len() > 0 {
                    mx_hosts_outcome(s, answers, p, mxs, 0, v4, v6)
                } else if p.void >= MAX_VOID {
                    over_limit(p)
                } else {
                    outcome(false, voided(p))
                }
            },
        }
    }
}

/// Whether any of the addresses is an IPv4 address, the content of an A record.
pub open spec fn any_a_record(addrs: Seq<AddressRecord>) -> bool {
    exists|i: int| 0 <= i < addrs.len() && (#[trigger] addrs[i]).0 is V4
}

/// The `exists` mechanism (§5.7): the target has any A record.
pub open spec fn exists_outcome(
    s: SpfSubject,
    answers: Seq<DnsAnswer>,
    p: SpfProgress,
    spec: Seq<char>,
    current: Seq<char>,
) -> Flow<MechOutcome> {
    if !may_look_up(p) {
        over_limit(p)
    } else {
        let p = charged(p);
        match expansion(s, spec, current) {
            None => over_limit(p),
            Some(target) => if p.asked >= answers.len() {
                Flow::Ask(DnsQueryView::Addresses(target))
            } else {
                let addrs = answered_addresses(answers, p);
                let p = asked_one(p);
                if addrs.len() > 0 {
                    outcome(any_a_record(addrs), p)
                } else if p.void >= MAX_VOID {
                    over_limit(p)
                } else {
                    outcome(false, voided(p))
                }
            },
        }
    }
}

/// Whether a name is the target domain or lies below it, in any case.
pub open spec fn within(name: Seq<char>, target: Seq<char>) -> bool {
    let n = lowered(name);
    let t = lowered(target);
    let below = seq!['.'] + t;
    n == t || (n.len() >= below.len() && n.skip(n.len() - below.len()) == below)
}

/// The PTR names from the `i`-th on, at most ten in all: whether one lies within
/// the target and resolves back to the client.
pub open spec fn ptr_names_outcome(
    s: SpfSubject,
    answers: Seq<DnsAnswer>,
    p: SpfProgress,
    names: Seq<PtrRecord>,
    i: int,
    target: Seq<char>,
) -> Flow<MechOutcome>
    decreases names.len() - i,
{
    if i < 0 || i >= names.len() || i >= MAX_HOSTS {
        outcome(false, p)
    } else if !within(names[i].0@, target) {
        ptr_names_outcome(s, answers, p, names, i + 1, target)
    } else if p.asked >= answers.len() {
        Flow::Ask(DnsQueryView::Addresses(names[i].0@))
    } else if answered_addresses(answers, p).contains(AddressRecord(s.ip)) {
        outcome(true, asked_one(p))
    } else {
        ptr_names_outcome(s, answers, asked_one(p), names, i + 1, target)
    }
}

/// The `ptr` mechanism (§5.5): a PTR name of the client lies within the target and
/// resolves back to the client. At most ten names are tried.
pub open spec fn ptr_outcome(
    s: SpfSubject,
    answers: Seq<DnsAnswer>,
    p: SpfProgress,
    domain: Option<Seq<char>>,
    current: Seq<char>,
) -> Flow<MechOutcome> {
    if !may_look_up(p) {
        over_limit(p)
    } else {
        let p = charged(p);
        match target_of(s, domain, current) {
            None => over_limit(p),
            Some(target) => if p.asked >= answers.len() {
                Flow::Ask(DnsQueryView::Pointers(s.ip))
            } else {
                let names = answered_pointers(answers, p);
                let p = asked_one(p);
                if names.len() > 0 {
                    ptr_names_outcome(s, answers, p, names, 0, target)
                } else if p.void >= MAX_VOID {
                    over_limit(p)
                } else {
                    outcome(false, voided(p))
                }
            },
        }
    }
}

/// What an `include` makes of the included policy's result (§5.2): `Pass` is a
/// match; `Fail`, `SoftFail` and `Neutral` are none; no record is a `PermError`, and
/// errors propagate.
pub open spec fn included(result: SpfResult) -> MechOutcome {
    match result {
        SpfResult::Pass => MechOutcome::Match,
        SpfResult::Fail | SpfResult::SoftFail | SpfResult::Neutral => MechOutcome::NoMatch,
        SpfResult::NoRecord => MechOutcome::Error(SpfResult::PermError),
        SpfResult::TempError => MechOutcome::Error(SpfResult::TempError),
        SpfResult::PermError => MechOutcome::Error(SpfResult::PermError),
    }
}

/// What a `redirect` makes of the target's result (§6.1): no record is a
/// `PermError`.
pub open spec fn redirected(result: SpfResult) -> SpfResult {
    if result == SpfResult::NoRecord {
        SpfResult::PermError
    } else {
        result
    }
}

/// The result that a qualifier gives.
pub open spec fn qualified(q: Qualifier) -> SpfResult {
    match q {
        Qualifier::Pass => SpfResult::Pass,
        Qualifier::Fail => SpfResult::Fail,
        Qualifier::SoftFail => SpfResult::SoftFail,
        Qualifier::Neutral => SpfResult::Neutral,
    }
}

/// Whether a TXT record begins with the SPF version token.
pub open spec fn is_policy(text: Seq<char>) -> bool {
    words(text).len() > 0 && version_term(words(text)[0])
}

/// The texts of the TXT records that begin with the SPF version token.
pub open spec fn policies(txts: Seq<TxtRecord>) -> Seq<Seq<char>>
    decreases txts.len(),
{
    if txts.len() == 0 {
        Seq::empty()
    } else if is_policy(txts.last().0@) {
        policies(txts.drop_last()).push(txts.last().0@)
    } else {
        policies(txts.drop_last())
    }
}

/// The `include` mechanism (§5.2): what the target's policy says. `depth` is how
/// many more policies may nest; each one charges the lookup budget, which runs out
/// no later.
pub open spec fn include_outcome(
    s: SpfSubject,
    answers: Seq<DnsAnswer>,
    depth: nat,
    p: SpfProgress,
    spec: Seq<char>,
    current: Seq<char>,
) -> Flow<MechOutcome>
    decreases depth, 0int, 0int,
{
    if !may_look_up(p) || depth == 0 {
        over_limit(p)
    } else {
        let p = charged(p);
        match expansion(s, spec, current) {
            None => over_limit(p),
            Some(target) => match host_result(s, answers, (depth - 1) as nat, p, target) {
                Flow::Ask(query) => Flow::Ask(query),
                Flow::Go(result, p) => Flow::Go(included(result), p),
            },
        }
    }
}

/// Evaluate one mechanism against the client address. `current` is the domain being
/// evaluated.
pub open spec fn mechanism_outcome(
    s: SpfSubject,
    answers: Seq<DnsAnswer>,
    depth: nat,
    p: SpfProgress,
    mechanism: MechanismView,
    current: Seq<char>,
) -> Flow<MechOutcome>
    decreases depth, 1int, 0int,
{
    match mechanism {
        MechanismView::All => outcome(true, p),
        MechanismView::Ip4 { net, prefix } => match s.ip {
            IpAddr::V4(c) => outcome(in_net4(net, prefix, c), p),
            IpAddr::V6(_) => outcome(false, p),
        },
        MechanismView::Ip6 { net, prefix } => match s.ip {
            IpAddr::V6(c) => outcome(in_net6(net, prefix, c), p),
            IpAddr::V4(_) => outcome(false, p),
        },
        MechanismView::A { domain, v4, v6 } => a_outcome(s, answers, p, domain, current, v4, v6),
        MechanismView::Mx { domain, v4, v6 } => mx_outcome(s, answers, p, domain, current, v4, v6),
        MechanismView::Include(spec) => include_outcome(s, answers, depth, p, spec, current),
        MechanismView::Exists(spec) => exists_outcome(s, answers, p, spec, current),
        MechanismView::Ptr(domain) => ptr_outcome(s, answers, p, domain, current),
    }
}

/// The result of the directives from the `i`-th on, first match first; then of the
/// `redirect`, if there is one (§6.1); otherwise `Neutral` (§4.7).
pub open spec fn policy_result(
    s: SpfSubject,
    answers: Seq<DnsAnswer>,
    depth: nat,
    p: SpfProgress,
    directives: Seq<DirectiveView>,
    redirect: Option<Seq<char>>,
    i: int,
    current: Seq<char>,
) -> Flow<SpfResult>
    decreases depth, 2int, directives.len() - i,
{
    if 0 <= i < directives.len() {
        match mechanism_outcome(s, answers, depth, p, directives[i].mechanism, current) {
            Flow::Ask(query) => Flow::Ask(query),
            Flow::Go(MechOutcome::Match, p) => Flow::Go(qualified(directives[i].qualifier), p),
            Flow::Go(MechOutcome::NoMatch, p) => policy_result(
                s,
                answers,
                depth,
                p,
                directives,
                redirect,
                i + 1,
                current,
            ),
            Flow::Go(MechOutcome::Error(result), p) => Flow::Go(result, p),
        }
    } else {
        match redirect {
            None => Flow::Go(SpfResult::Neutral, p),
            Some(spec) => if !may_look_up(p) || depth == 0 {
                Flow::Go(SpfResult::PermError, p)
            } else {
                let p = charged(p);
                match expansion(s, spec, current) {
                    None => Flow::Go(SpfResult::PermError, p),
                    Some(target) => match host_result(s, answers, (depth - 1) as nat, p, target) {
                        Flow::Ask(query) => Flow::Ask(query),
                        Flow::Go(result, p) => Flow::Go(redirected(result), p),
                    },
                }
            },
        }
    }
}

/// The result of the policy published at a domain (§4): none where no TXT record is
/// an SPF record; `PermError` where several are (§4.5) or the one is malformed
/// (§4.6).
pub open spec fn host_result(
    s: SpfSubject,
    answers: Seq<DnsAnswer>,
    depth: nat,
    p: SpfProgress,
    domain: Seq<char>,
) -> Flow<SpfResult>
    decreases depth, 3int, 0int,
{
    if p.asked >= answers.len() {
        Flow::Ask(DnsQueryView::Txt(domain))
    } else {
        let found = policies(answered_txt(answers, p));
        let p = asked_one(p);
        if found.len() == 0 {
            Flow::Go(SpfResult::NoRecord, p)
        } else if found.len() > 1 {
            Flow::Go(SpfResult::PermError, p)
        } else {
            match SpfRecord::parsed(found[0]) {
                Err(_) => Flow::Go(SpfResult::PermError, p),
                Ok(record) => policy_result(
                    s,
                    answers,
                    depth,
                    p,
                    record.directives,
                    record.redirect,
                    0,
                    domain,
                ),
            }
        }
    }
}

/// The identity that is checked: the parts of the sender around its last `@`, or,
/// for the null sender and one that is no address, `postmaster` at the HELO domain
/// (§2.4).
pub open spec fn identity(helo: Seq<char>, mail_from: Seq<char>) -> (Seq<char>, Seq<char>) {
    match rcut(mail_from, '@') {
        Some((local, domain)) => if local.len() > 0 && domain.len() > 0 {
            (local, domain)
        } else {
            ("postmaster"@, helo)
        },
        None => ("postmaster"@, helo),
    }
}

/// The subject of an evaluation.
pub open spec fn subject(ip: IpAddr, helo: Seq<char>, mail_from: Seq<char>) -> SpfSubject {
    let (sender_local, sender_domain) = identity(helo, mail_from);
    SpfSubject { ip, sender_local, sender_domain, helo }
}

/// The start of an evaluation.
pub open spec fn fresh_progress() -> SpfProgress {
    SpfProgress { lookups: 0, void: 0, asked: 0 }
}

/// Where the evaluation of a message stands, given the answers so far.
pub open spec fn spf_step(
    ip: IpAddr,
    helo: Seq<char>,
    mail_from: Seq<char>,
    answers: Seq<DnsAnswer>,
) -> SpfStepView {
    let s = subject(ip, helo, mail_from);
    if s.sender_domain.len() == 0 {
        SpfStepView::Done(SpfResult::NoRecord)
    } else {
        match host_result(s, answers, MAX_LOOKUPS as nat, fresh_progress(), s.sender_domain) {
            Flow::Ask(query) => SpfStepView::Ask(query),
            Flow::Go(result, _) => SpfStepView::Done(result),
        }
    }
}

// ---------------------------------------------------------------------------
// Evaluation
// ---------------------------------------------------------------------------

struct Evaluation<'a> {
    ip: IpAddr,
    sender_local: String,
    sender_domain: String,
    helo: String,
    answers: &'a Vec<DnsAnswer>,
}

struct Progress {
    lookups: u32,
    void: u32,
    asked: usize,
}

impl View for Progress {
    type V = SpfProgress;

    closed spec fn view(&self) -> SpfProgress {
        SpfProgress {
            lookups: self.lookups as nat,
            void: self.void as nat,
            asked: self.asked as nat,
        }
    }
}

/// Whether a computation did what its model says.
spec fn follows<T>(r: Result<T, DnsQuery>, p: SpfProgress, model: Flow<T>) -> bool {
    match (r, model) {
        (Ok(x), Flow::Go(y, q)) => x == y && p == q,
        (Err(query), Flow::Ask(w)) => query@ == w,
        _ => false,
    }
}

impl<'a> Evaluation<'a> {
    spec fn subject(&self) -> SpfSubject {
        SpfSubject {
            ip: self.ip,
            sender_local: self.sender_local@,
            sender_domain: self.sender_domain@,
            helo: self.helo@,
        }
    }

    /// Expand macros in `spec` against the current context.
    fn expand(&self, spec: &str, current: &str) -> (r: Option<String>)
        ensures
            opt_view(r) == expansion(self.subject(), spec@, current@),
    {
        let ctx = MacroContext {
            ip: self.ip,
            sender_local: self.sender_local.as_str(),
            sender_domain: self.sender_domain.as_str(),
            helo: self.helo.as_str(),
            domain: current,
        };
        match expand(spec, &ctx) {
            Ok(text) => Some(text),
            Err(_) => None,
        }
    }

    /// Resolve a mechanism's target: the macro-expanded `domain` if present, else
    /// the current evaluation domain.
    fn resolve_target(&self, domain: &Option<String>, current: &str) -> (r: Option<String>)
        ensures
            opt_view(r) == target_of(self.subject(), opt_view(*domain), current@),
    {
        match domain {
            Some(spec) => self.expand(spec.as_str(), current),
            None => Some(current.to_string()),
        }
    }

    /// RFC 7208 §4: evaluate the SPF record published at `domain`.
    fn check_host(&self, p: &mut Progress, depth: u32, domain: &str) -> (r: Result<
        SpfResult,
        DnsQuery,
    >)
        ensures
            follows(
                r,
                final(p)@,
                host_result(self.subject(), self.answers@, depth as nat, old(p)@, domain@),
            ),
        decreases depth, 3int, 0int,
    {
        if p.asked >= self.answers.len() {
            return Err(DnsQuery::Txt(domain.to_string()));
        }
        let none: Vec<TxtRecord> = Vec::new();
        let txts = match &self.answers[p.asked] {
            DnsAnswer::Txt(records) => records,
            _ => &none,
        };
        assert(txts@ =~= answered_txt(self.answers@, p@));
        p.asked = p.asked + 1;
        let ghost after_txt = p@;
        assert(after_txt == asked_one(old(p)@));
        // §4.5: exactly one record may begin with the version token.
        let mut found: Option<usize> = None;
        let mut i: usize = 0;
        while i < txts.len()
            invariant
                i <= txts@.len(),
                match found {
                    None => policies(txts@.take(i as int)).len() == 0,
                    Some(k) => k < i && policies(txts@.take(i as int)) == seq![txts@[k as int].0@],
                },
                found is Some ==> found->0 < txts@.len(),
                txts@ == answered_txt(self.answers@, old(p)@),
                old(p)@.asked < self.answers@.len(),
                after_txt == asked_one(old(p)@),
                p@ == after_txt,
            decreases txts.len() - i,
        {
            proof {
                assert(txts@.take(i + 1).drop_last() =~= txts@.take(i as int));
                assert(txts@.take(i + 1).last() == txts@[i as int]);
            }
            if is_spf_policy(txts[i].0.as_str()) {
                if found.is_some() {
                    proof {
                        lemma_policies_grow(txts@, i + 1);
                    }
                    return Ok(SpfResult::PermError);
                }
                found = Some(i);
                assert(policies(txts@.take(i + 1)) =~= seq![txts@[i as int].0@]);
            }
            i = i + 1;
        }
        assert(txts@.take(txts@.len() as int) =~= txts@);
        let raw = match found {
            Some(k) => &txts[k],
            None => {
                return Ok(SpfResult::NoRecord);
            },
        };
        let record = match SpfRecord::parse(raw.0.as_str()) {
            Ok(record) => record,
            Err(_) => {
                return Ok(SpfResult::PermError);
            },
        };
        self.check_policy(p, depth, &record, domain)
    }

    /// Evaluate a parsed record for a domain.
    fn check_policy(&self, p: &mut Progress, depth: u32, record: &SpfRecord, domain: &str) -> (r:
        Result<SpfResult, DnsQuery>)
        ensures
            follows(
                r,
                final(p)@,
                policy_result(
                    self.subject(),
                    self.answers@,
                    depth as nat,
                    old(p)@,
                    record@.directives,
                    record@.redirect,
                    0,
                    domain@,
                ),
            ),
        decreases depth, 2int, record@.directives.len() + 1,
    {
        let ghost directives = record@.directives;
        let ghost redirect = record@.redirect;
        let ghost s = self.subject();
        let mut i: usize = 0;
        while i < record.directives.len()
            invariant
                i <= record.directives@.len(),
                directives == directive_views(record.directives@),
                directives == record@.directives,
                redirect == record@.redirect,
                s == self.subject(),
                policy_result(
                    s,
                    self.answers@,
                    depth as nat,
                    old(p)@,
                    directives,
                    redirect,
                    0,
                    domain@,
                ) == policy_result(
                    s,
                    self.answers@,
                    depth as nat,
                    p@,
                    directives,
                    redirect,
                    i as int,
                    domain@,
                ),
            decreases record.directives.len() - i,
        {
            let directive = &record.directives[i];
            assert(directives[i as int] == directive@);
            match self.matches(p, depth, &directive.mechanism, domain) {
                Err(query) => {
                    return Err(query);
                },
                Ok(MechOutcome::Match) => {
                    return Ok(qualifier_result(directive.qualifier));
                },
                Ok(MechOutcome::NoMatch) => {},
                Ok(MechOutcome::Error(result)) => {
                    return Ok(result);
                },
            }
            i = i + 1;
        }
        // §6.1: no directive matched; apply `redirect` if present.
        match &record.redirect {
            None => Ok(SpfResult::Neutral),
            Some(spec) => {
                if p.lookups >= MAX_LOOKUPS || depth == 0 {
                    return Ok(SpfResult::PermError);
                }
                p.lookups = p.lookups + 1;
                match self.expand(spec.as_str(), domain) {
                    None => Ok(SpfResult::PermError),
                    Some(target) => match self.check_host(p, depth - 1, target.as_str()) {
                        Err(query) => Err(query),
                        // A redirect to a domain with no SPF record is a PermError.
                        Ok(SpfResult::NoRecord) => Ok(SpfResult::PermError),
                        Ok(other) => Ok(other),
                    },
                }
            },
        }
    }

    /// Evaluate one mechanism against the client IP. `current` is the domain being
    /// evaluated (the default target for `a`, `mx` and `ptr`, and the `%{d}` macro).
    fn matches(&self, p: &mut Progress, depth: u32, mechanism: &Mechanism, current: &str) -> (r:
        Result<MechOutcome, DnsQuery>)
        ensures
            follows(
                r,
                final(p)@,
                mechanism_outcome(
                    self.subject(),
                    self.answers@,
                    depth as nat,
                    old(p)@,
                    mechanism@,
                    current@,
                ),
            ),
        decreases depth, 1int, 0int,
    {
        match mechanism {
            Mechanism::All => Ok(MechOutcome::Match),
            Mechanism::Ip4 { net, prefix } => match self.ip {
                IpAddr::V4(c) => Ok(mech_outcome(cidr4(*net, *prefix, c))),
                IpAddr::V6(_) => Ok(MechOutcome::NoMatch),
            },
            Mechanism::Ip6 { net, prefix } => match self.ip {
                IpAddr::V6(c) => Ok(mech_outcome(cidr6(*net, *prefix, c))),
                IpAddr::V4(_) => Ok(MechOutcome::NoMatch),
            },
            Mechanism::A { domain, v4, v6 } => self.a_match(p, domain, current, *v4, *v6),
            Mechanism::Mx { domain, v4, v6 } => self.mx_match(p, domain, current, *v4, *v6),
            Mechanism::Include(spec) => self.include_match(p, depth, spec.as_str(), current),
            Mechanism::Exists(spec) => self.exists_match(p, spec.as_str(), current),
            Mechanism::Ptr(domain) => self.ptr_match(p, domain, current),
        }
    }

    fn a_match(
        &self,
        p: &mut Progress,
        domain: &Option<String>,
        current: &str,
        v4: u8,
        v6: u8,
    ) -> (r: Result<MechOutcome, DnsQuery>)
        ensures
            follows(
                r,
                final(p)@,
                a_outcome(
                    self.subject(),
                    self.answers@,
                    old(p)@,
                    opt_view(*domain),
                    current@,
                    v4,
                    v6,
                ),
            ),
    {
        if p.lookups >= MAX_LOOKUPS {
            return Ok(MechOutcome::Error(SpfResult::PermError));
        }
        p.lookups = p.lookups + 1;
        let target = match self.resolve_target(domain, current) {
            Some(target) => target,
            None => {
                return Ok(MechOutcome::Error(SpfResult::PermError));
            },
        };
        if p.asked >= self.answers.len() {
            return Err(DnsQuery::Addresses(target));
        }
        let none: Vec<AddressRecord> = Vec::new();
        let addrs = self.next_addresses(p, &none);
        if addrs.len() == 0 {
            if p.void >= MAX_VOID {
                return Ok(MechOutcome::Error(SpfResult::PermError));
            }
            p.void = p.void + 1;
            return Ok(MechOutcome::NoMatch);
        }
        Ok(mech_outcome(any_matches(self.ip, addrs, v4, v6)))
    }

    /// Take the next answer as addresses.
    fn next_addresses<'b>(&'b self, p: &mut Progress, none: &'b Vec<AddressRecord>) -> (r: &'b Vec<
        AddressRecord,
    >)
        requires
            old(p)@.asked < self.answers@.len(),
            none@.len() == 0,
        ensures
            r@ == answered_addresses(self.answers@, old(p)@),
            final(p)@ == asked_one(old(p)@),
    {
        let addrs = match &self.answers[p.asked] {
            DnsAnswer::Addresses(records) => records,
            _ => none,
        };
        assert(addrs@ =~= answered_addresses(self.answers@, p@));
        assert(p.asked < self.answers.len());
        p.asked = p.asked + 1;
        addrs
    }

    fn mx_match(
        &self,
        p: &mut Progress,
        domain: &Option<String>,
        current: &str,
        v4: u8,
        v6: u8,
    ) -> (r: Result<MechOutcome, DnsQuery>)
        ensures
            follows(
                r,
                final(p)@,
                mx_outcome(
                    self.subject(),
                    self.answers@,
                    old(p)@,
                    opt_view(*domain),
                    current@,
                    v4,
                    v6,
                ),
            ),
    {
        if p.lookups >= MAX_LOOKUPS {
            return Ok(MechOutcome::Error(SpfResult::PermError));
        }
        p.lookups = p.lookups + 1;
        let target = match self.resolve_target(domain, current) {
            Some(target) => target,
            None => {
                return Ok(MechOutcome::Error(SpfResult::PermError));
            },
        };
        if p.asked >= self.answers.len() {
            return Err(DnsQuery::Exchanges(target));
        }
        let none: Vec<MxRecord> = Vec::new();
        let mxs = match &self.answers[p.asked] {
            DnsAnswer::Exchanges(records) => records,
            _ => &none,
        };
        assert(mxs@ =~= answered_exchanges(self.answers@, p@));
        p.asked = p.asked + 1;
        if mxs.len() == 0 {
            if p.void >= MAX_VOID {
                return Ok(MechOutcome::Error(SpfResult::PermError));
            }
            p.void = p.void + 1;
            return Ok(MechOutcome::NoMatch);
        }
        self.mx_hosts_match(p, mxs, v4, v6)
    }

    /// §5.4: at most 10 MX hosts are resolved to addresses.
    fn mx_hosts_match(&self, p: &mut Progress, mxs: &Vec<MxRecord>, v4: u8, v6: u8) -> (r: Result<
        MechOutcome,
        DnsQuery,
    >)
        ensures
            follows(
                r,
                final(p)@,
                mx_hosts_outcome(self.subject(), self.answers@, old(p)@, mxs@, 0, v4, v6),
            ),
    {
        let ghost s = self.subject();
        let none: Vec<AddressRecord> = Vec::new();
        let mut i: usize = 0;
        while i < mxs.len() && i < MAX_HOSTS
            invariant
                i <= mxs@.len(),
                i <= MAX_HOSTS,
                s == self.subject(),
                none@.len() == 0,
                mx_hosts_outcome(s, self.answers@, old(p)@, mxs@, 0, v4, v6) == mx_hosts_outcome(
                    s,
                    self.answers@,
                    p@,
                    mxs@,
                    i as int,
                    v4,
                    v6,
                ),
            decreases mxs.len() - i,
        {
            if p.asked >= self.answers.len() {
                return Err(DnsQuery::Addresses(mxs[i].exchange.clone()));
            }
            let addrs = self.next_addresses(p, &none);
            if any_matches(self.ip, addrs, v4, v6) {
                return Ok(MechOutcome::Match);
            }
            i = i + 1;
        }
        Ok(MechOutcome::NoMatch)
    }

    fn include_match(&self, p: &mut Progress, depth: u32, spec: &str, current: &str) -> (r: Result<
        MechOutcome,
        DnsQuery,
    >)
        ensures
            follows(
                r,
                final(p)@,
                include_outcome(
                    self.subject(),
                    self.answers@,
                    depth as nat,
                    old(p)@,
                    spec@,
                    current@,
                ),
            ),
        decreases depth, 0int, 0int,
    {
        if p.lookups >= MAX_LOOKUPS || depth == 0 {
            return Ok(MechOutcome::Error(SpfResult::PermError));
        }
        p.lookups = p.lookups + 1;
        let target = match self.expand(spec, current) {
            Some(target) => target,
            None => {
                return Ok(MechOutcome::Error(SpfResult::PermError));
            },
        };
        match self.check_host(p, depth - 1, target.as_str()) {
            Err(query) => Err(query),
            Ok(SpfResult::Pass) => Ok(MechOutcome::Match),
            Ok(SpfResult::Fail) => Ok(MechOutcome::NoMatch),
            Ok(SpfResult::SoftFail) => Ok(MechOutcome::NoMatch),
            Ok(SpfResult::Neutral) => Ok(MechOutcome::NoMatch),
            Ok(SpfResult::NoRecord) => Ok(MechOutcome::Error(SpfResult::PermError)),
            Ok(SpfResult::TempError) => Ok(MechOutcome::Error(SpfResult::TempError)),
            Ok(SpfResult::PermError) => Ok(MechOutcome::Error(SpfResult::PermError)),
        }
    }

    fn exists_match(&self, p: &mut Progress, spec: &str, current: &str) -> (r: Result<
        MechOutcome,
        DnsQuery,
    >)
        ensures
            follows(
                r,
                final(p)@,
                exists_outcome(self.subject(), self.answers@, old(p)@, spec@, current@),
            ),
    {
        if p.lookups >= MAX_LOOKUPS {
            return Ok(MechOutcome::Error(SpfResult::PermError));
        }
        p.lookups = p.lookups + 1;
        let target = match self.expand(spec, current) {
            Some(target) => target,
            None => {
                return Ok(MechOutcome::Error(SpfResult::PermError));
            },
        };
        if p.asked >= self.answers.len() {
            return Err(DnsQuery::Addresses(target));
        }
        let none: Vec<AddressRecord> = Vec::new();
        let addrs = self.next_addresses(p, &none);
        if addrs.len() == 0 {
            if p.void >= MAX_VOID {
                return Ok(MechOutcome::Error(SpfResult::PermError));
            }
            p.void = p.void + 1;
            return Ok(MechOutcome::NoMatch);
        }
        Ok(mech_outcome(has_a_record(addrs)))
    }

    fn ptr_match(&self, p: &mut Progress, domain: &Option<String>, current: &str) -> (r: Result<
        MechOutcome,
        DnsQuery,
    >)
        ensures
            follows(
                r,
                final(p)@,
                ptr_outcome(
                    self.subject(),
                    self.answers@,
                    old(p)@,
                    opt_view(*domain),
                    current@,
                ),
            ),
    {
        if p.lookups >= MAX_LOOKUPS {
            return Ok(MechOutcome::Error(SpfResult::PermError));
        }
        p.lookups = p.lookups + 1;
        let target = match self.resolve_target(domain, current) {
            Some(target) => target,
            None => {
                return Ok(MechOutcome::Error(SpfResult::PermError));
            },
        };
        if p.asked >= self.answers.len() {
            return Err(DnsQuery::Pointers(self.ip));
        }
        let none: Vec<PtrRecord> = Vec::new();
        let names = match &self.answers[p.asked] {
            DnsAnswer::Pointers(records) => records,
            _ => &none,
        };
        assert(names@ =~= answered_pointers(self.answers@, p@));
        p.asked = p.asked + 1;
        if names.len() == 0 {
            if p.void >= MAX_VOID {
                return Ok(MechOutcome::Error(SpfResult::PermError));
            }
            p.void = p.void + 1;
            return Ok(MechOutcome::NoMatch);
        }
        self.ptr_names_match(p, names, target.as_str())
    }

    /// §5.5: a PTR name validates only if it forward-resolves back to the client IP
    /// and lies within the target domain.
    fn ptr_names_match(&self, p: &mut Progress, names: &Vec<PtrRecord>, target: &str) -> (r: Result<
        MechOutcome,
        DnsQuery,
    >)
        ensures
            follows(
                r,
                final(p)@,
                ptr_names_outcome(self.subject(), self.answers@, old(p)@, names@, 0, target@),
            ),
    {
        let ghost s = self.subject();
        let none: Vec<AddressRecord> = Vec::new();
        let mut i: usize = 0;
        while i < names.len() && i < MAX_HOSTS
            invariant
                i <= names@.len(),
                i <= MAX_HOSTS,
                s == self.subject(),
                none@.len() == 0,
                ptr_names_outcome(s, self.answers@, old(p)@, names@, 0, target@)
                    == ptr_names_outcome(s, self.answers@, p@, names@, i as int, target@),
            decreases names.len() - i,
        {
            let name = names[i].0.as_str();
            if is_within(name, target) {
                if p.asked >= self.answers.len() {
                    return Err(DnsQuery::Addresses(name.to_string()));
                }
                let addrs = self.next_addresses(p, &none);
                if has_address(addrs, self.ip) {
                    return Ok(MechOutcome::Match);
                }
            }
            i = i + 1;
        }
        Ok(MechOutcome::NoMatch)
    }
}

proof fn lemma_policies_grow(txts: Seq<TxtRecord>, i: int)
    requires
        0 <= i <= txts.len(),
    ensures
        policies(txts).len() >= policies(txts.take(i)).len(),
    decreases txts.len(),
{
    if i == txts.len() {
        assert(txts.take(i) =~= txts);
    } else {
        assert(txts.drop_last().take(i) =~= txts.take(i));
        lemma_policies_grow(txts.drop_last(), i);
    }
}

/// Whether a TXT record begins with the SPF version token.
fn is_spf_policy(text: &str) -> (r: bool)
    ensures
        r == is_policy(text@),
{
    let chars = chars_of(text);
    let terms = split_words(chars.as_slice());
    assert(pieces(terms@).len() == terms@.len());
    if terms.len() == 0 {
        return false;
    }
    assert(pieces(terms@)[0] == terms@[0]@);
    eq_ignore_case(terms[0].as_slice(), "v=spf1")
}

fn mech_outcome(matched: bool) -> (r: MechOutcome)
    ensures
        r == if matched {
            MechOutcome::Match
        } else {
            MechOutcome::NoMatch
        },
{
    if matched {
        MechOutcome::Match
    } else {
        MechOutcome::NoMatch
    }
}

fn qualifier_result(q: Qualifier) -> (r: SpfResult)
    ensures
        r == qualified(q),
{
    match q {
        Qualifier::Pass => SpfResult::Pass,
        Qualifier::Fail => SpfResult::Fail,
        Qualifier::SoftFail => SpfResult::SoftFail,
        Qualifier::Neutral => SpfResult::Neutral,
    }
}

/// Whether client IP `client` falls within `net` and its prefix length, matching
/// address families per RFC 7208 §5.6 (no IPv4/IPv6 cross-matching). `net` is a
/// resolved host address; the lengths come from the mechanism's dual-cidr.
pub fn ip_in_net(client: IpAddr, net: IpAddr, v4: u8, v6: u8) -> (r: bool)
    ensures
        r == in_net(client, net, v4, v6),
{
    match (client, net) {
        (IpAddr::V4(c), IpAddr::V4(n)) => cidr4(n, v4, c),
        (IpAddr::V6(c), IpAddr::V6(n)) => cidr6(n, v6, c),
        _ => false,
    }
}

fn any_matches(client: IpAddr, addrs: &Vec<AddressRecord>, v4: u8, v6: u8) -> (r: bool)
    ensures
        r == any_in_net(client, addrs@, v4, v6),
{
    let mut i: usize = 0;
    while i < addrs.len()
        invariant
            i <= addrs@.len(),
            forall|j: int| 0 <= j < i ==> !in_net(client, (#[trigger] addrs@[j]).0, v4, v6),
        decreases addrs.len() - i,
    {
        if ip_in_net(client, addrs[i].0, v4, v6) {
            assert(in_net(client, addrs@[i as int].0, v4, v6));
            return true;
        }
        i = i + 1;
    }
    false
}

fn has_a_record(addrs: &Vec<AddressRecord>) -> (r: bool)
    ensures
        r == any_a_record(addrs@),
{
    let mut i: usize = 0;
    while i < addrs.len()
        invariant
            i <= addrs@.len(),
            forall|j: int| 0 <= j < i ==> !((#[trigger] addrs@[j]).0 is V4),
        decreases addrs.len() - i,
    {
        if let IpAddr::V4(_) = addrs[i].0 {
            assert(addrs@[i as int].0 is V4);
            return true;
        }
        i = i + 1;
    }
    false
}

fn has_address(addrs: &Vec<AddressRecord>, ip: IpAddr) -> (r: bool)
    ensures
        r == addrs@.contains(AddressRecord(ip)),
{
    let mut i: usize = 0;
    while i < addrs.len()
        invariant
            i <= addrs@.len(),
            forall|j: int| 0 <= j < i ==> addrs@[j] != AddressRecord(ip),
        decreases addrs.len() - i,
    {
        if addrs[i].0 == ip {
            assert(addrs@[i as int] == AddressRecord(ip));
            return true;
        }
        i = i + 1;
    }
    false
}

/// Whether a name is the target domain or lies below it.
fn is_within(name: &str, target: &str) -> (r: bool)
    ensures
        r == within(name@, target@),
{
    let name = chars_of(name);
    let target = chars_of(target);
    let n = to_lower(name.as_slice());
    let t = to_lower(target.as_slice());
    if chars_eq(n.as_slice(), t.as_slice()) {
        return true;
    }
    let mut below: Vec<char> = Vec::new();
    below.push('.');
    push_all(&mut below, t.as_slice());
    assert(below@ =~= seq!['.'] + t@);
    let k = n.len();
    if k < below.len() {
        return false;
    }
    let tail = vstd::slice::slice_subrange(n.as_slice(), k - below.len(), k);
    chars_eq(tail, below.as_slice())
}

/// Evaluate SPF for a received message: is `ip` authorized to send mail for the
/// `MAIL FROM` identity `mail_from` (announced as `helo`)? An empty `mail_from`
/// (the null sender, e.g. a bounce) checks `postmaster@<helo>` per §2.4.
///
/// `answers` are the answers to the questions asked so far, in order. Returns the
/// next question, or the result.
pub fn evaluate(ip: IpAddr, helo: &str, mail_from: &str, answers: &Vec<DnsAnswer>) -> (r: SpfStep)
    ensures
        r@ == spf_step(ip, helo@, mail_from@, answers@),
{
    let chars = chars_of(mail_from);
    let (local, domain) = match rsplit_once(chars.as_slice(), '@') {
        Some((l, d)) => {
            if l.len() > 0 && d.len() > 0 {
                (string_of(l), string_of(d))
            } else {
                ("postmaster".to_string(), helo.to_string())
            }
        },
        None => ("postmaster".to_string(), helo.to_string()),
    };
    let count = chars_of(domain.as_str()).len();
    if count == 0 {
        return SpfStep::Done(SpfResult::NoRecord);
    }
    let ev = Evaluation {
        ip,
        sender_local: local,
        sender_domain: domain.clone(),
        helo: helo.to_string(),
        answers,
    };
    let mut progress = Progress { lookups: 0, void: 0, asked: 0 };
    match ev.check_host(&mut progress, MAX_LOOKUPS, domain.as_str()) {
        Err(query) => SpfStep::Ask(query),
        Ok(result) => SpfStep::Done(result),
    }
}

} // verus!
