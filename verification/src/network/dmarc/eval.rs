//! DMARC evaluation (RFC 7489 §6): record discovery (with org-domain fallback),
//! SPF and DKIM identifier alignment, and policy disposition.
//!
//! The lookups happen outside. [`evaluate`] is a function of the records found so
//! far: it either says whose record to look up next or what the result is.

use vstd::prelude::*;

use crate::network::dns::dmarc::{AlignmentMode, DmarcPolicy, DmarcRecord, DmarcRecordView};
use crate::network::spf::eval::SpfResult;
use crate::text::{
    chars_of, lemma_trimmed_blank, lemma_trimmed_lowered, lemma_trimmed_start_last,
    lemma_trimmed_start_push, lemma_without_trailing_dots_lowered, lowered, opt_view,
    same_ignoring_case, str_eq, string_of, to_lower, trim, trim_trailing_dots, trimmed,
    trimmed_end, trimmed_start, white_space, without_trailing_dots,
};

verus! {

/// What the receiver should do with a message per DMARC.
#[derive(Debug, Clone, Copy, PartialEq, Eq, Structural)]
pub enum DmarcDisposition {
    /// Deliver normally (`none`): either DMARC passed, or the domain publishes no
    /// record.
    Deliver,
    /// Deliver but treat as suspicious (`p=quarantine` applied to a failure).
    Quarantine,
    /// Refuse the message (`p=reject` applied to a failure).
    Reject,
}

impl DmarcDisposition {
    /// The token used in an aggregate report's `<disposition>`.
    pub open spec fn token(self) -> Seq<char> {
        match self {
            DmarcDisposition::Deliver => "none"@,
            DmarcDisposition::Quarantine => "quarantine"@,
            DmarcDisposition::Reject => "reject"@,
        }
    }

    /// The lowercase token used in an aggregate report's `<disposition>`.
    pub fn as_str(self) -> (r: &'static str)
        ensures
            r@ == self.token(),
    {
        match self {
            DmarcDisposition::Deliver => "none",
            DmarcDisposition::Quarantine => "quarantine",
            DmarcDisposition::Reject => "reject",
        }
    }
}

/// The outcome of a DMARC evaluation.
#[derive(Debug, PartialEq, Eq)]
pub struct DmarcResult {
    /// Whether the domain published a DMARC record (`false`: `dmarc=none`).
    pub record_found: bool,
    /// Whether DMARC passed (an aligned SPF or DKIM pass).
    pub pass: bool,
    /// Whether SPF was aligned and passed.
    pub spf_aligned: bool,
    /// Whether at least one DKIM signature was aligned and passed.
    pub dkim_aligned: bool,
    /// The disposition to apply (after `pct` sampling).
    pub disposition: DmarcDisposition,
    /// The domain whose DMARC record was applied, the reporting domain. Empty when
    /// no record was found.
    pub policy_domain: String,
    /// The applied DMARC record (for an aggregate report's `policy_published`
    /// section and its `rua` address); `None` when no record was found.
    pub published: Option<DmarcRecord>,
}

/// What a [`DmarcResult`] holds.
pub struct DmarcResultView {
    pub record_found: bool,
    pub pass: bool,
    pub spf_aligned: bool,
    pub dkim_aligned: bool,
    pub disposition: DmarcDisposition,
    pub policy_domain: Seq<char>,
    pub published: Option<DmarcRecordView>,
}

/// The view of an optional record.
pub open spec fn record_view(r: Option<DmarcRecord>) -> Option<DmarcRecordView> {
    match r {
        Some(r) => Some(r@),
        None => None,
    }
}

impl View for DmarcResult {
    type V = DmarcResultView;

    open spec fn view(&self) -> DmarcResultView {
        DmarcResultView {
            record_found: self.record_found,
            pass: self.pass,
            spf_aligned: self.spf_aligned,
            dkim_aligned: self.dkim_aligned,
            disposition: self.disposition,
            policy_domain: self.policy_domain@,
            published: record_view(self.published),
        }
    }
}

impl DmarcResultView {
    /// The `dmarc=` token for an `Authentication-Results` header.
    pub open spec fn token(self) -> Seq<char> {
        if !self.record_found {
            "none"@
        } else if self.pass {
            "pass"@
        } else {
            "fail"@
        }
    }
}

/// A "no DMARC opinion" result (the domain publishes no record): deliver normally.
pub open spec fn no_opinion() -> DmarcResultView {
    DmarcResultView {
        record_found: false,
        pass: false,
        spf_aligned: false,
        dkim_aligned: false,
        disposition: DmarcDisposition::Deliver,
        policy_domain: Seq::empty(),
        published: None,
    }
}

impl DmarcResult {
    /// The lowercase `dmarc=` token for an `Authentication-Results` header.
    pub fn as_str(&self) -> (r: &'static str)
        ensures
            r@ == self@.token(),
    {
        if !self.record_found {
            "none"
        } else if self.pass {
            "pass"
        } else {
            "fail"
        }
    }

    /// A "no DMARC opinion" result.
    fn without_record() -> (r: DmarcResult)
        ensures
            r@ == no_opinion(),
    {
        let policy_domain = String::new();
        assert(policy_domain@ =~= Seq::empty());
        DmarcResult {
            record_found: false,
            pass: false,
            spf_aligned: false,
            dkim_aligned: false,
            disposition: DmarcDisposition::Deliver,
            policy_domain,
            published: None,
        }
    }
}

// ---------------------------------------------------------------------------
// Organizational domains and alignment
// ---------------------------------------------------------------------------

/// The registrable domain of a name per the Public Suffix List.
pub uninterp spec fn registrable_domain(name: Seq<char>) -> Option<Seq<char>>;

/// `psl::domain_str`: the registrable domain of the name per the Public Suffix List
/// that the crate carries, if it has one. The result depends on the name alone;
/// which domains are registrable is what the name `registrable_domain` stands for.
#[verifier::external_body]
fn psl_domain(name: &str) -> (r: Option<String>)
    ensures
        opt_view(r) == registrable_domain(name@),
{
    psl::domain_str(name).map(|d| d.to_string())
}

/// A domain without white space around it and dots at its end, lowercased.
pub open spec fn plain_domain(domain: Seq<char>) -> Seq<char> {
    lowered(without_trailing_dots(trimmed(domain)))
}

/// The organizational domain, given what the Public Suffix List says of the plain
/// domain: that, lowercased, or the plain domain itself where the list has no entry.
pub open spec fn registrable_or(plain: Seq<char>, registrable: Option<Seq<char>>) -> Seq<char> {
    match registrable {
        Some(d) => lowered(d),
        None => plain,
    }
}

/// The organizational domain of a domain.
pub open spec fn org_domain(domain: Seq<char>) -> Seq<char> {
    let plain = plain_domain(domain);
    registrable_or(plain, registrable_domain(plain))
}

/// A domain without white space around it and dots at its end, lowercased.
fn to_plain_domain(domain: &str) -> (r: String)
    ensures
        r@ == plain_domain(domain@),
{
    let chars = chars_of(domain);
    let low = to_lower(trim_trailing_dots(trim(chars.as_slice())));
    string_of(low.as_slice())
}

/// The organizational domain, given what the Public Suffix List says of the plain
/// domain.
pub fn org_from_registrable(plain: String, registrable: Option<String>) -> (r: String)
    ensures
        r@ == registrable_or(plain@, opt_view(registrable)),
{
    match registrable {
        Some(d) => {
            let chars = chars_of(d.as_str());
            let low = to_lower(chars.as_slice());
            string_of(low.as_slice())
        },
        None => plain,
    }
}

/// The organizational (registrable) domain of `domain` per the Public Suffix
/// List, lowercased. Falls back to the input if the PSL has no entry (e.g. an
/// unknown TLD or a bare hostname).
pub fn organizational_domain(domain: &str) -> (r: String)
    ensures
        r@ == org_domain(domain@),
{
    let plain = to_plain_domain(domain);
    let registrable = psl_domain(plain.as_str());
    org_from_registrable(plain, registrable)
}

/// Whether two plain domains are aligned under a mode, given their organizational
/// domains: nothing is aligned with an empty one; strictly, they are the same;
/// relaxed, their organizational domains are.
pub open spec fn plain_aligned(
    authenticated: Seq<char>,
    from: Seq<char>,
    mode: AlignmentMode,
    authenticated_org: Seq<char>,
    from_org: Seq<char>,
) -> bool {
    authenticated.len() > 0 && match mode {
        AlignmentMode::Strict => authenticated == from,
        AlignmentMode::Relaxed => authenticated_org == from_org,
    }
}

/// Whether an authenticated domain is aligned with the `From:` domain under a mode.
pub open spec fn domains_aligned(
    authenticated: Seq<char>,
    from: Seq<char>,
    mode: AlignmentMode,
) -> bool {
    let a = plain_domain(authenticated);
    let f = plain_domain(from);
    plain_aligned(a, f, mode, org_domain(a), org_domain(f))
}

/// Whether two plain domains are aligned under a mode, given their organizational
/// domains.
pub fn align_plain(
    authenticated: &str,
    from: &str,
    mode: AlignmentMode,
    authenticated_org: &str,
    from_org: &str,
) -> (r: bool)
    ensures
        r == plain_aligned(authenticated@, from@, mode, authenticated_org@, from_org@),
{
    let count = chars_of(authenticated).len();
    if count == 0 {
        return false;
    }
    match mode {
        AlignmentMode::Strict => str_eq(authenticated, from),
        AlignmentMode::Relaxed => str_eq(authenticated_org, from_org),
    }
}

/// Whether `authenticated` is aligned with `from` under `mode`.
pub fn aligned(authenticated: &str, from: &str, mode: AlignmentMode) -> (r: bool)
    ensures
        r == domains_aligned(authenticated@, from@, mode),
{
    let a = to_plain_domain(authenticated);
    let f = to_plain_domain(from);
    let a_org = organizational_domain(a.as_str());
    let f_org = organizational_domain(f.as_str());
    align_plain(a.as_str(), f.as_str(), mode, a_org.as_str(), f_org.as_str())
}

// ---------------------------------------------------------------------------
// Disposition
// ---------------------------------------------------------------------------

/// The disposition that a policy asks for.
pub open spec fn full_disposition(policy: DmarcPolicy) -> DmarcDisposition {
    match policy {
        DmarcPolicy::Monitor => DmarcDisposition::Deliver,
        DmarcPolicy::Quarantine => DmarcDisposition::Quarantine,
        DmarcPolicy::Reject => DmarcDisposition::Reject,
    }
}

/// A disposition one step down: reject to quarantine, quarantine to none.
pub open spec fn downgraded(d: DmarcDisposition) -> DmarcDisposition {
    match d {
        DmarcDisposition::Reject => DmarcDisposition::Quarantine,
        DmarcDisposition::Quarantine => DmarcDisposition::Deliver,
        DmarcDisposition::Deliver => DmarcDisposition::Deliver,
    }
}

/// The disposition of a failing message under `pct` sampling (§6.6.4): the policy's
/// where the sample, taken modulo a hundred, is below the percentage, else one step
/// down.
pub open spec fn sampled_disposition(policy: DmarcPolicy, pct: nat, sample: nat) -> DmarcDisposition {
    if pct >= 100 || sample % 100 < pct {
        full_disposition(policy)
    } else {
        downgraded(full_disposition(policy))
    }
}

/// Apply the `pct` sampling (§6.6.4): with probability `pct%` the full policy is
/// used; otherwise it is downgraded one step. `sample` is a number that varies from
/// message to message, such as the nanoseconds of the wall clock: `pct` is a
/// deployment rollout knob, not a security control, so a non-cryptographic sample is
/// appropriate.
pub fn apply_pct(policy: DmarcPolicy, pct: u8, sample: u32) -> (r: DmarcDisposition)
    ensures
        r == sampled_disposition(policy, pct as nat, sample as nat),
{
    let full = match policy {
        DmarcPolicy::Monitor => DmarcDisposition::Deliver,
        DmarcPolicy::Quarantine => DmarcDisposition::Quarantine,
        DmarcPolicy::Reject => DmarcDisposition::Reject,
    };
    if pct >= 100 || sample % 100 < pct as u32 {
        full
    } else {
        match full {
            DmarcDisposition::Reject => DmarcDisposition::Quarantine,
            DmarcDisposition::Quarantine => DmarcDisposition::Deliver,
            DmarcDisposition::Deliver => DmarcDisposition::Deliver,
        }
    }
}

/// The policy of a record that applies to a failing message: `sp` where the record
/// was found at the organizational domain and the `From:` domain is a strict
/// subdomain of it (§6.6.3), else `p`.
pub open spec fn applicable_policy(
    record: DmarcRecordView,
    from: Seq<char>,
    from_org: Seq<char>,
    at_org: bool,
) -> DmarcPolicy {
    if at_org && lowered(from) != from_org && record.subdomain_policy is Some {
        record.subdomain_policy->0
    } else {
        record.policy
    }
}

/// The result under a record, given what is aligned.
pub open spec fn decided(
    record: DmarcRecordView,
    from: Seq<char>,
    from_org: Seq<char>,
    at_org: bool,
    spf_aligned: bool,
    dkim_aligned: bool,
    sample: nat,
) -> DmarcResultView {
    let pass = spf_aligned || dkim_aligned;
    DmarcResultView {
        record_found: true,
        pass,
        spf_aligned,
        dkim_aligned,
        disposition: if pass {
            DmarcDisposition::Deliver
        } else {
            sampled_disposition(
                applicable_policy(record, from, from_org, at_org),
                record.pct,
                sample,
            )
        },
        policy_domain: if at_org {
            from_org
        } else {
            from
        },
        published: Some(record),
    }
}

/// Whether any of the domains is aligned with the `From:` domain.
pub open spec fn any_aligned(domains: Seq<&str>, from: Seq<char>, mode: AlignmentMode) -> bool {
    exists|i: int| 0 <= i < domains.len() && domains_aligned((#[trigger] domains[i])@, from, mode)
}

/// The result of evaluating a message under a record.
pub open spec fn evaluated(
    record: DmarcRecordView,
    at_org: bool,
    from: Seq<char>,
    spf_result: SpfResult,
    spf_domain: Seq<char>,
    dkim_pass_domains: Seq<&str>,
    sample: nat,
) -> DmarcResultView {
    decided(
        record,
        from,
        org_domain(from),
        at_org,
        spf_result == SpfResult::Pass && domains_aligned(spf_domain, from, record.aspf),
        any_aligned(dkim_pass_domains, from, record.adkim),
        sample,
    )
}

/// Decide a message under a record, given what is aligned. `from` is the `From:`
/// domain, `from_org` its organizational domain, and `at_org` says whether the
/// record was found there.
pub fn decide(
    record: &DmarcRecord,
    from: &str,
    from_org: &str,
    at_org: bool,
    spf_aligned: bool,
    dkim_aligned: bool,
    sample: u32,
) -> (r: DmarcResult)
    ensures
        r@ == decided(
            record@,
            from@,
            from_org@,
            at_org,
            spf_aligned,
            dkim_aligned,
            sample as nat,
        ),
{
    let pass = spf_aligned || dkim_aligned;
    let disposition = if pass {
        DmarcDisposition::Deliver
    } else {
        let chars = chars_of(from);
        let low = to_lower(chars.as_slice());
        let subdomain = at_org && !crate::text::text_eq(low.as_slice(), from_org);
        let policy = if subdomain {
            match record.subdomain_policy {
                Some(sp) => sp,
                None => record.policy,
            }
        } else {
            record.policy
        };
        apply_pct(policy, record.pct, sample)
    };
    let policy_domain = if at_org {
        from_org.to_string()
    } else {
        from.to_string()
    };
    DmarcResult {
        record_found: true,
        pass,
        spf_aligned,
        dkim_aligned,
        disposition,
        policy_domain,
        published: Some(record.clone()),
    }
}

// ---------------------------------------------------------------------------
// Evaluation
// ---------------------------------------------------------------------------

/// Where an evaluation stands: whose record to look up next, or its result.
pub enum DmarcStep {
    /// Look up the DMARC record of this domain, append what was found, and evaluate
    /// again.
    Ask(String),
    /// The result.
    Done(DmarcResult),
}

/// What a [`DmarcStep`] says.
pub enum DmarcStepView {
    Ask(Seq<char>),
    Done(DmarcResultView),
}

impl View for DmarcStep {
    type V = DmarcStepView;

    open spec fn view(&self) -> DmarcStepView {
        match self {
            DmarcStep::Ask(domain) => DmarcStepView::Ask(domain@),
            DmarcStep::Done(result) => DmarcStepView::Done(result@),
        }
    }
}

/// Where the evaluation of a message stands, given the records found so far (RFC
/// 7489 §6.6.3): the `From:` domain's record applies, else that of its
/// organizational domain, where that is another.
pub open spec fn dmarc_step(
    from_domain: Seq<char>,
    spf_result: SpfResult,
    spf_domain: Seq<char>,
    dkim_pass_domains: Seq<&str>,
    sample: nat,
    records: Seq<Option<DmarcRecord>>,
) -> DmarcStepView {
    let from = without_trailing_dots(trimmed(from_domain));
    let from_org = org_domain(from);
    if from.len() == 0 {
        DmarcStepView::Done(no_opinion())
    } else if records.len() == 0 {
        DmarcStepView::Ask(from)
    } else if records[0] is Some {
        DmarcStepView::Done(
            evaluated(
                records[0]->0@,
                false,
                from,
                spf_result,
                spf_domain,
                dkim_pass_domains,
                sample,
            ),
        )
    } else if from_org == from {
        DmarcStepView::Done(no_opinion())
    } else if records.len() == 1 {
        DmarcStepView::Ask(from_org)
    } else if records[1] is Some {
        DmarcStepView::Done(
            evaluated(
                records[1]->0@,
                true,
                from,
                spf_result,
                spf_domain,
                dkim_pass_domains,
                sample,
            ),
        )
    } else {
        DmarcStepView::Done(no_opinion())
    }
}

/// Whether any of the domains is aligned with the `From:` domain.
fn some_aligned(domains: &[&str], from: &str, mode: AlignmentMode) -> (r: bool)
    ensures
        r == any_aligned(domains@, from@, mode),
{
    let mut i: usize = 0;
    while i < domains.len()
        invariant
            i <= domains@.len(),
            forall|j: int|
                0 <= j < i ==> !domains_aligned((#[trigger] domains@[j])@, from@, mode),
        decreases domains.len() - i,
    {
        if aligned(domains[i], from, mode) {
            assert(domains_aligned(domains@[i as int]@, from@, mode));
            return true;
        }
        i = i + 1;
    }
    false
}

/// Evaluate a message under a record.
fn evaluate_under(
    record: &DmarcRecord,
    at_org: bool,
    from: &str,
    spf_result: SpfResult,
    spf_domain: &str,
    dkim_pass_domains: &[&str],
    sample: u32,
) -> (r: DmarcResult)
    ensures
        r@ == evaluated(
            record@,
            at_org,
            from@,
            spf_result,
            spf_domain@,
            dkim_pass_domains@,
            sample as nat,
        ),
{
    let from_org = organizational_domain(from);
    // Alignment (§3.1): SPF aligns the MAIL FROM domain, DKIM aligns each d=.
    let spf_aligned = spf_result == SpfResult::Pass && aligned(spf_domain, from, record.aspf);
    let dkim_aligned = some_aligned(dkim_pass_domains, from, record.adkim);
    decide(record, from, from_org.as_str(), at_org, spf_aligned, dkim_aligned, sample)
}

/// Evaluate DMARC for a received message.
///
/// - `from_domain`: the RFC 5322 `From:` header domain (the DMARC identifier).
/// - `spf_result`, `spf_domain`: the SPF result and the `MAIL FROM` domain it
///   authenticated.
/// - `dkim_pass_domains`: the `d=` domains of DKIM signatures that verified.
/// - `sample`: a number for the `pct` sampling (see [`apply_pct`]).
/// - `records`: what the lookups asked for so far found, in order; a lookup that
///   failed found nothing.
///
/// Returns the next lookup, or the alignment outcome and the disposition to apply.
pub fn evaluate(
    from_domain: &str,
    spf_result: SpfResult,
    spf_domain: &str,
    dkim_pass_domains: &[&str],
    sample: u32,
    records: &Vec<Option<DmarcRecord>>,
) -> (r: DmarcStep)
    ensures
        r@ == dmarc_step(
            from_domain@,
            spf_result,
            spf_domain@,
            dkim_pass_domains@,
            sample as nat,
            records@,
        ),
{
    let chars = chars_of(from_domain);
    let from = trim_trailing_dots(trim(chars.as_slice()));
    if from.len() == 0 {
        return DmarcStep::Done(DmarcResult::without_record());
    }
    let from = string_of(from);
    if records.len() == 0 {
        return DmarcStep::Ask(from);
    }
    if let Some(record) = &records[0] {
        let result = evaluate_under(
            record,
            false,
            from.as_str(),
            spf_result,
            spf_domain,
            dkim_pass_domains,
            sample,
        );
        return DmarcStep::Done(result);
    }
    let from_org = organizational_domain(from.as_str());
    if str_eq(from_org.as_str(), from.as_str()) {
        return DmarcStep::Done(DmarcResult::without_record());
    }
    if records.len() == 1 {
        return DmarcStep::Ask(from_org);
    }
    match &records[1] {
        Some(record) => {
            let result = evaluate_under(
                record,
                true,
                from.as_str(),
                spf_result,
                spf_domain,
                dkim_pass_domains,
                sample,
            );
            DmarcStep::Done(result)
        },
        None => DmarcStep::Done(DmarcResult::without_record()),
    }
}

// ---------------------------------------------------------------------------
// Laws
// ---------------------------------------------------------------------------

/// A message passes exactly where SPF passed for an aligned domain or a verified
/// DKIM domain is aligned; a passing message is delivered normally.
pub proof fn law_pass_needs_alignment(
    record: DmarcRecordView,
    at_org: bool,
    from: Seq<char>,
    spf_result: SpfResult,
    spf_domain: Seq<char>,
    dkim_pass_domains: Seq<&str>,
    sample: nat,
)
    ensures
        ({
            let r = evaluated(
                record,
                at_org,
                from,
                spf_result,
                spf_domain,
                dkim_pass_domains,
                sample,
            );
            &&& r.pass <==> (spf_result == SpfResult::Pass && domains_aligned(
                spf_domain,
                from,
                record.aspf,
            )) || any_aligned(dkim_pass_domains, from, record.adkim)
            &&& r.pass ==> r.disposition == DmarcDisposition::Deliver
        }),
{
}

/// Two lookups are enough for an evaluation.
pub proof fn law_two_lookups_are_enough(
    from_domain: Seq<char>,
    spf_result: SpfResult,
    spf_domain: Seq<char>,
    dkim_pass_domains: Seq<&str>,
    sample: nat,
    records: Seq<Option<DmarcRecord>>,
)
    requires
        records.len() >= 2,
    ensures
        dmarc_step(
            from_domain,
            spf_result,
            spf_domain,
            dkim_pass_domains,
            sample,
            records,
        ) is Done,
{
}

/// A domain is aligned with itself under either mode, however it is written: case,
/// white space around it and dots at its end do not count.
pub proof fn law_same_domain_is_aligned(a: Seq<char>, b: Seq<char>, mode: AlignmentMode)
    requires
        plain_domain(a) == plain_domain(b),
        plain_domain(a).len() > 0,
    ensures
        domains_aligned(a, b, mode),
{
}

/// Domains that are strictly aligned are aligned under relaxed mode too.
pub proof fn law_strict_alignment_implies_relaxed(a: Seq<char>, b: Seq<char>)
    requires
        domains_aligned(a, b, AlignmentMode::Strict),
    ensures
        domains_aligned(a, b, AlignmentMode::Relaxed),
{
}

/// Alignment does not change when two domains that are not blank are exchanged.
pub proof fn law_alignment_is_symmetric(a: Seq<char>, b: Seq<char>, mode: AlignmentMode)
    requires
        plain_domain(a).len() > 0,
        plain_domain(b).len() > 0,
    ensures
        domains_aligned(a, b, mode) == domains_aligned(b, a, mode),
{
}

/// A blank domain is aligned with nothing.
pub proof fn law_blank_domain_is_not_aligned(a: Seq<char>, b: Seq<char>, mode: AlignmentMode)
    requires
        plain_domain(a).len() == 0,
    ensures
        !domains_aligned(a, b, mode),
{
}

/// The case in which either domain is written does not count for alignment.
pub proof fn law_alignment_ignores_case(
    a: Seq<char>,
    other_a: Seq<char>,
    b: Seq<char>,
    other_b: Seq<char>,
    mode: AlignmentMode,
)
    requires
        same_ignoring_case(a, other_a),
        same_ignoring_case(b, other_b),
    ensures
        domains_aligned(a, b, mode) == domains_aligned(other_a, other_b, mode),
{
    lemma_plain_of_lowered(a);
    lemma_plain_of_lowered(other_a);
    lemma_plain_of_lowered(b);
    lemma_plain_of_lowered(other_b);
}

/// A dot at the end of either domain does not count for alignment. It has to stand at the
/// end of the domain itself: behind white space, it keeps that from being trimmed.
pub proof fn law_alignment_ignores_a_trailing_dot(a: Seq<char>, b: Seq<char>, mode: AlignmentMode)
    requires
        trimmed(a).len() == 0 || !white_space(a.last()),
        trimmed(b).len() == 0 || !white_space(b.last()),
    ensures
        domains_aligned(a.push('.'), b, mode) == domains_aligned(a, b, mode),
        domains_aligned(a, b.push('.'), mode) == domains_aligned(a, b, mode),
{
    lemma_plain_of_dotted(a);
    lemma_plain_of_dotted(b);
}

proof fn lemma_plain_of_lowered(domain: Seq<char>)
    ensures
        plain_domain(domain) == without_trailing_dots(trimmed(lowered(domain))),
{
    lemma_trimmed_lowered(domain);
    lemma_without_trailing_dots_lowered(trimmed(domain));
}

proof fn lemma_plain_of_dotted(domain: Seq<char>)
    requires
        trimmed(domain).len() == 0 || !white_space(domain.last()),
    ensures
        plain_domain(domain.push('.')) == plain_domain(domain),
{
    let start = trimmed_start(domain);
    lemma_trimmed_start_push(domain, '.');
    assert(trimmed_end(start.push('.')) == start.push('.'));
    assert(start.push('.').drop_last() =~= start);
    if trimmed(domain).len() > 0 {
        lemma_trimmed_start_last(domain);
        assert(trimmed_end(start) == start);
    } else {
        lemma_trimmed_blank(domain);
    }
}

/// With `pct=0` a failing message is never rejected, and with `pct=100` or more the
/// policy always applies in full.
pub proof fn law_pct_bounds(policy: DmarcPolicy, sample: nat)
    ensures
        sampled_disposition(policy, 0, sample) == downgraded(full_disposition(policy)),
        sampled_disposition(policy, 0, sample) != DmarcDisposition::Reject,
        forall|pct: nat|
            pct >= 100 ==> #[trigger] sampled_disposition(policy, pct, sample) == full_disposition(
                policy,
            ),
{
}

/// Sampling never makes a disposition harsher than the policy, nor more than one
/// step milder.
pub proof fn law_sampling_downgrades_at_most_one_step(
    policy: DmarcPolicy,
    pct: nat,
    sample: nat,
)
    ensures
        ({
            let d = sampled_disposition(policy, pct, sample);
            let full = full_disposition(policy);
            d == full || d == downgraded(full)
        }),
{
}

} // verus!
