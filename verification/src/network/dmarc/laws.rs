//! What a published policy does to a message: which record applies, which of its
//! policies, and when a message passes.

use vstd::prelude::*;

use crate::network::dmarc::eval::{
    dmarc_step, domains_aligned, org_domain, plain_domain, registrable_domain, DmarcDisposition,
    DmarcResultView, DmarcStepView,
};
use crate::network::dns::dmarc::{AlignmentMode, DmarcPolicy, DmarcRecord, DmarcRecordView};
use crate::network::spf::eval::SpfResult;
use crate::text::{
    lemma_lower_char, lemma_trimmed_lowered, lemma_trimmed_push,
    lemma_without_trailing_dots_lowered, lower_char, lowered, trimmed, trimmed_start, white_space,
    without_trailing_dots,
};

verus! {

/// What a policy asks for in full: `none` delivers, `quarantine` quarantines and `reject`
/// rejects.
pub open spec fn asks_for(policy: DmarcPolicy) -> DmarcDisposition {
    match policy {
        DmarcPolicy::Monitor => DmarcDisposition::Deliver,
        DmarcPolicy::Quarantine => DmarcDisposition::Quarantine,
        DmarcPolicy::Reject => DmarcDisposition::Reject,
    }
}

/// What a policy asks for of a message that its percentage leaves out.
pub open spec fn asks_for_less(policy: DmarcPolicy) -> DmarcDisposition {
    match policy {
        DmarcPolicy::Reject => DmarcDisposition::Quarantine,
        DmarcPolicy::Quarantine => DmarcDisposition::Deliver,
        DmarcPolicy::Monitor => DmarcDisposition::Deliver,
    }
}

/// Whether a message is authenticated for its `From:` domain under a record: SPF passed
/// for an aligned domain, or one of the verified DKIM domains is aligned.
pub open spec fn authenticated(
    record: DmarcRecordView,
    from: Seq<char>,
    spf_result: SpfResult,
    spf_domain: Seq<char>,
    dkim_pass_domains: Seq<&str>,
) -> bool {
    ||| spf_result == SpfResult::Pass && domains_aligned(spf_domain, from, record.aspf)
    ||| exists|i: int|
        0 <= i < dkim_pass_domains.len() && domains_aligned(
            (#[trigger] dkim_pass_domains[i])@,
            from,
            record.adkim,
        )
}

/// A record at the `From:` domain itself applies: a message that is authenticated under it
/// passes and is delivered, and any other gets what `p=` asks for, whether or not the domain
/// is a subdomain and whatever `sp=` says. What the percentage leaves out gets one step less.
pub proof fn law_own_record_applies_its_policy(
    from_domain: Seq<char>,
    spf_result: SpfResult,
    spf_domain: Seq<char>,
    dkim_pass_domains: Seq<&str>,
    sample: nat,
    record: DmarcRecord,
    rest: Seq<Option<DmarcRecord>>,
)
    requires
        without_trailing_dots(trimmed(from_domain)).len() > 0,
    ensures
        ({
            let from = without_trailing_dots(trimmed(from_domain));
            &&& dmarc_step(
                from_domain,
                spf_result,
                spf_domain,
                dkim_pass_domains,
                sample,
                seq![Some(record)] + rest,
            ) matches DmarcStepView::Done(r)
            &&& r.record_found && r.published == Some(record@) && r.policy_domain == from
            &&& r.pass == authenticated(
                record@,
                from,
                spf_result,
                spf_domain,
                dkim_pass_domains,
            )
            &&& r.pass ==> r.disposition == DmarcDisposition::Deliver
            &&& !r.pass && record@.pct >= 100 ==> r.disposition == asks_for(record@.policy)
            &&& !r.pass && sample % 100 < record@.pct ==> r.disposition == asks_for(record@.policy)
            &&& !r.pass && record@.pct < 100 && sample % 100 >= record@.pct ==> r.disposition
                == asks_for_less(record@.policy)
        }),
{
    let records = seq![Some(record)] + rest;
    assert(records[0] == Some(record));
}

/// A record at the organizational domain applies to a domain without one of its own. A
/// strict subdomain that does not pass gets what `sp=` asks for, or what `p=` does where the
/// record has no `sp=`; the organizational domain itself, whatever its case, gets what `p=`
/// asks for.
pub proof fn law_organizational_record_applies_sp_to_subdomains(
    from_domain: Seq<char>,
    spf_result: SpfResult,
    spf_domain: Seq<char>,
    dkim_pass_domains: Seq<&str>,
    sample: nat,
    record: DmarcRecord,
    rest: Seq<Option<DmarcRecord>>,
)
    requires
        without_trailing_dots(trimmed(from_domain)).len() > 0,
        org_domain(without_trailing_dots(trimmed(from_domain))) != without_trailing_dots(
            trimmed(from_domain),
        ),
    ensures
        ({
            let from = without_trailing_dots(trimmed(from_domain));
            let org = org_domain(from);
            &&& dmarc_step(
                from_domain,
                spf_result,
                spf_domain,
                dkim_pass_domains,
                sample,
                seq![None, Some(record)] + rest,
            ) matches DmarcStepView::Done(r)
            &&& r.record_found && r.published == Some(record@) && r.policy_domain == org
            &&& r.pass == authenticated(
                record@,
                from,
                spf_result,
                spf_domain,
                dkim_pass_domains,
            )
            &&& r.pass ==> r.disposition == DmarcDisposition::Deliver
            &&& !r.pass && record@.pct >= 100 && record@.subdomain_policy is None ==> r.disposition
                == asks_for(record@.policy)
            &&& !r.pass && record@.pct >= 100 && lowered(from) == org ==> r.disposition == asks_for(
                record@.policy,
            )
            &&& !r.pass && record@.pct >= 100 && lowered(from) != org && (
            record@.subdomain_policy matches Some(sp)) ==> r.disposition == asks_for(
                record@.subdomain_policy->0,
            )
            &&& !r.pass && record@.pct < 100 && sample % 100 >= record@.pct
                && record@.subdomain_policy is None ==> r.disposition == asks_for_less(
                record@.policy,
            )
            &&& !r.pass && record@.pct < 100 && sample % 100 >= record@.pct && lowered(from) != org
                && record@.subdomain_policy is Some ==> r.disposition == asks_for_less(
                record@.subdomain_policy->0,
            )
        }),
{
    let records = seq![None, Some(record)] + rest;
    assert(records[0] == None::<DmarcRecord>);
    assert(records[1] == Some(record));
}

/// The `From:` domain's own record is asked for first and that of its organizational domain
/// only where there is none and it is another one. Without a record anywhere, and without a
/// domain, there is no opinion: the message is delivered and does not pass.
pub proof fn law_records_are_asked_for_in_order(
    from_domain: Seq<char>,
    spf_result: SpfResult,
    spf_domain: Seq<char>,
    dkim_pass_domains: Seq<&str>,
    sample: nat,
    rest: Seq<Option<DmarcRecord>>,
)
    ensures
        ({
            let from = without_trailing_dots(trimmed(from_domain));
            let org = org_domain(from);
            let first = dmarc_step(
                from_domain,
                spf_result,
                spf_domain,
                dkim_pass_domains,
                sample,
                Seq::empty(),
            );
            let second = dmarc_step(
                from_domain,
                spf_result,
                spf_domain,
                dkim_pass_domains,
                sample,
                seq![None],
            );
            let third = dmarc_step(
                from_domain,
                spf_result,
                spf_domain,
                dkim_pass_domains,
                sample,
                seq![None, None] + rest,
            );
            &&& from.len() > 0 ==> first == DmarcStepView::Ask(from)
            &&& from.len() > 0 && org != from ==> second == DmarcStepView::Ask(org)
            &&& from.len() > 0 && org == from ==> (second matches DmarcStepView::Done(r)
                && !r.record_found && !r.pass && r.disposition == DmarcDisposition::Deliver
                && r.published is None)
            &&& from.len() == 0 ==> (first matches DmarcStepView::Done(r) && !r.record_found
                && !r.pass && r.disposition == DmarcDisposition::Deliver && r.published is None)
            &&& third matches DmarcStepView::Done(r) && !r.record_found && !r.pass && r.disposition
                == DmarcDisposition::Deliver && r.published is None
        }),
{
    let records = seq![None, None] + rest;
    assert(records[0] == None::<DmarcRecord>);
    assert(records[1] == None::<DmarcRecord>);
}

/// Under strict alignment two domains are aligned exactly where they are the same, and
/// under relaxed alignment exactly where their organizational domains are; a blank domain is
/// aligned with none.
pub proof fn law_alignment_compares_domains(a: Seq<char>, b: Seq<char>)
    ensures
        domains_aligned(a, b, AlignmentMode::Strict) <==> plain_domain(a).len() > 0 && plain_domain(
            a,
        ) == plain_domain(b),
        domains_aligned(a, b, AlignmentMode::Relaxed) <==> plain_domain(a).len() > 0 && org_domain(
            plain_domain(a),
        ) == org_domain(plain_domain(b)),
{
}

/// A domain in plain form is kept as it is, and its organizational domain is what the Public
/// Suffix List says is registrable, lowercased, or the domain itself where it says nothing.
pub proof fn law_plain_domain_is_kept(domain: Seq<char>)
    requires
        domain.len() > 0 ==> !white_space(domain[0]) && !white_space(domain.last()) && domain.last() != '.',
        forall|i: int| 0 <= i < domain.len() ==> lower_char(#[trigger] domain[i]) == domain[i],
    ensures
        plain_domain(domain) == domain,
        org_domain(domain) == match registrable_domain(domain) {
            Some(d) => lowered(d),
            None => domain,
        },
{
    assert(lowered(domain) =~= domain);
}

/// A result is `none` without a record, and `pass` or `fail` under one; a disposition is the
/// policy that it comes from.
pub proof fn law_result_has_its_token(r: DmarcResultView)
    ensures
        !r.record_found ==> r.token() == "none"@,
        r.record_found && r.pass ==> r.token() == "pass"@,
        r.record_found && !r.pass ==> r.token() == "fail"@,
        DmarcDisposition::Deliver.token() == "none"@,
        DmarcDisposition::Quarantine.token() == "quarantine"@,
        DmarcDisposition::Reject.token() == "reject"@,
{
}

/// White space around a domain, a dot at its end and its case do not count.
pub proof fn law_domain_is_made_plain(domain: Seq<char>, c: char)
    ensures
        white_space(c) ==> plain_domain(domain.push(c)) == plain_domain(domain),
        white_space(c) ==> plain_domain(seq![c] + domain) == plain_domain(domain),
        plain_domain(lowered(domain)) == plain_domain(domain),
        domain.len() > 0 && !white_space(domain[0]) && !white_space(domain.last())
            ==> plain_domain(domain.push('.')) == plain_domain(domain),
{
    if white_space(c) {
        lemma_trimmed_push(domain, c);
        assert((seq![c] + domain).drop_first() =~= domain);
        assert(trimmed_start(seq![c] + domain) == trimmed_start(domain));
    }
    lemma_trimmed_lowered(domain);
    let t = trimmed(domain);
    lemma_without_trailing_dots_lowered(t);
    let u = without_trailing_dots(t);
    assert(lowered(lowered(u)) =~= lowered(u)) by {
        assert forall|i: int| 0 <= i < u.len() implies lowered(lowered(u))[i] == lowered(u)[i] by {
            lemma_lower_char(u[i]);
        }
    }
    if domain.len() > 0 && !white_space(domain[0]) && !white_space(domain.last()) {
        let dotted = domain.push('.');
        assert(trimmed(domain) == domain);
        assert(dotted[0] == domain[0]);
        assert(!white_space('.'));
        assert(trimmed(dotted) == dotted);
        assert(dotted.drop_last() =~= domain);
    }
}

} // verus!
