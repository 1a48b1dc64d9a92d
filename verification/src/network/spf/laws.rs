//! What holds of every SPF evaluation: its result does not change once it is
//! there, and it stays within its budgets, so that it ends.

use vstd::prelude::*;

use crate::ip::IpAddr;
use crate::network::dns::a::AddressRecord;
use crate::network::dns::lookup::DnsAnswer;
use crate::network::dns::mx::MxRecord;
use crate::network::dns::reverse::PtrRecord;
use crate::network::spf::eval::{
    answered_addresses, answered_exchanges, answered_pointers, answered_txt, any_in_net, asked_one,
    charged, expansion, fresh_progress, host_result, may_look_up, mechanism_outcome,
    mx_hosts_outcome, policies, policy_result, ptr_names_outcome, spf_step, subject, target_of,
    within, Flow, MechOutcome, SpfProgress, SpfResult, SpfStepView, SpfSubject, MAX_HOSTS,
    MAX_LOOKUPS, MAX_VOID,
};
use crate::network::spf::record::{DirectiveView, MechanismView, Qualifier, SpfRecord};
use crate::text::{lemma_rfind, rcut, rfind};

verus! {

// ---------------------------------------------------------------------------
// Laws
// ---------------------------------------------------------------------------

/// Once an evaluation has its result, further answers do not change it.
pub proof fn law_result_is_final(
    ip: IpAddr,
    helo: Seq<char>,
    mail_from: Seq<char>,
    answers: Seq<DnsAnswer>,
    more: Seq<DnsAnswer>,
)
    requires
        spf_step(ip, helo, mail_from, answers) is Done,
    ensures
        spf_step(ip, helo, mail_from, answers + more) == spf_step(ip, helo, mail_from, answers),
{
    let s = subject(ip, helo, mail_from);
    if s.sender_domain.len() > 0 {
        lemma_host_final(s, answers, more, MAX_LOOKUPS as nat, fresh_progress(), s.sender_domain);
    }
}

/// An evaluation asks at most 111 questions: the policy's record, and eleven for
/// each of the ten querying terms that its budget allows.
pub proof fn law_evaluation_ends(
    ip: IpAddr,
    helo: Seq<char>,
    mail_from: Seq<char>,
    answers: Seq<DnsAnswer>,
)
    requires
        answers.len() >= 111,
    ensures
        spf_step(ip, helo, mail_from, answers) is Done,
{
    let s = subject(ip, helo, mail_from);
    lemma_host_bounds(s, answers, MAX_LOOKUPS as nat, fresh_progress(), s.sender_domain);
}

/// An evaluation never charges more than ten querying terms and two void lookups,
/// and uses no more answers than there are.
pub proof fn law_budgets_are_kept(
    s: SpfSubject,
    answers: Seq<DnsAnswer>,
    domain: Seq<char>,
)
    ensures
        host_result(s, answers, MAX_LOOKUPS as nat, fresh_progress(), domain) matches Flow::Go(
            _,
            p,
        ) ==> p.lookups <= MAX_LOOKUPS && p.void <= MAX_VOID && p.asked <= answers.len(),
{
    lemma_host_bounds(s, answers, MAX_LOOKUPS as nat, fresh_progress(), domain);
}

/// How deep policies nest is bounded by the lookup budget alone: allowing deeper
/// nesting changes nothing.
pub proof fn law_nesting_is_bounded_by_the_budget(
    s: SpfSubject,
    answers: Seq<DnsAnswer>,
    depth: nat,
    domain: Seq<char>,
)
    requires
        depth >= MAX_LOOKUPS,
    ensures
        host_result(s, answers, depth, fresh_progress(), domain) == host_result(
            s,
            answers,
            MAX_LOOKUPS as nat,
            fresh_progress(),
            domain,
        ),
{
    lemma_host_depth(s, answers, depth, MAX_LOOKUPS as nat, fresh_progress(), domain);
}

/// What stands after an `all`, further directives and a `redirect`, never counts.
pub proof fn law_nothing_after_all_counts(
    s: SpfSubject,
    answers: Seq<DnsAnswer>,
    depth: nat,
    p: SpfProgress,
    before: Seq<DirectiveView>,
    qualifier: Qualifier,
    after: Seq<DirectiveView>,
    redirect: Option<Seq<char>>,
    current: Seq<char>,
)
    ensures
        ({
            let all = DirectiveView { qualifier, mechanism: MechanismView::All };
            policy_result(
                s,
                answers,
                depth,
                p,
                before.push(all) + after,
                redirect,
                0,
                current,
            ) == policy_result(s, answers, depth, p, before.push(all), None, 0, current)
        }),
{
    lemma_all_ends(s, answers, depth, p, before, qualifier, after, redirect, 0, current);
}

/// Whether a sender is no address: it has no `@`, or nothing before or after its last one.
/// The null sender is one of them.
pub open spec fn unusable_sender(mail_from: Seq<char>) -> bool {
    match rcut(mail_from, '@') {
        Some((local, domain)) => local.len() == 0 || domain.len() == 0,
        None => true,
    }
}

/// A sender that is no address is checked as `postmaster` at the HELO domain; where that
/// is empty too, there is no record.
pub proof fn law_unusable_sender_is_checked_at_helo(
    ip: IpAddr,
    helo: Seq<char>,
    mail_from: Seq<char>,
    answers: Seq<DnsAnswer>,
)
    requires
        unusable_sender(mail_from),
    ensures
        subject(ip, helo, mail_from) == (SpfSubject {
            ip,
            sender_local: "postmaster"@,
            sender_domain: helo,
            helo,
        }),
        helo.len() == 0 ==> spf_step(ip, helo, mail_from, answers) == SpfStepView::Done(
            SpfResult::NoRecord,
        ),
        helo.len() > 0 && (forall|i: int| 0 <= i < helo.len() ==> helo[i] != '@') ==> spf_step(
            ip,
            helo,
            mail_from,
            answers,
        ) == spf_step(ip, helo, "postmaster@"@ + helo, answers),
{
    if helo.len() > 0 && (forall|i: int| 0 <= i < helo.len() ==> helo[i] != '@') {
        reveal_strlit("postmaster@");
        reveal_strlit("postmaster");
        let address = "postmaster@"@ + helo;
        lemma_rfind(address, '@');
        assert(address[10] == '@');
        assert forall|j: int| 10 < j < address.len() implies address[j] != '@' by {
            assert(address[j] == helo[j - 11]);
        }
        assert(rfind(address, '@') == Some(10int));
        assert(address.take(10) =~= "postmaster"@);
        assert(address.skip(11) =~= helo);
    }
}

/// No evaluation ends in `TempError`: a failed lookup counts as no record.
pub proof fn law_no_result_is_a_temporary_error(
    ip: IpAddr,
    helo: Seq<char>,
    mail_from: Seq<char>,
    answers: Seq<DnsAnswer>,
)
    ensures
        spf_step(ip, helo, mail_from, answers) != SpfStepView::Done(SpfResult::TempError),
{
    let s = subject(ip, helo, mail_from);
    lemma_host_settles(s, answers, MAX_LOOKUPS as nat, fresh_progress(), s.sender_domain);
}

proof fn lemma_mx_hosts_settle(
    s: SpfSubject,
    answers: Seq<DnsAnswer>,
    p: SpfProgress,
    mxs: Seq<MxRecord>,
    i: int,
    v4: u8,
    v6: u8,
)
    ensures
        mx_hosts_outcome(s, answers, p, mxs, i, v4, v6) matches Flow::Go(o, _) ==> !(o is Error),
    decreases mxs.len() - i,
{
    if 0 <= i < mxs.len() && i < MAX_HOSTS {
        lemma_mx_hosts_settle(s, answers, asked_one(p), mxs, i + 1, v4, v6);
    }
}

proof fn lemma_ptr_names_settle(
    s: SpfSubject,
    answers: Seq<DnsAnswer>,
    p: SpfProgress,
    names: Seq<PtrRecord>,
    i: int,
    target: Seq<char>,
)
    ensures
        ptr_names_outcome(s, answers, p, names, i, target) matches Flow::Go(o, _) ==> !(
        o is Error),
    decreases names.len() - i,
{
    if 0 <= i < names.len() && i < MAX_HOSTS {
        lemma_ptr_names_settle(s, answers, p, names, i + 1, target);
        lemma_ptr_names_settle(s, answers, asked_one(p), names, i + 1, target);
    }
}

proof fn lemma_mechanism_settles(
    s: SpfSubject,
    answers: Seq<DnsAnswer>,
    depth: nat,
    p: SpfProgress,
    mechanism: MechanismView,
    current: Seq<char>,
)
    ensures
        mechanism_outcome(s, answers, depth, p, mechanism, current) matches Flow::Go(o, _) ==> o
            != MechOutcome::Error(SpfResult::TempError),
    decreases depth, 1int, 0int,
{
    let q = charged(p);
    match mechanism {
        MechanismView::Mx { domain, v4, v6 } => {
            lemma_mx_hosts_settle(
                s,
                answers,
                asked_one(q),
                answered_exchanges(answers, q),
                0,
                v4,
                v6,
            );
        },
        MechanismView::Ptr(domain) => {
            if let Some(target) = target_of(s, domain, current) {
                lemma_ptr_names_settle(
                    s,
                    answers,
                    asked_one(q),
                    answered_pointers(answers, q),
                    0,
                    target,
                );
            }
        },
        MechanismView::Include(spec) => {
            if depth > 0 {
                if let Some(target) = expansion(s, spec, current) {
                    lemma_host_settles(s, answers, (depth - 1) as nat, q, target);
                }
            }
        },
        _ => {},
    }
}

proof fn lemma_policy_settles(
    s: SpfSubject,
    answers: Seq<DnsAnswer>,
    depth: nat,
    p: SpfProgress,
    directives: Seq<DirectiveView>,
    redirect: Option<Seq<char>>,
    i: int,
    current: Seq<char>,
)
    ensures
        policy_result(s, answers, depth, p, directives, redirect, i, current) matches Flow::Go(
            r,
            _,
        ) ==> r != SpfResult::TempError,
    decreases depth, 2int, directives.len() - i,
{
    if 0 <= i < directives.len() {
        lemma_mechanism_settles(s, answers, depth, p, directives[i].mechanism, current);
        if let Flow::Go(MechOutcome::NoMatch, q) = mechanism_outcome(
            s,
            answers,
            depth,
            p,
            directives[i].mechanism,
            current,
        ) {
            lemma_policy_settles(s, answers, depth, q, directives, redirect, i + 1, current);
        }
    } else if depth > 0 {
        if let Some(spec) = redirect {
            if let Some(target) = expansion(s, spec, current) {
                lemma_host_settles(s, answers, (depth - 1) as nat, charged(p), target);
            }
        }
    }
}

proof fn lemma_host_settles(
    s: SpfSubject,
    answers: Seq<DnsAnswer>,
    depth: nat,
    p: SpfProgress,
    domain: Seq<char>,
)
    ensures
        host_result(s, answers, depth, p, domain) matches Flow::Go(r, _) ==> r
            != SpfResult::TempError,
    decreases depth, 3int, 0int,
{
    if p.asked < answers.len() {
        let found = policies(answered_txt(answers, p));
        if found.len() == 1 {
            if let Ok(record) = SpfRecord::parsed(found[0]) {
                lemma_policy_settles(
                    s,
                    answers,
                    depth,
                    asked_one(p),
                    record.directives,
                    record.redirect,
                    0,
                    domain,
                );
            }
        }
    }
}

proof fn lemma_all_ends(
    s: SpfSubject,
    answers: Seq<DnsAnswer>,
    depth: nat,
    p: SpfProgress,
    before: Seq<DirectiveView>,
    qualifier: Qualifier,
    after: Seq<DirectiveView>,
    redirect: Option<Seq<char>>,
    i: int,
    current: Seq<char>,
)
    requires
        0 <= i <= before.len(),
    ensures
        ({
            let all = DirectiveView { qualifier, mechanism: MechanismView::All };
            policy_result(
                s,
                answers,
                depth,
                p,
                before.push(all) + after,
                redirect,
                i,
                current,
            ) == policy_result(s, answers, depth, p, before.push(all), None, i, current)
        }),
    decreases before.len() - i,
{
    let all = DirectiveView { qualifier, mechanism: MechanismView::All };
    let short = before.push(all);
    let long = short + after;
    assert(long[i] == short[i]);
    if i < before.len() {
        if let Flow::Go(MechOutcome::NoMatch, q) = mechanism_outcome(
            s,
            answers,
            depth,
            p,
            short[i].mechanism,
            current,
        ) {
            lemma_all_ends(
                s,
                answers,
                depth,
                q,
                before,
                qualifier,
                after,
                redirect,
                i + 1,
                current,
            );
        }
    }
}

// ---------------------------------------------------------------------------
// Results do not change
// ---------------------------------------------------------------------------

proof fn lemma_answered_same(answers: Seq<DnsAnswer>, more: Seq<DnsAnswer>, p: SpfProgress)
    requires
        p.asked < answers.len(),
    ensures
        answered_txt(answers + more, p) == answered_txt(answers, p),
        answered_addresses(answers + more, p) == answered_addresses(answers, p),
        answered_exchanges(answers + more, p) == answered_exchanges(answers, p),
        answered_pointers(answers + more, p) == answered_pointers(answers, p),
{
    assert((answers + more)[p.asked as int] == answers[p.asked as int]);
}

proof fn lemma_mx_hosts_final(
    s: SpfSubject,
    answers: Seq<DnsAnswer>,
    more: Seq<DnsAnswer>,
    p: SpfProgress,
    mxs: Seq<MxRecord>,
    i: int,
    v4: u8,
    v6: u8,
)
    requires
        mx_hosts_outcome(s, answers, p, mxs, i, v4, v6) is Go,
    ensures
        mx_hosts_outcome(s, answers + more, p, mxs, i, v4, v6) == mx_hosts_outcome(
            s,
            answers,
            p,
            mxs,
            i,
            v4,
            v6,
        ),
    decreases mxs.len() - i,
{
    if 0 <= i < mxs.len() && i < MAX_HOSTS {
        lemma_answered_same(answers, more, p);
        if !any_in_net(s.ip, answered_addresses(answers, p), v4, v6) {
            lemma_mx_hosts_final(s, answers, more, asked_one(p), mxs, i + 1, v4, v6);
        }
    }
}

proof fn lemma_ptr_names_final(
    s: SpfSubject,
    answers: Seq<DnsAnswer>,
    more: Seq<DnsAnswer>,
    p: SpfProgress,
    names: Seq<PtrRecord>,
    i: int,
    target: Seq<char>,
)
    requires
        ptr_names_outcome(s, answers, p, names, i, target) is Go,
    ensures
        ptr_names_outcome(s, answers + more, p, names, i, target) == ptr_names_outcome(
            s,
            answers,
            p,
            names,
            i,
            target,
        ),
    decreases names.len() - i,
{
    if 0 <= i < names.len() && i < MAX_HOSTS {
        if !within(names[i].0@, target) {
            lemma_ptr_names_final(s, answers, more, p, names, i + 1, target);
        } else {
            lemma_answered_same(answers, more, p);
            if !answered_addresses(answers, p).contains(AddressRecord(s.ip)) {
                lemma_ptr_names_final(s, answers, more, asked_one(p), names, i + 1, target);
            }
        }
    }
}

proof fn lemma_mechanism_final(
    s: SpfSubject,
    answers: Seq<DnsAnswer>,
    more: Seq<DnsAnswer>,
    depth: nat,
    p: SpfProgress,
    mechanism: MechanismView,
    current: Seq<char>,
)
    requires
        mechanism_outcome(s, answers, depth, p, mechanism, current) is Go,
    ensures
        mechanism_outcome(s, answers + more, depth, p, mechanism, current) == mechanism_outcome(
            s,
            answers,
            depth,
            p,
            mechanism,
            current,
        ),
    decreases depth, 1int, 0int,
{
    let q = charged(p);
    if may_look_up(p) && q.asked < answers.len() {
        lemma_answered_same(answers, more, q);
    }
    match mechanism {
        MechanismView::Mx { domain, v4, v6 } => {
            if may_look_up(p) && target_of(s, domain, current) is Some {
                let mxs = answered_exchanges(answers, q);
                if mxs.len() > 0 {
                    lemma_mx_hosts_final(s, answers, more, asked_one(q), mxs, 0, v4, v6);
                }
            }
        },
        MechanismView::Ptr(domain) => {
            if may_look_up(p) && target_of(s, domain, current) is Some {
                let names = answered_pointers(answers, q);
                if names.len() > 0 {
                    lemma_ptr_names_final(
                        s,
                        answers,
                        more,
                        asked_one(q),
                        names,
                        0,
                        target_of(s, domain, current)->0,
                    );
                }
            }
        },
        MechanismView::Include(spec) => {
            if may_look_up(p) && depth > 0 && expansion(s, spec, current) is Some {
                lemma_host_final(
                    s,
                    answers,
                    more,
                    (depth - 1) as nat,
                    q,
                    expansion(s, spec, current)->0,
                );
            }
        },
        _ => {},
    }
}

proof fn lemma_policy_final(
    s: SpfSubject,
    answers: Seq<DnsAnswer>,
    more: Seq<DnsAnswer>,
    depth: nat,
    p: SpfProgress,
    directives: Seq<DirectiveView>,
    redirect: Option<Seq<char>>,
    i: int,
    current: Seq<char>,
)
    requires
        policy_result(s, answers, depth, p, directives, redirect, i, current) is Go,
    ensures
        policy_result(s, answers + more, depth, p, directives, redirect, i, current)
            == policy_result(s, answers, depth, p, directives, redirect, i, current),
    decreases depth, 2int, directives.len() - i,
{
    if 0 <= i < directives.len() {
        let m = directives[i].mechanism;
        lemma_mechanism_final(s, answers, more, depth, p, m, current);
        if let Flow::Go(MechOutcome::NoMatch, q) = mechanism_outcome(
            s,
            answers,
            depth,
            p,
            m,
            current,
        ) {
            lemma_policy_final(s, answers, more, depth, q, directives, redirect, i + 1, current);
        }
    } else if redirect is Some && may_look_up(p) && depth > 0 && expansion(
        s,
        redirect->0,
        current,
    ) is Some {
        lemma_host_final(
            s,
            answers,
            more,
            (depth - 1) as nat,
            charged(p),
            expansion(s, redirect->0, current)->0,
        );
    }
}

proof fn lemma_host_final(
    s: SpfSubject,
    answers: Seq<DnsAnswer>,
    more: Seq<DnsAnswer>,
    depth: nat,
    p: SpfProgress,
    domain: Seq<char>,
)
    requires
        host_result(s, answers, depth, p, domain) is Go,
    ensures
        host_result(s, answers + more, depth, p, domain) == host_result(
            s,
            answers,
            depth,
            p,
            domain,
        ),
    decreases depth, 3int, 0int,
{
    lemma_answered_same(answers, more, p);
    let found = policies(answered_txt(answers, p));
    if found.len() == 1 {
        if let Ok(record) = SpfRecord::parsed(found[0]) {
            lemma_policy_final(
                s,
                answers,
                more,
                depth,
                asked_one(p),
                record.directives,
                record.redirect,
                0,
                domain,
            );
        }
    }
}

// ---------------------------------------------------------------------------
// Budgets are kept
// ---------------------------------------------------------------------------

/// How many answers an evaluation may still come to use: those used so far, and
/// eleven for each querying term left.
spec fn reach(p: SpfProgress) -> int {
    p.asked + 11 * (MAX_LOOKUPS - p.lookups)
}

/// Whether a progress is within the budgets.
spec fn in_budget(p: SpfProgress, answers: Seq<DnsAnswer>) -> bool {
    p.lookups <= MAX_LOOKUPS && p.void <= MAX_VOID && p.asked <= answers.len()
}

proof fn lemma_mx_hosts_bounds(
    s: SpfSubject,
    answers: Seq<DnsAnswer>,
    p: SpfProgress,
    mxs: Seq<MxRecord>,
    i: int,
    v4: u8,
    v6: u8,
)
    requires
        0 <= i <= MAX_HOSTS,
        p.asked <= answers.len(),
    ensures
        match mx_hosts_outcome(s, answers, p, mxs, i, v4, v6) {
            Flow::Ask(_) => answers.len() < p.asked + (MAX_HOSTS - i),
            Flow::Go(_, q) => q.lookups == p.lookups && q.void == p.void && p.asked <= q.asked
                <= answers.len() && q.asked <= p.asked + (MAX_HOSTS - i),
        },
    decreases mxs.len() - i,
{
    if 0 <= i < mxs.len() && i < MAX_HOSTS && p.asked < answers.len() {
        lemma_mx_hosts_bounds(s, answers, asked_one(p), mxs, i + 1, v4, v6);
    }
}

proof fn lemma_ptr_names_bounds(
    s: SpfSubject,
    answers: Seq<DnsAnswer>,
    p: SpfProgress,
    names: Seq<PtrRecord>,
    i: int,
    target: Seq<char>,
)
    requires
        0 <= i <= MAX_HOSTS,
        p.asked <= answers.len(),
    ensures
        match ptr_names_outcome(s, answers, p, names, i, target) {
            Flow::Ask(_) => answers.len() < p.asked + (MAX_HOSTS - i),
            Flow::Go(_, q) => q.lookups == p.lookups && q.void == p.void && p.asked <= q.asked
                <= answers.len() && q.asked <= p.asked + (MAX_HOSTS - i),
        },
    decreases names.len() - i,
{
    if 0 <= i < names.len() && i < MAX_HOSTS {
        if !within(names[i].0@, target) {
            lemma_ptr_names_bounds(s, answers, p, names, i + 1, target);
        } else if p.asked < answers.len() {
            lemma_ptr_names_bounds(s, answers, asked_one(p), names, i + 1, target);
        }
    }
}

proof fn lemma_mechanism_bounds(
    s: SpfSubject,
    answers: Seq<DnsAnswer>,
    depth: nat,
    p: SpfProgress,
    mechanism: MechanismView,
    current: Seq<char>,
)
    requires
        in_budget(p, answers),
    ensures
        match mechanism_outcome(s, answers, depth, p, mechanism, current) {
            Flow::Ask(_) => answers.len() < reach(p),
            Flow::Go(_, q) => in_budget(q, answers) && reach(q) <= reach(p) && p.lookups
                <= q.lookups,
        },
    decreases depth, 1int, 0int,
{
    let q = charged(p);
    if may_look_up(p) {
        assert(reach(q) == reach(p) - 11);
        assert(reach(q) >= q.asked);
        match mechanism {
            MechanismView::Mx { domain, v4, v6 } => {
                if target_of(s, domain, current) is Some && q.asked < answers.len() {
                    let mxs = answered_exchanges(answers, q);
                    lemma_mx_hosts_bounds(s, answers, asked_one(q), mxs, 0, v4, v6);
                }
            },
            MechanismView::Ptr(domain) => {
                if target_of(s, domain, current) is Some && q.asked < answers.len() {
                    let names = answered_pointers(answers, q);
                    lemma_ptr_names_bounds(
                        s,
                        answers,
                        asked_one(q),
                        names,
                        0,
                        target_of(s, domain, current)->0,
                    );
                }
            },
            MechanismView::Include(spec) => {
                if depth > 0 && expansion(s, spec, current) is Some {
                    lemma_host_bounds(
                        s,
                        answers,
                        (depth - 1) as nat,
                        q,
                        expansion(s, spec, current)->0,
                    );
                }
            },
            _ => {},
        }
    }
}

proof fn lemma_policy_bounds(
    s: SpfSubject,
    answers: Seq<DnsAnswer>,
    depth: nat,
    p: SpfProgress,
    directives: Seq<DirectiveView>,
    redirect: Option<Seq<char>>,
    i: int,
    current: Seq<char>,
)
    requires
        in_budget(p, answers),
    ensures
        match policy_result(s, answers, depth, p, directives, redirect, i, current) {
            Flow::Ask(_) => answers.len() < reach(p),
            Flow::Go(_, q) => in_budget(q, answers) && reach(q) <= reach(p) && p.lookups
                <= q.lookups,
        },
    decreases depth, 2int, directives.len() - i,
{
    if 0 <= i < directives.len() {
        let m = directives[i].mechanism;
        lemma_mechanism_bounds(s, answers, depth, p, m, current);
        if let Flow::Go(MechOutcome::NoMatch, q) = mechanism_outcome(
            s,
            answers,
            depth,
            p,
            m,
            current,
        ) {
            lemma_policy_bounds(s, answers, depth, q, directives, redirect, i + 1, current);
        }
    } else if redirect is Some && may_look_up(p) && depth > 0 && expansion(
        s,
        redirect->0,
        current,
    ) is Some {
        lemma_host_bounds(
            s,
            answers,
            (depth - 1) as nat,
            charged(p),
            expansion(s, redirect->0, current)->0,
        );
    }
}

proof fn lemma_host_bounds(
    s: SpfSubject,
    answers: Seq<DnsAnswer>,
    depth: nat,
    p: SpfProgress,
    domain: Seq<char>,
)
    requires
        in_budget(p, answers),
    ensures
        match host_result(s, answers, depth, p, domain) {
            Flow::Ask(_) => answers.len() < reach(p) + 1,
            Flow::Go(_, q) => in_budget(q, answers) && reach(q) <= reach(p) + 1 && p.lookups
                <= q.lookups,
        },
    decreases depth, 3int, 0int,
{
    if p.asked < answers.len() {
        let found = policies(answered_txt(answers, p));
        if found.len() == 1 {
            if let Ok(record) = SpfRecord::parsed(found[0]) {
                lemma_policy_bounds(
                    s,
                    answers,
                    depth,
                    asked_one(p),
                    record.directives,
                    record.redirect,
                    0,
                    domain,
                );
            }
        }
    }
}

// ---------------------------------------------------------------------------
// Nesting
// ---------------------------------------------------------------------------

/// Whether a nesting depth is no less than the querying terms left.
spec fn deep_enough(depth: nat, p: SpfProgress) -> bool {
    depth + p.lookups >= MAX_LOOKUPS
}

proof fn lemma_mechanism_depth(
    s: SpfSubject,
    answers: Seq<DnsAnswer>,
    d1: nat,
    d2: nat,
    p: SpfProgress,
    mechanism: MechanismView,
    current: Seq<char>,
)
    requires
        in_budget(p, answers),
        deep_enough(d1, p),
        deep_enough(d2, p),
    ensures
        mechanism_outcome(s, answers, d1, p, mechanism, current) == mechanism_outcome(
            s,
            answers,
            d2,
            p,
            mechanism,
            current,
        ),
    decreases d1, 1int, 0int,
{
    if let MechanismView::Include(spec) = mechanism {
        if may_look_up(p) {
            if expansion(s, spec, current) is Some {
                lemma_host_depth(
                    s,
                    answers,
                    (d1 - 1) as nat,
                    (d2 - 1) as nat,
                    charged(p),
                    expansion(s, spec, current)->0,
                );
            }
        }
    }
}

proof fn lemma_policy_depth(
    s: SpfSubject,
    answers: Seq<DnsAnswer>,
    d1: nat,
    d2: nat,
    p: SpfProgress,
    directives: Seq<DirectiveView>,
    redirect: Option<Seq<char>>,
    i: int,
    current: Seq<char>,
)
    requires
        in_budget(p, answers),
        deep_enough(d1, p),
        deep_enough(d2, p),
    ensures
        policy_result(s, answers, d1, p, directives, redirect, i, current) == policy_result(
            s,
            answers,
            d2,
            p,
            directives,
            redirect,
            i,
            current,
        ),
    decreases d1, 2int, directives.len() - i,
{
    if 0 <= i < directives.len() {
        let m = directives[i].mechanism;
        lemma_mechanism_depth(s, answers, d1, d2, p, m, current);
        lemma_mechanism_bounds(s, answers, d1, p, m, current);
        if let Flow::Go(MechOutcome::NoMatch, q) = mechanism_outcome(
            s,
            answers,
            d1,
            p,
            m,
            current,
        ) {
            lemma_policy_depth(s, answers, d1, d2, q, directives, redirect, i + 1, current);
        }
    } else if redirect is Some && may_look_up(p) && expansion(s, redirect->0, current) is Some {
        lemma_host_depth(
            s,
            answers,
            (d1 - 1) as nat,
            (d2 - 1) as nat,
            charged(p),
            expansion(s, redirect->0, current)->0,
        );
    }
}

proof fn lemma_host_depth(
    s: SpfSubject,
    answers: Seq<DnsAnswer>,
    d1: nat,
    d2: nat,
    p: SpfProgress,
    domain: Seq<char>,
)
    requires
        in_budget(p, answers),
        deep_enough(d1, p),
        deep_enough(d2, p),
    ensures
        host_result(s, answers, d1, p, domain) == host_result(s, answers, d2, p, domain),
    decreases d1, 3int, 0int,
{
    if p.asked < answers.len() {
        let found = policies(answered_txt(answers, p));
        if found.len() == 1 {
            if let Ok(record) = SpfRecord::parsed(found[0]) {
                lemma_policy_depth(
                    s,
                    answers,
                    d1,
                    d2,
                    asked_one(p),
                    record.directives,
                    record.redirect,
                    0,
                    domain,
                );
            }
        }
    }
}

} // verus!
