//! What each part of an SPF policy does to the result of an evaluation: which
//! directive decides, what a nested policy counts for, and what is asked.

use vstd::prelude::*;

use crate::ip::{in_net4, in_net6, IpAddr};
use crate::network::dns::a::AddressRecord;
use crate::network::dns::lookup::{DnsAnswer, DnsQueryView};
use crate::network::dns::mx::MxRecord;
use crate::network::dns::reverse::PtrRecord;
use crate::network::dns::txt::TxtRecord;
use crate::network::spf::eval::{
    a_outcome, any_in_net, asked_one, charged, exists_outcome, host_result, include_outcome,
    mechanism_outcome, mx_hosts_outcome, mx_outcome, outcome, policies, policy_result,
    ptr_names_outcome, ptr_outcome, spf_step, subject, within, Flow, MechOutcome, SpfProgress,
    SpfResult, SpfStepView, SpfSubject,
};
use crate::network::spf::macro_expand::{expanded, MacroContextView};
use crate::network::spf::record::{DirectiveView, MechanismView, Qualifier, SpfRecord};
use crate::text::{lemma_lower_char, lemma_rfind, lowered, rfind, words};

verus! {

// ---------------------------------------------------------------------------
// Vocabulary
// ---------------------------------------------------------------------------

/// The result that a qualifier stands for: `+` passes, `-` fails, `~` softly fails and
/// `?` is neutral.
pub open spec fn stands_for(q: Qualifier) -> SpfResult {
    match q {
        Qualifier::Pass => SpfResult::Pass,
        Qualifier::Fail => SpfResult::Fail,
        Qualifier::SoftFail => SpfResult::SoftFail,
        Qualifier::Neutral => SpfResult::Neutral,
    }
}

/// How a policy goes on at a directive that matched or did not: its qualifier decides, or
/// the next directive does.
pub open spec fn goes_on(
    s: SpfSubject,
    answers: Seq<DnsAnswer>,
    depth: nat,
    directives: Seq<DirectiveView>,
    redirect: Option<Seq<char>>,
    i: int,
    current: Seq<char>,
    matched: bool,
    p: SpfProgress,
) -> Flow<SpfResult> {
    if matched {
        Flow::Go(stands_for(directives[i].qualifier), p)
    } else {
        policy_result(s, answers, depth, p, directives, redirect, i + 1, current)
    }
}

/// Whether a domain-spec stands for a domain in an evaluation: its macros are expanded for
/// the client, the sender, the HELO name and the domain whose policy it stands in.
pub open spec fn spells(s: SpfSubject, spec: Seq<char>, current: Seq<char>, target: Seq<char>) -> bool {
    expanded(
        spec,
        MacroContextView {
            ip: s.ip,
            sender_local: s.sender_local,
            sender_domain: s.sender_domain,
            helo: s.helo,
            domain: current,
        },
    ) == Ok::<Seq<char>, Seq<char>>(target)
}

/// Whether a mechanism is aimed at a domain: the one its domain-spec stands for, or the
/// current one where it has none.
pub open spec fn aimed_at(
    s: SpfSubject,
    domain: Option<Seq<char>>,
    current: Seq<char>,
    target: Seq<char>,
) -> bool {
    match domain {
        Some(spec) => spells(s, spec, current, target),
        None => target == current,
    }
}

/// Whether the client is in the network around one of the addresses, of its own family.
pub open spec fn near_one(client: IpAddr, addrs: Seq<AddressRecord>, v4: u8, v6: u8) -> bool {
    match client {
        IpAddr::V4(c) => exists|j: int|
            0 <= j < addrs.len() && (#[trigger] addrs[j]).0 is V4 && in_net4(
                addrs[j].0->V4_0,
                v4,
                c,
            ),
        IpAddr::V6(c) => exists|j: int|
            0 <= j < addrs.len() && (#[trigger] addrs[j]).0 is V6 && in_net6(
                addrs[j].0->V6_0,
                v6,
                c,
            ),
    }
}

/// Whether a TXT record is an SPF record: its first word is `v=spf1`, in any case.
pub open spec fn spf_text(text: Seq<char>) -> bool {
    words(text).len() > 0 && lowered(words(text)[0]) == lowered("v=spf1"@)
}

proof fn lemma_near(client: IpAddr, addrs: Seq<AddressRecord>, v4: u8, v6: u8)
    ensures
        any_in_net(client, addrs, v4, v6) == near_one(client, addrs, v4, v6),
{
}

proof fn lemma_directive(
    s: SpfSubject,
    answers: Seq<DnsAnswer>,
    depth: nat,
    p: SpfProgress,
    mechanism: MechanismView,
    current: Seq<char>,
)
    ensures
        mechanism_outcome(s, answers, depth, p, mechanism, current) == match mechanism {
            MechanismView::All => outcome(true, p),
            MechanismView::Ip4 { net, prefix } => match s.ip {
                IpAddr::V4(c) => outcome(in_net4(net, prefix, c), p),
                IpAddr::V6(_) => outcome(false, p),
            },
            MechanismView::Ip6 { net, prefix } => match s.ip {
                IpAddr::V6(c) => outcome(in_net6(net, prefix, c), p),
                IpAddr::V4(_) => outcome(false, p),
            },
            MechanismView::A { domain, v4, v6 } => a_outcome(
                s,
                answers,
                p,
                domain,
                current,
                v4,
                v6,
            ),
            MechanismView::Mx { domain, v4, v6 } => mx_outcome(
                s,
                answers,
                p,
                domain,
                current,
                v4,
                v6,
            ),
            MechanismView::Include(spec) => include_outcome(s, answers, depth, p, spec, current),
            MechanismView::Exists(spec) => exists_outcome(s, answers, p, spec, current),
            MechanismView::Ptr(domain) => ptr_outcome(s, answers, p, domain, current),
        },
{
}

// ---------------------------------------------------------------------------
// Directives
// ---------------------------------------------------------------------------

/// `all` matches every client.
pub proof fn law_all_matches(
    s: SpfSubject,
    answers: Seq<DnsAnswer>,
    depth: nat,
    p: SpfProgress,
    directives: Seq<DirectiveView>,
    redirect: Option<Seq<char>>,
    i: int,
    current: Seq<char>,
)
    requires
        0 <= i < directives.len(),
        directives[i].mechanism is All,
    ensures
        policy_result(s, answers, depth, p, directives, redirect, i, current) == Flow::Go(
            stands_for(directives[i].qualifier),
            p,
        ),
{
    lemma_directive(s, answers, depth, p, directives[i].mechanism, current);
}

/// `ip4` and `ip6` match exactly the clients of their family in their network.
pub proof fn law_network_matches_its_clients(
    s: SpfSubject,
    answers: Seq<DnsAnswer>,
    depth: nat,
    p: SpfProgress,
    directives: Seq<DirectiveView>,
    redirect: Option<Seq<char>>,
    i: int,
    current: Seq<char>,
)
    requires
        0 <= i < directives.len(),
        directives[i].mechanism is Ip4 || directives[i].mechanism is Ip6,
    ensures
        policy_result(s, answers, depth, p, directives, redirect, i, current) == goes_on(
            s,
            answers,
            depth,
            directives,
            redirect,
            i,
            current,
            match directives[i].mechanism {
                MechanismView::Ip4 { net, prefix } => s.ip is V4 && in_net4(
                    net,
                    prefix,
                    s.ip->V4_0,
                ),
                MechanismView::Ip6 { net, prefix } => s.ip is V6 && in_net6(
                    net,
                    prefix,
                    s.ip->V6_0,
                ),
                _ => false,
            },
            p,
        ),
{
    lemma_directive(s, answers, depth, p, directives[i].mechanism, current);
}

/// A querying mechanism beyond the tenth is a permanent error, before anything is asked.
pub proof fn law_eleventh_lookup_is_an_error(
    s: SpfSubject,
    answers: Seq<DnsAnswer>,
    depth: nat,
    p: SpfProgress,
    directives: Seq<DirectiveView>,
    redirect: Option<Seq<char>>,
    i: int,
    current: Seq<char>,
)
    requires
        p.lookups >= 10,
        i >= directives.len() && redirect is Some || 0 <= i < directives.len() && ({
            let m = directives[i].mechanism;
            m is A || m is Mx || m is Include || m is Exists || m is Ptr
        }),
    ensures
        policy_result(s, answers, depth, p, directives, redirect, i, current) == Flow::Go(
            SpfResult::PermError,
            p,
        ),
{
    lemma_directive(s, answers, depth, p, directives[i].mechanism, current);
}

/// A domain-spec with a malformed macro is a permanent error.
pub proof fn law_malformed_macro_is_an_error(
    s: SpfSubject,
    answers: Seq<DnsAnswer>,
    depth: nat,
    p: SpfProgress,
    directives: Seq<DirectiveView>,
    redirect: Option<Seq<char>>,
    i: int,
    current: Seq<char>,
    spec: Seq<char>,
)
    requires
        forall|target: Seq<char>| !spells(s, spec, current, target),
        i >= directives.len() && redirect == Some(spec) || 0 <= i < directives.len() && match directives[i].mechanism {
            MechanismView::A { domain, .. } => domain == Some(spec),
            MechanismView::Mx { domain, .. } => domain == Some(spec),
            MechanismView::Include(d) => d == spec,
            MechanismView::Exists(d) => d == spec,
            MechanismView::Ptr(domain) => domain == Some(spec),
            _ => false,
        },
    ensures
        policy_result(s, answers, depth, p, directives, redirect, i, current) matches Flow::Go(
            result,
            _,
        ) && result == SpfResult::PermError,
{
    lemma_directive(s, answers, depth, p, directives[i].mechanism, current);
    let ctx = MacroContextView {
        ip: s.ip,
        sender_local: s.sender_local,
        sender_domain: s.sender_domain,
        helo: s.helo,
        domain: current,
    };
    if let Ok(target) = expanded(spec, ctx) {
        assert(spells(s, spec, current, target));
    }
}

/// A querying mechanism asks for what its target has, once there is no answer left: the
/// addresses for `a` and `exists`, the mail exchanges for `mx`, the client's names for
/// `ptr`, the policy of the target for `include` and `redirect`.
pub proof fn law_missing_answer_is_asked_for(
    s: SpfSubject,
    answers: Seq<DnsAnswer>,
    depth: nat,
    p: SpfProgress,
    directives: Seq<DirectiveView>,
    redirect: Option<Seq<char>>,
    i: int,
    current: Seq<char>,
    target: Seq<char>,
)
    requires
        p.lookups < 10,
        depth > 0,
        p.asked >= answers.len(),
    ensures
        0 <= i < directives.len() ==> match directives[i].mechanism {
            MechanismView::A { domain, .. } => aimed_at(s, domain, current, target)
                ==> policy_result(s, answers, depth, p, directives, redirect, i, current)
                == Flow::<SpfResult>::Ask(DnsQueryView::Addresses(target)),
            MechanismView::Exists(spec) => spells(s, spec, current, target) ==> policy_result(
                s,
                answers,
                depth,
                p,
                directives,
                redirect,
                i,
                current,
            ) == Flow::<SpfResult>::Ask(DnsQueryView::Addresses(target)),
            MechanismView::Mx { domain, .. } => aimed_at(s, domain, current, target)
                ==> policy_result(s, answers, depth, p, directives, redirect, i, current)
                == Flow::<SpfResult>::Ask(DnsQueryView::Exchanges(target)),
            MechanismView::Ptr(domain) => aimed_at(s, domain, current, target) ==> policy_result(
                s,
                answers,
                depth,
                p,
                directives,
                redirect,
                i,
                current,
            ) == Flow::<SpfResult>::Ask(DnsQueryView::Pointers(s.ip)),
            MechanismView::Include(spec) => spells(s, spec, current, target) ==> policy_result(
                s,
                answers,
                depth,
                p,
                directives,
                redirect,
                i,
                current,
            ) == Flow::<SpfResult>::Ask(DnsQueryView::Txt(target)),
            _ => true,
        },
        i >= directives.len() && redirect is Some && spells(s, redirect->0, current, target)
            ==> policy_result(s, answers, depth, p, directives, redirect, i, current) == Flow::<
            SpfResult,
        >::Ask(DnsQueryView::Txt(target)),
{
    assert(host_result(s, answers, (depth - 1) as nat, charged(p), target) == Flow::<
        SpfResult,
    >::Ask(DnsQueryView::Txt(target)));
    lemma_directive(s, answers, depth, p, directives[i].mechanism, current);
}

/// `a` matches exactly where the client is in the network around one of the target's
/// addresses. A target without addresses does not match and counts as a void lookup; the
/// third of those is a permanent error.
pub proof fn law_a_matches_the_addresses(
    s: SpfSubject,
    answers: Seq<DnsAnswer>,
    depth: nat,
    p: SpfProgress,
    directives: Seq<DirectiveView>,
    redirect: Option<Seq<char>>,
    i: int,
    current: Seq<char>,
    target: Seq<char>,
    addrs: Vec<AddressRecord>,
)
    requires
        0 <= i < directives.len(),
        directives[i].mechanism is A,
        aimed_at(s, directives[i].mechanism->A_domain, current, target),
        p.lookups < 10,
        p.asked < answers.len(),
        answers[p.asked as int] == DnsAnswer::Addresses(addrs),
    ensures
        ({
            let r = policy_result(s, answers, depth, p, directives, redirect, i, current);
            let v4 = directives[i].mechanism->A_v4;
            let v6 = directives[i].mechanism->A_v6;
            let after = SpfProgress { lookups: p.lookups + 1, asked: p.asked + 1, void: p.void };
            let voided = SpfProgress {
                lookups: p.lookups + 1,
                asked: p.asked + 1,
                void: p.void + 1,
            };
            &&& addrs@.len() > 0 ==> r == goes_on(
                s,
                answers,
                depth,
                directives,
                redirect,
                i,
                current,
                near_one(s.ip, addrs@, v4, v6),
                after,
            )
            &&& addrs@.len() == 0 && p.void < 2 ==> r == goes_on(
                s,
                answers,
                depth,
                directives,
                redirect,
                i,
                current,
                false,
                voided,
            )
            &&& addrs@.len() == 0 && p.void >= 2 ==> (r matches Flow::Go(result, _) && result
                == SpfResult::PermError)
        }),
{
    lemma_directive(s, answers, depth, p, directives[i].mechanism, current);
    lemma_near(
        s.ip,
        addrs@,
        directives[i].mechanism->A_v4,
        directives[i].mechanism->A_v6,
    );
}

/// `exists` matches exactly where the target has an IPv4 address, whatever the client's
/// own address is. A target without addresses counts as a void lookup.
pub proof fn law_exists_needs_an_a_record(
    s: SpfSubject,
    answers: Seq<DnsAnswer>,
    depth: nat,
    p: SpfProgress,
    directives: Seq<DirectiveView>,
    redirect: Option<Seq<char>>,
    i: int,
    current: Seq<char>,
    target: Seq<char>,
    addrs: Vec<AddressRecord>,
)
    requires
        0 <= i < directives.len(),
        directives[i].mechanism is Exists,
        spells(s, directives[i].mechanism->Exists_0, current, target),
        p.lookups < 10,
        p.asked < answers.len(),
        answers[p.asked as int] == DnsAnswer::Addresses(addrs),
    ensures
        ({
            let r = policy_result(s, answers, depth, p, directives, redirect, i, current);
            let after = SpfProgress { lookups: p.lookups + 1, asked: p.asked + 1, void: p.void };
            let voided = SpfProgress {
                lookups: p.lookups + 1,
                asked: p.asked + 1,
                void: p.void + 1,
            };
            &&& addrs@.len() > 0 ==> r == goes_on(
                s,
                answers,
                depth,
                directives,
                redirect,
                i,
                current,
                exists|j: int| 0 <= j < addrs@.len() && (#[trigger] addrs@[j]).0 is V4,
                after,
            )
            &&& addrs@.len() == 0 && p.void < 2 ==> r == goes_on(
                s,
                answers,
                depth,
                directives,
                redirect,
                i,
                current,
                false,
                voided,
            )
            &&& addrs@.len() == 0 && p.void >= 2 ==> (r matches Flow::Go(result, _) && result
                == SpfResult::PermError)
        }),
{
    lemma_directive(s, answers, depth, p, directives[i].mechanism, current);
}

/// `include` matches exactly where the target's own policy passes the client. Where that
/// policy fails, softly fails or is neutral, the directives after the include decide; where
/// there is none or it is in error, so is the including policy.
pub proof fn law_include_matches_a_pass_alone(
    s: SpfSubject,
    answers: Seq<DnsAnswer>,
    depth: nat,
    p: SpfProgress,
    directives: Seq<DirectiveView>,
    redirect: Option<Seq<char>>,
    i: int,
    current: Seq<char>,
    target: Seq<char>,
    result: SpfResult,
    q: SpfProgress,
)
    requires
        0 <= i < directives.len(),
        directives[i].mechanism is Include,
        spells(s, directives[i].mechanism->Include_0, current, target),
        p.lookups < 10,
        depth > 0,
        host_result(
            s,
            answers,
            (depth - 1) as nat,
            (SpfProgress { lookups: p.lookups + 1, ..p }),
            target,
        ) == Flow::Go(result, q),
    ensures
        ({
            let r = policy_result(s, answers, depth, p, directives, redirect, i, current);
            &&& result == SpfResult::Pass ==> r == Flow::Go(
                stands_for(directives[i].qualifier),
                q,
            )
            &&& result == SpfResult::Fail || result == SpfResult::SoftFail || result
                == SpfResult::Neutral ==> r == policy_result(
                s,
                answers,
                depth,
                q,
                directives,
                redirect,
                i + 1,
                current,
            )
            &&& result == SpfResult::NoRecord || result == SpfResult::PermError ==> r == Flow::Go(
                SpfResult::PermError,
                q,
            )
            &&& result == SpfResult::TempError ==> r == Flow::Go(SpfResult::TempError, q)
        }),
{
    lemma_directive(s, answers, depth, p, directives[i].mechanism, current);
}

/// A policy of an `include` and an `all` gives the first one's result exactly where the
/// included policy passes the client, and the second one's where it fails, softly fails or
/// is neutral.
pub proof fn law_include_then_all(
    s: SpfSubject,
    answers: Seq<DnsAnswer>,
    depth: nat,
    p: SpfProgress,
    q1: Qualifier,
    spec: Seq<char>,
    q2: Qualifier,
    redirect: Option<Seq<char>>,
    current: Seq<char>,
    target: Seq<char>,
    result: SpfResult,
    q: SpfProgress,
)
    requires
        spells(s, spec, current, target),
        p.lookups < 10,
        depth > 0,
        host_result(
            s,
            answers,
            (depth - 1) as nat,
            (SpfProgress { lookups: p.lookups + 1, ..p }),
            target,
        ) == Flow::Go(result, q),
    ensures
        ({
            let policy = seq![
                DirectiveView { qualifier: q1, mechanism: MechanismView::Include(spec) },
                DirectiveView { qualifier: q2, mechanism: MechanismView::All },
            ];
            let r = policy_result(s, answers, depth, p, policy, redirect, 0, current);
            &&& result == SpfResult::Pass ==> r == Flow::Go(stands_for(q1), q)
            &&& result == SpfResult::Fail || result == SpfResult::SoftFail || result
                == SpfResult::Neutral ==> r == Flow::Go(stands_for(q2), q)
        }),
{
    let policy = seq![
        DirectiveView { qualifier: q1, mechanism: MechanismView::Include(spec) },
        DirectiveView { qualifier: q2, mechanism: MechanismView::All },
    ];
    law_include_matches_a_pass_alone(
        s,
        answers,
        depth,
        p,
        policy,
        redirect,
        0,
        current,
        target,
        result,
        q,
    );
    law_all_matches(s, answers, depth, q, policy, redirect, 1, current);
}

/// Where no directive matches, the policy that `redirect` names decides in full; that it
/// has none is a permanent error. Without a `redirect` the result is neutral.
pub proof fn law_redirect_decides_last(
    s: SpfSubject,
    answers: Seq<DnsAnswer>,
    depth: nat,
    p: SpfProgress,
    directives: Seq<DirectiveView>,
    current: Seq<char>,
    spec: Seq<char>,
    target: Seq<char>,
    result: SpfResult,
    q: SpfProgress,
)
    ensures
        policy_result(s, answers, depth, p, directives, None, directives.len() as int, current)
            == Flow::Go(SpfResult::Neutral, p),
        spells(s, spec, current, target) && p.lookups < 10 && depth > 0 && host_result(
            s,
            answers,
            (depth - 1) as nat,
            (SpfProgress { lookups: p.lookups + 1, ..p }),
            target,
        ) == Flow::Go(result, q) ==> policy_result(
            s,
            answers,
            depth,
            p,
            directives,
            Some(spec),
            directives.len() as int,
            current,
        ) == Flow::Go(
            if result == SpfResult::NoRecord {
                SpfResult::PermError
            } else {
                result
            },
            q,
        ),
{
}

// ---------------------------------------------------------------------------
// Mail exchanges and names
// ---------------------------------------------------------------------------

/// Whether an answer gives addresses around one of which the client is.
pub open spec fn answer_near(answer: DnsAnswer, client: IpAddr, v4: u8, v6: u8) -> bool {
    answer matches DnsAnswer::Addresses(addrs) && near_one(client, addrs@, v4, v6)
}

/// The number of mail exchanges or names that are looked at: ten at most.
pub open spec fn at_most_ten(n: nat) -> nat {
    if n < 10 {
        n
    } else {
        10
    }
}

/// `mx` looks at the addresses of the target's first ten mail exchanges in turn and matches
/// at the first one around whose addresses the client is; where it is around none of them,
/// the directives after it decide.
pub proof fn law_mx_matches_the_exchanges(
    s: SpfSubject,
    answers: Seq<DnsAnswer>,
    depth: nat,
    p: SpfProgress,
    directives: Seq<DirectiveView>,
    redirect: Option<Seq<char>>,
    i: int,
    current: Seq<char>,
    target: Seq<char>,
    mxs: Vec<MxRecord>,
    k: int,
)
    requires
        0 <= i < directives.len(),
        directives[i].mechanism is Mx,
        aimed_at(s, directives[i].mechanism->Mx_domain, current, target),
        p.lookups < 10,
        p.asked < answers.len(),
        answers[p.asked as int] == DnsAnswer::Exchanges(mxs),
        0 <= k <= at_most_ten(mxs@.len()),
        k > 0 ==> p.asked + k < answers.len(),
        forall|n: int|
            p.asked < n <= p.asked + k ==> !answer_near(
                #[trigger] answers[n],
                s.ip,
                directives[i].mechanism->Mx_v4,
                directives[i].mechanism->Mx_v6,
            ),
    ensures
        ({
            let r = policy_result(s, answers, depth, p, directives, redirect, i, current);
            let v4 = directives[i].mechanism->Mx_v4;
            let v6 = directives[i].mechanism->Mx_v6;
            let next = p.asked + 1 + k;
            &&& mxs@.len() > 0 && k < at_most_ten(mxs@.len()) && next >= answers.len() ==> r
                == Flow::<SpfResult>::Ask(DnsQueryView::Addresses(mxs@[k].exchange@))
            &&& mxs@.len() > 0 && k < at_most_ten(mxs@.len()) && next < answers.len()
                && answer_near(answers[next], s.ip, v4, v6) ==> r == Flow::Go(
                stands_for(directives[i].qualifier),
                (SpfProgress {
                    lookups: p.lookups + 1,
                    asked: (p.asked + 2 + k) as nat,
                    void: p.void,
                }),
            )
            &&& mxs@.len() > 0 && k == at_most_ten(mxs@.len()) ==> r == goes_on(
                s,
                answers,
                depth,
                directives,
                redirect,
                i,
                current,
                false,
                (SpfProgress {
                    lookups: p.lookups + 1,
                    asked: (p.asked + 1 + k) as nat,
                    void: p.void,
                }),
            )
            &&& mxs@.len() == 0 && p.void < 2 ==> r == goes_on(
                s,
                answers,
                depth,
                directives,
                redirect,
                i,
                current,
                false,
                (SpfProgress { lookups: p.lookups + 1, asked: p.asked + 1, void: p.void + 1 }),
            )
            &&& mxs@.len() == 0 && p.void >= 2 ==> (r matches Flow::Go(result, _) && result
                == SpfResult::PermError)
        }),
{
    lemma_directive(s, answers, depth, p, directives[i].mechanism, current);
    let v4 = directives[i].mechanism->Mx_v4;
    let v6 = directives[i].mechanism->Mx_v6;
    let q = asked_one(charged(p));
    if mxs@.len() > 0 {
        lemma_mx_hosts(s, answers, q, mxs@, 0, k, v4, v6, p.asked as int + 1);
    }
}

proof fn lemma_mx_hosts(
    s: SpfSubject,
    answers: Seq<DnsAnswer>,
    p: SpfProgress,
    mxs: Seq<MxRecord>,
    i: int,
    k: int,
    v4: u8,
    v6: u8,
    base: int,
)
    requires
        0 <= i <= k <= at_most_ten(mxs.len()),
        p.asked == base + i,
        i < k ==> base + k <= answers.len(),
        forall|n: int|
            base + i <= n < base + k ==> !answer_near(
                #[trigger] answers[n],
                s.ip,
                v4,
                v6,
            ),
    ensures
        ({
            let r = mx_hosts_outcome(s, answers, p, mxs, i, v4, v6);
            let next = base + k;
            &&& k < at_most_ten(mxs.len()) && next >= answers.len() ==> r == Flow::<
                MechOutcome,
            >::Ask(DnsQueryView::Addresses(mxs[k].exchange@))
            &&& k < at_most_ten(mxs.len()) && next < answers.len() && answer_near(
                answers[next],
                s.ip,
                v4,
                v6,
            ) ==> r == Flow::Go(
                MechOutcome::Match,
                (SpfProgress { asked: (next + 1) as nat, ..p }),
            )
            &&& k == at_most_ten(mxs.len()) ==> r == Flow::Go(
                MechOutcome::NoMatch,
                (SpfProgress { asked: next as nat, ..p }),
            )
        }),
    decreases k - i,
{
    if i < mxs.len() && i < 10 && p.asked < answers.len() {
        if let DnsAnswer::Addresses(addrs) = answers[p.asked as int] {
            lemma_near(s.ip, addrs@, v4, v6);
        } else {
            lemma_near(s.ip, Seq::empty(), v4, v6);
        }
    }
    if i < k {
        assert(answers[base + i] == answers[p.asked as int]);
        lemma_mx_hosts(s, answers, asked_one(p), mxs, i + 1, k, v4, v6, base);
    }
}

/// Whether an answer gives the client's own address.
pub open spec fn answer_confirms(answer: DnsAnswer, client: IpAddr) -> bool {
    answer matches DnsAnswer::Addresses(addrs) && exists|j: int|
        0 <= j < addrs@.len() && (#[trigger] addrs@[j]).0 == client
}

/// Whether a name is a domain or lies below it: the same, or with more labels before it, in
/// any case.
pub open spec fn at_or_below(name: Seq<char>, domain: Seq<char>) -> bool {
    lowered(name) == lowered(domain) || exists|n: int|
        0 <= n < name.len() && #[trigger] name[n] == '.' && lowered(name.skip(n + 1)) == lowered(
            domain,
        )
}

/// How many of the first names are the target or lie below it.
pub open spec fn inside(names: Seq<PtrRecord>, target: Seq<char>, n: int) -> nat
    decreases n,
{
    if n <= 0 {
        0
    } else {
        inside(names, target, n - 1) + if at_or_below(names[n - 1].0@, target) {
            1nat
        } else {
            0nat
        }
    }
}

/// `ptr` looks at the client's first ten names in turn: a name outside the target is passed
/// over without asking, the addresses of one inside it are asked for, and the first one whose
/// addresses hold the client's own makes it match. Where there is none, the directives after
/// it decide.
pub proof fn law_ptr_matches_a_confirmed_name(
    s: SpfSubject,
    answers: Seq<DnsAnswer>,
    depth: nat,
    p: SpfProgress,
    directives: Seq<DirectiveView>,
    redirect: Option<Seq<char>>,
    i: int,
    current: Seq<char>,
    target: Seq<char>,
    names: Vec<PtrRecord>,
    k: int,
)
    requires
        0 <= i < directives.len(),
        directives[i].mechanism is Ptr,
        aimed_at(s, directives[i].mechanism->Ptr_0, current, target),
        p.lookups < 10,
        p.asked < answers.len(),
        answers[p.asked as int] == DnsAnswer::Pointers(names),
        0 <= k <= at_most_ten(names@.len()),
        p.asked + 1 + inside(names@, target, k) <= answers.len(),
        forall|n: int|
            p.asked < n <= p.asked + inside(names@, target, k) ==> !answer_confirms(
                #[trigger] answers[n],
                s.ip,
            ),
    ensures
        ({
            let r = policy_result(s, answers, depth, p, directives, redirect, i, current);
            let next = (p.asked + 1 + inside(names@, target, k)) as nat;
            &&& names@.len() > 0 && k == at_most_ten(names@.len()) ==> r == goes_on(
                s,
                answers,
                depth,
                directives,
                redirect,
                i,
                current,
                false,
                (SpfProgress { lookups: p.lookups + 1, asked: next, void: p.void }),
            )
            &&& k < at_most_ten(names@.len()) && at_or_below(names@[k].0@, target) && next
                >= answers.len() ==> r == Flow::<SpfResult>::Ask(
                DnsQueryView::Addresses(names@[k].0@),
            )
            &&& k < at_most_ten(names@.len()) && at_or_below(names@[k].0@, target) && next
                < answers.len() && answer_confirms(answers[next as int], s.ip) ==> r == Flow::Go(
                stands_for(directives[i].qualifier),
                (SpfProgress { lookups: p.lookups + 1, asked: next + 1, void: p.void }),
            )
            &&& names@.len() == 0 && p.void < 2 ==> r == goes_on(
                s,
                answers,
                depth,
                directives,
                redirect,
                i,
                current,
                false,
                (SpfProgress { lookups: p.lookups + 1, asked: p.asked + 1, void: p.void + 1 }),
            )
            &&& names@.len() == 0 && p.void >= 2 ==> (r matches Flow::Go(result, _) && result
                == SpfResult::PermError)
        }),
{
    lemma_directive(s, answers, depth, p, directives[i].mechanism, current);
    let q = asked_one(charged(p));
    if names@.len() > 0 {
        lemma_ptr_names(s, answers, q, names@, 0, k, target, p.asked as int + 1);
    }
}

/// `ptr` never matches on a name outside the target, nor on one that was not confirmed: where
/// it matches, one of the client's first ten names is inside the target and an answer holds
/// the client's address.
pub proof fn law_ptr_match_is_confirmed(
    s: SpfSubject,
    answers: Seq<DnsAnswer>,
    depth: nat,
    p: SpfProgress,
    domain: Option<Seq<char>>,
    current: Seq<char>,
    target: Seq<char>,
    names: Vec<PtrRecord>,
    q: SpfProgress,
)
    requires
        aimed_at(s, domain, current, target),
        p.asked < answers.len(),
        answers[p.asked as int] == DnsAnswer::Pointers(names),
        mechanism_outcome(s, answers, depth, p, MechanismView::Ptr(domain), current) == Flow::Go(
            MechOutcome::Match,
            q,
        ),
    ensures
        exists|k: int, a: int|
            0 <= k < at_most_ten(names@.len()) && p.asked < a < answers.len() && at_or_below(
                (#[trigger] names@[k]).0@,
                target,
            ) && answer_confirms(#[trigger] answers[a], s.ip),
{
    lemma_ptr_sound(s, answers, asked_one(charged(p)), names@, 0, target);
}

proof fn lemma_ptr_sound(
    s: SpfSubject,
    answers: Seq<DnsAnswer>,
    p: SpfProgress,
    names: Seq<PtrRecord>,
    i: int,
    target: Seq<char>,
)
    requires
        i >= 0,
    ensures
        ptr_names_outcome(s, answers, p, names, i, target) matches Flow::Go(o, _) ==> o
            == MechOutcome::Match ==> exists|k: int, a: int|
            0 <= k < at_most_ten(names.len()) && p.asked <= a < answers.len() && at_or_below(
                (#[trigger] names[k]).0@,
                target,
            ) && answer_confirms(#[trigger] answers[a], s.ip),
    decreases names.len() - i,
{
    if i < names.len() && i < 10 {
        lemma_within(names[i].0@, target);
        lemma_ptr_sound(s, answers, p, names, i + 1, target);
        lemma_ptr_sound(s, answers, asked_one(p), names, i + 1, target);
        if p.asked < answers.len() {
            lemma_confirms(answers[p.asked as int], s.ip);
            let a = p.asked as int;
            assert(answers[a] == answers[p.asked as int]);
            assert(names[i] == names[i]);
        }
    }
}

proof fn lemma_confirms(answer: DnsAnswer, client: IpAddr)
    ensures
        answer_confirms(answer, client) == (answer matches DnsAnswer::Addresses(addrs)
            && addrs@.contains(AddressRecord(client))),
{
    if let DnsAnswer::Addresses(addrs) = answer {
        if addrs@.contains(AddressRecord(client)) {
            let j = choose|j: int| 0 <= j < addrs@.len() && addrs@[j] == AddressRecord(client);
            assert(addrs@[j].0 == client);
        }
        if answer_confirms(answer, client) {
            let j = choose|j: int| 0 <= j < addrs@.len() && (#[trigger] addrs@[j]).0 == client;
            assert(addrs@[j] == AddressRecord(client));
        }
    }
}

proof fn lemma_within(name: Seq<char>, target: Seq<char>)
    ensures
        within(name, target) == at_or_below(name, target),
{
    let n = lowered(name);
    let t = lowered(target);
    let below = seq!['.'] + t;
    if within(name, target) && n != t {
        let k = n.len() - below.len();
        let tail = n.skip(k);
        assert(tail[0] == '.');
        assert(n[k] == '.');
        lemma_lower_char(name[k]);
        assert(name[k] == '.');
        assert(lowered(name.skip(k + 1)) =~= tail.skip(1));
        assert(below.skip(1) =~= t);
    }
    if at_or_below(name, target) && n != t {
        let k = choose|k: int|
            0 <= k < name.len() && #[trigger] name[k] == '.' && lowered(name.skip(k + 1)) == t;
        lemma_lower_char(name[k]);
        assert(n.skip(k + 1) =~= lowered(name.skip(k + 1)));
        assert(n.skip(k) =~= below);
        assert(k == n.len() - below.len());
    }
}

proof fn lemma_inside(names: Seq<PtrRecord>, target: Seq<char>, i: int, k: int)
    requires
        i <= k,
    ensures
        inside(names, target, i) <= inside(names, target, k),
    decreases k - i,
{
    if i < k {
        lemma_inside(names, target, i, k - 1);
    }
}

proof fn lemma_ptr_names(
    s: SpfSubject,
    answers: Seq<DnsAnswer>,
    p: SpfProgress,
    names: Seq<PtrRecord>,
    i: int,
    k: int,
    target: Seq<char>,
    base: int,
)
    requires
        0 <= i <= k <= at_most_ten(names.len()),
        p.asked == base + inside(names, target, i),
        base + inside(names, target, k) <= answers.len(),
        forall|n: int|
            base <= n < base + inside(names, target, k) ==> !answer_confirms(
                #[trigger] answers[n],
                s.ip,
            ),
    ensures
        ({
            let r = ptr_names_outcome(s, answers, p, names, i, target);
            let next = (base + inside(names, target, k)) as nat;
            &&& k == at_most_ten(names.len()) ==> r == Flow::Go(
                MechOutcome::NoMatch,
                (SpfProgress { asked: next, ..p }),
            )
            &&& k < at_most_ten(names.len()) && at_or_below(names[k].0@, target) && next
                >= answers.len() ==> r == Flow::<MechOutcome>::Ask(
                DnsQueryView::Addresses(names[k].0@),
            )
            &&& k < at_most_ten(names.len()) && at_or_below(names[k].0@, target) && next
                < answers.len() && answer_confirms(answers[next as int], s.ip) ==> r == Flow::Go(
                MechOutcome::Match,
                (SpfProgress { asked: next + 1, ..p }),
            )
        }),
    decreases k - i,
{
    if i < names.len() && i < 10 {
        lemma_within(names[i].0@, target);
    }
    if p.asked < answers.len() {
        lemma_confirms(answers[p.asked as int], s.ip);
    }
    if i < k {
        lemma_inside(names, target, i + 1, k);
        assert(inside(names, target, i + 1) == inside(names, target, i) + if at_or_below(
            names[i].0@,
            target,
        ) {
            1nat
        } else {
            0nat
        });
        if at_or_below(names[i].0@, target) {
            assert(!answer_confirms(answers[p.asked as int], s.ip));
            lemma_ptr_names(s, answers, asked_one(p), names, i + 1, k, target, base);
        } else {
            lemma_ptr_names(s, answers, p, names, i + 1, k, target, base);
        }
    }
}

// ---------------------------------------------------------------------------
// Policies
// ---------------------------------------------------------------------------

/// The policy of a domain is its one TXT record that is an SPF record. Without one there is
/// no record; several, or a malformed one, are a permanent error. What is not answered is
/// asked for.
pub proof fn law_domain_has_one_policy(
    s: SpfSubject,
    answers: Seq<DnsAnswer>,
    depth: nat,
    p: SpfProgress,
    domain: Seq<char>,
    txts: Vec<TxtRecord>,
    k: int,
    j: int,
)
    ensures
        p.asked >= answers.len() ==> host_result(s, answers, depth, p, domain) == Flow::<
            SpfResult,
        >::Ask(DnsQueryView::Txt(domain)),
        p.asked < answers.len() && answers[p.asked as int] == DnsAnswer::Txt(txts) ==> {
            let r = host_result(s, answers, depth, p, domain);
            let after = SpfProgress { asked: p.asked + 1, ..p };
            &&& (forall|n: int| 0 <= n < txts@.len() ==> !spf_text((#[trigger] txts@[n]).0@))
                ==> r == Flow::Go(SpfResult::NoRecord, after)
            &&& 0 <= k < j < txts@.len() && spf_text(txts@[k].0@) && spf_text(txts@[j].0@) ==> r
                == Flow::Go(SpfResult::PermError, after)
            &&& 0 <= k < txts@.len() && spf_text(txts@[k].0@) && (forall|n: int|
                0 <= n < txts@.len() && n != k ==> !spf_text((#[trigger] txts@[n]).0@)) ==> r
                == match SpfRecord::parsed(txts@[k].0@) {
                Ok(record) => policy_result(
                    s,
                    answers,
                    depth,
                    after,
                    record.directives,
                    record.redirect,
                    0,
                    domain,
                ),
                Err(_) => Flow::Go(SpfResult::PermError, after),
            }
        },
        p.asked < answers.len() && !(answers[p.asked as int] is Txt) ==> host_result(
            s,
            answers,
            depth,
            p,
            domain,
        ) == Flow::Go(SpfResult::NoRecord, (SpfProgress { asked: p.asked + 1, ..p })),
{
    let all = txts@;
    lemma_policies_none(all);
    if 0 <= k < j < all.len() && spf_text(all[k].0@) && spf_text(all[j].0@) {
        lemma_policies_many(all, k, j);
    }
    if 0 <= k < all.len() {
        lemma_policies_one(all, k);
    }
}

proof fn lemma_policies_none(txts: Seq<TxtRecord>)
    ensures
        (forall|n: int| 0 <= n < txts.len() ==> !spf_text((#[trigger] txts[n]).0@)) ==> policies(
            txts,
        ).len() == 0,
    decreases txts.len(),
{
    if txts.len() > 0 {
        let front = txts.drop_last();
        lemma_policies_none(front);
        if forall|n: int| 0 <= n < txts.len() ==> !spf_text((#[trigger] txts[n]).0@) {
            assert forall|n: int| 0 <= n < front.len() implies !spf_text(
                (#[trigger] front[n]).0@,
            ) by {
                assert(front[n] == txts[n]);
            }
            assert(!spf_text(txts[txts.len() - 1].0@));
        }
    }
}

proof fn lemma_policies_some(txts: Seq<TxtRecord>, k: int)
    requires
        0 <= k < txts.len(),
        spf_text(txts[k].0@),
    ensures
        policies(txts).len() > 0,
    decreases txts.len(),
{
    if k < txts.len() - 1 {
        assert(txts.drop_last()[k] == txts[k]);
        lemma_policies_some(txts.drop_last(), k);
    }
}

proof fn lemma_policies_many(txts: Seq<TxtRecord>, k: int, j: int)
    requires
        0 <= k < j < txts.len(),
        spf_text(txts[k].0@),
        spf_text(txts[j].0@),
    ensures
        policies(txts).len() > 1,
    decreases txts.len(),
{
    let front = txts.drop_last();
    assert(front[k] == txts[k]);
    if j < txts.len() - 1 {
        assert(front[j] == txts[j]);
        lemma_policies_many(front, k, j);
    } else {
        lemma_policies_some(front, k);
    }
}

proof fn lemma_policies_one(txts: Seq<TxtRecord>, k: int)
    requires
        0 <= k < txts.len(),
    ensures
        spf_text(txts[k].0@) && (forall|n: int|
            0 <= n < txts.len() && n != k ==> !spf_text((#[trigger] txts[n]).0@)) ==> policies(txts)
            == seq![txts[k].0@],
    decreases txts.len(),
{
    if spf_text(txts[k].0@) && (forall|n: int|
        0 <= n < txts.len() && n != k ==> !spf_text((#[trigger] txts[n]).0@)) {
        let front = txts.drop_last();
        if k == txts.len() - 1 {
            assert forall|n: int| 0 <= n < front.len() implies !spf_text(
                (#[trigger] front[n]).0@,
            ) by {
                assert(front[n] == txts[n]);
            }
            lemma_policies_none(front);
            assert(policies(front) =~= Seq::empty());
            assert(Seq::<Seq<char>>::empty().push(txts[k].0@) =~= seq![txts[k].0@]);
        } else {
            assert(front[k] == txts[k]);
            assert forall|n: int| 0 <= n < front.len() && n != k implies !spf_text(
                (#[trigger] front[n]).0@,
            ) by {
                assert(front[n] == txts[n]);
            }
            lemma_policies_one(front, k);
            assert(!spf_text(txts[txts.len() - 1].0@));
        }
    }
}

/// A sender `local@domain` is checked at its domain: an evaluation is that of the domain's
/// policy, from the start, with ten nested policies allowed.
pub proof fn law_sender_is_checked_at_its_domain(
    ip: IpAddr,
    helo: Seq<char>,
    local: Seq<char>,
    domain: Seq<char>,
    answers: Seq<DnsAnswer>,
)
    requires
        local.len() > 0,
        domain.len() > 0,
        forall|i: int| 0 <= i < domain.len() ==> domain[i] != '@',
    ensures
        ({
            let s = SpfSubject { ip, sender_local: local, sender_domain: domain, helo };
            let start = SpfProgress { lookups: 0, void: 0, asked: 0 };
            let mail_from = local + seq!['@'] + domain;
            &&& subject(ip, helo, mail_from) == s
            &&& spf_step(ip, helo, mail_from, answers) == match host_result(
                s,
                answers,
                10,
                start,
                domain,
            ) {
                Flow::Ask(query) => SpfStepView::Ask(query),
                Flow::Go(result, _) => SpfStepView::Done(result),
            }
        }),
{
    let mail_from = local + seq!['@'] + domain;
    let n = local.len() as int;
    lemma_rfind(mail_from, '@');
    assert(mail_from[n] == '@');
    assert forall|j: int| n < j < mail_from.len() implies mail_from[j] != '@' by {
        assert(mail_from[j] == domain[j - n - 1]);
    }
    assert(rfind(mail_from, '@') == Some(n));
    assert(mail_from.take(n) =~= local);
    assert(mail_from.skip(n + 1) =~= domain);
}

/// Each result has a word of its own.
pub proof fn law_result_has_its_token(a: SpfResult, b: SpfResult)
    ensures
        SpfResult::Pass.token() == "pass"@,
        SpfResult::Fail.token() == "fail"@,
        SpfResult::SoftFail.token() == "softfail"@,
        SpfResult::Neutral.token() == "neutral"@,
        SpfResult::NoRecord.token() == "none"@,
        SpfResult::TempError.token() == "temperror"@,
        SpfResult::PermError.token() == "permerror"@,
        a.token() == b.token() ==> a == b,
{
    reveal_strlit("pass");
    reveal_strlit("fail");
    reveal_strlit("softfail");
    reveal_strlit("neutral");
    reveal_strlit("none");
    reveal_strlit("temperror");
    reveal_strlit("permerror");
    assert("pass"@[0] == 'p' && "fail"@[0] == 'f' && "none"@[0] == 'n');
    assert("temperror"@[0] == 't' && "permerror"@[0] == 'p');
    assert("pass"@.len() == 4 && "fail"@.len() == 4 && "none"@.len() == 4);
    assert("softfail"@.len() == 8 && "neutral"@.len() == 7);
    assert("temperror"@.len() == 9 && "permerror"@.len() == 9);
}

/// An answer of another kind than the one asked for holds nothing: it does not match and
/// counts as a void lookup.
pub proof fn law_answer_of_another_kind_is_void(
    s: SpfSubject,
    answers: Seq<DnsAnswer>,
    depth: nat,
    p: SpfProgress,
    directives: Seq<DirectiveView>,
    redirect: Option<Seq<char>>,
    i: int,
    current: Seq<char>,
    target: Seq<char>,
)
    requires
        0 <= i < directives.len(),
        p.lookups < 10,
        p.void < 2,
        p.asked < answers.len(),
        match directives[i].mechanism {
            MechanismView::A { domain, .. } => aimed_at(s, domain, current, target)
                && !(answers[p.asked as int] is Addresses),
            MechanismView::Exists(spec) => spells(s, spec, current, target)
                && !(answers[p.asked as int] is Addresses),
            MechanismView::Mx { domain, .. } => aimed_at(s, domain, current, target)
                && !(answers[p.asked as int] is Exchanges),
            MechanismView::Ptr(domain) => aimed_at(s, domain, current, target)
                && !(answers[p.asked as int] is Pointers),
            _ => false,
        },
    ensures
        policy_result(s, answers, depth, p, directives, redirect, i, current) == goes_on(
            s,
            answers,
            depth,
            directives,
            redirect,
            i,
            current,
            false,
            (SpfProgress { lookups: p.lookups + 1, asked: p.asked + 1, void: p.void + 1 }),
        ),
{
    lemma_directive(s, answers, depth, p, directives[i].mechanism, current);
}

/// A sender whose domain publishes a policy of an `include` and an `all` gets the first one's
/// result exactly where the included domain's own policy passes the client, and the second
/// one's where that policy fails, softly fails or is neutral.
pub proof fn law_included_policy_decides_for_a_sender(
    ip: IpAddr,
    helo: Seq<char>,
    local: Seq<char>,
    domain: Seq<char>,
    answers: Seq<DnsAnswer>,
    txts: Vec<TxtRecord>,
    k: int,
    q1: Qualifier,
    spec: Seq<char>,
    q2: Qualifier,
    target: Seq<char>,
    result: SpfResult,
    q: SpfProgress,
)
    requires
        local.len() > 0,
        domain.len() > 0,
        forall|i: int| 0 <= i < domain.len() ==> domain[i] != '@',
        answers.len() > 0,
        answers[0] == DnsAnswer::Txt(txts),
        0 <= k < txts@.len(),
        spf_text(txts@[k].0@),
        forall|n: int| 0 <= n < txts@.len() && n != k ==> !spf_text((#[trigger] txts@[n]).0@),
        SpfRecord::parsed(txts@[k].0@) is Ok,
        SpfRecord::parsed(txts@[k].0@)->Ok_0.directives == seq![
            DirectiveView { qualifier: q1, mechanism: MechanismView::Include(spec) },
            DirectiveView { qualifier: q2, mechanism: MechanismView::All },
        ],
        ({
            let s = SpfSubject { ip, sender_local: local, sender_domain: domain, helo };
            &&& spells(s, spec, domain, target)
            &&& host_result(
                s,
                answers,
                9,
                (SpfProgress { lookups: 1, void: 0, asked: 1 }),
                target,
            ) == Flow::Go(result, q)
        }),
    ensures
        ({
            let r = spf_step(ip, helo, local + seq!['@'] + domain, answers);
            &&& result == SpfResult::Pass ==> r == SpfStepView::Done(stands_for(q1))
            &&& result == SpfResult::Fail || result == SpfResult::SoftFail || result
                == SpfResult::Neutral ==> r == SpfStepView::Done(stands_for(q2))
            &&& result == SpfResult::NoRecord || result == SpfResult::PermError ==> r
                == SpfStepView::Done(SpfResult::PermError)
        }),
{
    let s = SpfSubject { ip, sender_local: local, sender_domain: domain, helo };
    let start = SpfProgress { lookups: 0, void: 0, asked: 0 };
    let after = SpfProgress { lookups: 0, void: 0, asked: 1 };
    law_sender_is_checked_at_its_domain(ip, helo, local, domain, answers);
    law_domain_has_one_policy(s, answers, 10, start, domain, txts, k, k);
    let record = SpfRecord::parsed(txts@[k].0@)->Ok_0;
    law_include_then_all(
        s,
        answers,
        10,
        after,
        q1,
        spec,
        q2,
        record.redirect,
        domain,
        target,
        result,
        q,
    );
    law_include_matches_a_pass_alone(
        s,
        answers,
        10,
        after,
        record.directives,
        record.redirect,
        0,
        domain,
        target,
        result,
        q,
    );
}

} // verus!
