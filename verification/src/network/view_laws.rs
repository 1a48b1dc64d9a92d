//! A view hides nothing: two records look alike exactly where they agree in every field.

use vstd::prelude::*;

use crate::network::dkim::signature::DkimSignature;
use crate::network::dkim::verify::{outcome_views, DkimOutcome};
use crate::network::dmarc::eval::DmarcResult;
use crate::network::dns::dkim::DkimRecord;
use crate::network::dns::dmarc::DmarcRecord;
use crate::network::dns::tlsa::{tlsa_views, TlsaRecord};
use crate::network::mta_sts::policy::MtaStsPolicy;
use crate::network::spf::record::{directive_views, Directive, Mechanism, SpfRecord};
use crate::text::{opt_view, texts};

verus! {

/// Whether two lists of strings hold the same texts in the same order.
spec fn same_texts(a: Seq<String>, b: Seq<String>) -> bool {
    a.len() == b.len() && forall|i: int| 0 <= i < a.len() ==> (#[trigger] a[i])@ == b[i]@
}

/// Whether two optional strings are both absent or hold the same text.
spec fn same_optional(a: Option<String>, b: Option<String>) -> bool {
    match (a, b) {
        (Some(x), Some(y)) => x@ == y@,
        (None, None) => true,
        _ => false,
    }
}

proof fn lemma_same_texts(a: Seq<String>, b: Seq<String>)
    ensures
        texts(a) == texts(b) <==> same_texts(a, b),
{
    if texts(a) == texts(b) {
        assert(texts(a).len() == a.len());
        assert(texts(b).len() == b.len());
        assert forall|i: int| 0 <= i < a.len() implies (#[trigger] a[i])@ == b[i]@ by {
            assert(texts(a)[i] == a[i]@);
            assert(texts(b)[i] == b[i]@);
        }
    }
    if same_texts(a, b) {
        assert(texts(a) =~= texts(b));
    }
}

proof fn lemma_same_optional(a: Option<String>, b: Option<String>)
    ensures
        opt_view(a) == opt_view(b) <==> same_optional(a, b),
{
}

/// Two MTA-STS policies look alike exactly where they have the same mode, the same lifetime
/// and the same patterns in the same order.
pub proof fn law_policies_look_alike_by_their_fields(a: MtaStsPolicy, b: MtaStsPolicy)
    ensures
        a@ == b@ <==> (a.mode == b.mode && a.max_age == b.max_age && a.mx@.len() == b.mx@.len()
            && forall|i: int| 0 <= i < a.mx@.len() ==> (#[trigger] a.mx@[i])@ == b.mx@[i]@),
{
    lemma_same_texts(a.mx@, b.mx@);
}

/// Two DMARC records look alike exactly where all their tags agree.
pub proof fn law_dmarc_records_look_alike_by_their_fields(a: DmarcRecord, b: DmarcRecord)
    ensures
        a@ == b@ <==> (a.policy == b.policy && a.subdomain_policy == b.subdomain_policy
            && a.adkim == b.adkim && a.aspf == b.aspf && a.pct == b.pct && (match (a.rua, b.rua) {
            (Some(x), Some(y)) => x@ == y@,
            (None, None) => true,
            _ => false,
        })),
{
    lemma_same_optional(a.rua, b.rua);
}

/// Two DMARC results look alike exactly where they say the same of the message and were made
/// under records that look alike.
pub proof fn law_dmarc_results_look_alike_by_their_fields(a: DmarcResult, b: DmarcResult)
    ensures
        a@ == b@ <==> (a.record_found == b.record_found && a.pass == b.pass && a.spf_aligned
            == b.spf_aligned && a.dkim_aligned == b.dkim_aligned && a.disposition == b.disposition
            && a.policy_domain@ == b.policy_domain@ && (match (a.published, b.published) {
            (Some(x), Some(y)) => x@ == y@,
            (None, None) => true,
            _ => false,
        })),
{
}

/// Two DKIM key records look alike exactly where version, key type and key agree.
pub proof fn law_key_records_look_alike_by_their_fields(a: DkimRecord, b: DkimRecord)
    ensures
        a@ == b@ <==> (a.public_key@ == b.public_key@ && (match (a.version, b.version) {
            (Some(x), Some(y)) => x@ == y@,
            (None, None) => true,
            _ => false,
        }) && (match (a.key_type, b.key_type) {
            (Some(x), Some(y)) => x@ == y@,
            (None, None) => true,
            _ => false,
        })),
{
    lemma_same_optional(a.version, b.version);
    lemma_same_optional(a.key_type, b.key_type);
}

/// Two DKIM signatures look alike exactly where every tag that was read agrees, the signed
/// header names in number and order.
pub proof fn law_signatures_look_alike_by_their_fields(a: DkimSignature, b: DkimSignature)
    ensures
        a@ == b@ <==> (a.algorithm == b.algorithm && a.signature@ == b.signature@ && a.body_hash@
            == b.body_hash@ && a.header_canon == b.header_canon && a.body_canon == b.body_canon
            && a.domain@ == b.domain@ && a.selector@ == b.selector@ && a.body_length
            == b.body_length && a.expiration == b.expiration && a.b_stripped_value@
            == b.b_stripped_value@ && a.signed_headers@.len() == b.signed_headers@.len()
            && forall|i: int|
            0 <= i < a.signed_headers@.len() ==> (#[trigger] a.signed_headers@[i])@
                == b.signed_headers@[i]@),
{
    lemma_same_texts(a.signed_headers@, b.signed_headers@);
}

/// Two lists of DKIM outcomes look alike exactly where they hold, in the same order, the same
/// domains, selectors and results.
pub proof fn law_outcomes_look_alike_by_their_fields(a: Seq<DkimOutcome>, b: Seq<DkimOutcome>)
    ensures
        outcome_views(a) == outcome_views(b) <==> (a.len() == b.len() && forall|i: int|
            0 <= i < a.len() ==> (#[trigger] a[i]).domain@ == b[i].domain@ && a[i].selector@
                == b[i].selector@ && a[i].result == b[i].result),
{
    if outcome_views(a) == outcome_views(b) {
        assert(outcome_views(a).len() == a.len());
        assert(outcome_views(b).len() == b.len());
        assert forall|i: int| 0 <= i < a.len() implies (#[trigger] a[i])@ == b[i]@ by {
            assert(outcome_views(a)[i] == a[i]@);
            assert(outcome_views(b)[i] == b[i]@);
        }
    }
    if a.len() == b.len() && forall|i: int|
        0 <= i < a.len() ==> (#[trigger] a[i]).domain@ == b[i].domain@ && a[i].selector@
            == b[i].selector@ && a[i].result == b[i].result {
        assert forall|i: int| 0 <= i < a.len() implies outcome_views(a)[i] == outcome_views(
            b,
        )[i] by {
            assert(a[i].domain@ == b[i].domain@);
        }
        assert(outcome_views(a) =~= outcome_views(b));
    }
}

/// Two lists of TLSA records look alike exactly where they hold, in the same order, records
/// with the same usage, selector, matching type and data.
pub proof fn law_tlsa_records_look_alike_by_their_fields(a: Seq<TlsaRecord>, b: Seq<TlsaRecord>)
    ensures
        tlsa_views(a) == tlsa_views(b) <==> (a.len() == b.len() && forall|i: int|
            0 <= i < a.len() ==> (#[trigger] a[i]).usage == b[i].usage && a[i].selector
                == b[i].selector && a[i].matching == b[i].matching && a[i].data@ == b[i].data@),
{
    if tlsa_views(a) == tlsa_views(b) {
        assert(tlsa_views(a).len() == a.len());
        assert(tlsa_views(b).len() == b.len());
        assert forall|i: int| 0 <= i < a.len() implies (#[trigger] a[i])@ == b[i]@ by {
            assert(tlsa_views(a)[i] == a[i]@);
            assert(tlsa_views(b)[i] == b[i]@);
        }
    }
    if a.len() == b.len() && forall|i: int|
        0 <= i < a.len() ==> (#[trigger] a[i]).usage == b[i].usage && a[i].selector
            == b[i].selector && a[i].matching == b[i].matching && a[i].data@ == b[i].data@ {
        assert forall|i: int| 0 <= i < a.len() implies tlsa_views(a)[i] == tlsa_views(b)[i] by {
            assert(a[i].usage == b[i].usage);
        }
        assert(tlsa_views(a) =~= tlsa_views(b));
    }
}

/// Two SPF mechanisms look alike exactly where they are of the same kind and name the same
/// network, or the same domain and prefix lengths.
pub proof fn law_mechanisms_look_alike_by_their_fields(a: Mechanism, b: Mechanism)
    ensures
        a@ == b@ <==> (match (a, b) {
            (Mechanism::All, Mechanism::All) => true,
            (
                Mechanism::Ip4 { net: n1, prefix: p1 },
                Mechanism::Ip4 { net: n2, prefix: p2 },
            ) => n1 == n2 && p1 == p2,
            (
                Mechanism::Ip6 { net: n1, prefix: p1 },
                Mechanism::Ip6 { net: n2, prefix: p2 },
            ) => n1 == n2 && p1 == p2,
            (
                Mechanism::A { domain: d1, v4: x1, v6: y1 },
                Mechanism::A { domain: d2, v4: x2, v6: y2 },
            ) => x1 == x2 && y1 == y2 && (match (d1, d2) {
                (Some(s), Some(t)) => s@ == t@,
                (None, None) => true,
                _ => false,
            }),
            (
                Mechanism::Mx { domain: d1, v4: x1, v6: y1 },
                Mechanism::Mx { domain: d2, v4: x2, v6: y2 },
            ) => x1 == x2 && y1 == y2 && (match (d1, d2) {
                (Some(s), Some(t)) => s@ == t@,
                (None, None) => true,
                _ => false,
            }),
            (Mechanism::Include(s), Mechanism::Include(t)) => s@ == t@,
            (Mechanism::Exists(s), Mechanism::Exists(t)) => s@ == t@,
            (Mechanism::Ptr(d1), Mechanism::Ptr(d2)) => match (d1, d2) {
                (Some(s), Some(t)) => s@ == t@,
                (None, None) => true,
                _ => false,
            },
            _ => false,
        }),
{
}

/// Two SPF records look alike exactly where they hold, in the same order, the same qualifiers
/// with mechanisms that look alike, and the same redirect.
pub proof fn law_spf_records_look_alike_by_their_terms(a: SpfRecord, b: SpfRecord)
    ensures
        a@ == b@ <==> (a.directives@.len() == b.directives@.len() && (match (
            a.redirect,
            b.redirect,
        ) {
            (Some(x), Some(y)) => x@ == y@,
            (None, None) => true,
            _ => false,
        }) && forall|i: int|
            0 <= i < a.directives@.len() ==> (#[trigger] a.directives@[i]).qualifier
                == b.directives@[i].qualifier && a.directives@[i].mechanism@
                == b.directives@[i].mechanism@),
{
    lemma_same_optional(a.redirect, b.redirect);
    lemma_same_directives(a.directives@, b.directives@);
}

proof fn lemma_same_directives(a: Seq<Directive>, b: Seq<Directive>)
    ensures
        directive_views(a) == directive_views(b) <==> (a.len() == b.len() && forall|i: int|
            0 <= i < a.len() ==> (#[trigger] a[i]).qualifier == b[i].qualifier && a[i].mechanism@
                == b[i].mechanism@),
{
    let x = directive_views(a);
    let y = directive_views(b);
    assert(x.len() == a.len());
    assert(y.len() == b.len());
    if x == y {
        assert forall|i: int| 0 <= i < a.len() implies (#[trigger] a[i])@ == b[i]@ by {
            assert(x[i] == a[i]@);
            assert(y[i] == b[i]@);
        }
    }
    if a.len() == b.len() && forall|i: int|
        0 <= i < a.len() ==> (#[trigger] a[i]).qualifier == b[i].qualifier && a[i].mechanism@
            == b[i].mechanism@ {
        assert forall|i: int| 0 <= i < a.len() implies x[i] == y[i] by {
            assert(a[i].qualifier == b[i].qualifier);
        }
        assert(x =~= y);
    }
}

} // verus!
