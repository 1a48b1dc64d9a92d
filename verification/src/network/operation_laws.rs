//! What operations return, for every call of them.

use vstd::prelude::*;

use crate::network::dane::{authenticates, usage_accepts, DaneVerifier};
use crate::network::dns::lookup::{dkim_name, dmarc_name, tlsa_name};
use crate::network::dns::manager::{
    map_mx, map_tlsa, records_of, secure_answers, strip_root, ValidatedAnswer,
};
use crate::network::dns::mx::MxRecord;
use crate::network::dns::tlsa::{TlsaRecord, TlsaUsage};
use crate::network::mta_sts::discovery_name;
use crate::network::mta_sts::fetch::{policy_host, request};
use crate::text::{blobs, decimal, without_trailing_dots};

verus! {

/// The TLSA records of a mail exchange are looked for at `_<port>._tcp.<host>`, a key record
/// at `<selector>._domainkey.<domain>`, a DMARC record at `_dmarc.<domain>`, the discovery
/// record of a policy at `_mta-sts.<domain>`, and the policy on the host `mta-sts.<domain>`.
pub proof fn law_lookup_names(
    port: u16,
    host: &str,
    selector: &str,
    domain: &str,
    tlsa: String,
    dkim: String,
    dmarc: String,
    discovery: String,
    policy: String,
)
    requires
        call_ensures(tlsa_name, (port, host), tlsa),
        call_ensures(dkim_name, (selector, domain), dkim),
        call_ensures(dmarc_name, (domain,), dmarc),
        call_ensures(discovery_name, (domain,), discovery),
        call_ensures(policy_host, (domain,), policy),
    ensures
        tlsa@ == seq!['_'] + decimal(port as nat) + seq!['.', '_', 't', 'c', 'p', '.']
            + without_trailing_dots(host@),
        dkim@ == selector@ + seq!['.', '_', 'd', 'o', 'm', 'a', 'i', 'n', 'k', 'e', 'y', '.']
            + domain@,
        dmarc@ == seq!['_', 'd', 'm', 'a', 'r', 'c', '.'] + domain@,
        discovery@ == seq!['_', 'm', 't', 'a', '-', 's', 't', 's', '.'] + domain@,
        policy@ == seq!['m', 't', 'a', '-', 's', 't', 's', '.'] + domain@,
{
    reveal_strlit("_");
    reveal_strlit("._tcp.");
    reveal_strlit("._domainkey.");
    reveal_strlit("_dmarc.");
    reveal_strlit("_mta-sts.");
    reveal_strlit("mta-sts.");
    assert("_"@ =~= seq!['_']);
    assert("._tcp."@ =~= seq!['.', '_', 't', 'c', 'p', '.']);
    assert("._domainkey."@ =~= seq!['.', '_', 'd', 'o', 'm', 'a', 'i', 'n', 'k', 'e', 'y', '.']);
    assert("_dmarc."@ =~= seq!['_', 'd', 'm', 'a', 'r', 'c', '.']);
    assert("_mta-sts."@ =~= seq!['_', 'm', 't', 'a', '-', 's', 't', 's', '.']);
    assert("mta-sts."@ =~= seq!['m', 't', 'a', '-', 's', 't', 's', '.']);
}

/// A policy is asked for with a GET of its well-known path, for the host that serves it, on a
/// connection that is closed afterwards.
pub proof fn law_request_asks_for_the_policy(host: &str, r: String)
    requires
        call_ensures(request, (host,), r),
    ensures
        r@ == "GET /.well-known/mta-sts.txt HTTP/1.1\r\nHost: "@ + host@
            + "\r\nUser-Agent: snail-mta-sts\r\nAccept: text/plain\r\nConnection: close\r\n\r\n"@,
{
}

/// A mail exchange keeps its preference and its name without the root's dot; one whose name
/// is the root is a null one.
pub proof fn law_mail_exchange_is_its_name(
    preference: u16,
    exchange: &str,
    r: MxRecord,
    name: String,
)
    requires
        call_ensures(map_mx, (preference, exchange), r),
        call_ensures(strip_root, (exchange,), name),
    ensures
        r.preference == preference,
        r.exchange@ == without_trailing_dots(exchange@),
        name@ == without_trailing_dots(exchange@),
{
}

/// Whether a mail exchange is null is whether it has no name.
pub proof fn law_null_exchange_has_no_name(mx: &MxRecord, r: bool)
    requires
        call_ensures(MxRecord::is_null, (mx,), r),
    ensures
        r <==> mx.exchange@.len() == 0,
{
}

/// A TLSA record holds its data as it is and what its three octets stand for.
pub proof fn law_tlsa_record_is_its_octets(
    usage: u8,
    selector: u8,
    matching: u8,
    data: Vec<u8>,
    r: TlsaRecord,
)
    requires
        call_ensures(map_tlsa, (usage, selector, matching, data), r),
    ensures
        r.data@ == data@,
        r.usage is DaneTa <==> usage == 2,
        r.usage is DaneEe <==> usage == 3,
        r.selector is Full <==> selector == 0,
        r.selector is Spki <==> selector == 1,
        r.matching is Full <==> matching == 0,
        r.matching is Sha256 <==> matching == 1,
        r.matching is Sha512 <==> matching == 2,
{
}

/// One record of the type asked for that is not validated makes the answer worthless, and so
/// does it that there is none; otherwise every record of the type is in it.
pub proof fn law_insecure_answer_is_none<T>(
    answers: Vec<ValidatedAnswer<T>>,
    record_type: u16,
    r: Option<Vec<T>>,
    i: int,
)
    requires
        call_ensures(secure_answers::<T>, (answers, record_type), r),
        0 <= i < answers@.len(),
        answers@[i].record_type == record_type,
    ensures
        !answers@[i].secure ==> r is None,
        r is Some && answers@[i].record is Some ==> r->0@.contains(answers@[i].record->0),
{
    if answers@[i].record is Some {
        lemma_records_hold(answers@, record_type, i);
    }
}

proof fn lemma_records_hold<T>(answers: Seq<ValidatedAnswer<T>>, record_type: u16, i: int)
    requires
        0 <= i < answers.len(),
        answers[i].record_type == record_type,
        answers[i].record is Some,
    ensures
        records_of(answers, record_type).contains(
            answers[i].record->0,
        ),
    decreases answers.len(),
{
    let all = records_of(answers, record_type);
    if i == 0 {
        assert(all[0] == answers[0].record->0);
    } else {
        let rest = answers.drop_first();
        let more = records_of(rest, record_type);
        lemma_records_hold(rest, record_type, i - 1);
        let k = choose|k: int| 0 <= k < more.len() && more[k] == answers[i].record->0;
        if answers[0].record_type == record_type && answers[0].record is Some {
            assert(all[k + 1] == more[k]);
        } else {
            assert(all[k] == more[k]);
        }
    }
}

/// A server is accepted only where one of the TLSA records authenticates it.
pub proof fn law_accepted_server_is_authenticated(
    verifier: &DaneVerifier,
    end_entity: &[u8],
    intermediates: &Vec<Vec<u8>>,
    server_name: &str,
    now: u64,
    r: Result<(), String>,
)
    requires
        call_ensures(
            DaneVerifier::verify_server_cert,
            (verifier, end_entity, intermediates, server_name, now),
            r,
        ),
        r is Ok,
    ensures
        exists|i: int|
            0 <= i < verifier@.len() && authenticates(
                verifier.provider(),
                #[trigger] verifier@[i],
                end_entity@,
                blobs(intermediates@),
                server_name@,
                now as nat,
            ),
{
}

/// A usage takes the way of matching that it stands for: DANE-EE the end-entity itself,
/// DANE-TA an anchored chain, and any other none.
pub proof fn law_usage_takes_its_way(usage: TlsaUsage, direct: bool, anchored: bool, r: bool)
    requires
        call_ensures(usage_accepts, (usage, direct, anchored), r),
    ensures
        usage is DaneEe ==> r == direct,
        usage is DaneTa ==> r == anchored,
        !(usage is DaneEe) && !(usage is DaneTa) ==> !r,
{
}

} // verus!
