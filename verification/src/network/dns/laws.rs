//! What DNS records say: tags, keys, policies, associations and texts.

use vstd::prelude::*;

use crate::network::dns::dkim::DkimRecord;
use crate::network::dns::dmarc::{DmarcPolicy, DmarcRecord};
use crate::network::dns::lookup::{dkim_record_name, dmarc_record_name, first_dkim, first_dmarc};
use crate::network::dns::manager::{all_secure, concatenated, records_of, ValidatedAnswer};
use crate::network::dns::tlsa::{TlsaMatching, TlsaSelector, TlsaUsage};
use crate::network::dns::txt::{tag, tag_map, tags_of, TxtRecord};
use crate::text::{cut, number, splits, trimmed};
use crate::text_laws::{law_cut_is_at_the_first_or_last, law_pieces_stand_between_separators};

verus! {

// ---------------------------------------------------------------------------
// Tags
// ---------------------------------------------------------------------------

/// A segment `name=value` at the end of a tag list gives that tag that value, both trimmed,
/// in place of one that it had before, and leaves the others; the name ends at the first
/// `=`. A segment without a `=`, or with a blank name, gives nothing.
pub proof fn law_segment_sets_a_tag(
    raw: Seq<char>,
    name: Seq<char>,
    value: Seq<char>,
    odd: Seq<char>,
    other: Seq<char>,
)
    requires
        forall|i: int| 0 <= i < name.len() ==> name[i] != '=' && name[i] != ';',
        forall|i: int| 0 <= i < value.len() ==> value[i] != ';',
        forall|i: int| 0 <= i < odd.len() ==> odd[i] != '=' && odd[i] != ';',
    ensures
        ({
            let segment = name + seq!['='] + value;
            let longer = tag_map(raw + seq![';'] + segment);
            &&& trimmed(name).len() > 0 ==> tag(longer, trimmed(name)) == Some(trimmed(value))
            &&& trimmed(name).len() > 0 && other != trimmed(name) ==> tag(longer, other) == tag(
                tag_map(raw),
                other,
            )
            &&& trimmed(name).len() == 0 ==> longer == tag_map(raw)
            &&& tag_map(raw + seq![';'] + odd) == tag_map(raw)
            &&& trimmed(name).len() > 0 ==> tag(tag_map(segment), trimmed(name)) == Some(
                trimmed(value),
            )
            &&& trimmed(name).len() > 0 && other != trimmed(name) ==> tag(
                tag_map(segment),
                other,
            ) is None
            &&& tag(tag_map(odd), other) is None
        }),
{
    let segment = name + seq!['='] + value;
    assert forall|i: int| 0 <= i < segment.len() implies segment[i] != ';' by {
        if i < name.len() {
            assert(segment[i] == name[i]);
        } else if i > name.len() {
            assert(segment[i] == value[i - name.len() - 1]);
        }
    }
    law_cut_is_at_the_first_or_last(name, '=', value);
    law_cut_is_at_the_first_or_last(odd, '=', value);
    lemma_last_segment(raw, segment);
    lemma_last_segment(raw, odd);
}

proof fn lemma_last_segment(raw: Seq<char>, segment: Seq<char>)
    requires
        forall|i: int| 0 <= i < segment.len() ==> segment[i] != ';',
    ensures
        tag_map(raw + seq![';'] + segment) == match cut(segment, '=') {
            Some((k, v)) => if trimmed(k).len() == 0 {
                tag_map(raw)
            } else {
                tag_map(raw).insert(trimmed(k), trimmed(v))
            },
            None => tag_map(raw),
        },
        tag_map(segment) == match cut(segment, '=') {
            Some((k, v)) => if trimmed(k).len() == 0 {
                Map::<Seq<char>, Seq<char>>::empty()
            } else {
                Map::<Seq<char>, Seq<char>>::empty().insert(trimmed(k), trimmed(v))
            },
            None => Map::<Seq<char>, Seq<char>>::empty(),
        },
{
    law_pieces_stand_between_separators(raw, ';', segment);
    law_pieces_stand_between_separators(segment, ';', raw);
    let before = splits(raw, ';');
    assert(before + seq![segment] =~= before.push(segment));
    assert(before.push(segment).drop_last() =~= before);
    assert(seq![segment].drop_last() =~= Seq::<Seq<char>>::empty());
    assert(tags_of(Seq::<Seq<char>>::empty()) =~= Map::<Seq<char>, Seq<char>>::empty());
}

/// A key record is read exactly where it has a `p` tag, and holds its `v`, `k` and `p` tags.
pub proof fn law_key_record_is_its_tags(raw: Seq<char>)
    ensures
        DkimRecord::parsed(raw) is Ok <==> tag(tag_map(raw), "p"@) is Some,
        DkimRecord::parsed(raw) matches Ok(record) ==> record.version == tag(tag_map(raw), "v"@)
            && record.key_type == tag(tag_map(raw), "k"@) && Some(record.public_key) == tag(
            tag_map(raw),
            "p"@,
        ),
{
}

/// A policy record is read exactly where its version is `DMARC1` and `p` names a policy. `sp`
/// is a policy of its own where it names one, alignment is strict where its tag is `s` and
/// relaxed otherwise, and the percentage is a number up to a hundred, or a hundred.
pub proof fn law_policy_record_is_its_tags(raw: Seq<char>)
    ensures
        ({
            let tags = tag_map(raw);
            let p = tag(tags, "p"@);
            let sp = tag(tags, "sp"@);
            let pct = tag(tags, "pct"@);
            &&& DmarcRecord::parsed(raw) is Ok <==> tag(tags, "v"@) == Some("DMARC1"@) && (p
                == Some("none"@) || p == Some("quarantine"@) || p == Some("reject"@))
            &&& DmarcRecord::parsed(raw) matches Ok(record) ==> {
                &&& p == Some("none"@) ==> record.policy == DmarcPolicy::Monitor
                &&& p == Some("quarantine"@) ==> record.policy == DmarcPolicy::Quarantine
                &&& p == Some("reject"@) ==> record.policy == DmarcPolicy::Reject
                &&& sp == Some("none"@) ==> record.subdomain_policy == Some(DmarcPolicy::Monitor)
                &&& sp == Some("quarantine"@) ==> record.subdomain_policy == Some(
                    DmarcPolicy::Quarantine,
                )
                &&& sp == Some("reject"@) ==> record.subdomain_policy == Some(DmarcPolicy::Reject)
                &&& sp != Some("none"@) && sp != Some("quarantine"@) && sp != Some("reject"@)
                    ==> record.subdomain_policy is None
                &&& record.adkim is Strict <==> tag(tags, "adkim"@) == Some("s"@)
                &&& record.aspf is Strict <==> tag(tags, "aspf"@) == Some("s"@)
                &&& pct is None ==> record.pct == 100
                &&& pct matches Some(n) ==> (number(n, 100) is Some ==> number(n, 100) == Some(
                    record.pct,
                )) && (number(n, 100) is None ==> record.pct == 100)
                &&& record.rua == tag(tags, "rua"@)
            }
        }),
{
    reveal_strlit("none");
    reveal_strlit("quarantine");
    reveal_strlit("reject");
    assert("none"@.len() == 4 && "quarantine"@.len() == 10 && "reject"@.len() == 6);
}

// ---------------------------------------------------------------------------
// Lookups
// ---------------------------------------------------------------------------

/// Of several TXT records the first that is a key record counts, and likewise the first that
/// is a policy record; where none is, there is none.
pub proof fn law_first_record_counts(txts: Seq<TxtRecord>, k: int)
    ensures
        0 <= k < txts.len() && DkimRecord::parsed(txts[k].0@) is Ok && (forall|j: int|
            0 <= j < k ==> DkimRecord::parsed((#[trigger] txts[j]).0@) is Err) ==> first_dkim(txts)
            == Some(DkimRecord::parsed(txts[k].0@)->Ok_0),
        (forall|j: int| 0 <= j < txts.len() ==> DkimRecord::parsed((#[trigger] txts[j]).0@) is Err)
            ==> first_dkim(txts) is None,
        0 <= k < txts.len() && DmarcRecord::parsed(txts[k].0@) is Ok && (forall|j: int|
            0 <= j < k ==> DmarcRecord::parsed((#[trigger] txts[j]).0@) is Err) ==> first_dmarc(
            txts,
        ) == Some(DmarcRecord::parsed(txts[k].0@)->Ok_0),
        (forall|j: int| 0 <= j < txts.len() ==> DmarcRecord::parsed((#[trigger] txts[j]).0@) is Err)
            ==> first_dmarc(txts) is None,
    decreases txts.len(),
{
    if txts.len() > 0 {
        let rest = txts.drop_first();
        law_first_record_counts(rest, k - 1);
        assert(forall|j: int| 0 <= j < rest.len() ==> rest[j] == txts[j + 1]);
        assert(txts[0] == txts[0]);
        if k > 0 && k < txts.len() {
            assert(rest[k - 1] == txts[k]);
        }
    }
}

/// Records are looked for at `<selector>._domainkey.<domain>` and at `_dmarc.<domain>`: two
/// names are the same only where what they are made of is.
pub proof fn law_record_names_name_their_domain(
    selector: Seq<char>,
    domain: Seq<char>,
    other: Seq<char>,
)
    ensures
        ({
            let name = dkim_record_name(selector, domain);
            &&& name.take(selector.len() as int) == selector
            &&& name.skip(selector.len() as int + 12) == domain
            &&& name.subrange(selector.len() as int, selector.len() as int + 12) == seq![
                '.',
                '_',
                'd',
                'o',
                'm',
                'a',
                'i',
                'n',
                'k',
                'e',
                'y',
                '.',
            ]
        }),
        dmarc_record_name(domain).take(7) == seq!['_', 'd', 'm', 'a', 'r', 'c', '.'],
        dmarc_record_name(domain).skip(7) == domain,
        dmarc_record_name(domain) == dmarc_record_name(other) ==> domain == other,
{
    reveal_strlit("._domainkey.");
    reveal_strlit("_dmarc.");
    let name = dkim_record_name(selector, domain);
    assert(name.take(selector.len() as int) =~= selector);
    assert(name.skip(selector.len() as int + 12) =~= domain);
    assert(dmarc_record_name(domain).skip(7) =~= domain);
    assert(dmarc_record_name(other).skip(7) =~= other);
}

/// The octets of a TLSA record stand for what they are assigned to, and any other octet for
/// an unknown value that keeps it.
pub proof fn law_tlsa_octets(octet: u8)
    ensures
        TlsaUsage::of(0) == TlsaUsage::PkixTa && TlsaUsage::of(1) == TlsaUsage::PkixEe
            && TlsaUsage::of(2) == TlsaUsage::DaneTa && TlsaUsage::of(3) == TlsaUsage::DaneEe,
        octet > 3 ==> TlsaUsage::of(octet) == TlsaUsage::Other(octet),
        TlsaSelector::of(0) == TlsaSelector::Full && TlsaSelector::of(1) == TlsaSelector::Spki,
        octet > 1 ==> TlsaSelector::of(octet) == TlsaSelector::Other(octet),
        TlsaMatching::of(0) == TlsaMatching::Full && TlsaMatching::of(1) == TlsaMatching::Sha256
            && TlsaMatching::of(2) == TlsaMatching::Sha512,
        octet > 2 ==> TlsaMatching::of(octet) == TlsaMatching::Other(octet),
{
}

/// The strings of a TXT record are put together with nothing between them.
pub proof fn law_txt_strings_are_put_together(parts: Seq<Seq<char>>, part: Seq<char>)
    ensures
        concatenated(Seq::empty()) == Seq::<char>::empty(),
        concatenated(parts.push(part)) == concatenated(parts) + part,
{
    assert(parts.push(part).drop_last() =~= parts);
}

/// One insecure record of the type asked for makes all of them insecure; the records of a
/// secure answer are all those of that type that hold such data, in order.
pub proof fn law_secure_records_are_all_of_a_type<T>(
    answers: Seq<ValidatedAnswer<T>>,
    answer: ValidatedAnswer<T>,
    record_type: u16,
)
    ensures
        all_secure(answers.push(answer), record_type) <==> all_secure(answers, record_type) && (
        answer.record_type == record_type ==> answer.secure),
        answer.record_type == record_type && answer.record is Some ==> records_of(
            answers.push(answer),
            record_type,
        ) == records_of(answers, record_type).push(answer.record->0),
        answer.record_type != record_type || answer.record is None ==> records_of(
            answers.push(answer),
            record_type,
        ) == records_of(answers, record_type),
        all_secure(Seq::<ValidatedAnswer<T>>::empty(), record_type),
        records_of(Seq::<ValidatedAnswer<T>>::empty(), record_type) == Seq::<T>::empty(),
    decreases answers.len(),
{
    let all = answers.push(answer);
    if all_secure(all, record_type) {
        assert forall|i: int|
            0 <= i < answers.len() && (#[trigger] answers[i]).record_type
                == record_type implies answers[i].secure by {
            assert(all[i] == answers[i]);
        }
        assert(all[answers.len() as int] == answer);
    }
    if answers.len() == 0 {
        assert(all.drop_first() =~= answers);
        assert(records_of(answers, record_type) =~= Seq::<T>::empty());
        assert(all[0] == answer);
        if answer.record is Some {
            assert(seq![answer.record->0] + Seq::<T>::empty() =~= Seq::<T>::empty().push(
                answer.record->0,
            ));
        }
    } else {
        let rest = answers.drop_first();
        law_secure_records_are_all_of_a_type(rest, answer, record_type);
        assert(all.drop_first() =~= rest.push(answer));
        assert(all[0] == answers[0]);
        if answers[0].record_type == record_type && answers[0].record is Some && answer.record_type
            == record_type && answer.record is Some {
            assert(seq![answers[0].record->0] + records_of(rest, record_type).push(
                answer.record->0,
            ) =~= (seq![answers[0].record->0] + records_of(rest, record_type)).push(
                answer.record->0,
            ));
        }
    }
}

} // verus!
