//! From resource records, as a resolver backend gives them, to the typed records
//! of the library.

use vstd::prelude::*;

use crate::bytes::{lossy_text, utf8_lossy};
use crate::network::dns::mx::MxRecord;
use crate::network::dns::tlsa::{TlsaMatching, TlsaRecord, TlsaSelector, TlsaUsage};
use crate::network::dns::txt::TxtRecord;
use crate::text::{chars_of, string_of, texts, trim_trailing_dots, without_trailing_dots};

verus! {

/// A DNS name as a host string, with the trailing root dot removed.
pub fn strip_root(name: &str) -> (r: String)
    ensures
        r@ == without_trailing_dots(name@),
{
    let chars = chars_of(name);
    string_of(trim_trailing_dots(chars.as_slice()))
}

/// Map the fields of an MX record to an [`MxRecord`].
pub fn map_mx(preference: u16, exchange: &str) -> (r: MxRecord)
    ensures
        r.preference == preference,
        r.exchange@ == without_trailing_dots(exchange@),
{
    MxRecord { preference, exchange: strip_root(exchange) }
}

/// The texts of a TXT record's character-strings, one after the other.
pub open spec fn concatenated(parts: Seq<Seq<char>>) -> Seq<char>
    decreases parts.len(),
{
    if parts.len() == 0 {
        Seq::empty()
    } else {
        concatenated(parts.drop_last()) + parts.last()
    }
}

/// The text that each character-string decodes to.
pub open spec fn decoded(strings: Seq<Vec<u8>>) -> Seq<Seq<char>> {
    strings.map_values(|b: Vec<u8>| utf8_lossy(b@))
}

/// Put the decoded character-strings of a TXT record together.
pub fn join_txt(parts: &Vec<String>) -> (r: TxtRecord)
    ensures
        r.0@ == concatenated(texts(parts@)),
{
    let ghost all = texts(parts@);
    let mut out = String::new();
    let mut i: usize = 0;
    while i < parts.len()
        invariant
            i <= parts@.len(),
            all == texts(parts@),
            out@ == concatenated(all.take(i as int)),
        decreases parts.len() - i,
    {
        proof {
            assert(all.take(i + 1).drop_last() =~= all.take(i as int));
            assert(all.take(i + 1).last() == parts@[i as int]@);
        }
        out.append(parts[i].as_str());
        i = i + 1;
    }
    assert(all.take(all.len() as int) =~= all);
    TxtRecord(out)
}

/// Map the character-strings of a TXT record to a [`TxtRecord`], concatenating
/// them (DKIM and DMARC values are frequently split across several).
pub fn map_txt(strings: &Vec<Vec<u8>>) -> (r: TxtRecord)
    ensures
        r.0@ == concatenated(decoded(strings@)),
{
    let ghost all = decoded(strings@);
    let mut parts: Vec<String> = Vec::new();
    let mut i: usize = 0;
    while i < strings.len()
        invariant
            i <= strings@.len(),
            all == decoded(strings@),
            texts(parts@) == all.take(i as int),
        decreases strings.len() - i,
    {
        let part = lossy_text(strings[i].as_slice());
        let ghost before = parts@;
        proof {
            assert(texts(before.push(part)) =~= texts(before).push(part@));
            assert(all.take(i + 1) =~= all.take(i as int).push(all[i as int]));
        }
        parts.push(part);
        i = i + 1;
    }
    assert(all.take(all.len() as int) =~= all);
    join_txt(&parts)
}

/// Map the fields of a TLSA record to a [`TlsaRecord`].
pub fn map_tlsa(usage: u8, selector: u8, matching: u8, data: Vec<u8>) -> (r: TlsaRecord)
    ensures
        r.usage == TlsaUsage::of(usage),
        r.selector == TlsaSelector::of(selector),
        r.matching == TlsaMatching::of(matching),
        r.data@ == data@,
{
    TlsaRecord {
        usage: TlsaUsage::from_u8(usage),
        selector: TlsaSelector::from_u8(selector),
        matching: TlsaMatching::from_u8(matching),
        data,
    }
}

/// One record of a validating resolver's answer: its type code, whether DNSSEC
/// validated it, and what its data maps to, if that is data of the type asked for.
pub struct ValidatedAnswer<T> {
    pub record_type: u16,
    pub secure: bool,
    pub record: Option<T>,
}

/// Whether every answer of a type is validated.
pub open spec fn all_secure<T>(answers: Seq<ValidatedAnswer<T>>, record_type: u16) -> bool {
    forall|i: int|
        0 <= i < answers.len() && (#[trigger] answers[i]).record_type == record_type
            ==> answers[i].secure
}

/// The records of the answers of a type, in order.
pub open spec fn records_of<T>(answers: Seq<ValidatedAnswer<T>>, record_type: u16) -> Seq<T>
    decreases answers.len(),
{
    if answers.len() == 0 {
        Seq::empty()
    } else {
        let rest = records_of(answers.drop_first(), record_type);
        if answers[0].record_type == record_type && answers[0].record is Some {
            seq![answers[0].record->0] + rest
        } else {
            rest
        }
    }
}

/// The records of the type asked for, only if every answer of that type is
/// DNSSEC-validated. Any other outcome (an unsigned zone, a failed validation, no
/// records) is `None`: nothing is securely available. This keeps DANE from ever
/// trusting unauthenticated DNS data.
pub fn secure_answers<T>(answers: Vec<ValidatedAnswer<T>>, record_type: u16) -> (r: Option<Vec<T>>)
    ensures
        match r {
            Some(records) => all_secure(answers@, record_type) && records@.len() > 0 && records@
                == records_of(answers@, record_type),
            None => !all_secure(answers@, record_type) || records_of(
                answers@,
                record_type,
            ).len() == 0,
        },
{
    let ghost all = answers@;
    let mut rest = answers;
    let mut backward: Vec<T> = Vec::new();
    assert(all.skip(all.len() as int) =~= Seq::empty());
    assert(backward@ =~= records_of(all.skip(all.len() as int), record_type).reverse());
    while rest.len() > 0
        invariant
            all == answers@,
            rest@.len() <= all.len(),
            rest@ == all.take(rest@.len() as int),
            backward@ == records_of(all.skip(rest@.len() as int), record_type).reverse(),
            forall|i: int|
                rest@.len() <= i < all.len() && (#[trigger] all[i]).record_type == record_type
                    ==> all[i].secure,
        decreases rest@.len(),
    {
        let ghost n = rest@.len() - 1;
        let answer = rest.pop().unwrap();
        proof {
            assert(rest@ =~= all.take(n));
            assert(all[n] == answer);
            assert(all.skip(n).drop_first() =~= all.skip(n + 1));
        }
        if answer.record_type == record_type {
            if !answer.secure {
                return None;
            }
            if let Some(record) = answer.record {
                let ghost after = records_of(all.skip(n + 1), record_type);
                assert((seq![record] + after).reverse() =~= after.reverse().push(record));
                backward.push(record);
            }
        }
    }
    let ghost wanted = records_of(all, record_type);
    assert(all.skip(0) =~= all);
    if backward.len() == 0 {
        return None;
    }
    let mut records: Vec<T> = Vec::new();
    while backward.len() > 0
        invariant
            backward@.len() <= wanted.len(),
            backward@ == wanted.reverse().take(backward@.len() as int),
            records@ == wanted.take(wanted.len() - backward@.len()),
        decreases backward@.len(),
    {
        let ghost n = backward@.len() - 1;
        let record = backward.pop().unwrap();
        proof {
            assert(record == wanted[wanted.len() - 1 - n]);
            assert(backward@ =~= wanted.reverse().take(n));
            assert(wanted.take(wanted.len() - n) =~= wanted.take(wanted.len() - n - 1).push(
                record,
            ));
        }
        records.push(record);
    }
    assert(records@ =~= wanted);
    Some(records)
}

} // verus!
