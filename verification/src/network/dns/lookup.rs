//! What is asked of DNS and what comes back, as plain values: query names, the
//! choice of a record among the answers, and the questions and answers by which an
//! evaluation that runs elsewhere is driven.

use vstd::prelude::*;

use crate::ip::IpAddr;
use crate::network::dns::a::AddressRecord;
use crate::network::dns::dkim::{DkimRecord, DkimRecordView};
use crate::network::dns::dmarc::{DmarcRecord, DmarcRecordView};
use crate::network::dns::mx::MxRecord;
use crate::network::dns::reverse::PtrRecord;
use crate::network::dns::txt::TxtRecord;
use crate::network::error::{agrees, NetworkError, NetworkErrorView};
use crate::text::{
    chars_of, concat3, decimal, string_of, to_decimal, trim_trailing_dots, without_trailing_dots,
};

verus! {

/// A question to DNS.
pub enum DnsQuery {
    /// The TXT records at a name.
    Txt(String),
    /// The addresses (A and AAAA) of a host.
    Addresses(String),
    /// The MX records of a domain.
    Exchanges(String),
    /// The PTR (reverse-DNS) records of an address.
    Pointers(IpAddr),
}

/// What a [`DnsQuery`] asks.
pub enum DnsQueryView {
    Txt(Seq<char>),
    Addresses(Seq<char>),
    Exchanges(Seq<char>),
    Pointers(IpAddr),
}

impl View for DnsQuery {
    type V = DnsQueryView;

    open spec fn view(&self) -> DnsQueryView {
        match self {
            DnsQuery::Txt(name) => DnsQueryView::Txt(name@),
            DnsQuery::Addresses(host) => DnsQueryView::Addresses(host@),
            DnsQuery::Exchanges(domain) => DnsQueryView::Exchanges(domain@),
            DnsQuery::Pointers(ip) => DnsQueryView::Pointers(*ip),
        }
    }
}

/// An answer from DNS. A lookup that failed is an answer without records.
pub enum DnsAnswer {
    /// TXT records.
    Txt(Vec<TxtRecord>),
    /// Addresses.
    Addresses(Vec<AddressRecord>),
    /// MX records.
    Exchanges(Vec<MxRecord>),
    /// PTR records.
    Pointers(Vec<PtrRecord>),
}

/// The name of a DKIM key record.
pub open spec fn dkim_record_name(selector: Seq<char>, domain: Seq<char>) -> Seq<char> {
    selector + "._domainkey."@ + domain
}

/// The name of a DMARC record.
pub open spec fn dmarc_record_name(domain: Seq<char>) -> Seq<char> {
    "_dmarc."@ + domain
}

/// The name at which a DKIM key record is published:
/// `<selector>._domainkey.<domain>`.
pub fn dkim_name(selector: &str, domain: &str) -> (r: String)
    ensures
        r@ == dkim_record_name(selector@, domain@),
{
    concat3(selector, "._domainkey.", domain)
}

/// The name at which a DMARC record is published: `_dmarc.<domain>`.
pub fn dmarc_name(domain: &str) -> (r: String)
    ensures
        r@ == dmarc_record_name(domain@),
{
    let mut name = "_dmarc.".to_string();
    name.append(domain);
    name
}

/// The name at which a mail exchange's TLSA records are published:
/// `_<port>._tcp.<host>`.
pub fn tlsa_name(port: u16, host: &str) -> (r: String)
    ensures
        r@ == "_"@ + decimal(port as nat) + "._tcp."@ + without_trailing_dots(host@),
{
    let digits = to_decimal(port as u64);
    let digits = string_of(digits.as_slice());
    let chars = chars_of(host);
    let host = string_of(trim_trailing_dots(chars.as_slice()));
    let mut name = concat3("_", digits.as_str(), "._tcp.");
    name.append(host.as_str());
    name
}

/// The first DKIM key record among TXT records.
pub open spec fn first_dkim(txts: Seq<TxtRecord>) -> Option<DkimRecordView>
    decreases txts.len(),
{
    if txts.len() == 0 {
        None
    } else {
        match DkimRecord::parsed(txts[0].0@) {
            Ok(record) => Some(record),
            Err(_) => first_dkim(txts.drop_first()),
        }
    }
}

/// The first DMARC record among TXT records.
pub open spec fn first_dmarc(txts: Seq<TxtRecord>) -> Option<DmarcRecordView>
    decreases txts.len(),
{
    if txts.len() == 0 {
        None
    } else {
        match DmarcRecord::parsed(txts[0].0@) {
            Ok(record) => Some(record),
            Err(_) => first_dmarc(txts.drop_first()),
        }
    }
}

/// Parse the first valid DKIM key record among the TXT records at
/// [`dkim_name`].
///
/// # Errors
/// [`NetworkError::Record`] if none of them parses as a DKIM record.
pub fn lookup_dkim(txts: &Vec<TxtRecord>, selector: &str, domain: &str) -> (r: Result<
    DkimRecord,
    NetworkError,
>)
    ensures
        agrees(
            r,
            match first_dkim(txts@) {
                Some(record) => Ok(record),
                None => Err(
                    NetworkErrorView::Record {
                        kind: "DKIM"@,
                        reason: "no parseable DKIM record at "@ + dkim_record_name(
                            selector@,
                            domain@,
                        ),
                    },
                ),
            },
        ),
{
    let mut i: usize = 0;
    assert(txts@.skip(0) =~= txts@);
    while i < txts.len()
        invariant
            i <= txts@.len(),
            first_dkim(txts@) == first_dkim(txts@.skip(i as int)),
        decreases txts.len() - i,
    {
        assert(txts@.skip(i as int).drop_first() =~= txts@.skip(i + 1));
        if let Ok(record) = DkimRecord::parse(txts[i].0.as_str()) {
            return Ok(record);
        }
        i = i + 1;
    }
    let name = dkim_name(selector, domain);
    let mut reason = "no parseable DKIM record at ".to_string();
    reason.append(name.as_str());
    Err(NetworkError::record("DKIM", reason.as_str()))
}

/// Parse the first `v=DMARC1` record among the TXT records at [`dmarc_name`]
/// (multiple TXTs at that name are legal).
///
/// # Errors
/// [`NetworkError::Record`] if none of them parses as a DMARC record.
pub fn lookup_dmarc(txts: &Vec<TxtRecord>, domain: &str) -> (r: Result<DmarcRecord, NetworkError>)
    ensures
        agrees(
            r,
            match first_dmarc(txts@) {
                Some(record) => Ok(record),
                None => Err(
                    NetworkErrorView::Record {
                        kind: "DMARC"@,
                        reason: "no parseable DMARC record at "@ + dmarc_record_name(domain@),
                    },
                ),
            },
        ),
{
    let mut i: usize = 0;
    assert(txts@.skip(0) =~= txts@);
    while i < txts.len()
        invariant
            i <= txts@.len(),
            first_dmarc(txts@) == first_dmarc(txts@.skip(i as int)),
        decreases txts.len() - i,
    {
        assert(txts@.skip(i as int).drop_first() =~= txts@.skip(i + 1));
        if let Ok(record) = DmarcRecord::parse(txts[i].0.as_str()) {
            return Ok(record);
        }
        i = i + 1;
    }
    let name = dmarc_name(domain);
    let mut reason = "no parseable DMARC record at ".to_string();
    reason.append(name.as_str());
    Err(NetworkError::record("DMARC", reason.as_str()))
}

} // verus!
