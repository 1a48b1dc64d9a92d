//! DNS records: parsing, lookup by convention, mapping of raw answers.

use std::collections::BTreeMap;

use snail::ip::{IpAddr, Ipv4Addr};
use snail::network::dns::dkim::DkimRecord;
use snail::network::dns::dmarc::{AlignmentMode, DmarcPolicy, DmarcRecord};
use snail::network::dns::lookup::{dkim_name, dmarc_name, lookup_dkim, lookup_dmarc, tlsa_name};
use snail::network::dns::manager::{
    join_txt, map_mx, map_tlsa, map_txt, secure_answers, strip_root, ValidatedAnswer,
};
use snail::network::dns::mx::MxRecord;
use snail::network::dns::tlsa::{TlsaMatching, TlsaSelector, TlsaUsage};
use snail::network::dns::txt::{parse_tag_map, TxtRecord};
use snail::network::dns::AddressRecord;
use snail::network::error::NetworkError;

#[test]
fn parses_rsa_dkim_record() {
    let r = DkimRecord::parse("v=DKIM1; k=rsa; p=MIGfMA0GCSq").unwrap();
    assert_eq!(r.version.as_deref(), Some("DKIM1"));
    assert_eq!(r.key_type.as_deref(), Some("rsa"));
    assert_eq!(r.public_key, "MIGfMA0GCSq");
}

#[test]
fn rejects_dkim_without_public_key() {
    assert!(DkimRecord::parse("v=DKIM1; k=rsa").is_err());
}

#[test]
fn parses_reject_policy_with_rua() {
    let r = DmarcRecord::parse("v=DMARC1; p=reject; rua=mailto:dmarc@example.com").unwrap();
    assert_eq!(r.policy, DmarcPolicy::Reject);
    assert_eq!(r.rua.as_deref(), Some("mailto:dmarc@example.com"));
    // Alignment defaults to relaxed; pct defaults to 100; no sp.
    assert_eq!(r.adkim, AlignmentMode::Relaxed);
    assert_eq!(r.aspf, AlignmentMode::Relaxed);
    assert_eq!(r.pct, 100);
    assert!(r.subdomain_policy.is_none());
}

#[test]
fn parses_alignment_subdomain_and_pct() {
    let r =
        DmarcRecord::parse("v=DMARC1; p=quarantine; sp=reject; adkim=s; aspf=s; pct=20").unwrap();
    assert_eq!(r.policy, DmarcPolicy::Quarantine);
    assert_eq!(r.subdomain_policy, Some(DmarcPolicy::Reject));
    assert_eq!(r.adkim, AlignmentMode::Strict);
    assert_eq!(r.aspf, AlignmentMode::Strict);
    assert_eq!(r.pct, 20);
}

#[test]
fn invalid_pct_falls_back_to_100() {
    let r = DmarcRecord::parse("v=DMARC1; p=none; pct=999").unwrap();
    assert_eq!(r.pct, 100);
}

#[test]
fn rejects_non_dmarc_txt() {
    assert!(DmarcRecord::parse("v=spf1 -all").is_err());
    assert!(DmarcRecord::parse("v=DMARC1; rua=mailto:x@y").is_err()); // no p=
}

fn txts(records: &[&str]) -> Vec<TxtRecord> {
    records.iter().map(|s| TxtRecord((*s).to_string())).collect()
}

fn zone(name: &str, records: &[&str]) -> BTreeMap<String, Vec<TxtRecord>> {
    let mut zone = BTreeMap::new();
    zone.insert(name.to_string(), txts(records));
    zone
}

fn answer(zone: &BTreeMap<String, Vec<TxtRecord>>, name: &str) -> Vec<TxtRecord> {
    zone.get(name).cloned().unwrap_or_default()
}

#[test]
fn lookup_dkim_queries_domainkey_and_parses() {
    let z = zone("sel._domainkey.example.com", &["v=DKIM1; k=rsa; p=ABC"]);
    let found = answer(&z, &dkim_name("sel", "example.com"));
    let rec = lookup_dkim(&found, "sel", "example.com").unwrap();
    assert_eq!(rec.public_key, "ABC");
}

#[test]
fn lookup_dmarc_picks_first_dmarc1_among_multiple_txt() {
    let z = zone("_dmarc.example.com", &["v=spf1 -all", "v=DMARC1; p=quarantine"]);
    let found = answer(&z, &dmarc_name("example.com"));
    let rec = lookup_dmarc(&found, "example.com").unwrap();
    assert_eq!(rec.policy, DmarcPolicy::Quarantine);
}

#[test]
fn lookup_dkim_errors_when_absent() {
    let z = zone("unrelated", &[]);
    let found = answer(&z, &dkim_name("sel", "example.com"));
    assert!(lookup_dkim(&found, "sel", "example.com").is_err());
}

#[test]
fn absent_records_are_named_in_the_error() {
    match lookup_dkim(&txts(&["v=spf1 -all"]), "sel", "example.com") {
        Err(e) => assert_eq!(
            e.to_string(),
            "malformed DKIM record: no parseable DKIM record at sel._domainkey.example.com"
        ),
        Ok(_) => panic!("an SPF record is no key record"),
    }
    match lookup_dmarc(&txts(&[]), "example.com") {
        Err(NetworkError::Record { kind, .. }) => assert_eq!(kind, "DMARC"),
        other => panic!("expected a record error, got {other:?}"),
    }
}

#[test]
fn map_mx_strips_trailing_dot() {
    let r = map_mx(10, "mail.example.com.");
    assert_eq!(r.preference, 10);
    assert_eq!(r.exchange, "mail.example.com");
}

#[test]
fn map_txt_concatenates_character_strings() {
    let strings = vec![b"v=DKIM1; ".to_vec(), b"p=ABC".to_vec()];
    assert_eq!(map_txt(&strings).0, "v=DKIM1; p=ABC");
}

#[test]
fn map_txt_replaces_what_is_not_utf8() {
    assert_eq!(map_txt(&vec![vec![b'a', 0xff, b'b']]).0, "a\u{fffd}b");
    assert_eq!(map_txt(&vec!["grün".as_bytes().to_vec()]).0, "grün");
    assert_eq!(join_txt(&vec!["a".to_string(), "".to_string(), "b".to_string()]).0, "ab");
}

#[test]
fn map_tlsa_names_the_octets() {
    let r = map_tlsa(3, 1, 1, vec![1, 2, 3]);
    assert_eq!(r.usage, TlsaUsage::DaneEe);
    assert_eq!(r.selector, TlsaSelector::Spki);
    assert_eq!(r.matching, TlsaMatching::Sha256);
    assert_eq!(r.data, vec![1, 2, 3]);
}

#[test]
fn null_mx_is_recognised_by_empty_exchange() {
    assert!(MxRecord { preference: 0, exchange: String::new() }.is_null());
    assert!(!MxRecord { preference: 10, exchange: "mx.example.com".to_string() }.is_null());
}

#[test]
fn null_mx_answer_maps_to_a_null_record() {
    assert!(map_mx(0, ".").is_null());
    assert_eq!(strip_root("a.b.."), "a.b");
}

#[test]
fn maps_octets_to_named_fields() {
    assert_eq!(TlsaUsage::from_u8(3), TlsaUsage::DaneEe);
    assert_eq!(TlsaUsage::from_u8(2), TlsaUsage::DaneTa);
    assert_eq!(TlsaUsage::from_u8(9), TlsaUsage::Other(9));
    assert_eq!(TlsaSelector::from_u8(1), TlsaSelector::Spki);
    assert_eq!(TlsaMatching::from_u8(1), TlsaMatching::Sha256);
    assert_eq!(TlsaMatching::from_u8(2), TlsaMatching::Sha512);
}

#[test]
fn parses_trimmed_tag_value_pairs() {
    let m = parse_tag_map("v=DKIM1; k=rsa ;  p=abc ");
    assert_eq!(m.get("v").map(String::as_str), Some("DKIM1"));
    assert_eq!(m.get("k").map(String::as_str), Some("rsa"));
    assert_eq!(m.get("p").map(String::as_str), Some("abc"));
}

#[test]
fn ignores_fragments_without_equals() {
    let m = parse_tag_map("v=DMARC1; garbage; p=none");
    assert_eq!(m.len(), 2);
    assert_eq!(m.get("p").map(String::as_str), Some("none"));
}

#[test]
fn later_tags_replace_earlier_ones() {
    let m = parse_tag_map("p=a; p = b=c ;");
    assert_eq!(m.len(), 1);
    assert_eq!(m.cloned("p"), Some("b=c".to_string()));
    assert!(parse_tag_map("").is_empty());
}

#[test]
fn tlsa_records_live_at_the_port() {
    assert_eq!(tlsa_name(25, "mx.example.com."), "_25._tcp.mx.example.com");
    assert_eq!(tlsa_name(465, "mx.example.com"), "_465._tcp.mx.example.com");
}

fn validated(record_type: u16, secure: bool, record: Option<u8>) -> ValidatedAnswer<u8> {
    ValidatedAnswer { record_type, secure, record }
}

#[test]
fn answers_are_secure_only_if_all_of_them_are() {
    let tlsa: u16 = 52;
    let rrsig: u16 = 46;
    assert_eq!(
        secure_answers(
            vec![validated(tlsa, true, Some(1)), validated(tlsa, true, Some(2))],
            tlsa
        ),
        Some(vec![1, 2])
    );
    assert_eq!(
        secure_answers(
            vec![validated(tlsa, true, Some(1)), validated(tlsa, false, Some(2))],
            tlsa
        ),
        None
    );
    assert_eq!(secure_answers(Vec::<ValidatedAnswer<u8>>::new(), tlsa), None);
    // Records of another type neither count nor spoil the answer.
    assert_eq!(
        secure_answers(
            vec![validated(rrsig, false, None), validated(tlsa, true, Some(3))],
            tlsa
        ),
        Some(vec![3])
    );
    assert_eq!(secure_answers(vec![validated(rrsig, true, Some(1))], tlsa), None);
    assert_eq!(secure_answers(vec![validated(tlsa, true, None)], tlsa), None);
}

#[test]
fn network_errors_read_as_sentences() {
    assert_eq!(
        NetworkError::Resolve { name: "x.test".into(), reason: "timeout".into() }.to_string(),
        "dns lookup failed for `x.test`: timeout"
    );
    assert_eq!(
        NetworkError::record("SPF", "bad term").to_string(),
        "malformed SPF record: bad term"
    );
    assert_eq!(
        NetworkError::Tls("no key".into()).to_string(),
        "tls configuration error: no key"
    );
    let io: NetworkError = std::io::Error::new(std::io::ErrorKind::NotFound, "nope").into();
    assert!(matches!(io, NetworkError::Io(_)));
    assert_eq!(io.to_string(), "i/o error: nope");
}

#[test]
fn address_records_hold_the_address() {
    let ip = IpAddr::V4(Ipv4Addr::new(192, 0, 2, 1));
    assert_eq!(AddressRecord(ip).0, ip);
}
