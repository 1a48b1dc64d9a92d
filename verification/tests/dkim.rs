//! DKIM: canonicalization, signature parsing, verification.

use std::collections::BTreeMap;

use base64::engine::general_purpose::STANDARD as B64;
use base64::Engine;
use ed25519_dalek::{Signer, SigningKey};
use rsa::pkcs1::EncodeRsaPublicKey;
use rsa::pkcs8::EncodePublicKey;
use rsa::{Pkcs1v15Sign, RsaPrivateKey};
use sha2::{Digest, Sha256};

use snail::network::dkim::canonicalize::{
    canonicalize_body, canonicalize_header, parse_canon, BodyCanon, HeaderCanon,
};
use snail::network::dkim::signature::{Algorithm, DkimSignature};
use snail::network::dkim::verify::{
    check_signature, conclude, finish, inspect, parse_fields, screen_key, verify, DkimOutcome,
    DkimResult, SignatureState,
};
use snail::network::dns::dkim::DkimRecord;
use snail::network::dns::lookup::{dkim_name, lookup_dkim};
use snail::network::dns::txt::TxtRecord;
use snail::network::error::NetworkError;

// ---------------------------------------------------------------------------
// Canonicalization
// ---------------------------------------------------------------------------

#[test]
fn parse_canon_defaults_and_forms() {
    assert_eq!(parse_canon(None), (HeaderCanon::Simple, BodyCanon::Simple));
    assert_eq!(
        parse_canon(Some("relaxed")),
        (HeaderCanon::Relaxed, BodyCanon::Simple)
    );
    assert_eq!(
        parse_canon(Some("relaxed/relaxed")),
        (HeaderCanon::Relaxed, BodyCanon::Relaxed)
    );
    assert_eq!(
        parse_canon(Some("simple/relaxed")),
        (HeaderCanon::Simple, BodyCanon::Relaxed)
    );
}

#[test]
fn relaxed_header_matches_rfc_example() {
    // RFC 6376 §3.4.5: "A: X\r\n" + "B : Y\t\r\n\tZ  \r\n" relaxed gives
    // "a:X\r\n" and "b:Y Z\r\n".
    assert_eq!(
        canonicalize_header("A", b" X", HeaderCanon::Relaxed, true),
        b"a:X\r\n"
    );
    assert_eq!(
        canonicalize_header("B ", b" Y\t\r\n\tZ  ", HeaderCanon::Relaxed, true),
        b"b:Y Z\r\n"
    );
}

#[test]
fn simple_header_is_verbatim() {
    assert_eq!(
        canonicalize_header("From", b" Alice <a@x>", HeaderCanon::Simple, true),
        b"From: Alice <a@x>\r\n"
    );
}

#[test]
fn dkim_signature_header_hashed_without_trailing_crlf() {
    let h = canonicalize_header("DKIM-Signature", b" v=1; b=", HeaderCanon::Relaxed, false);
    assert_eq!(h, b"dkim-signature:v=1; b=");
    assert!(!h.ends_with(b"\r\n"));
}

#[test]
fn simple_body_reduces_trailing_crlfs_and_handles_empty() {
    assert_eq!(canonicalize_body(b"", BodyCanon::Simple), b"\r\n");
    assert_eq!(canonicalize_body(b"abc", BodyCanon::Simple), b"abc\r\n");
    assert_eq!(canonicalize_body(b"abc\r\n", BodyCanon::Simple), b"abc\r\n");
    assert_eq!(
        canonicalize_body(b"abc\r\n\r\n\r\n", BodyCanon::Simple),
        b"abc\r\n"
    );
    assert_eq!(canonicalize_body(b"\r\n\r\n", BodyCanon::Simple), b"\r\n");
}

#[test]
fn relaxed_body_normalizes_wsp_and_trailing_lines() {
    // RFC 6376 §3.4.5 body example gives " C\r\nD E\r\n" (leading WSP is reduced to
    // a single SP, not removed; trailing WSP and trailing empty lines dropped).
    assert_eq!(
        canonicalize_body(b" C \r\nD \t E\r\n\r\n\r\n", BodyCanon::Relaxed),
        b" C\r\nD E\r\n"
    );
    // An empty (or all-blank) body canonicalizes to zero length.
    assert_eq!(canonicalize_body(b"", BodyCanon::Relaxed), b"");
    assert_eq!(canonicalize_body(b"\r\n\r\n", BodyCanon::Relaxed), b"");
    assert_eq!(canonicalize_body(b"x", BodyCanon::Relaxed), b"x\r\n");
}

#[test]
fn simple_body_canonicalization_is_idempotent() {
    for body in [&b""[..], b"abc", b"a\r\n\r\nb\r\n\r\n", b"\r\n", b"x\r", b"\n\n"] {
        let once = canonicalize_body(body, BodyCanon::Simple);
        assert!(once.ends_with(b"\r\n"));
        assert_eq!(canonicalize_body(&once, BodyCanon::Simple), once);
    }
}

#[test]
fn simple_body_ignores_blank_lines_at_the_end() {
    assert_eq!(
        canonicalize_body(b"one\r\ntwo\r\n\r\n\r\n\r\n", BodyCanon::Simple),
        canonicalize_body(b"one\r\ntwo\r\n", BodyCanon::Simple)
    );
}

#[test]
fn relaxed_header_name_ignores_case() {
    assert_eq!(
        canonicalize_header("SUBJECT", b" Hi", HeaderCanon::Relaxed, true),
        canonicalize_header("subject", b" Hi", HeaderCanon::Relaxed, true)
    );
}

#[test]
fn relaxed_forms_ignore_folding_and_blank_ends() {
    assert_eq!(
        canonicalize_header("Subject", b" one\r\n two", HeaderCanon::Relaxed, true),
        canonicalize_header("Subject", b" one two", HeaderCanon::Relaxed, true)
    );
    for body in [&b""[..], b"abc", b"abc\r\n", b"a\r\n\r\n", b"x\r", b" \r\n"] {
        let mut longer = body.to_vec();
        longer.extend_from_slice(b"\r\n");
        assert_eq!(
            canonicalize_body(&longer, BodyCanon::Relaxed),
            canonicalize_body(body, BodyCanon::Relaxed)
        );
    }
    assert_eq!(
        canonicalize_body(b"abc \t\r\nx\r\n", BodyCanon::Relaxed),
        canonicalize_body(b"abc\r\nx\r\n", BodyCanon::Relaxed)
    );
}

// ---------------------------------------------------------------------------
// Signatures
// ---------------------------------------------------------------------------

const SIG: &[u8] = b" v=1; a=rsa-sha256; c=relaxed/relaxed; d=example.com; s=sel;\r\n\
    h=from:to:subject; bh=2jUSOH9NhtVGCQWNr9BrIAPreKQjO6Sn7XIkfJVOzv8=;\r\n\
    b=dGVzdHNpZ25hdHVyZXZhbHVl";

#[test]
fn parses_a_full_signature() {
    let s = DkimSignature::parse(SIG).unwrap();
    assert_eq!(s.algorithm, Algorithm::RsaSha256);
    assert_eq!(s.header_canon, HeaderCanon::Relaxed);
    assert_eq!(s.body_canon, BodyCanon::Relaxed);
    assert_eq!(s.domain, "example.com");
    assert_eq!(s.selector, "sel");
    assert_eq!(s.signed_headers, vec!["from", "to", "subject"]);
    assert!(s.body_length.is_none());
    assert!(!s.signature.is_empty());
    assert_eq!(s.signature, b"testsignaturevalue");
    assert_eq!(s.body_hash.len(), 32); // SHA-256 digest
}

#[test]
fn b_value_is_stripped_but_b_tag_kept() {
    let s = DkimSignature::parse(SIG).unwrap();
    let stripped = String::from_utf8(s.b_stripped_value).unwrap();
    assert!(stripped.contains("b="), "the b= tag name is retained");
    assert!(
        !stripped.contains("dGVzdHNp"),
        "the b= value is removed: {stripped}"
    );
    // bh= (a different tag) must survive intact.
    assert!(stripped.contains("bh=2jUSOH9N"));
}

#[test]
fn rejects_unsupported_and_missing_tags() {
    assert!(DkimSignature::parse(b"v=1; a=rsa-sha1; d=x; s=y; h=from; bh=AA==; b=AA==").is_err());
    assert!(DkimSignature::parse(b"v=2; a=rsa-sha256; d=x; s=y; h=from; bh=AA==; b=AA==").is_err());
    assert!(DkimSignature::parse(b"a=rsa-sha256; d=x; s=y; h=from; b=AA==").is_err()); // no bh
    assert!(DkimSignature::parse(b"a=rsa-sha256; s=y; h=from; bh=AA==; b=AA==").is_err()); // no d
}

#[test]
fn ed25519_algorithm_parses() {
    let s =
        DkimSignature::parse(b"v=1; a=ed25519-sha256; d=x.com; s=s; h=from; bh=AA==; b=AA==")
            .unwrap();
    assert_eq!(s.algorithm, Algorithm::Ed25519Sha256);
}

#[test]
fn signature_errors_are_dkim_record_errors() {
    for raw in [
        &b"v=1; a=rsa-sha1; d=x; s=y; h=from; bh=AA==; b=AA=="[..],
        b"v=2; a=rsa-sha256; d=x; s=y; h=from; bh=AA==; b=AA==",
        b"a=rsa-sha256; d=x; s=y; h=from; bh=*; b=AA==",
        b"a=rsa-sha256; d=x; s=y; h=; bh=AA==; b=AA==",
    ] {
        match DkimSignature::parse(raw) {
            Err(NetworkError::Record { kind, .. }) => assert_eq!(kind, "DKIM"),
            other => panic!("expected a record error, got {other:?}"),
        }
    }
}

#[test]
fn stripped_value_keeps_bytes_that_are_not_utf8() {
    let mut raw = b"v=1; a=rsa-sha256; d=x; s=y; h=from; bh=AA==; z=".to_vec();
    raw.push(0xff);
    raw.extend_from_slice(b"; b=AA==; t=1");
    let mut expected = b"v=1; a=rsa-sha256; d=x; s=y; h=from; bh=AA==; z=".to_vec();
    expected.push(0xff);
    expected.extend_from_slice(b"; b=; t=1");
    assert_eq!(DkimSignature::parse(&raw).unwrap().b_stripped_value, expected);
}

#[test]
fn optional_tags_are_read() {
    let s = DkimSignature::parse(
        b"v=1; a=rsa-sha256; d=x; s=y; h=From : To; bh=AA==; b=AA==; l=42; x=1700000000",
    )
    .unwrap();
    assert_eq!(s.body_length, Some(42));
    assert_eq!(s.expiration, Some(1_700_000_000));
    assert_eq!(s.header_canon, HeaderCanon::Simple);
    assert_eq!(s.body_canon, BodyCanon::Simple);
}

// ---------------------------------------------------------------------------
// Verification
// ---------------------------------------------------------------------------

/// Build the header-hash input the same way the verifier does, for a chosen
/// set of already-canonical-aware header fields (name, raw value).
fn header_hash_input(
    signed: &[(&str, &[u8])],
    dkim_sig_value_b_empty: &[u8],
    canon: HeaderCanon,
) -> Vec<u8> {
    let mut input = Vec::new();
    for (name, value) in signed {
        input.extend_from_slice(&canonicalize_header(name, value, canon, true));
    }
    input.extend_from_slice(&canonicalize_header(
        "DKIM-Signature",
        dkim_sig_value_b_empty,
        canon,
        false,
    ));
    input
}

/// A full signed message and the public-key TXT record value to publish.
struct Signed {
    message: Vec<u8>,
    selector: String,
    domain: String,
    txt: String,
}

fn build_message(from: &[u8], subject: &[u8], body: &[u8]) -> Vec<u8> {
    let mut m = Vec::new();
    m.extend_from_slice(b"From:");
    m.extend_from_slice(from);
    m.extend_from_slice(b"\r\nSubject:");
    m.extend_from_slice(subject);
    m.extend_from_slice(b"\r\n\r\n");
    m.extend_from_slice(body);
    m
}

fn assemble_message(value_b_empty: &str, b: &str, rest: &[u8]) -> Vec<u8> {
    let mut message = Vec::new();
    message.extend_from_slice(b"DKIM-Signature:");
    message.extend_from_slice(value_b_empty.as_bytes());
    message.extend_from_slice(b.as_bytes());
    message.extend_from_slice(b"\r\n");
    message.extend_from_slice(rest);
    message
}

fn sign_rsa(from: &[u8], subject: &[u8], body: &[u8], key: &RsaPrivateKey) -> Signed {
    let (hc, bc) = (HeaderCanon::Relaxed, BodyCanon::Relaxed);
    assert_eq!(parse_canon(Some("relaxed/relaxed")), (hc, bc));
    let bh = B64.encode(Sha256::digest(canonicalize_body(body, bc)));
    let value_b_empty = format!(
        " v=1; a=rsa-sha256; c=relaxed/relaxed; d=example.com; s=sel;\r\n h=from:subject; bh={bh}; b="
    );
    let input = header_hash_input(
        &[("From", from), ("Subject", subject)],
        value_b_empty.as_bytes(),
        hc,
    );
    let header_hash = Sha256::digest(&input);
    let sig = key
        .sign(Pkcs1v15Sign::new::<Sha256>(), &header_hash)
        .unwrap();
    let der = key.to_public_key().to_public_key_der().unwrap();
    Signed {
        message: assemble_message(
            &value_b_empty,
            &B64.encode(sig),
            &build_message(from, subject, body),
        ),
        selector: "sel".into(),
        domain: "example.com".into(),
        txt: format!("v=DKIM1; k=rsa; p={}", B64.encode(der.as_bytes())),
    }
}

fn sign_ed25519(from: &[u8], subject: &[u8], body: &[u8], key: &SigningKey) -> Signed {
    sign_ed25519_with(from, subject, body, key, "")
}

fn sign_ed25519_with(
    from: &[u8],
    subject: &[u8],
    body: &[u8],
    key: &SigningKey,
    extra_tags: &str,
) -> Signed {
    let (hc, bc) = (HeaderCanon::Relaxed, BodyCanon::Relaxed);
    let bh = B64.encode(Sha256::digest(canonicalize_body(body, bc)));
    let value_b_empty = format!(
        " v=1; a=ed25519-sha256; c=relaxed/relaxed; d=example.com; s=ed;{extra_tags}\r\n h=from:subject; bh={bh}; b="
    );
    let input = header_hash_input(
        &[("From", from), ("Subject", subject)],
        value_b_empty.as_bytes(),
        hc,
    );
    let header_hash = Sha256::digest(&input);
    let sig = key.sign(&header_hash);
    Signed {
        message: assemble_message(
            &value_b_empty,
            &B64.encode(sig.to_bytes()),
            &build_message(from, subject, body),
        ),
        selector: "ed".into(),
        domain: "example.com".into(),
        txt: format!(
            "v=DKIM1; k=ed25519; p={}",
            B64.encode(key.verifying_key().to_bytes())
        ),
    }
}

fn published(s: &Signed) -> BTreeMap<String, String> {
    let mut txt = BTreeMap::new();
    txt.insert(
        format!("{}._domainkey.{}", s.selector, s.domain),
        s.txt.clone(),
    );
    txt
}

/// The key record of each signature that needs one, as DNS has it.
fn keys_for(message: &[u8], now: u64, txt: &BTreeMap<String, String>) -> Vec<Option<DkimRecord>> {
    let mut keys = Vec::new();
    for state in inspect(message, now) {
        if let SignatureState::NeedsKey(pending) = state {
            let sig = &pending.signature;
            let answers = txt
                .get(&dkim_name(&sig.selector, &sig.domain))
                .map(|v| vec![TxtRecord(v.clone())])
                .unwrap_or_default();
            keys.push(lookup_dkim(&answers, &sig.selector, &sig.domain).ok());
        }
    }
    keys
}

fn verify_with(txt: &BTreeMap<String, String>, message: &[u8]) -> Vec<DkimOutcome> {
    verify(message, 1_000, &keys_for(message, 1_000, txt))
}

#[test]
fn rsa_sha256_round_trip_passes() {
    let key = RsaPrivateKey::new(&mut rand_core::OsRng, 1024).unwrap();
    let s = sign_rsa(b" Alice <a@example.com>", b" Hello", b"Hi Bob\r\n", &key);
    let out = verify_with(&published(&s), &s.message);
    assert_eq!(out.len(), 1);
    assert_eq!(out[0].result, DkimResult::Pass);
    assert_eq!(out[0].domain, "example.com");
}

#[test]
fn rsa_key_in_pkcs1_form_is_accepted() {
    let key = RsaPrivateKey::new(&mut rand_core::OsRng, 1024).unwrap();
    let s = sign_rsa(b" Alice <a@example.com>", b" Hello", b"Hi Bob\r\n", &key);
    let der = key.to_public_key().to_pkcs1_der().unwrap();
    let mut txt = BTreeMap::new();
    txt.insert(
        "sel._domainkey.example.com".to_string(),
        format!("v=DKIM1; k=rsa; p={}", B64.encode(der.as_bytes())),
    );
    let out = verify_with(&txt, &s.message);
    assert_eq!(out[0].result, DkimResult::Pass);
}

#[test]
fn ed25519_round_trip_passes() {
    let key = SigningKey::from_bytes(&[7u8; 32]);
    let s = sign_ed25519(b" Alice <a@example.com>", b" Hello", b"Hi Bob\r\n", &key);
    let out = verify_with(&published(&s), &s.message);
    assert_eq!(out.len(), 1);
    assert_eq!(out[0].result, DkimResult::Pass);
}

#[test]
fn field_added_on_top_leaves_the_signature_valid() {
    let key = SigningKey::from_bytes(&[3u8; 32]);
    let s = sign_ed25519(b" Alice <a@example.com>", b" Hello", b"Hi Bob\r\n", &key);
    let mut message = b"Received: from relay.test\r\n".to_vec();
    message.extend_from_slice(&s.message);
    let out = verify_with(&published(&s), &message);
    assert_eq!(out.len(), 1);
    assert_eq!(out[0].result, DkimResult::Pass);
}

#[test]
fn tampered_body_fails_on_body_hash() {
    let key = SigningKey::from_bytes(&[9u8; 32]);
    let mut s = sign_ed25519(b" Alice <a@example.com>", b" Hi", b"original\r\n", &key);
    // Flip a body byte after signing: the bh= no longer matches.
    let pos = s.message.windows(8).position(|w| w == b"original").unwrap();
    s.message[pos] = b'X';
    let out = verify_with(&published(&s), &s.message);
    assert_eq!(out[0].result, DkimResult::Fail);
}

#[test]
fn tampered_header_fails_signature() {
    let key = SigningKey::from_bytes(&[5u8; 32]);
    let s = sign_ed25519(b" Alice <a@example.com>", b" Hi", b"body\r\n", &key);
    // Alter a signed header (Subject) after signing.
    let mut message = s.message.clone();
    let pos = message.windows(3).position(|w| w == b"Hi\r").unwrap();
    message[pos] = b'Z';
    let out = verify_with(&published(&s), &message);
    assert_eq!(out[0].result, DkimResult::Fail);
}

#[test]
fn revoked_key_fails() {
    let key = SigningKey::from_bytes(&[3u8; 32]);
    let s = sign_ed25519(b" Alice <a@example.com>", b" Hi", b"body\r\n", &key);
    let mut txt = BTreeMap::new();
    txt.insert(
        format!("{}._domainkey.{}", s.selector, s.domain),
        "v=DKIM1; k=ed25519; p=".to_string(), // empty p = revoked
    );
    let out = verify_with(&txt, &s.message);
    assert_eq!(out[0].result, DkimResult::Fail);
}

#[test]
fn missing_key_is_permerror() {
    let key = SigningKey::from_bytes(&[1u8; 32]);
    let s = sign_ed25519(b" Alice <a@example.com>", b" Hi", b"body\r\n", &key);
    // No key record published.
    let out = verify_with(&BTreeMap::new(), &s.message);
    assert_eq!(out[0].result, DkimResult::PermError);
}

#[test]
fn no_signature_yields_empty() {
    let msg = b"From: a@example.com\r\nSubject: hi\r\n\r\nbody\r\n";
    let out = verify_with(&BTreeMap::new(), msg);
    assert!(out.is_empty());
}

#[test]
fn expired_signature_fails_without_a_key() {
    let key = SigningKey::from_bytes(&[2u8; 32]);
    let s = sign_ed25519_with(
        b" Alice <a@example.com>",
        b" Hi",
        b"body\r\n",
        &key,
        " x=500;",
    );
    // Expired at 1000: settled before any key is asked for.
    assert!(keys_for(&s.message, 1_000, &published(&s)).is_empty());
    assert_eq!(verify_with(&published(&s), &s.message)[0].result, DkimResult::Fail);
    // Still good at 499.
    let keys = keys_for(&s.message, 499, &published(&s));
    assert_eq!(verify(&s.message, 499, &keys)[0].result, DkimResult::Pass);
}

#[test]
fn every_signature_gets_an_outcome_in_order() {
    let key = SigningKey::from_bytes(&[4u8; 32]);
    let s = sign_ed25519(b" Alice <a@example.com>", b" Hi", b"body\r\n", &key);
    let mut message = b"DKIM-Signature: v=1; a=rsa-sha1; d=other.test; s=old; h=from; bh=AA==; b=AA==\r\n".to_vec();
    message.extend_from_slice(&s.message);
    let out = verify_with(&published(&s), &message);
    assert_eq!(out.len(), 2);
    assert_eq!(out[0].result, DkimResult::PermError);
    assert_eq!(out[1].result, DkimResult::Pass);
    assert_eq!(out[1].selector, "ed");
    assert_eq!(out, finish(inspect(&message, 1_000), &keys_for(&message, 1_000, &published(&s))));
}

#[test]
fn wrong_key_type_is_refused_before_the_signature_is_checked() {
    let record = DkimRecord::parse("v=DKIM1; k=rsa; p=AAAA").unwrap();
    assert_eq!(
        screen_key(Algorithm::Ed25519Sha256, &Some(record)),
        Some(DkimResult::PermError)
    );
    assert_eq!(screen_key(Algorithm::RsaSha256, &None), Some(DkimResult::PermError));
    let good = DkimRecord::parse("v=DKIM1; k=ed25519; p=AAAA").unwrap();
    assert_eq!(screen_key(Algorithm::Ed25519Sha256, &Some(good)), None);
}

#[test]
fn unusable_key_bytes_are_permerror() {
    assert_eq!(check_signature(Algorithm::Ed25519Sha256, &[1, 2, 3], &[0; 32], &[0; 64]), None);
    assert_eq!(check_signature(Algorithm::RsaSha256, &[1, 2, 3], &[0; 32], &[0; 64]), None);
    assert_eq!(conclude(None), DkimResult::PermError);
    assert_eq!(conclude(Some(true)), DkimResult::Pass);
    assert_eq!(conclude(Some(false)), DkimResult::Fail);
}

#[test]
fn folded_fields_are_read_as_one() {
    let fields = parse_fields(b"Subject : a\r\n\tb\r\nFrom: c\r\n");
    assert_eq!(fields.len(), 2);
    assert_eq!(fields[0].name, "Subject ");
    assert_eq!(fields[0].value, b" a\r\n\tb");
    assert_eq!(fields[1].name, "From");
    assert_eq!(fields[1].value, b" c");
}

#[test]
fn result_tokens() {
    assert_eq!(DkimResult::Pass.as_str(), "pass");
    assert_eq!(DkimResult::Fail.as_str(), "fail");
    assert_eq!(DkimResult::PermError.as_str(), "permerror");
}

#[test]
fn canonical_bodies_stay_as_they_are() {
    let bodies = [
        &b""[..],
        b"\r\n",
        b" \t \r\n\r\n",
        b"abc",
        b"  a \t b  \r\n\r\n c\r\n \r\n\r\n",
        b"x\r\r\n\ny \r",
        b"\r \n\r\n",
    ];
    for body in bodies {
        for canon in [BodyCanon::Simple, BodyCanon::Relaxed] {
            let once = canonicalize_body(body, canon);
            assert_eq!(canonicalize_body(&once, canon), once);
        }
    }
}
