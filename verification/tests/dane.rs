//! DANE: which TLSA records are usable, and which certificates they authenticate.

use std::sync::Arc;
use std::time::{SystemTime, UNIX_EPOCH};

use rustls::crypto::CryptoProvider;
use sha2::{Digest, Sha256, Sha512};

use snail::network::dane::{
    cert_matches, has_usable_tlsa, selected_content, usage_accepts, DaneVerifier,
};
use snail::network::dns::tlsa::{TlsaMatching, TlsaRecord, TlsaSelector, TlsaUsage};

fn now() -> u64 {
    SystemTime::now()
        .duration_since(UNIX_EPOCH)
        .unwrap()
        .as_secs()
}

fn provider() -> Arc<CryptoProvider> {
    Arc::new(rustls::crypto::aws_lc_rs::default_provider())
}

/// A self-signed leaf certificate for `name`, as DER.
fn self_signed(name: &str) -> Vec<u8> {
    let key = rcgen::KeyPair::generate().unwrap();
    rcgen::CertificateParams::new(vec![name.to_string()])
        .unwrap()
        .self_signed(&key)
        .unwrap()
        .der()
        .to_vec()
}

/// A leaf (for `mx.test`) and the CA certificate that signed it, as DER.
fn ca_and_leaf() -> (Vec<u8>, Vec<u8>) {
    let ca_key = rcgen::KeyPair::generate().unwrap();
    let mut ca = rcgen::CertificateParams::new(vec!["ca.test".to_string()]).unwrap();
    ca.is_ca = rcgen::IsCa::Ca(rcgen::BasicConstraints::Unconstrained);
    ca.key_usages = vec![
        rcgen::KeyUsagePurpose::KeyCertSign,
        rcgen::KeyUsagePurpose::DigitalSignature,
    ];
    let ca = ca.self_signed(&ca_key).unwrap();

    let leaf_key = rcgen::KeyPair::generate().unwrap();
    let mut leaf = rcgen::CertificateParams::new(vec!["mx.test".to_string()]).unwrap();
    leaf.extended_key_usages = vec![rcgen::ExtendedKeyUsagePurpose::ServerAuth];
    let leaf = leaf.signed_by(&leaf_key, &ca, &ca_key).unwrap();
    (leaf.der().to_vec(), ca.der().to_vec())
}

fn spki_der(cert: &[u8]) -> Option<Vec<u8>> {
    selected_content(TlsaSelector::Spki, cert)
}

fn spki_sha256(usage: TlsaUsage, cert: &[u8]) -> TlsaRecord {
    TlsaRecord {
        usage,
        selector: TlsaSelector::Spki,
        matching: TlsaMatching::Sha256,
        data: Sha256::digest(spki_der(cert).unwrap()).to_vec(),
    }
}

fn verify(verifier: &DaneVerifier, ee: &[u8], chain: &[Vec<u8>], name: &str) -> bool {
    verifier
        .verify_server_cert(ee, &chain.to_vec(), name, now())
        .is_ok()
}

#[test]
fn has_usable_tlsa_filters_unusable_usages_and_fields() {
    assert!(has_usable_tlsa(&[TlsaRecord {
        usage: TlsaUsage::DaneEe,
        selector: TlsaSelector::Spki,
        matching: TlsaMatching::Sha256,
        data: vec![0u8; 32],
    }]));
    // PKIX usages are not usable for SMTP DANE.
    assert!(!has_usable_tlsa(&[TlsaRecord {
        usage: TlsaUsage::PkixEe,
        selector: TlsaSelector::Spki,
        matching: TlsaMatching::Sha256,
        data: vec![0u8; 32],
    }]));
    // An unknown selector/matching makes a record unusable.
    assert!(!has_usable_tlsa(&[TlsaRecord {
        usage: TlsaUsage::DaneEe,
        selector: TlsaSelector::Other(9),
        matching: TlsaMatching::Sha256,
        data: vec![],
    }]));
}

#[test]
fn dane_ee_accepts_matching_full_certificate() {
    let der = self_signed("mx.test");
    // TLSA 3 0 0: the full end-entity certificate, no PKIX/name check.
    let tlsa = TlsaRecord {
        usage: TlsaUsage::DaneEe,
        selector: TlsaSelector::Full,
        matching: TlsaMatching::Full,
        data: der.clone(),
    };
    let verifier = DaneVerifier::new(vec![tlsa], provider());
    // The name is irrelevant for DANE-EE (RFC 7672 §3.1.1).
    assert!(verify(&verifier, &der, &[], "anything.invalid"));
}

#[test]
fn dane_ee_accepts_matching_spki_sha256() {
    let der = self_signed("mx.test");
    // TLSA 3 1 1: SHA-256 of the SubjectPublicKeyInfo (the common SMTP case).
    let verifier = DaneVerifier::new(vec![spki_sha256(TlsaUsage::DaneEe, &der)], provider());
    assert!(verify(&verifier, &der, &[], "mx.test"));
}

#[test]
fn dane_ee_rejects_non_matching_certificate() {
    let der = self_signed("mx.test");
    let tlsa = TlsaRecord {
        usage: TlsaUsage::DaneEe,
        selector: TlsaSelector::Spki,
        matching: TlsaMatching::Sha256,
        data: vec![0u8; 32], // not the cert's SPKI digest
    };
    let verifier = DaneVerifier::new(vec![tlsa], provider());
    assert!(!verify(&verifier, &der, &[], "mx.test"));
}

#[test]
fn dane_ta_accepts_chain_to_matched_anchor() {
    let (leaf, ca) = ca_and_leaf();
    // TLSA 2 1 1 against the CA's SPKI; the leaf must chain to it.
    let verifier = DaneVerifier::new(vec![spki_sha256(TlsaUsage::DaneTa, &ca)], provider());
    assert!(verify(&verifier, &leaf, &[ca], "mx.test"));
}

#[test]
fn dane_ta_rejects_wrong_reference_identity() {
    let (leaf, ca) = ca_and_leaf();
    let verifier = DaneVerifier::new(vec![spki_sha256(TlsaUsage::DaneTa, &ca)], provider());
    // Chain is valid, but the leaf is not valid for `wrong.test` (RFC 7672 §3.1.1).
    assert!(!verify(&verifier, &leaf, &[ca], "wrong.test"));
}

#[test]
fn dane_ta_rejects_when_no_chain_certificate_matches() {
    let (leaf, ca) = ca_and_leaf();
    let tlsa = TlsaRecord {
        usage: TlsaUsage::DaneTa,
        selector: TlsaSelector::Spki,
        matching: TlsaMatching::Sha256,
        data: vec![0u8; 32], // matches neither the leaf nor the CA
    };
    let verifier = DaneVerifier::new(vec![tlsa], provider());
    assert!(!verify(&verifier, &leaf, &[ca], "mx.test"));
}

#[test]
fn dane_ta_rejects_an_anchor_that_did_not_sign_the_leaf() {
    let (leaf, _) = ca_and_leaf();
    let (_, other_ca) = ca_and_leaf();
    let verifier = DaneVerifier::new(vec![spki_sha256(TlsaUsage::DaneTa, &other_ca)], provider());
    assert!(!verify(&verifier, &leaf, &[other_ca], "mx.test"));
}

#[test]
fn pkix_usages_authenticate_nothing() {
    let der = self_signed("mx.test");
    let verifier = DaneVerifier::new(vec![spki_sha256(TlsaUsage::PkixEe, &der)], provider());
    assert!(!verify(&verifier, &der, &[], "mx.test"));
    assert!(!has_usable_tlsa(&[spki_sha256(TlsaUsage::PkixEe, &der)]));
    assert!(!usage_accepts(TlsaUsage::PkixTa, true, true));
    assert!(usage_accepts(TlsaUsage::DaneEe, true, false));
    assert!(!usage_accepts(TlsaUsage::DaneEe, false, true));
    assert!(usage_accepts(TlsaUsage::DaneTa, false, true));
}

#[test]
fn every_matching_type_compares_its_digest() {
    let der = self_signed("mx.test");
    let record = |matching: TlsaMatching, data: Vec<u8>| TlsaRecord {
        usage: TlsaUsage::DaneEe,
        selector: TlsaSelector::Full,
        matching,
        data,
    };
    assert!(cert_matches(&record(TlsaMatching::Sha256, Sha256::digest(&der).to_vec()), &der));
    assert!(cert_matches(&record(TlsaMatching::Sha512, Sha512::digest(&der).to_vec()), &der));
    assert!(!cert_matches(&record(TlsaMatching::Sha512, Sha256::digest(&der).to_vec()), &der));
    assert!(!cert_matches(&record(TlsaMatching::Other(7), der.clone()), &der));
}

#[test]
fn bytes_that_are_no_certificate_have_no_key() {
    assert_eq!(spki_der(b"not a certificate"), None);
    assert_eq!(selected_content(TlsaSelector::Full, b"abc"), Some(b"abc".to_vec()));
    assert_eq!(selected_content(TlsaSelector::Other(4), b"abc"), None);
}

#[test]
fn dane_ta_chain_is_checked_by_the_given_provider() {
    let (leaf, ca) = ca_and_leaf();
    let mut none = rustls::crypto::aws_lc_rs::default_provider();
    none.signature_verification_algorithms.all = &[];
    let tlsa = spki_sha256(TlsaUsage::DaneTa, &ca);
    let without = DaneVerifier::new(vec![tlsa.clone()], Arc::new(none));
    assert!(!verify(&without, &leaf, &[ca.clone()], "mx.test"));
    let with = DaneVerifier::new(vec![tlsa], provider());
    assert!(verify(&with, &leaf, &[ca], "mx.test"));
}
