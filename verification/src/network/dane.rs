//! DANE TLS authentication for outbound SMTP (RFC 7672, RFC 6698).
//!
//! [`DaneVerifier`] authenticates a mail exchange's certificate against the
//! DNSSEC-validated TLSA records published for it. It supports the two certificate
//! usages RFC 7672 §3.1.3 recommends for SMTP:
//!
//! - DANE-EE (3): the TLSA association must match the server's end-entity
//!   certificate directly. No PKIX chain or reference-identity check is performed
//!   (RFC 7672 §3.1.1); this is the common SMTP case.
//! - DANE-TA (2): the association must match a certificate in the presented chain,
//!   which is then treated as the trust anchor; the end-entity must build a valid
//!   chain up to it (WebPKI) and match the mail-exchange host name.
//!
//! Usages PKIX-TA (0) and PKIX-EE (1) are deliberately treated as unusable (RFC
//! 7672 §3.1.3 says SMTP servers SHOULD NOT publish them and clients MAY ignore
//! them), so a record with those usages never authenticates a peer here. A
//! connection where no usable TLSA record matches fails the handshake, which the
//! relay turns into a deferral (never a cleartext downgrade).

use rustls::crypto::CryptoProvider;
use rustls::pki_types::{CertificateDer, ServerName, UnixTime};
use std::sync::Arc;
use vstd::prelude::*;
use vstd::slice::slice_to_vec;
use x509_cert::der::{Decode, Encode};
use x509_cert::Certificate;

use crate::network::digest::{sha256, sha256_digest, sha512, sha512_digest};
use crate::network::dns::tlsa::{
    tlsa_views, TlsaMatching, TlsaRecord, TlsaRecordView, TlsaSelector, TlsaUsage,
};
use crate::text::{blobs, bytes_eq};

verus! {

// ---------------------------------------------------------------------------
// Certificates
// ---------------------------------------------------------------------------

/// rustls's set of cryptographic algorithms.
#[verifier::external_type_specification]
#[verifier::external_body]
pub struct ExCryptoProvider(CryptoProvider);

/// The `SubjectPublicKeyInfo` of a certificate in DER; nothing where the
/// certificate does not parse.
pub uninterp spec fn certificate_spki(cert: Seq<u8>) -> Option<Seq<u8>>;

/// Whether an end-entity certificate builds a chain for server authentication to an
/// anchor certificate, through the intermediates, at a time in Unix seconds, by a
/// provider's signature algorithms.
pub uninterp spec fn chain_valid(
    provider: CryptoProvider,
    anchor: Seq<u8>,
    end_entity: Seq<u8>,
    intermediates: Seq<Seq<u8>>,
    now: nat,
) -> bool;

/// Whether an end-entity certificate is valid for a server name.
pub uninterp spec fn name_valid(end_entity: Seq<u8>, server_name: Seq<char>) -> bool;

/// The view of an optional byte sequence.
pub open spec fn bytes_view(o: Option<Vec<u8>>) -> Option<Seq<u8>> {
    match o {
        Some(b) => Some(b@),
        None => None,
    }
}

/// `x509_cert::Certificate::from_der`, then `to_der` of its
/// `subject_public_key_info`: the DER of the certificate's public key, or nothing
/// where either fails. The result depends on the certificate alone.
#[verifier::external_body]
fn spki_der(cert_der: &[u8]) -> (r: Option<Vec<u8>>)
    ensures
        bytes_view(r) == certificate_spki(cert_der@),
{
    let cert = Certificate::from_der(cert_der).ok()?;
    cert.tbs_certificate.subject_public_key_info.to_der().ok()
}

/// `webpki::EndEntityCert::verify_for_usage`, for server authentication, with the
/// certificate that `webpki::anchor_from_trusted_cert` makes an anchor of as the
/// only anchor, and the provider's signature algorithms: whether the end-entity builds a
/// valid chain to the anchor at that time. False also where either certificate does not
/// parse. The result depends on the arguments alone: an algorithm decides whether a
/// signature is valid, which is no matter of chance or state.
#[verifier::external_body]
fn verify_chain(
    provider: &CryptoProvider,
    anchor: &[u8],
    end_entity: &[u8],
    intermediates: &Vec<Vec<u8>>,
    now: u64,
) -> (r: bool)
    ensures
        r == chain_valid(*provider, anchor@, end_entity@, blobs(intermediates@), now as nat),
{
    let algs = provider.signature_verification_algorithms;
    let ta = CertificateDer::from(anchor);
    let ee = CertificateDer::from(end_entity);
    let chain: Vec<CertificateDer<'_>> =
        intermediates.iter().map(|c| CertificateDer::from(c.as_slice())).collect();
    let time = UnixTime::since_unix_epoch(std::time::Duration::from_secs(now));
    let usage = webpki::KeyUsage::server_auth();
    match (webpki::anchor_from_trusted_cert(&ta), webpki::EndEntityCert::try_from(&ee)) {
        (Ok(a), Ok(e)) => e.verify_for_usage(algs.all, &[a], &chain, time, usage, None, None).is_ok(),
        _ => false,
    }
}

/// `webpki::EndEntityCert::verify_is_valid_for_subject_name`: whether the
/// certificate is valid for the name. False also where the certificate does not
/// parse or the name is no server name. The result depends on the arguments alone.
#[verifier::external_body]
fn verify_name(end_entity: &[u8], server_name: &str) -> (r: bool)
    ensures
        r == name_valid(end_entity@, server_name@),
{
    let ee = CertificateDer::from(end_entity);
    match (webpki::EndEntityCert::try_from(&ee), ServerName::try_from(server_name)) {
        (Ok(e), Ok(name)) => e.verify_is_valid_for_subject_name(&name).is_ok(),
        _ => false,
    }
}

// ---------------------------------------------------------------------------
// Associations
// ---------------------------------------------------------------------------

/// The bytes a selector covers: the whole certificate, or its public key.
pub open spec fn selected(selector: TlsaSelector, cert: Seq<u8>) -> Option<Seq<u8>> {
    match selector {
        TlsaSelector::Full => Some(cert),
        TlsaSelector::Spki => certificate_spki(cert),
        TlsaSelector::Other(_) => None,
    }
}

/// Whether content matches association data: the same bytes, or their digest.
pub open spec fn associated(matching: TlsaMatching, content: Seq<u8>, data: Seq<u8>) -> bool {
    match matching {
        TlsaMatching::Full => content == data,
        TlsaMatching::Sha256 => sha256(content) == data,
        TlsaMatching::Sha512 => sha512(content) == data,
        TlsaMatching::Other(_) => false,
    }
}

/// Whether a certificate matches a TLSA association.
pub open spec fn names_cert(tlsa: TlsaRecordView, cert: Seq<u8>) -> bool {
    match selected(tlsa.selector, cert) {
        Some(content) => associated(tlsa.matching, content, tlsa.data),
        None => false,
    }
}

/// Whether `content` matches the association `data` under `matching` (exact bytes
/// for `Full`, otherwise a SHA-256 or SHA-512 digest comparison).
fn matches_association(matching: TlsaMatching, content: &[u8], data: &[u8]) -> (r: bool)
    ensures
        r == associated(matching, content@, data@),
{
    match matching {
        TlsaMatching::Full => bytes_eq(content, data),
        TlsaMatching::Sha256 => {
            let digest = sha256_digest(content);
            bytes_eq(digest.as_slice(), data)
        },
        TlsaMatching::Sha512 => {
            let digest = sha512_digest(content);
            bytes_eq(digest.as_slice(), data)
        },
        TlsaMatching::Other(_) => false,
    }
}

/// The bytes the TLSA `selector` covers: the whole certificate DER (`Full`) or its
/// `SubjectPublicKeyInfo` DER (`Spki`).
pub fn selected_content(selector: TlsaSelector, cert_der: &[u8]) -> (r: Option<Vec<u8>>)
    ensures
        bytes_view(r) == selected(selector, cert_der@),
{
    match selector {
        TlsaSelector::Full => Some(slice_to_vec(cert_der)),
        TlsaSelector::Spki => spki_der(cert_der),
        TlsaSelector::Other(_) => None,
    }
}

/// Whether the certificate (raw DER) matches the TLSA association: the selected
/// content (full certificate or SPKI), compared exactly or by digest.
pub fn cert_matches(tlsa: &TlsaRecord, cert_der: &[u8]) -> (r: bool)
    ensures
        r == names_cert(tlsa@, cert_der@),
{
    match selected_content(tlsa.selector, cert_der) {
        Some(content) => matches_association(
            tlsa.matching,
            content.as_slice(),
            tlsa.data.as_slice(),
        ),
        None => false,
    }
}

/// Whether a record is usable for DANE: a `DANE-EE` or `DANE-TA` usage with a known
/// selector and matching type.
pub open spec fn usable(r: TlsaRecordView) -> bool {
    (r.usage is DaneEe || r.usage is DaneTa) && !(r.selector is Other) && !(r.matching is Other)
}

/// Whether any of the records is usable.
pub open spec fn any_usable(records: Seq<TlsaRecordView>) -> bool {
    exists|i: int| 0 <= i < records.len() && usable(#[trigger] records[i])
}

fn is_usable(record: &TlsaRecord) -> (r: bool)
    ensures
        r == usable(record@),
{
    let usage = match record.usage {
        TlsaUsage::DaneEe => true,
        TlsaUsage::DaneTa => true,
        _ => false,
    };
    let selector = match record.selector {
        TlsaSelector::Other(_) => false,
        _ => true,
    };
    let matching = match record.matching {
        TlsaMatching::Other(_) => false,
        _ => true,
    };
    usage && selector && matching
}

/// Whether at least one record in `records` is usable for DANE (RFC 6698 §2.2.4,
/// RFC 7672 §3.1.3): a `DANE-EE` or `DANE-TA` usage with a known selector and
/// matching type. If every record is unusable the host has no usable TLSA RRset and
/// DANE does not apply; the relay then falls back to its non-DANE policy rather than
/// treating delivery as impossible.
pub fn has_usable_tlsa(records: &[TlsaRecord]) -> (r: bool)
    ensures
        r == any_usable(tlsa_views(records@)),
{
    let ghost views = tlsa_views(records@);
    let mut i: usize = 0;
    while i < records.len()
        invariant
            i <= records@.len(),
            views == tlsa_views(records@),
            forall|j: int| 0 <= j < i ==> !usable(#[trigger] views[j]),
        decreases records.len() - i,
    {
        assert(views[i as int] == records@[i as int]@);
        if is_usable(&records[i]) {
            assert(usable(views[i as int]));
            return true;
        }
        i = i + 1;
    }
    false
}

// ---------------------------------------------------------------------------
// Verification
// ---------------------------------------------------------------------------

/// The first of the intermediates from the `i`-th on that matches a TLSA association.
pub open spec fn first_intermediate(
    tlsa: TlsaRecordView,
    intermediates: Seq<Seq<u8>>,
    i: int,
) -> Option<Seq<u8>>
    decreases intermediates.len() - i,
{
    if i < 0 || i >= intermediates.len() {
        None
    } else if names_cert(tlsa, intermediates[i]) {
        Some(intermediates[i])
    } else {
        first_intermediate(tlsa, intermediates, i + 1)
    }
}

/// The certificate of a presented chain that a DANE-TA association makes the trust
/// anchor: the first that matches it, the end-entity first.
pub open spec fn trust_anchor(
    tlsa: TlsaRecordView,
    end_entity: Seq<u8>,
    intermediates: Seq<Seq<u8>>,
) -> Option<Seq<u8>> {
    if names_cert(tlsa, end_entity) {
        Some(end_entity)
    } else {
        first_intermediate(tlsa, intermediates, 0)
    }
}

/// Whether a DANE-TA association authenticates a peer: it names a trust anchor in
/// the presented chain, the end-entity builds a valid chain to that, and the
/// end-entity is valid for the server name (RFC 7672 §3.1.1).
pub open spec fn anchored(
    provider: CryptoProvider,
    tlsa: TlsaRecordView,
    end_entity: Seq<u8>,
    intermediates: Seq<Seq<u8>>,
    server_name: Seq<char>,
    now: nat,
) -> bool {
    match trust_anchor(tlsa, end_entity, intermediates) {
        Some(anchor) => chain_valid(provider, anchor, end_entity, intermediates, now) && name_valid(
            end_entity,
            server_name,
        ),
        None => false,
    }
}

/// Whether a TLSA record authenticates a peer.
pub open spec fn authenticates(
    provider: CryptoProvider,
    tlsa: TlsaRecordView,
    end_entity: Seq<u8>,
    intermediates: Seq<Seq<u8>>,
    server_name: Seq<char>,
    now: nat,
) -> bool {
    match tlsa.usage {
        TlsaUsage::DaneEe => names_cert(tlsa, end_entity),
        TlsaUsage::DaneTa => anchored(provider, tlsa, end_entity, intermediates, server_name, now),
        _ => false,
    }
}

/// What a usage makes of the two ways in which a record can match: the end-entity
/// directly for DANE-EE, an anchored chain for DANE-TA, and nothing else.
pub fn usage_accepts(usage: TlsaUsage, names_end_entity: bool, anchors_chain: bool) -> (r: bool)
    ensures
        r == match usage {
            TlsaUsage::DaneEe => names_end_entity,
            TlsaUsage::DaneTa => anchors_chain,
            _ => false,
        },
{
    match usage {
        TlsaUsage::DaneEe => names_end_entity,
        TlsaUsage::DaneTa => anchors_chain,
        _ => false,
    }
}

/// A server-certificate verifier that authenticates a peer via DANE (RFC 7672)
/// against a set of DNSSEC-validated TLSA records.
pub struct DaneVerifier {
    /// The TLSA records for this mail exchange (already DNSSEC-validated).
    tlsa: Vec<TlsaRecord>,
    /// The active crypto provider, used for chain checks.
    provider: Arc<CryptoProvider>,
}

impl View for DaneVerifier {
    type V = Seq<TlsaRecordView>;

    closed spec fn view(&self) -> Seq<TlsaRecordView> {
        tlsa_views(self.tlsa@)
    }
}

impl DaneVerifier {
    /// The provider whose algorithms check chains.
    pub closed spec fn provider(&self) -> CryptoProvider {
        *self.provider
    }

    /// Build a verifier from a mail exchange's TLSA records and the active crypto
    /// provider. The records must already be DNSSEC-validated.
    pub fn new(tlsa: Vec<TlsaRecord>, provider: Arc<CryptoProvider>) -> (r: DaneVerifier)
        ensures
            r@ == tlsa_views(tlsa@),
            r.provider() == *provider,
    {
        DaneVerifier { tlsa, provider }
    }

    /// Verify a DANE-TA (usage 2) association: a certificate in the presented chain
    /// must match the TLSA record and serve as the trust anchor, the end-entity must
    /// build a valid WebPKI chain to it, and the end-entity must be valid for
    /// `server_name` (RFC 7672 §3.1.1 requires the identity check for usage 2).
    /// Returns `true` on success.
    fn matches_dane_ta(
        &self,
        tlsa: &TlsaRecord,
        end_entity: &[u8],
        intermediates: &Vec<Vec<u8>>,
        server_name: &str,
        now: u64,
    ) -> (r: bool)
        ensures
            r == anchored(
                self.provider(),
                tlsa@,
                end_entity@,
                blobs(intermediates@),
                server_name@,
                now as nat,
            ),
    {
        let ghost all = blobs(intermediates@);
        if cert_matches(tlsa, end_entity) {
            return verify_chain(
                &self.provider,
                end_entity,
                end_entity,
                intermediates,
                now,
            ) && verify_name(end_entity, server_name);
        }
        let mut i: usize = 0;
        while i < intermediates.len()
            invariant
                i <= intermediates@.len(),
                all == blobs(intermediates@),
                !names_cert(tlsa@, end_entity@),
                first_intermediate(tlsa@, all, 0) == first_intermediate(tlsa@, all, i as int),
            decreases intermediates.len() - i,
        {
            let cert = intermediates[i].as_slice();
            assert(all[i as int] == cert@);
            if cert_matches(tlsa, cert) {
                return verify_chain(
                    &self.provider,
                    cert,
                    end_entity,
                    intermediates,
                    now,
                ) && verify_name(end_entity, server_name);
            }
            i = i + 1;
        }
        false
    }

    /// Verify the certificate chain that a peer presents, as DER, against the TLSA
    /// records. `now` is in Unix seconds.
    ///
    /// # Errors
    /// A message for the handshake if no usable TLSA record matches.
    pub fn verify_server_cert(
        &self,
        end_entity: &[u8],
        intermediates: &Vec<Vec<u8>>,
        server_name: &str,
        now: u64,
    ) -> (r: Result<(), String>)
        ensures
            r is Ok <==> exists|i: int|
                0 <= i < self@.len() && authenticates(
                    self.provider(),
                    #[trigger] self@[i],
                    end_entity@,
                    blobs(intermediates@),
                    server_name@,
                    now as nat,
                ),
            r matches Err(e) ==> e@
                == "DANE: no usable TLSA record matched the server certificate chain"@,
    {
        let ghost all = blobs(intermediates@);
        let mut i: usize = 0;
        while i < self.tlsa.len()
            invariant
                i <= self.tlsa@.len(),
                all == blobs(intermediates@),
                self@ == tlsa_views(self.tlsa@),
                forall|j: int|
                    0 <= j < i ==> !authenticates(
                        self.provider(),
                        #[trigger] self@[j],
                        end_entity@,
                        all,
                        server_name@,
                        now as nat,
                    ),
            decreases self.tlsa.len() - i,
        {
            let tlsa = &self.tlsa[i];
            assert(self@[i as int] == tlsa@);
            let names_end_entity = tlsa.usage == TlsaUsage::DaneEe && cert_matches(
                tlsa,
                end_entity,
            );
            let anchors_chain = tlsa.usage == TlsaUsage::DaneTa && self.matches_dane_ta(
                tlsa,
                end_entity,
                intermediates,
                server_name,
                now,
            );
            if usage_accepts(tlsa.usage, names_end_entity, anchors_chain) {
                assert(authenticates(
                    self.provider(),
                    self@[i as int],
                    end_entity@,
                    all,
                    server_name@,
                    now as nat,
                ));
                return Ok(());
            }
            i = i + 1;
        }
        Err("DANE: no usable TLSA record matched the server certificate chain".to_string())
    }
}

// ---------------------------------------------------------------------------
// Laws
// ---------------------------------------------------------------------------

/// Only a usable record ever authenticates a peer: PKIX usages and unknown fields
/// do not.
pub proof fn law_only_usable_records_authenticate(
    provider: CryptoProvider,
    tlsa: TlsaRecordView,
    end_entity: Seq<u8>,
    intermediates: Seq<Seq<u8>>,
    server_name: Seq<char>,
    now: nat,
)
    requires
        authenticates(provider, tlsa, end_entity, intermediates, server_name, now),
    ensures
        usable(tlsa),
{
    if tlsa.usage is DaneTa {
        lemma_anchor_matches(tlsa, intermediates, 0);
    }
}

/// Where no record is usable, no chain verifies.
pub proof fn law_no_usable_record_authenticates_nobody(
    provider: CryptoProvider,
    records: Seq<TlsaRecordView>,
    end_entity: Seq<u8>,
    intermediates: Seq<Seq<u8>>,
    server_name: Seq<char>,
    now: nat,
)
    requires
        !any_usable(records),
    ensures
        !exists|i: int|
            0 <= i < records.len() && authenticates(
                provider,
                #[trigger] records[i],
                end_entity,
                intermediates,
                server_name,
                now,
            ),
{
    assert forall|i: int| 0 <= i < records.len() implies !authenticates(
        provider,
        #[trigger] records[i],
        end_entity,
        intermediates,
        server_name,
        now,
    ) by {
        if authenticates(provider, records[i], end_entity, intermediates, server_name, now) {
            law_only_usable_records_authenticate(
                provider,
                records[i],
                end_entity,
                intermediates,
                server_name,
                now,
            );
        }
    }
}

/// For DANE-EE neither the name, nor the time, nor the rest of the chain counts.
pub proof fn law_dane_ee_ignores_name_time_and_chain(
    provider: CryptoProvider,
    tlsa: TlsaRecordView,
    end_entity: Seq<u8>,
    intermediates: Seq<Seq<u8>>,
    server_name: Seq<char>,
    now: nat,
    other_intermediates: Seq<Seq<u8>>,
    other_name: Seq<char>,
    other_time: nat,
)
    requires
        tlsa.usage is DaneEe,
    ensures
        authenticates(provider, tlsa, end_entity, intermediates, server_name, now) == authenticates(
            provider,
            tlsa,
            end_entity,
            other_intermediates,
            other_name,
            other_time,
        ),
{
}

/// For DANE-TA the end-entity must be valid for the name.
pub proof fn law_dane_ta_needs_the_name(
    provider: CryptoProvider,
    tlsa: TlsaRecordView,
    end_entity: Seq<u8>,
    intermediates: Seq<Seq<u8>>,
    server_name: Seq<char>,
    now: nat,
)
    requires
        tlsa.usage is DaneTa,
        !name_valid(end_entity, server_name),
    ensures
        !authenticates(provider, tlsa, end_entity, intermediates, server_name, now),
{
}

/// A DANE-TA record finds a trust anchor exactly where it matches some certificate of the
/// presented chain, at whatever position: the anchor is the first of the chain that it
/// matches, the end-entity being the first and the intermediates coming after it in order.
pub proof fn law_trust_anchor_is_the_first_match(
    tlsa: TlsaRecordView,
    end_entity: Seq<u8>,
    intermediates: Seq<Seq<u8>>,
)
    ensures
        ({
            let chain = seq![end_entity] + intermediates;
            let anchor = trust_anchor(tlsa, end_entity, intermediates);
            &&& anchor is Some <==> exists|k: int|
                0 <= k < chain.len() && names_cert(tlsa, #[trigger] chain[k])
            &&& anchor is Some ==> exists|k: int|
                0 <= k < chain.len() && #[trigger] chain[k] == anchor->0 && names_cert(
                    tlsa,
                    chain[k],
                ) && forall|j: int| 0 <= j < k ==> !names_cert(tlsa, #[trigger] chain[j])
        }),
{
    let chain = seq![end_entity] + intermediates;
    assert(chain[0] == end_entity);
    assert(forall|k: int| 0 <= k < intermediates.len() ==> chain[k + 1] == intermediates[k]);
    lemma_first_intermediate(tlsa, intermediates, 0);
    if names_cert(tlsa, end_entity) {
        assert(names_cert(tlsa, chain[0]));
    } else if first_intermediate(tlsa, intermediates, 0) is Some {
        let k = choose|k: int|
            0 <= k < intermediates.len() && #[trigger] intermediates[k] == first_intermediate(
                tlsa,
                intermediates,
                0,
            )->0 && names_cert(tlsa, intermediates[k]) && forall|j: int|
                0 <= j < k ==> !names_cert(tlsa, #[trigger] intermediates[j]);
        assert(chain[k + 1] == intermediates[k]);
        assert forall|j: int| 0 <= j < k + 1 implies !names_cert(tlsa, #[trigger] chain[j]) by {
            if j > 0 {
                assert(chain[j] == intermediates[j - 1]);
            }
        }
    } else {
        assert forall|k: int| 0 <= k < chain.len() implies !names_cert(
            tlsa,
            #[trigger] chain[k],
        ) by {
            if k > 0 {
                assert(chain[k] == intermediates[k - 1]);
            }
        }
    }
}

/// A DANE-TA record authenticates a peer exactly where the first certificate of the
/// presented chain that it matches anchors a valid chain and the end-entity is valid for the
/// name; where it matches no certificate of the chain it authenticates nobody.
pub proof fn law_dane_ta_anchors_at_the_first_match(
    provider: CryptoProvider,
    tlsa: TlsaRecordView,
    end_entity: Seq<u8>,
    intermediates: Seq<Seq<u8>>,
    server_name: Seq<char>,
    now: nat,
    k: int,
)
    requires
        tlsa.usage is DaneTa,
        0 <= k <= intermediates.len() + 1,
        forall|j: int|
            0 <= j < k ==> !names_cert(tlsa, #[trigger] (seq![end_entity] + intermediates)[j]),
        k <= intermediates.len() ==> names_cert(tlsa, (seq![end_entity] + intermediates)[k]),
    ensures
        authenticates(provider, tlsa, end_entity, intermediates, server_name, now) <==> k
            <= intermediates.len() && chain_valid(
            provider,
            (seq![end_entity] + intermediates)[k],
            end_entity,
            intermediates,
            now,
        ) && name_valid(end_entity, server_name),
{
    let chain = seq![end_entity] + intermediates;
    law_trust_anchor_is_the_first_match(tlsa, end_entity, intermediates);
    let anchor = trust_anchor(tlsa, end_entity, intermediates);
    if anchor is Some {
        let n = choose|n: int|
            0 <= n < chain.len() && #[trigger] chain[n] == anchor->0 && names_cert(tlsa, chain[n])
                && forall|j: int| 0 <= j < n ==> !names_cert(tlsa, #[trigger] chain[j]);
        if n < k {
            assert(names_cert(tlsa, chain[n]));
        } else if k < n {
            assert(!names_cert(tlsa, chain[k]));
        }
    }
}

/// A DANE-EE record authenticates a peer exactly where it matches the end-entity, whatever
/// the rest of the chain is.
pub proof fn law_dane_ee_matches_the_end_entity(
    provider: CryptoProvider,
    tlsa: TlsaRecordView,
    end_entity: Seq<u8>,
    intermediates: Seq<Seq<u8>>,
    server_name: Seq<char>,
    now: nat,
)
    requires
        tlsa.usage is DaneEe,
    ensures
        authenticates(provider, tlsa, end_entity, intermediates, server_name, now) <==> names_cert(
            tlsa,
            end_entity,
        ),
{
}

/// A record matches a certificate by the whole of it or by its public key, compared as it is
/// or by its SHA-256 or SHA-512 digest, as its selector and its matching type say; a
/// certificate without a readable public key is matched by none that selects that.
pub proof fn law_record_matches_what_it_selects(
    tlsa: TlsaRecordView,
    cert: Seq<u8>,
    key: Seq<u8>,
)
    ensures
        tlsa.selector is Full ==> (names_cert(tlsa, cert) <==> match tlsa.matching {
            TlsaMatching::Full => tlsa.data == cert,
            TlsaMatching::Sha256 => tlsa.data == sha256(cert),
            TlsaMatching::Sha512 => tlsa.data == sha512(cert),
            TlsaMatching::Other(_) => false,
        }),
        tlsa.selector is Spki && certificate_spki(cert) == Some(key) ==> (names_cert(tlsa, cert)
            <==> match tlsa.matching {
            TlsaMatching::Full => tlsa.data == key,
            TlsaMatching::Sha256 => tlsa.data == sha256(key),
            TlsaMatching::Sha512 => tlsa.data == sha512(key),
            TlsaMatching::Other(_) => false,
        }),
        tlsa.selector is Spki && certificate_spki(cert) is None ==> !names_cert(tlsa, cert),
        tlsa.selector is Other ==> !names_cert(tlsa, cert),
{
}

/// A set of records is usable exactly where one of them has a DANE usage, a known selector
/// and a known matching type.
pub proof fn law_usable_records_have_known_fields(records: Seq<TlsaRecordView>)
    ensures
        any_usable(records) <==> exists|i: int|
            0 <= i < records.len() && ((#[trigger] records[i]).usage is DaneEe
                || records[i].usage is DaneTa) && (records[i].selector is Full
                || records[i].selector is Spki) && (records[i].matching is Full
                || records[i].matching is Sha256 || records[i].matching is Sha512),
{
    if any_usable(records) {
        let i = choose|i: int| 0 <= i < records.len() && usable(#[trigger] records[i]);
        assert(records[i].usage is DaneEe || records[i].usage is DaneTa);
    }
    if exists|i: int|
        0 <= i < records.len() && ((#[trigger] records[i]).usage is DaneEe
            || records[i].usage is DaneTa) && (records[i].selector is Full
            || records[i].selector is Spki) && (records[i].matching is Full
            || records[i].matching is Sha256 || records[i].matching is Sha512) {
        let i = choose|i: int|
            0 <= i < records.len() && ((#[trigger] records[i]).usage is DaneEe
                || records[i].usage is DaneTa) && (records[i].selector is Full
                || records[i].selector is Spki) && (records[i].matching is Full
                || records[i].matching is Sha256 || records[i].matching is Sha512);
        assert(usable(records[i]));
    }
}

proof fn lemma_first_intermediate(tlsa: TlsaRecordView, intermediates: Seq<Seq<u8>>, i: int)
    requires
        0 <= i <= intermediates.len(),
    ensures
        ({
            let found = first_intermediate(tlsa, intermediates, i);
            &&& found is None ==> forall|j: int|
                i <= j < intermediates.len() ==> !names_cert(tlsa, #[trigger] intermediates[j])
            &&& found is Some ==> exists|k: int|
                i <= k < intermediates.len() && #[trigger] intermediates[k] == found->0
                    && names_cert(tlsa, intermediates[k]) && forall|j: int|
                    i <= j < k ==> !names_cert(tlsa, #[trigger] intermediates[j])
        }),
    decreases intermediates.len() - i,
{
    if i < intermediates.len() {
        if names_cert(tlsa, intermediates[i]) {
            assert(intermediates[i] == first_intermediate(tlsa, intermediates, i)->0);
        } else {
            lemma_first_intermediate(tlsa, intermediates, i + 1);
            let found = first_intermediate(tlsa, intermediates, i);
            if found is Some {
                let k = choose|k: int|
                    i + 1 <= k < intermediates.len() && #[trigger] intermediates[k] == found->0
                        && names_cert(tlsa, intermediates[k]) && forall|j: int|
                        i + 1 <= j < k ==> !names_cert(tlsa, #[trigger] intermediates[j]);
                assert forall|j: int| i <= j < k implies !names_cert(
                    tlsa,
                    #[trigger] intermediates[j],
                ) by {}
                assert(intermediates[k] == found->0);
            }
        }
    }
}

proof fn lemma_anchor_matches(tlsa: TlsaRecordView, intermediates: Seq<Seq<u8>>, i: int)
    ensures
        first_intermediate(tlsa, intermediates, i) is Some ==> !(tlsa.selector is Other) && !(
        tlsa.matching is Other),
    decreases intermediates.len() - i,
{
    if 0 <= i < intermediates.len() {
        lemma_anchor_matches(tlsa, intermediates, i + 1);
    }
}

} // verus!
