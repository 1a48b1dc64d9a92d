//! DKIM verification (RFC 6376 §6, RFC 8463): for each `DKIM-Signature` in a
//! message, check the body hash, build the signed-header hash, and verify the
//! signature with the public key that DNS gives.
//!
//! The key lookups happen outside: [`inspect`] decides everything that needs no
//! key and says which keys are wanted, [`settle`] decides the rest, and
//! [`verify`] does both once the keys are at hand.
//!
//! DNS-error note: "no key" and transient failures are not told apart, so a
//! failed key lookup is reported as `PermError` ("no key").

use ed25519_dalek::{Signature as EdSignature, VerifyingKey};
use rsa::pkcs1::DecodeRsaPublicKey;
use rsa::pkcs8::DecodePublicKey;
use rsa::{Pkcs1v15Sign, RsaPublicKey};
use vstd::prelude::*;
use vstd::slice::{slice_subrange, slice_to_vec};
use vstd::utf8::encode_utf8;

use crate::bytes::{
    blank_line, find_byte, find_in, find_subslice, lossy_text, position, split_bytes, split_on,
    utf8_lossy,
};
use crate::network::base64::{base64_decoded, decode_base64};
use crate::network::digest::{sha256, sha256_digest};
use crate::network::dkim::canonicalize::{
    canonical_body, canonical_header, canonicalize_body, canonicalize_header, crlf, wsp,
    HeaderCanon,
};
use crate::network::dkim::signature::{Algorithm, DkimSignature, DkimSignatureView};
use crate::network::dns::dkim::{DkimRecord, DkimRecordView};
use crate::text::{
    blobs, bytes_eq, chars_of, eq_ignore_case, push_bytes, same_ignoring_case, texts, trim, trimmed,
};

verus! {

/// The result of verifying one DKIM signature (RFC 6376 §3.9, aligned with the
/// values used in an `Authentication-Results` header and by DMARC).
#[derive(Debug, Clone, Copy, PartialEq, Eq, Structural)]
pub enum DkimResult {
    /// The signature verified.
    Pass,
    /// The signature did not verify (bad signature, body hash mismatch, revoked
    /// key, or expired).
    Fail,
    /// The `DKIM-Signature` or key is malformed, unsupported or not found.
    PermError,
    /// A transient error prevented verification (reserved; see module note).
    TempError,
}

impl DkimResult {
    /// The token for an `Authentication-Results` `dkim=` field.
    pub open spec fn token(self) -> Seq<char> {
        match self {
            DkimResult::Pass => "pass"@,
            DkimResult::Fail => "fail"@,
            DkimResult::PermError => "permerror"@,
            DkimResult::TempError => "temperror"@,
        }
    }

    /// The lowercase token for an `Authentication-Results` `dkim=` field.
    pub fn as_str(self) -> (r: &'static str)
        ensures
            r@ == self.token(),
    {
        match self {
            DkimResult::Pass => "pass",
            DkimResult::Fail => "fail",
            DkimResult::PermError => "permerror",
            DkimResult::TempError => "temperror",
        }
    }
}

/// The outcome of verifying one `DKIM-Signature`: its signing domain (`d=`),
/// selector (`s=`), and result. DMARC aligns the `From:` domain against `domain`
/// of any `Pass` outcome.
#[derive(Debug, Clone, PartialEq, Eq)]
pub struct DkimOutcome {
    /// The `d=` signing domain (empty if the signature was unparseable).
    pub domain: String,
    /// The `s=` selector (empty if unparseable).
    pub selector: String,
    /// The verification result.
    pub result: DkimResult,
}

/// What a [`DkimOutcome`] holds.
pub struct DkimOutcomeView {
    pub domain: Seq<char>,
    pub selector: Seq<char>,
    pub result: DkimResult,
}

impl View for DkimOutcome {
    type V = DkimOutcomeView;

    open spec fn view(&self) -> DkimOutcomeView {
        DkimOutcomeView { domain: self.domain@, selector: self.selector@, result: self.result }
    }
}

// ---------------------------------------------------------------------------
// Message structure
// ---------------------------------------------------------------------------

/// One parsed header field: the raw name and the raw value (everything after the
/// first `:`, up to but not including the field's terminating CRLF, with internal
/// folding CRLFs preserved).
pub struct HeaderField {
    /// The name as it appeared, white space around it included.
    pub name: String,
    /// The value as it appeared.
    pub value: Vec<u8>,
}

/// What a [`HeaderField`] holds.
pub struct HeaderFieldView {
    pub name: Seq<char>,
    pub value: Seq<u8>,
}

impl View for HeaderField {
    type V = HeaderFieldView;

    open spec fn view(&self) -> HeaderFieldView {
        HeaderFieldView { name: self.name@, value: self.value@ }
    }
}

/// The views of a sequence of fields.
pub open spec fn field_views(fields: Seq<HeaderField>) -> Seq<HeaderFieldView> {
    fields.map_values(|f: HeaderField| f@)
}

impl HeaderFieldView {
    /// Whether the field has this name, in any case.
    pub open spec fn is_named(self, name: Seq<char>) -> bool {
        same_ignoring_case(trimmed(self.name), name)
    }
}

impl HeaderField {
    /// Whether the field has this name, in any case.
    fn is_named(&self, name: &str) -> (r: bool)
        ensures
            r == self@.is_named(name@),
    {
        let chars = chars_of(self.name.as_str());
        eq_ignore_case(trim(chars.as_slice()), name)
    }
}

/// The header section and the body of a message: what stands before and after
/// its first blank line. A message without one is all headers.
pub open spec fn message_parts(raw: Seq<u8>) -> (Seq<u8>, Seq<u8>) {
    match find_in(raw, blank_line()) {
        Some(p) => (raw.take(p), raw.skip(p + 4)),
        None => (raw, Seq::empty()),
    }
}

/// The header lines with each folded continuation line (one that begins with
/// WSP) joined to the line before it.
pub open spec fn header_blocks(lines: Seq<Seq<u8>>) -> Seq<Seq<u8>>
    decreases lines.len(),
{
    if lines.len() == 0 {
        Seq::empty()
    } else {
        let before = header_blocks(lines.drop_last());
        let line = lines.last();
        if before.len() > 0 && line.len() > 0 && wsp(line[0]) {
            before.drop_last().push(before.last() + crlf() + line)
        } else {
            before.push(line)
        }
    }
}

/// The fields that a sequence of blocks holds: the parts of each before and after
/// its first colon. A block without a colon is no field.
pub open spec fn block_fields(blocks: Seq<Seq<u8>>) -> Seq<HeaderFieldView>
    decreases blocks.len(),
{
    if blocks.len() == 0 {
        Seq::empty()
    } else {
        let before = block_fields(blocks.drop_last());
        let block = blocks.last();
        match find_byte(block, 0x3a) {
            Some(i) => before.push(
                HeaderFieldView { name: utf8_lossy(block.take(i)), value: block.skip(i + 1) },
            ),
            None => before,
        }
    }
}

/// The fields of a header section.
pub open spec fn header_fields(headers: Seq<u8>) -> Seq<HeaderFieldView> {
    block_fields(header_blocks(split_on(headers, crlf())))
}

/// Split a raw message into its header section and body on the first blank line.
fn split_message(raw: &[u8]) -> (r: (&[u8], &[u8]))
    ensures
        (r.0@, r.1@) == message_parts(raw@),
{
    let n = raw.len();
    let pattern: [u8; 4] = [0x0d, 0x0a, 0x0d, 0x0a];
    assert(pattern@ =~= blank_line());
    match find_subslice(raw, &pattern) {
        Some(p) => (slice_subrange(raw, 0, p), slice_subrange(raw, p + 4, n)),
        None => {
            let empty = slice_subrange(raw, n, n);
            assert(empty@ =~= Seq::empty());
            (raw, empty)
        },
    }
}

/// Join folded continuation lines (those beginning with WSP) to the line before.
fn unfold_blocks(headers: &[u8]) -> (r: Vec<Vec<u8>>)
    ensures
        blobs(r@) == header_blocks(split_on(headers@, crlf())),
{
    let lines = split_bytes(headers, &[0x0d, 0x0a]);
    assert([0x0du8, 0x0au8]@ =~= crlf());
    let ghost all = split_on(headers@, crlf());
    let mut blocks: Vec<Vec<u8>> = Vec::new();
    let mut i: usize = 0;
    assert(blobs(blocks@) =~= header_blocks(all.take(0)));
    while i < lines.len()
        invariant
            i <= lines.len(),
            all == blobs(lines@),
            blobs(blocks@) == header_blocks(all.take(i as int)),
        decreases lines.len() - i,
    {
        let line = lines[i].as_slice();
        proof {
            assert(all.take(i + 1).drop_last() =~= all.take(i as int));
            assert(all.take(i + 1).last() == line@);
            assert(blobs(blocks@).len() == blocks@.len());
        }
        let ghost before = blocks@;
        if blocks.len() > 0 && line.len() > 0 && (line[0] == 0x20 || line[0] == 0x09) {
            let mut block = blocks.pop().unwrap();
            let ghost start = block@;
            block.push(0x0d);
            block.push(0x0a);
            push_bytes(&mut block, line);
            proof {
                assert(block@ =~= start + crlf() + line@);
                assert(blobs(before).last() == start);
                assert(blobs(before.drop_last().push(block)) =~= blobs(before).drop_last().push(
                    block@,
                ));
                assert(blocks@ =~= before.drop_last());
            }
            blocks.push(block);
        } else {
            let block = slice_to_vec(line);
            assert(blobs(before.push(block)) =~= blobs(before).push(block@));
            blocks.push(block);
        }
        i = i + 1;
    }
    assert(all.take(all.len() as int) =~= all);
    blocks
}

/// Parse the header section into ordered fields, joining folded continuation
/// lines into the preceding field.
pub fn parse_fields(headers: &[u8]) -> (r: Vec<HeaderField>)
    ensures
        field_views(r@) == header_fields(headers@),
{
    let blocks = unfold_blocks(headers);
    let ghost all = blobs(blocks@);
    let mut fields: Vec<HeaderField> = Vec::new();
    let mut i: usize = 0;
    assert(field_views(fields@) =~= block_fields(all.take(0)));
    while i < blocks.len()
        invariant
            i <= blocks.len(),
            all == blobs(blocks@),
            field_views(fields@) == block_fields(all.take(i as int)),
        decreases blocks.len() - i,
    {
        let block = blocks[i].as_slice();
        let n = block.len();
        proof {
            assert(all.take(i + 1).drop_last() =~= all.take(i as int));
            assert(all.take(i + 1).last() == block@);
        }
        if let Some(colon) = position(block, 0x3a) {
            let name = lossy_text(slice_subrange(block, 0, colon));
            let value = slice_to_vec(slice_subrange(block, colon + 1, n));
            let field = HeaderField { name, value };
            let ghost before = fields@;
            assert(field_views(before.push(field)) =~= field_views(before).push(field@));
            fields.push(field);
        }
        i = i + 1;
    }
    assert(all.take(all.len() as int) =~= all);
    fields
}

// ---------------------------------------------------------------------------
// The signed-header hash
// ---------------------------------------------------------------------------

/// The highest index below `n` of an untaken field of this name other than the
/// signature itself.
pub open spec fn pick(
    fields: Seq<HeaderFieldView>,
    sig_idx: int,
    taken: Set<int>,
    name: Seq<char>,
    n: int,
) -> Option<int>
    decreases n,
{
    if n <= 0 {
        None
    } else if n - 1 != sig_idx && !taken.contains(n - 1) && fields[n - 1].is_named(name) {
        Some(n - 1)
    } else {
        pick(fields, sig_idx, taken, name, n - 1)
    }
}

/// The field that an `h=` name stands for, once the fields in `taken` are used up:
/// the last one of the name that is left.
pub open spec fn picked(
    fields: Seq<HeaderFieldView>,
    sig_idx: int,
    taken: Set<int>,
    name: Seq<char>,
) -> Option<int> {
    pick(fields, sig_idx, taken, name, fields.len() as int)
}

/// The fields that a list of `h=` names uses up.
pub open spec fn used_fields(
    fields: Seq<HeaderFieldView>,
    sig_idx: int,
    names: Seq<Seq<char>>,
) -> Set<int>
    decreases names.len(),
{
    if names.len() == 0 {
        Set::empty()
    } else {
        let taken = used_fields(fields, sig_idx, names.drop_last());
        match picked(fields, sig_idx, taken, names.last()) {
            Some(i) => taken.insert(i),
            None => taken,
        }
    }
}

/// The canonical fields that a list of `h=` names stands for, in order. A name
/// with no field left contributes nothing.
pub open spec fn signed_fields(
    fields: Seq<HeaderFieldView>,
    sig_idx: int,
    names: Seq<Seq<char>>,
    canon: HeaderCanon,
) -> Seq<u8>
    decreases names.len(),
{
    if names.len() == 0 {
        Seq::empty()
    } else {
        let before = signed_fields(fields, sig_idx, names.drop_last(), canon);
        let taken = used_fields(fields, sig_idx, names.drop_last());
        match picked(fields, sig_idx, taken, names.last()) {
            Some(i) => before + canonical_header(fields[i].name, fields[i].value, canon, true),
            None => before,
        }
    }
}

/// What the header hash is taken of: the signed fields, then the signature field
/// with its `b=` value emptied and no CRLF at its end.
pub open spec fn header_hash_input(
    fields: Seq<HeaderFieldView>,
    sig_idx: int,
    sig: DkimSignatureView,
) -> Seq<u8> {
    signed_fields(fields, sig_idx, sig.signed_headers, sig.header_canon) + canonical_header(
        fields[sig_idx].name,
        sig.b_stripped_value,
        sig.header_canon,
        false,
    )
}

/// The field that an `h=` name stands for.
fn pick_field(fields: &Vec<HeaderField>, sig_idx: usize, taken: &Vec<bool>, name: &str) -> (r:
    Option<usize>)
    requires
        taken@.len() == fields@.len(),
    ensures
        ({
            let set = Set::new(|i: int| 0 <= i < taken@.len() && taken@[i]);
            match (r, picked(field_views(fields@), sig_idx as int, set, name@)) {
                (Some(i), Some(j)) => i == j && i < fields@.len(),
                (None, None) => true,
                _ => false,
            }
        }),
{
    let ghost set = Set::new(|i: int| 0 <= i < taken@.len() && taken@[i]);
    let ghost views = field_views(fields@);
    let mut n: usize = fields.len();
    while n > 0
        invariant
            n <= fields@.len(),
            taken@.len() == fields@.len(),
            views == field_views(fields@),
            set == Set::new(|i: int| 0 <= i < taken@.len() && taken@[i]),
            picked(views, sig_idx as int, set, name@) == pick(
                views,
                sig_idx as int,
                set,
                name@,
                n as int,
            ),
        decreases n,
    {
        assert(views[n - 1] == fields@[n - 1]@);
        if n - 1 != sig_idx && !taken[n - 1] && fields[n - 1].is_named(name) {
            return Some(n - 1);
        }
        n = n - 1;
    }
    None
}

/// Build the SHA-256 of the signed-header set: each `h=` field (consumed
/// bottom-up, excluding the signature being verified), then this DKIM-Signature
/// with its `b=` value emptied and no trailing CRLF (RFC 6376 §3.7).
pub fn compute_header_hash(fields: &Vec<HeaderField>, sig_idx: usize, sig: &DkimSignature) -> (r:
    Vec<u8>)
    requires
        sig_idx < fields@.len(),
    ensures
        r@ == sha256(header_hash_input(field_views(fields@), sig_idx as int, sig@)),
        r@.len() == 32,
{
    let ghost views = field_views(fields@);
    let ghost names = texts(sig.signed_headers@);
    let ghost idx = sig_idx as int;
    let mut input: Vec<u8> = Vec::new();
    let mut taken: Vec<bool> = Vec::new();
    let mut k: usize = 0;
    while k < fields.len()
        invariant
            k <= fields@.len(),
            taken@.len() == k,
            forall|i: int| 0 <= i < k ==> !taken@[i],
        decreases fields.len() - k,
    {
        taken.push(false);
        k = k + 1;
    }
    assert(Set::new(|i: int| 0 <= i < taken@.len() && taken@[i]) =~= used_fields(
        views,
        idx,
        names.take(0),
    ));
    let mut i: usize = 0;
    while i < sig.signed_headers.len()
        invariant
            i <= sig.signed_headers@.len(),
            idx == sig_idx,
            sig_idx < fields@.len(),
            taken@.len() == fields@.len(),
            views == field_views(fields@),
            names == texts(sig.signed_headers@),
            Set::new(|i: int| 0 <= i < taken@.len() && taken@[i]) == used_fields(
                views,
                idx,
                names.take(i as int),
            ),
            input@ == signed_fields(views, idx, names.take(i as int), sig.header_canon),
        decreases sig.signed_headers.len() - i,
    {
        let name = &sig.signed_headers[i];
        proof {
            assert(names.take(i + 1).drop_last() =~= names.take(i as int));
            assert(names.take(i + 1).last() == name@);
        }
        if let Some(p) = pick_field(fields, sig_idx, &taken, name.as_str()) {
            let ghost before = taken@;
            taken.set(p, true);
            assert(views[p as int] == fields@[p as int]@);
            assert(Set::new(|i: int| 0 <= i < taken@.len() && taken@[i]) =~= Set::new(
                |i: int| 0 <= i < before.len() && before[i],
            ).insert(p as int));
            let field = &fields[p];
            let line = canonicalize_header(
                field.name.as_str(),
                field.value.as_slice(),
                sig.header_canon,
                true,
            );
            push_bytes(&mut input, line.as_slice());
        }
        i = i + 1;
    }
    assert(names.take(names.len() as int) =~= names);
    assert(views[idx] == fields@[idx]@);
    let current = &fields[sig_idx];
    let own = canonicalize_header(
        current.name.as_str(),
        sig.b_stripped_value.as_slice(),
        sig.header_canon,
        false,
    );
    push_bytes(&mut input, own.as_slice());
    sha256_digest(input.as_slice())
}

// ---------------------------------------------------------------------------
// Signature checks
// ---------------------------------------------------------------------------

/// Whether an RSA PKCS#1 v1.5 signature over a SHA-256 digest is valid under a
/// key in SubjectPublicKeyInfo DER; nothing where the key does not parse.
pub uninterp spec fn rsa_spki_valid(der: Seq<u8>, digest: Seq<u8>, signature: Seq<u8>) -> Option<
    bool,
>;

/// Whether an RSA PKCS#1 v1.5 signature over a SHA-256 digest is valid under a
/// key in PKCS#1 `RSAPublicKey` DER; nothing where the key does not parse.
pub uninterp spec fn rsa_pkcs1_valid(der: Seq<u8>, digest: Seq<u8>, signature: Seq<u8>) -> Option<
    bool,
>;

/// Whether an Ed25519 signature is valid under a key by the strict rules; nothing
/// where the key is no curve point.
pub uninterp spec fn ed25519_valid(key: Seq<u8>, message: Seq<u8>, signature: Seq<u8>) -> Option<
    bool,
>;

/// `rsa::RsaPublicKey::from_public_key_der`, then `RsaPublicKey::verify` with
/// `Pkcs1v15Sign::new::<Sha256>()`: nothing where the key does not parse, else
/// whether the signature verifies. The result depends on the arguments alone.
#[verifier::external_body]
fn rsa_spki_verify(der: &[u8], digest: &[u8], signature: &[u8]) -> (r: Option<bool>)
    ensures
        r == rsa_spki_valid(der@, digest@, signature@),
{
    let key = RsaPublicKey::from_public_key_der(der).ok()?;
    Some(key.verify(Pkcs1v15Sign::new::<sha2::Sha256>(), digest, signature).is_ok())
}

/// `rsa::RsaPublicKey::from_pkcs1_der`, then `RsaPublicKey::verify` with
/// `Pkcs1v15Sign::new::<Sha256>()`: nothing where the key does not parse, else
/// whether the signature verifies. The result depends on the arguments alone.
#[verifier::external_body]
fn rsa_pkcs1_verify(der: &[u8], digest: &[u8], signature: &[u8]) -> (r: Option<bool>)
    ensures
        r == rsa_pkcs1_valid(der@, digest@, signature@),
{
    let key = RsaPublicKey::from_pkcs1_der(der).ok()?;
    Some(key.verify(Pkcs1v15Sign::new::<sha2::Sha256>(), digest, signature).is_ok())
}

/// `ed25519_dalek::VerifyingKey::from_bytes`, then `VerifyingKey::verify_strict`:
/// nothing where the key is no curve point, else whether the signature verifies.
/// The result depends on the arguments alone.
#[verifier::external_body]
fn ed25519_verify(key: &[u8], message: &[u8], signature: &[u8]) -> (r: Option<bool>)
    requires
        key@.len() == 32,
        signature@.len() == 64,
    ensures
        r == ed25519_valid(key@, message@, signature@),
{
    let key = VerifyingKey::from_bytes(key.try_into().ok()?).ok()?;
    let signature = EdSignature::from_bytes(signature.try_into().ok()?);
    Some(key.verify_strict(message, &signature).is_ok())
}

/// What a signature check says of a signature: a key that does not parse is a
/// `PermError`.
pub open spec fn check_verdict(check: Option<bool>) -> DkimResult {
    match check {
        Some(true) => DkimResult::Pass,
        Some(false) => DkimResult::Fail,
        None => DkimResult::PermError,
    }
}

/// The check of a signature over a header hash under a key in DER: an RSA key is
/// SubjectPublicKeyInfo, or else a bare PKCS#1 key; an Ed25519 key has 32 bytes
/// and its signature 64.
pub open spec fn signature_check(
    algorithm: Algorithm,
    der: Seq<u8>,
    digest: Seq<u8>,
    signature: Seq<u8>,
) -> Option<bool> {
    match algorithm {
        Algorithm::RsaSha256 => match rsa_spki_valid(der, digest, signature) {
            Some(valid) => Some(valid),
            None => rsa_pkcs1_valid(der, digest, signature),
        },
        Algorithm::Ed25519Sha256 => if der.len() == 32 && signature.len() == 64 {
            ed25519_valid(der, digest, signature)
        } else {
            None
        },
    }
}

/// What a signature check says of a signature.
pub fn conclude(check: Option<bool>) -> (r: DkimResult)
    ensures
        r == check_verdict(check),
{
    match check {
        Some(true) => DkimResult::Pass,
        Some(false) => DkimResult::Fail,
        None => DkimResult::PermError,
    }
}

/// Check a signature over a header hash under a decoded key.
pub fn check_signature(algorithm: Algorithm, der: &[u8], digest: &[u8], signature: &[u8]) -> (r:
    Option<bool>)
    ensures
        r == signature_check(algorithm, der@, digest@, signature@),
{
    match algorithm {
        Algorithm::RsaSha256 => match rsa_spki_verify(der, digest, signature) {
            Some(valid) => Some(valid),
            None => rsa_pkcs1_verify(der, digest, signature),
        },
        Algorithm::Ed25519Sha256 => {
            if der.len() == 32 && signature.len() == 64 {
                ed25519_verify(der, digest, signature)
            } else {
                None
            }
        },
    }
}

/// The key type that an algorithm needs.
pub open spec fn key_family(algorithm: Algorithm) -> Seq<char> {
    match algorithm {
        Algorithm::RsaSha256 => "rsa"@,
        Algorithm::Ed25519Sha256 => "ed25519"@,
    }
}

/// The verdict that a key record gives before its key is decoded, if it gives one:
/// `PermError` where there is none or its `k=` type is not the algorithm's, `Fail`
/// where its `p=` is empty (a revoked key, RFC 6376 §3.6.1).
pub open spec fn key_screen(algorithm: Algorithm, key: Option<DkimRecordView>) -> Option<
    DkimResult,
> {
    match key {
        None => Some(DkimResult::PermError),
        Some(record) => if record.public_key.len() == 0 {
            Some(DkimResult::Fail)
        } else if record.key_type is Some && !same_ignoring_case(
            record.key_type->0,
            key_family(algorithm),
        ) {
            Some(DkimResult::PermError)
        } else {
            None
        },
    }
}

/// The view of an optional key record.
pub open spec fn key_view(key: Option<DkimRecord>) -> Option<DkimRecordView> {
    match key {
        Some(record) => Some(record@),
        None => None,
    }
}

/// The verdict that a key record gives before its key is decoded, if it gives one.
pub fn screen_key(algorithm: Algorithm, key: &Option<DkimRecord>) -> (r: Option<DkimResult>)
    ensures
        r == key_screen(algorithm, key_view(*key)),
{
    match key {
        None => Some(DkimResult::PermError),
        Some(record) => {
            let p = chars_of(record.public_key.as_str());
            if p.len() == 0 {
                return Some(DkimResult::Fail);
            }
            if let Some(k) = &record.key_type {
                let k = chars_of(k.as_str());
                let matches = match algorithm {
                    Algorithm::RsaSha256 => eq_ignore_case(k.as_slice(), "rsa"),
                    Algorithm::Ed25519Sha256 => eq_ignore_case(k.as_slice(), "ed25519"),
                };
                if !matches {
                    return Some(DkimResult::PermError);
                }
            }
            None
        },
    }
}

/// The verdict on a signature whose body hash matched, given what the key lookup
/// returned.
pub open spec fn verdict(
    sig: DkimSignatureView,
    header_hash: Seq<u8>,
    key: Option<DkimRecordView>,
) -> DkimResult {
    match key_screen(sig.algorithm, key) {
        Some(result) => result,
        None => match base64_decoded(encode_utf8(key->0.public_key)) {
            Ok(der) => check_verdict(
                signature_check(sig.algorithm, der, header_hash, sig.signature),
            ),
            Err(_) => DkimResult::PermError,
        },
    }
}

/// Decide a signature whose body hash matched, given what the key lookup returned
/// (`None`: no key, or the lookup failed).
pub fn settle(sig: &DkimSignature, header_hash: &[u8], key: &Option<DkimRecord>) -> (r: DkimResult)
    ensures
        r == verdict(sig@, header_hash@, key_view(*key)),
{
    if let Some(result) = screen_key(sig.algorithm, key) {
        return result;
    }
    match key {
        Some(record) => match decode_base64(record.public_key.as_str().as_bytes()) {
            Ok(der) => conclude(
                check_signature(
                    sig.algorithm,
                    der.as_slice(),
                    header_hash,
                    sig.signature.as_slice(),
                ),
            ),
            Err(_) => DkimResult::PermError,
        },
        None => DkimResult::PermError,
    }
}

// ---------------------------------------------------------------------------
// Verification
// ---------------------------------------------------------------------------

/// A signature whose verdict hangs on its public key.
pub struct PendingSignature {
    /// The signature; its `selector` and `domain` locate the key.
    pub signature: DkimSignature,
    /// The hash of the headers it signs.
    pub header_hash: Vec<u8>,
}

/// How far a signature is decided without its public key.
pub enum SignatureState {
    /// The key does not matter.
    Settled(DkimOutcome),
    /// The key decides.
    NeedsKey(PendingSignature),
}

/// What a [`SignatureState`] says.
pub enum SignatureStateView {
    Settled(DkimOutcomeView),
    NeedsKey { signature: DkimSignatureView, header_hash: Seq<u8> },
}

impl View for SignatureState {
    type V = SignatureStateView;

    open spec fn view(&self) -> SignatureStateView {
        match self {
            SignatureState::Settled(outcome) => SignatureStateView::Settled(outcome@),
            SignatureState::NeedsKey(p) => SignatureStateView::NeedsKey {
                signature: p.signature@,
                header_hash: p.header_hash@,
            },
        }
    }
}

/// The views of a sequence of states.
pub open spec fn state_views(states: Seq<SignatureState>) -> Seq<SignatureStateView> {
    states.map_values(|s: SignatureState| s@)
}

/// The views of a sequence of outcomes.
pub open spec fn outcome_views(outcomes: Seq<DkimOutcome>) -> Seq<DkimOutcomeView> {
    outcomes.map_values(|o: DkimOutcome| o@)
}

/// Whether a signature has expired: its `x=` time is past.
pub open spec fn expired(sig: DkimSignatureView, now: nat) -> bool {
    sig.expiration is Some && now > sig.expiration->0
}

/// The part of the canonical body that a signature covers: its first `l=` octets,
/// or all of it.
pub open spec fn signed_body(sig: DkimSignatureView, body: Seq<u8>) -> Seq<u8> {
    let canon = canonical_body(body, sig.body_canon);
    if sig.body_length is Some && sig.body_length->0 < canon.len() {
        canon.take(sig.body_length->0 as int)
    } else {
        canon
    }
}

/// How far the signature in field `idx` is decided without its key.
pub open spec fn signature_state(
    fields: Seq<HeaderFieldView>,
    idx: int,
    body: Seq<u8>,
    now: nat,
) -> SignatureStateView {
    match DkimSignature::parsed(fields[idx].value) {
        Err(_) => SignatureStateView::Settled(
            DkimOutcomeView {
                domain: Seq::empty(),
                selector: Seq::empty(),
                result: DkimResult::PermError,
            },
        ),
        Ok(sig) => if expired(sig, now) || sha256(signed_body(sig, body)) != sig.body_hash {
            SignatureStateView::Settled(
                DkimOutcomeView {
                    domain: sig.domain,
                    selector: sig.selector,
                    result: DkimResult::Fail,
                },
            )
        } else {
            SignatureStateView::NeedsKey {
                signature: sig,
                header_hash: sha256(header_hash_input(fields, idx, sig)),
            }
        },
    }
}

/// The states of the `DKIM-Signature` fields among the first `n` fields, in header
/// order.
pub open spec fn signature_states(
    fields: Seq<HeaderFieldView>,
    body: Seq<u8>,
    now: nat,
    n: int,
) -> Seq<SignatureStateView>
    decreases n,
{
    if n <= 0 {
        Seq::empty()
    } else {
        let before = signature_states(fields, body, now, n - 1);
        if fields[n - 1].is_named("DKIM-Signature"@) {
            before.push(signature_state(fields, n - 1, body, now))
        } else {
            before
        }
    }
}

/// The states of all `DKIM-Signature` fields of a message.
pub open spec fn inspected(raw_message: Seq<u8>, now: nat) -> Seq<SignatureStateView> {
    let (headers, body) = message_parts(raw_message);
    let fields = header_fields(headers);
    signature_states(fields, body, now, fields.len() as int)
}

/// How many of the states hang on a key.
pub open spec fn keys_needed(states: Seq<SignatureStateView>) -> nat
    decreases states.len(),
{
    if states.len() == 0 {
        0
    } else {
        keys_needed(states.drop_last()) + if states.last() is NeedsKey {
            1nat
        } else {
            0nat
        }
    }
}

/// The outcomes once the keys are known: the states that hang on a key take the
/// keys in order, and find none once there are no more.
pub open spec fn settled_outcomes(
    states: Seq<SignatureStateView>,
    keys: Seq<Option<DkimRecordView>>,
) -> Seq<DkimOutcomeView>
    decreases states.len(),
{
    if states.len() == 0 {
        Seq::empty()
    } else {
        let before = settled_outcomes(states.drop_last(), keys);
        let k = keys_needed(states.drop_last()) as int;
        before.push(
            match states.last() {
                SignatureStateView::Settled(outcome) => outcome,
                SignatureStateView::NeedsKey { signature, header_hash } => DkimOutcomeView {
                    domain: signature.domain,
                    selector: signature.selector,
                    result: verdict(
                        signature,
                        header_hash,
                        if k < keys.len() {
                            keys[k]
                        } else {
                            None
                        },
                    ),
                },
            },
        )
    }
}

/// The verdict that the expiry and the body digest give, if they give one: an
/// expired signature fails, and so does one whose body hash is not the digest.
pub fn screen_body(sig: &DkimSignature, now: u64, body_digest: &[u8]) -> (r: Option<DkimResult>)
    ensures
        r == if expired(sig@, now as nat) || body_digest@ != sig.body_hash@ {
            Some(DkimResult::Fail)
        } else {
            None::<DkimResult>
        },
{
    if let Some(exp) = sig.expiration {
        if now > exp {
            return Some(DkimResult::Fail);
        }
    }
    if !bytes_eq(body_digest, sig.body_hash.as_slice()) {
        return Some(DkimResult::Fail);
    }
    None
}

/// Decide one parsed signature as far as it goes without its key.
fn inspect_one(fields: &Vec<HeaderField>, sig_idx: usize, body: &[u8], now: u64) -> (r:
    SignatureState)
    requires
        sig_idx < fields@.len(),
    ensures
        r@ == signature_state(field_views(fields@), sig_idx as int, body@, now as nat),
{
    assert(field_views(fields@)[sig_idx as int] == fields@[sig_idx as int]@);
    let sig = match DkimSignature::parse(fields[sig_idx].value.as_slice()) {
        Ok(sig) => sig,
        Err(_) => {
            let outcome = DkimOutcome {
                domain: String::new(),
                selector: String::new(),
                result: DkimResult::PermError,
            };
            assert(outcome@.domain =~= Seq::empty());
            assert(outcome@.selector =~= Seq::empty());
            return SignatureState::Settled(outcome);
        },
    };
    let canon = canonicalize_body(body, sig.body_canon);
    let n = canon.len();
    let hashed = match sig.body_length {
        Some(l) => if l < n {
            slice_subrange(canon.as_slice(), 0, l)
        } else {
            canon.as_slice()
        },
        None => canon.as_slice(),
    };
    assert(hashed@ =~= signed_body(sig@, body@));
    let digest = sha256_digest(hashed);
    match screen_body(&sig, now, digest.as_slice()) {
        Some(result) => SignatureState::Settled(
            DkimOutcome { domain: sig.domain, selector: sig.selector, result },
        ),
        None => {
            let header_hash = compute_header_hash(fields, sig_idx, &sig);
            SignatureState::NeedsKey(PendingSignature { signature: sig, header_hash })
        },
    }
}

/// Decide every `DKIM-Signature` in `raw_message`, in header order, as far as it
/// goes without the keys. `now` is in Unix seconds. The keys that are wanted are
/// those of the `NeedsKey` states.
pub fn inspect(raw_message: &[u8], now: u64) -> (r: Vec<SignatureState>)
    ensures
        state_views(r@) == inspected(raw_message@, now as nat),
{
    let (headers, body) = split_message(raw_message);
    let fields = parse_fields(headers);
    let ghost views = field_views(fields@);
    let mut states: Vec<SignatureState> = Vec::new();
    let mut i: usize = 0;
    assert(state_views(states@) =~= signature_states(views, body@, now as nat, 0));
    while i < fields.len()
        invariant
            i <= fields@.len(),
            views == field_views(fields@),
            state_views(states@) == signature_states(views, body@, now as nat, i as int),
        decreases fields.len() - i,
    {
        assert(views[i as int] == fields@[i as int]@);
        if fields[i].is_named("DKIM-Signature") {
            let state = inspect_one(&fields, i, body, now);
            let ghost before = states@;
            assert(state_views(before.push(state)) =~= state_views(before).push(state@));
            states.push(state);
        }
        i = i + 1;
    }
    states
}

/// The views of a sequence of key lookup results.
pub open spec fn key_views(keys: Seq<Option<DkimRecord>>) -> Seq<Option<DkimRecordView>> {
    keys.map_values(|k: Option<DkimRecord>| key_view(k))
}

/// Verify every `DKIM-Signature` in `raw_message`, given the key lookup results
/// for the signatures that need a key, in order. Returns one [`DkimOutcome`] per
/// signature, in header order; an empty `Vec` means the message carries no DKIM
/// signature (DMARC treats that as `dkim=none`).
pub fn verify(raw_message: &[u8], now: u64, keys: &Vec<Option<DkimRecord>>) -> (r: Vec<DkimOutcome>)
    ensures
        outcome_views(r@) == settled_outcomes(
            inspected(raw_message@, now as nat),
            key_views(keys@),
        ),
{
    let states = inspect(raw_message, now);
    finish(states, keys)
}

/// Settle the states that [`inspect`] gave, once the keys are at hand.
pub fn finish(states: Vec<SignatureState>, keys: &Vec<Option<DkimRecord>>) -> (r: Vec<DkimOutcome>)
    ensures
        outcome_views(r@) == settled_outcomes(state_views(states@), key_views(keys@)),
{
    let ghost all = state_views(states@);
    let ghost ks = key_views(keys@);
    let mut outcomes: Vec<DkimOutcome> = Vec::new();
    let mut used: usize = 0;
    let mut i: usize = 0;
    assert(outcome_views(outcomes@) =~= settled_outcomes(all.take(0), ks));
    while i < states.len()
        invariant
            i <= states@.len(),
            all == state_views(states@),
            ks == key_views(keys@),
            used == keys_needed(all.take(i as int)),
            used <= i,
            outcome_views(outcomes@) == settled_outcomes(all.take(i as int), ks),
        decreases states.len() - i,
    {
        proof {
            assert(all.take(i + 1).drop_last() =~= all.take(i as int));
            assert(all.take(i + 1).last() == states@[i as int]@);
        }
        let outcome = match &states[i] {
            SignatureState::Settled(outcome) => DkimOutcome {
                domain: outcome.domain.clone(),
                selector: outcome.selector.clone(),
                result: outcome.result,
            },
            SignatureState::NeedsKey(p) => {
                let none: Option<DkimRecord> = None;
                let result = if used < keys.len() {
                    assert(ks[used as int] == key_view(keys@[used as int]));
                    settle(&p.signature, p.header_hash.as_slice(), &keys[used])
                } else {
                    settle(&p.signature, p.header_hash.as_slice(), &none)
                };
                used = used + 1;
                DkimOutcome {
                    domain: p.signature.domain.clone(),
                    selector: p.signature.selector.clone(),
                    result,
                }
            },
        };
        let ghost before = outcomes@;
        assert(outcome_views(before.push(outcome)) =~= outcome_views(before).push(outcome@));
        outcomes.push(outcome);
        i = i + 1;
    }
    assert(all.take(all.len() as int) =~= all);
    outcomes
}

// ---------------------------------------------------------------------------
// Laws
// ---------------------------------------------------------------------------

/// How many of the first `n` fields are `DKIM-Signature` fields.
pub open spec fn signature_count(fields: Seq<HeaderFieldView>, n: int) -> nat
    decreases n,
{
    if n <= 0 {
        0
    } else {
        signature_count(fields, n - 1) + if fields[n - 1].is_named("DKIM-Signature"@) {
            1nat
        } else {
            0nat
        }
    }
}

/// Verification gives one outcome per `DKIM-Signature` field, whatever the keys
/// are; a message without such a field gives none.
pub proof fn law_one_outcome_per_signature(
    raw_message: Seq<u8>,
    now: nat,
    keys: Seq<Option<DkimRecordView>>,
)
    ensures
        ({
            let fields = header_fields(message_parts(raw_message).0);
            settled_outcomes(inspected(raw_message, now), keys).len() == signature_count(
                fields,
                fields.len() as int,
            )
        }),
{
    let (headers, body) = message_parts(raw_message);
    let fields = header_fields(headers);
    lemma_states_count(fields, body, now, fields.len() as int);
    lemma_outcomes_len(inspected(raw_message, now), keys);
}

/// A signature passes only where the body hash matched before its expiry and a
/// key record with a key in it was found: the outcome at `i` being `Pass`, the
/// state at `i` hangs on a key, and the key it takes is there and not revoked.
pub proof fn law_pass_needs_a_key(
    raw_message: Seq<u8>,
    now: nat,
    keys: Seq<Option<DkimRecordView>>,
    i: int,
)
    requires
        0 <= i < settled_outcomes(inspected(raw_message, now), keys).len(),
        settled_outcomes(inspected(raw_message, now), keys)[i].result == DkimResult::Pass,
    ensures
        ({
            let states = inspected(raw_message, now);
            let k = keys_needed(states.take(i)) as int;
            &&& i < states.len()
            &&& states[i] is NeedsKey
            &&& k < keys.len()
            &&& keys[k] is Some
            &&& keys[k]->0.public_key.len() > 0
        }),
{
    let (headers, body) = message_parts(raw_message);
    let fields = header_fields(headers);
    let states = inspected(raw_message, now);
    lemma_outcomes_len(states, keys);
    lemma_outcome_at(states, keys, i);
    lemma_settled_never_passes(fields, body, now, fields.len() as int, i);
}

/// A signature that is past its expiry, or whose body hash is not that of the
/// body, fails whatever the keys are.
pub proof fn law_expired_or_altered_body_fails(
    fields: Seq<HeaderFieldView>,
    idx: int,
    body: Seq<u8>,
    now: nat,
    keys: Seq<Option<DkimRecordView>>,
)
    requires
        0 <= idx < fields.len(),
        DkimSignature::parsed(fields[idx].value) is Ok,
        ({
            let sig = DkimSignature::parsed(fields[idx].value)->Ok_0;
            expired(sig, now) || sha256(signed_body(sig, body)) != sig.body_hash
        }),
    ensures
        settled_outcomes(seq![signature_state(fields, idx, body, now)], keys)[0].result
            == DkimResult::Fail,
{
    let states = seq![signature_state(fields, idx, body, now)];
    assert(states.drop_last() =~= Seq::empty());
    assert(settled_outcomes(states.drop_last(), keys) =~= Seq::empty());
}

/// A field put on top of a message does not count in a signature that does not list its
/// name: what relays add on the way leaves the signature as it is.
pub proof fn law_unsigned_field_on_top_does_not_count(
    field: HeaderFieldView,
    fields: Seq<HeaderFieldView>,
    idx: int,
    body: Seq<u8>,
    now: nat,
)
    requires
        0 <= idx < fields.len(),
        DkimSignature::parsed(fields[idx].value) matches Ok(sig) ==> forall|k: int|
            0 <= k < sig.signed_headers.len() ==> !field.is_named(#[trigger] sig.signed_headers[k]),
    ensures
        signature_state(seq![field] + fields, idx + 1, body, now) == signature_state(
            fields,
            idx,
            body,
            now,
        ),
{
    assert((seq![field] + fields)[idx + 1] == fields[idx]);
    if let Ok(sig) = DkimSignature::parsed(fields[idx].value) {
        lemma_signed_on_top(field, fields, idx, sig.signed_headers, sig.header_canon);
    }
}

/// Field indices after one more field is put on top.
spec fn moved_down(taken: Set<int>) -> Set<int> {
    Set::new(|i: int| taken.contains(i - 1))
}

proof fn lemma_pick_on_top(
    field: HeaderFieldView,
    fields: Seq<HeaderFieldView>,
    idx: int,
    taken: Set<int>,
    name: Seq<char>,
    n: int,
)
    requires
        0 <= n <= fields.len(),
        !field.is_named(name),
    ensures
        pick(seq![field] + fields, idx + 1, moved_down(taken), name, n + 1) == match pick(
            fields,
            idx,
            taken,
            name,
            n,
        ) {
            Some(i) => Some(i + 1),
            None => None,
        },
    decreases n,
{
    let all = seq![field] + fields;
    assert(all[n] == if n == 0 {
        field
    } else {
        fields[n - 1]
    });
    if n > 0 {
        lemma_pick_on_top(field, fields, idx, taken, name, n - 1);
    } else {
        assert(pick(all, idx + 1, moved_down(taken), name, 0) is None);
    }
}

proof fn lemma_signed_on_top(
    field: HeaderFieldView,
    fields: Seq<HeaderFieldView>,
    idx: int,
    names: Seq<Seq<char>>,
    canon: HeaderCanon,
)
    requires
        0 <= idx < fields.len(),
        forall|k: int| 0 <= k < names.len() ==> !field.is_named(#[trigger] names[k]),
    ensures
        used_fields(seq![field] + fields, idx + 1, names) == moved_down(
            used_fields(fields, idx, names),
        ),
        signed_fields(seq![field] + fields, idx + 1, names, canon) == signed_fields(
            fields,
            idx,
            names,
            canon,
        ),
    decreases names.len(),
{
    let all = seq![field] + fields;
    if names.len() == 0 {
        assert(used_fields(all, idx + 1, names) =~= moved_down(used_fields(fields, idx, names)));
    } else {
        let before = names.drop_last();
        assert forall|k: int| 0 <= k < before.len() implies !field.is_named(
            #[trigger] before[k],
        ) by {
            assert(before[k] == names[k]);
        }
        lemma_signed_on_top(field, fields, idx, before, canon);
        let taken = used_fields(fields, idx, before);
        assert(!field.is_named(names[names.len() - 1]));
        lemma_pick_on_top(field, fields, idx, taken, names.last(), fields.len() as int);
        assert(all.len() == fields.len() + 1);
        if let Some(i) = picked(fields, idx, taken, names.last()) {
            lemma_picked_is_a_field(fields, idx, taken, names.last(), fields.len() as int);
            assert(all[i + 1] == fields[i]);
            assert(moved_down(taken).insert(i + 1) =~= moved_down(taken.insert(i)));
        }
    }
}

proof fn lemma_picked_is_a_field(
    fields: Seq<HeaderFieldView>,
    idx: int,
    taken: Set<int>,
    name: Seq<char>,
    n: int,
)
    requires
        n <= fields.len(),
    ensures
        pick(fields, idx, taken, name, n) matches Some(i) ==> 0 <= i < fields.len(),
    decreases n,
{
    if n > 0 {
        lemma_picked_is_a_field(fields, idx, taken, name, n - 1);
    }
}

pub proof fn lemma_states_count(fields: Seq<HeaderFieldView>, body: Seq<u8>, now: nat, n: int)
    ensures
        signature_states(fields, body, now, n).len() == signature_count(fields, n),
    decreases n,
{
    if n > 0 {
        lemma_states_count(fields, body, now, n - 1);
    }
}

pub proof fn lemma_outcomes_len(
    states: Seq<SignatureStateView>,
    keys: Seq<Option<DkimRecordView>>,
)
    ensures
        settled_outcomes(states, keys).len() == states.len(),
    decreases states.len(),
{
    if states.len() > 0 {
        lemma_outcomes_len(states.drop_last(), keys);
    }
}

pub proof fn lemma_outcome_at(
    states: Seq<SignatureStateView>,
    keys: Seq<Option<DkimRecordView>>,
    i: int,
)
    requires
        0 <= i < states.len(),
    ensures
        settled_outcomes(states, keys).len() == states.len(),
        settled_outcomes(states, keys)[i] == settled_outcomes(states.take(i + 1), keys)[i],
        settled_outcomes(states.take(i + 1), keys).len() == i + 1,
        states.take(i + 1).drop_last() == states.take(i),
        states.take(i + 1).last() == states[i],
    decreases states.len(),
{
    lemma_outcomes_len(states, keys);
    lemma_outcomes_len(states.take(i + 1), keys);
    assert(states.take(i + 1).drop_last() =~= states.take(i));
    if i == states.len() - 1 {
        assert(states.take(i + 1) =~= states);
    } else {
        lemma_outcomes_len(states.drop_last(), keys);
        lemma_outcome_at(states.drop_last(), keys, i);
        assert(states.drop_last().take(i + 1) =~= states.take(i + 1));
    }
}

proof fn lemma_settled_never_passes(
    fields: Seq<HeaderFieldView>,
    body: Seq<u8>,
    now: nat,
    n: int,
    i: int,
)
    requires
        0 <= i < signature_states(fields, body, now, n).len(),
    ensures
        signature_states(fields, body, now, n)[i] matches SignatureStateView::Settled(o)
            ==> o.result != DkimResult::Pass,
    decreases n,
{
    if n > 0 && i < signature_states(fields, body, now, n - 1).len() {
        lemma_settled_never_passes(fields, body, now, n - 1, i);
    }
}

} // verus!
