//! Parsing of a `DKIM-Signature` header field (RFC 6376 §3.5) into its tags.

use vstd::prelude::*;
use vstd::slice::{slice_subrange, slice_to_vec};
use vstd::utf8::{decode_utf8, encode_utf8, valid_utf8};

use crate::bytes::{
    find_byte, join_bytes, lossy_text, position, split_bytes, split_on, utf8_lossy, utf8_text,
};
use crate::network::base64::{base64_decoded, decode_base64, decoding};
use crate::network::dkim::canonicalize::{canon_of, parse_canon, BodyCanon, HeaderCanon};
use crate::network::dns::txt::{parse_tag_map, tag, tag_map, TagMap};
use crate::network::error::{agrees, NetworkError, NetworkErrorView};
use crate::text::{
    blobs, chars_of, concat3, is_whitespace, joined, lowered, number, parse_number, pieces, split,
    splits, string_of, text_eq, texts, to_lower, trim, trimmed, white_space,
};

verus! {

/// The signing algorithm (`a=` tag).
#[derive(Debug, Clone, Copy, PartialEq, Eq, Structural)]
pub enum Algorithm {
    /// `rsa-sha256` (RFC 6376), the dominant algorithm.
    RsaSha256,
    /// `ed25519-sha256` (RFC 8463).
    Ed25519Sha256,
}

/// A malformed-DKIM-record error.
pub open spec fn dkim_error(reason: Seq<char>) -> NetworkErrorView {
    NetworkErrorView::Record { kind: "DKIM"@, reason }
}

impl Algorithm {
    /// The algorithm that an `a=` tag names, in any case. `rsa-sha1` is not among
    /// them: SHA-1 is broken.
    pub open spec fn named(a: Seq<char>) -> Option<Algorithm> {
        if lowered(a) == "rsa-sha256"@ {
            Some(Algorithm::RsaSha256)
        } else if lowered(a) == "ed25519-sha256"@ {
            Some(Algorithm::Ed25519Sha256)
        } else {
            None
        }
    }

    /// Parse an `a=` tag value.
    ///
    /// # Errors
    /// [`NetworkError::Record`] if the algorithm is not supported.
    fn parse(a: &str) -> (r: Result<Algorithm, NetworkError>)
        ensures
            match (r, Algorithm::named(a@)) {
                (Ok(x), Some(y)) => x == y,
                (Err(e), None) => e@ == dkim_error("unsupported algorithm `"@ + lowered(a@) + "`"@),
                _ => false,
            },
    {
        let chars = chars_of(a);
        let low = to_lower(chars.as_slice());
        if text_eq(low.as_slice(), "rsa-sha256") {
            Ok(Algorithm::RsaSha256)
        } else if text_eq(low.as_slice(), "ed25519-sha256") {
            Ok(Algorithm::Ed25519Sha256)
        } else {
            let name = string_of(low.as_slice());
            let reason = concat3("unsupported algorithm `", name.as_str(), "`");
            Err(NetworkError::record("DKIM", reason.as_str()))
        }
    }
}

/// A parsed `DKIM-Signature`.
#[derive(Debug, Clone, PartialEq, Eq)]
pub struct DkimSignature {
    /// `a=` algorithm.
    pub algorithm: Algorithm,
    /// `b=` signature bytes (base64-decoded).
    pub signature: Vec<u8>,
    /// `bh=` declared body hash (base64-decoded).
    pub body_hash: Vec<u8>,
    /// Header canonicalization (from `c=`).
    pub header_canon: HeaderCanon,
    /// Body canonicalization (from `c=`).
    pub body_canon: BodyCanon,
    /// `d=` signing domain (SDID), what DMARC aligns against.
    pub domain: String,
    /// `s=` selector (locates the public key).
    pub selector: String,
    /// `h=` signed header field names, in signing order (lowercased).
    pub signed_headers: Vec<String>,
    /// `l=` body length limit (octets of the canonicalized body that were signed).
    pub body_length: Option<usize>,
    /// `x=` signature expiration (Unix seconds), if present.
    pub expiration: Option<u64>,
    /// The raw `DKIM-Signature` field value with the `b=` value emptied, the input
    /// to the header hash (RFC 6376 §3.7).
    pub b_stripped_value: Vec<u8>,
}

/// What a [`DkimSignature`] holds.
pub struct DkimSignatureView {
    pub algorithm: Algorithm,
    pub signature: Seq<u8>,
    pub body_hash: Seq<u8>,
    pub header_canon: HeaderCanon,
    pub body_canon: BodyCanon,
    pub domain: Seq<char>,
    pub selector: Seq<char>,
    pub signed_headers: Seq<Seq<char>>,
    pub body_length: Option<nat>,
    pub expiration: Option<nat>,
    pub b_stripped_value: Seq<u8>,
}

impl View for DkimSignature {
    type V = DkimSignatureView;

    open spec fn view(&self) -> DkimSignatureView {
        DkimSignatureView {
            algorithm: self.algorithm,
            signature: self.signature@,
            body_hash: self.body_hash@,
            header_canon: self.header_canon,
            body_canon: self.body_canon,
            domain: self.domain@,
            selector: self.selector@,
            signed_headers: texts(self.signed_headers@),
            body_length: match self.body_length {
                Some(l) => Some(l as nat),
                None => None,
            },
            expiration: match self.expiration {
                Some(x) => Some(x as nat),
                None => None,
            },
            b_stripped_value: self.b_stripped_value@,
        }
    }
}

/// The text without its white space.
pub open spec fn without_white_space(s: Seq<char>) -> Seq<char>
    decreases s.len(),
{
    if s.len() == 0 {
        Seq::empty()
    } else if white_space(s.last()) {
        without_white_space(s.drop_last())
    } else {
        without_white_space(s.drop_last()).push(s.last())
    }
}

/// What a base64 tag value decodes to, the folding white space in it ignored.
pub open spec fn tag_bytes(value: Seq<char>) -> Result<Seq<u8>, Seq<char>> {
    base64_decoded(encode_utf8(without_white_space(value)))
}

/// The field names that the parts of an `h=` value list: trimmed, lowercased,
/// empty ones left out.
pub open spec fn header_names(parts: Seq<Seq<char>>) -> Seq<Seq<char>>
    decreases parts.len(),
{
    if parts.len() == 0 {
        Seq::empty()
    } else {
        let name = lowered(trimmed(parts.last()));
        if name.len() == 0 {
            header_names(parts.drop_last())
        } else {
            header_names(parts.drop_last()).push(name)
        }
    }
}

/// Whether the bytes are the tag name `b`, with white space around it or not.
pub open spec fn names_b(key: Seq<u8>) -> bool {
    valid_utf8(key) && trimmed(decode_utf8(key)) == "b"@
}

/// A `tag=value` segment, with the value left out where the tag is `b`.
pub open spec fn without_b_value(segment: Seq<u8>) -> Seq<u8> {
    match find_byte(segment, 0x3d) {
        Some(i) => if names_b(segment.take(i)) {
            segment.take(i + 1)
        } else {
            segment
        },
        None => segment,
    }
}

/// A field value with the value of its `b=` tag removed and everything else, the
/// separators and white space included, as it was.
pub open spec fn b_stripped(raw: Seq<u8>) -> Seq<u8> {
    joined(
        split_on(raw, seq![0x3bu8]).map_values(|s: Seq<u8>| without_b_value(s)),
        seq![0x3bu8],
    )
}

impl DkimSignature {
    /// The signature that a tag map gives, with the decodings of its `b` and `bh`
    /// tags where they are there. The first of these that holds is the error: a
    /// version other than `1`; an `a` tag missing or unsupported; a `b`, then a `bh`,
    /// missing or not base64; a `d`, an `s`, an `h` missing; no name in `h`; an `l`,
    /// then an `x`, that is no number.
    pub open spec fn assembled(
        tags: Map<Seq<char>, Seq<char>>,
        signature: Option<Result<Seq<u8>, Seq<char>>>,
        body_hash: Option<Result<Seq<u8>, Seq<char>>>,
        b_stripped_value: Seq<u8>,
    ) -> Result<DkimSignatureView, NetworkErrorView> {
        let version = tag(tags, "v"@);
        let a = tag(tags, "a"@);
        let d = tag(tags, "d"@);
        let s = tag(tags, "s"@);
        let h = tag(tags, "h"@);
        let l = tag(tags, "l"@);
        let x = tag(tags, "x"@);
        let names = header_names(splits(h->0, ':'));
        let length = number(l->0, usize::MAX as nat);
        let expiration = number(x->0, u64::MAX as nat);
        if version is Some && version->0 != "1"@ {
            Err(dkim_error("unsupported DKIM version `"@ + version->0 + "`"@))
        } else if a is None {
            Err(dkim_error("missing a="@))
        } else if Algorithm::named(a->0) is None {
            Err(dkim_error("unsupported algorithm `"@ + lowered(a->0) + "`"@))
        } else if signature is None {
            Err(dkim_error("missing b="@))
        } else if signature->0 is Err {
            Err(dkim_error("invalid base64: "@ + signature->0->Err_0))
        } else if body_hash is None {
            Err(dkim_error("missing bh="@))
        } else if body_hash->0 is Err {
            Err(dkim_error("invalid base64: "@ + body_hash->0->Err_0))
        } else if d is None {
            Err(dkim_error("missing d="@))
        } else if s is None {
            Err(dkim_error("missing s="@))
        } else if h is None {
            Err(dkim_error("missing h="@))
        } else if names.len() == 0 {
            Err(dkim_error("h= lists no header fields"@))
        } else if l is Some && length is None {
            Err(dkim_error("bad l= length"@))
        } else if x is Some && expiration is None {
            Err(dkim_error("bad x= expiration"@))
        } else {
            Ok(
                DkimSignatureView {
                    algorithm: Algorithm::named(a->0)->0,
                    signature: signature->0->Ok_0,
                    body_hash: body_hash->0->Ok_0,
                    header_canon: canon_of(tag(tags, "c"@)).0,
                    body_canon: canon_of(tag(tags, "c"@)).1,
                    domain: d->0,
                    selector: s->0,
                    signed_headers: names,
                    body_length: if l is Some {
                        length
                    } else {
                        None
                    },
                    expiration: if x is Some {
                        expiration
                    } else {
                        None
                    },
                    b_stripped_value,
                },
            )
        }
    }

    /// The signature that a `DKIM-Signature` field value holds.
    pub open spec fn parsed(raw_value: Seq<u8>) -> Result<DkimSignatureView, NetworkErrorView> {
        let tags = tag_map(utf8_lossy(raw_value));
        DkimSignature::assembled(
            tags,
            match tag(tags, "b"@) {
                Some(v) => Some(tag_bytes(v)),
                None => None,
            },
            match tag(tags, "bh"@) {
                Some(v) => Some(tag_bytes(v)),
                None => None,
            },
            b_stripped(raw_value),
        )
    }

    /// Put a signature together from its tags, the decodings of its `b` and `bh`
    /// tags (`None` where the tag is missing), and the field value with the `b=`
    /// value emptied.
    ///
    /// # Errors
    /// [`NetworkError::Record`] if a required tag is missing or invalid, or the
    /// version or algorithm is unsupported.
    pub fn assemble(
        tags: &TagMap,
        signature: Option<Result<Vec<u8>, String>>,
        body_hash: Option<Result<Vec<u8>, String>>,
        b_stripped_value: Vec<u8>,
    ) -> (r: Result<DkimSignature, NetworkError>)
        ensures
            agrees(
                r,
                DkimSignature::assembled(
                    tags@,
                    match signature {
                        Some(d) => Some(decoding(d)),
                        None => None,
                    },
                    match body_hash {
                        Some(d) => Some(decoding(d)),
                        None => None,
                    },
                    b_stripped_value@,
                ),
            ),
    {
        if let Some(v) = tags.get("v") {
            let chars = chars_of(v.as_str());
            if !text_eq(chars.as_slice(), "1") {
                let reason = concat3("unsupported DKIM version `", v.as_str(), "`");
                return Err(NetworkError::record("DKIM", reason.as_str()));
            }
        }
        let algorithm = match tags.get("a") {
            Some(a) => match Algorithm::parse(a.as_str()) {
                Ok(a) => a,
                Err(e) => {
                    return Err(e);
                },
            },
            None => {
                return Err(NetworkError::record("DKIM", "missing a="));
            },
        };
        let signature = match signature {
            Some(Ok(bytes)) => bytes,
            Some(Err(reason)) => {
                return Err(invalid_base64(reason.as_str()));
            },
            None => {
                return Err(NetworkError::record("DKIM", "missing b="));
            },
        };
        let body_hash = match body_hash {
            Some(Ok(bytes)) => bytes,
            Some(Err(reason)) => {
                return Err(invalid_base64(reason.as_str()));
            },
            None => {
                return Err(NetworkError::record("DKIM", "missing bh="));
            },
        };
        let (header_canon, body_canon) = match tags.get("c") {
            Some(c) => parse_canon(Some(c.as_str())),
            None => parse_canon(None),
        };
        let domain = match tags.cloned("d") {
            Some(d) => d,
            None => {
                return Err(NetworkError::record("DKIM", "missing d="));
            },
        };
        let selector = match tags.cloned("s") {
            Some(s) => s,
            None => {
                return Err(NetworkError::record("DKIM", "missing s="));
            },
        };
        let signed_headers = match tags.get("h") {
            Some(h) => split_header_names(h.as_str()),
            None => {
                return Err(NetworkError::record("DKIM", "missing h="));
            },
        };
        if signed_headers.len() == 0 {
            return Err(NetworkError::record("DKIM", "h= lists no header fields"));
        }
        let body_length = match tags.get("l") {
            Some(l) => {
                let chars = chars_of(l.as_str());
                match parse_number(chars.as_slice(), usize::MAX as u64) {
                    Some(n) => Some(n as usize),
                    None => {
                        return Err(NetworkError::record("DKIM", "bad l= length"));
                    },
                }
            },
            None => None,
        };
        let expiration = match tags.get("x") {
            Some(x) => {
                let chars = chars_of(x.as_str());
                match parse_number(chars.as_slice(), u64::MAX) {
                    Some(n) => Some(n),
                    None => {
                        return Err(NetworkError::record("DKIM", "bad x= expiration"));
                    },
                }
            },
            None => None,
        };
        Ok(
            DkimSignature {
                algorithm,
                signature,
                body_hash,
                header_canon,
                body_canon,
                domain,
                selector,
                signed_headers,
                body_length,
                expiration,
                b_stripped_value,
            },
        )
    }

    /// Parse a `DKIM-Signature` field value (the bytes after the `:`).
    ///
    /// # Errors
    /// [`NetworkError::Record`] if a required tag is missing or invalid, or the
    /// version or algorithm is unsupported.
    pub fn parse(raw_value: &[u8]) -> (r: Result<DkimSignature, NetworkError>)
        ensures
            agrees(r, DkimSignature::parsed(raw_value@)),
    {
        // Signature values are ASCII; a lossy decode is harmless for parsing (the
        // verbatim bytes are kept in `b_stripped_value`).
        let text = lossy_text(raw_value);
        let tags = parse_tag_map(text.as_str());
        let signature = match tags.get("b") {
            Some(v) => Some(decode_b64(v.as_str())),
            None => None,
        };
        let body_hash = match tags.get("bh") {
            Some(v) => Some(decode_b64(v.as_str())),
            None => None,
        };
        DkimSignature::assemble(&tags, signature, body_hash, strip_b_value(raw_value))
    }
}

/// The error for a tag value that is not base64.
fn invalid_base64(reason: &str) -> (r: NetworkError)
    ensures
        r@ == dkim_error("invalid base64: "@ + reason@),
{
    let mut text = "invalid base64: ".to_string();
    text.append(reason);
    NetworkError::record("DKIM", text.as_str())
}

/// Decode a base64 tag value, ignoring any folding white space it contains.
fn decode_b64(value: &str) -> (r: Result<Vec<u8>, String>)
    ensures
        decoding(r) == tag_bytes(value@),
{
    let chars = chars_of(value);
    let mut compact: Vec<char> = Vec::new();
    let mut i: usize = 0;
    while i < chars.len()
        invariant
            i <= chars.len(),
            compact@ == without_white_space(chars@.take(i as int)),
        decreases chars.len() - i,
    {
        assert(chars@.take(i + 1).drop_last() =~= chars@.take(i as int));
        if !is_whitespace(chars[i]) {
            compact.push(chars[i]);
        }
        i = i + 1;
    }
    assert(chars@.take(chars@.len() as int) =~= chars@);
    let compact = string_of(compact.as_slice());
    decode_base64(compact.as_str().as_bytes())
}

/// The field names that an `h=` value lists.
fn split_header_names(h: &str) -> (r: Vec<String>)
    ensures
        texts(r@) == header_names(splits(h@, ':')),
{
    let chars = chars_of(h);
    let parts = split(chars.as_slice(), ':');
    let ghost all = splits(h@, ':');
    let mut out: Vec<String> = Vec::new();
    let mut i: usize = 0;
    assert(texts(out@) =~= header_names(all.take(0)));
    while i < parts.len()
        invariant
            i <= parts.len(),
            all == pieces(parts@),
            texts(out@) == header_names(all.take(i as int)),
        decreases parts.len() - i,
    {
        proof {
            assert(all.take(i + 1).drop_last() =~= all.take(i as int));
            assert(all.take(i + 1).last() == parts@[i as int]@);
        }
        let name = to_lower(trim(parts[i].as_slice()));
        if name.len() > 0 {
            let ghost before = out@;
            let name = string_of(name.as_slice());
            assert(texts(before.push(name)) =~= texts(before).push(name@));
            out.push(name);
        }
        i = i + 1;
    }
    assert(all.take(all.len() as int) =~= all);
    out
}

/// Reproduce the field value with the `b=` tag's value removed (the `b=` itself is
/// kept). Other tags, and the original separators and white space, are preserved,
/// so `simple` header canonicalization still sees the verbatim field.
fn strip_b_value(raw: &[u8]) -> (r: Vec<u8>)
    ensures
        r@ == b_stripped(raw@),
{
    let segments = split_bytes(raw, &[0x3b]);
    assert(seq![0x3bu8] =~= [0x3bu8]@);
    let ghost all = split_on(raw@, seq![0x3bu8]);
    let ghost stripped = all.map_values(|s: Seq<u8>| without_b_value(s));
    let mut out: Vec<Vec<u8>> = Vec::new();
    let mut i: usize = 0;
    while i < segments.len()
        invariant
            i <= segments.len(),
            all == blobs(segments@),
            stripped == all.map_values(|s: Seq<u8>| without_b_value(s)),
            blobs(out@) == stripped.take(i as int),
        decreases segments.len() - i,
    {
        let segment = segments[i].as_slice();
        assert(all[i as int] == segment@);
        let kept = match position(segment, 0x3d) {
            Some(p) => {
                let end = segment.len();
                assert(p < end);
                let key = slice_subrange(segment, 0, p);
                let is_b = match utf8_text(key) {
                    Some(text) => {
                        let chars = chars_of(text.as_str());
                        text_eq(trim(chars.as_slice()), "b")
                    },
                    None => false,
                };
                if is_b {
                    slice_to_vec(slice_subrange(segment, 0, p + 1))
                } else {
                    slice_to_vec(segment)
                }
            },
            None => slice_to_vec(segment),
        };
        let ghost before = out@;
        proof {
            assert(kept@ =~= without_b_value(segment@));
            assert(blobs(before.push(kept)) =~= blobs(before).push(kept@));
            assert(stripped.take(i + 1) =~= stripped.take(i as int).push(stripped[i as int]));
        }
        out.push(kept);
        i = i + 1;
    }
    assert(blobs(out@) =~= stripped);
    join_bytes(&out, &[0x3b])
}

} // verus!
