//! Base64 in its standard, padded alphabet.

use base64::engine::general_purpose::STANDARD;
use base64::Engine;
use vstd::prelude::*;

verus! {

/// What base64's standard engine makes of an encoding: the bytes, or the text of
/// its error.
pub uninterp spec fn base64_decoded(encoded: Seq<u8>) -> Result<Seq<u8>, Seq<char>>;

/// The view of a decoding result.
pub open spec fn decoding(r: Result<Vec<u8>, String>) -> Result<Seq<u8>, Seq<char>> {
    match r {
        Ok(bytes) => Ok(bytes@),
        Err(reason) => Err(reason@),
    }
}

/// `base64::Engine::decode` of the `STANDARD` engine: the decoded bytes, or the
/// display text of the `DecodeError`. Both depend on the input alone; which
/// inputs decode, and to what, is what the name `base64_decoded` stands for.
#[verifier::external_body]
pub(crate) fn decode_base64(encoded: &[u8]) -> (r: Result<Vec<u8>, String>)
    ensures
        decoding(r) == base64_decoded(encoded@),
{
    STANDARD.decode(encoded).map_err(|e| e.to_string())
}

} // verus!
