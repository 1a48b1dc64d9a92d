//! AEAD seal (encryption) half of the secret cipher.

use chacha20poly1305::aead::{Aead, OsRng};
use chacha20poly1305::{AeadCore, ChaCha20Poly1305, KeyInit};
use vstd::prelude::*;

use crate::security::encryption::decrypt::{aead_plaintext, opened};
use crate::security::error::{SecurityError, SecurityErrorView};
use crate::text::push_bytes;

verus! {

/// What ChaCha20-Poly1305 makes of a plaintext: the ciphertext and its tag.
pub uninterp spec fn aead_ciphertext(key: Seq<u8>, nonce: Seq<u8>, plaintext: Seq<u8>) -> Seq<u8>;

/// Whether a message is within what one nonce can encrypt (2^32 - 1 blocks of 64 bytes).
pub open spec fn within_one_nonce(len: nat) -> bool {
    len < 64 * 0xffff_ffff
}

/// Whether the keystream of one nonce either covers a message or is refused for it:
/// not so for a message that reaches into the last block.
pub open spec fn keystream_decides(len: nat) -> bool {
    len <= 64 * 0xffff_fffe || !within_one_nonce(len)
}

/// Calls `ChaCha20Poly1305::encrypt`. It succeeds exactly on what one nonce can
/// encrypt; the ciphertext is sixteen bytes longer than the plaintext and decrypts to
/// it. Its error is always the same.
#[verifier::external_body]
fn aead_encrypt(key: &[u8; 32], nonce: &[u8; 12], plaintext: &[u8]) -> (r: Result<Vec<u8>, String>)
    requires
        keystream_decides(plaintext@.len()),
    ensures
        r is Ok <==> within_one_nonce(plaintext@.len()),
        r matches Ok(c) ==> c@ == aead_ciphertext(key@, nonce@, plaintext@),
        r matches Ok(c) ==> c@.len() == plaintext@.len() + 16,
        r matches Ok(c) ==> aead_plaintext(key@, nonce@, c@) == Some(plaintext@),
        r matches Err(reason) ==> reason@ == "aead::Error"@,
{
    ChaCha20Poly1305::new(key.into()).encrypt(nonce.into(), plaintext).map_err(|e| e.to_string())
}

/// Calls `ChaCha20Poly1305::generate_nonce` on the OS CSPRNG: twelve random bytes, of
/// which nothing is promised.
#[verifier::external_body]
fn random_nonce() -> (r: [u8; 12])
{
    ChaCha20Poly1305::generate_nonce(&mut OsRng).into()
}

/// A sealed blob: the nonce, then the ciphertext.
pub open spec fn sealed(key: Seq<u8>, nonce: Seq<u8>, plaintext: Seq<u8>) -> Seq<u8> {
    nonce + aead_ciphertext(key, nonce, plaintext)
}

/// Encrypt `plaintext` under `key`, returning `nonce || ciphertext`.
///
/// A fresh random 96-bit nonce is generated per call and prepended to the output.
/// What is sealed opens again under the same key.
///
/// # Errors
/// [`SecurityError::Encrypt`] if the plaintext is more than one nonce can encrypt.
pub fn seal(key: &[u8; 32], plaintext: &[u8]) -> (r: Result<Vec<u8>, SecurityError>)
    requires
        keystream_decides(plaintext@.len()),
    ensures
        r is Ok <==> within_one_nonce(plaintext@.len()),
        r matches Ok(blob) ==> exists|nonce: Seq<u8>|
            nonce.len() == 12 && blob@ == #[trigger] sealed(key@, nonce, plaintext@),
        r matches Ok(blob) ==> blob@.len() == plaintext@.len() + 28,
        r matches Ok(blob) ==> opened(key@, blob@) == Ok::<Seq<u8>, SecurityErrorView>(plaintext@),
        r matches Err(e) ==> e@ == SecurityErrorView::Encrypt("aead::Error"@),
{
    let nonce = random_nonce();
    seal_with(key, &nonce, plaintext)
}

/// Encrypt `plaintext` under `key` and a given nonce, returning `nonce || ciphertext`.
/// One nonce must not be used for two plaintexts under one key.
///
/// # Errors
/// [`SecurityError::Encrypt`] if the plaintext is more than one nonce can encrypt.
pub fn seal_with(key: &[u8; 32], nonce: &[u8; 12], plaintext: &[u8]) -> (r: Result<
    Vec<u8>,
    SecurityError,
>)
    requires
        keystream_decides(plaintext@.len()),
    ensures
        r is Ok <==> within_one_nonce(plaintext@.len()),
        r matches Ok(blob) ==> blob@ == sealed(key@, nonce@, plaintext@),
        r matches Ok(blob) ==> blob@.len() == plaintext@.len() + 28,
        r matches Ok(blob) ==> opened(key@, blob@) == Ok::<Seq<u8>, SecurityErrorView>(plaintext@),
        r matches Err(e) ==> e@ == SecurityErrorView::Encrypt("aead::Error"@),
{
    match aead_encrypt(key, nonce, plaintext) {
        Ok(ciphertext) => {
            let mut out: Vec<u8> = Vec::new();
            push_bytes(&mut out, nonce.as_slice());
            push_bytes(&mut out, ciphertext.as_slice());
            proof {
                assert(out@ =~= nonce@ + ciphertext@);
                assert(out@.take(12) =~= nonce@);
                assert(out@.skip(12) =~= ciphertext@);
            }
            Ok(out)
        },
        Err(reason) => Err(SecurityError::Encrypt(reason)),
    }
}

} // verus!
