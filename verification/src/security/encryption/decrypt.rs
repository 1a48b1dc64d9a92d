//! AEAD open (decryption) half of the secret cipher.

use chacha20poly1305::aead::Aead;
use chacha20poly1305::{ChaCha20Poly1305, KeyInit, Nonce};
use vstd::prelude::*;
use vstd::slice::slice_subrange;

use crate::security::encryption::algos::AeadAlgo;
use crate::security::encryption::encrypt::keystream_decides;
use crate::security::error::{SecurityError, SecurityErrorView};

verus! {

/// What ChaCha20-Poly1305 decrypts a ciphertext with its tag to, if the tag verifies.
pub uninterp spec fn aead_plaintext(key: Seq<u8>, nonce: Seq<u8>, ciphertext: Seq<u8>) -> Option<
    Seq<u8>,
>;

/// Calls `ChaCha20Poly1305::decrypt`. A ciphertext shorter than its tag never decrypts;
/// the plaintext is sixteen bytes shorter. Its error is always the same.
#[verifier::external_body]
fn aead_decrypt(key: &[u8; 32], nonce: &[u8], ciphertext: &[u8]) -> (r: Result<Vec<u8>, String>)
    requires
        nonce@.len() == 12,
        ciphertext@.len() >= 16 ==> keystream_decides((ciphertext@.len() - 16) as nat),
    ensures
        match r {
            Ok(p) => aead_plaintext(key@, nonce@, ciphertext@) == Some(p@),
            Err(reason) => aead_plaintext(key@, nonce@, ciphertext@) is None,
        },
        r matches Ok(p) ==> ciphertext@.len() == p@.len() + 16,
        r matches Err(reason) ==> reason@ == "aead::Error"@,
{
    ChaCha20Poly1305::new(key.into())
        .decrypt(Nonce::from_slice(nonce), ciphertext)
        .map_err(|e| e.to_string())
}

/// What a sealed blob opens to: it must hold a nonce, and the rest must decrypt under
/// it.
pub open spec fn opened(key: Seq<u8>, blob: Seq<u8>) -> Result<Seq<u8>, SecurityErrorView> {
    if blob.len() < 12 {
        Err(SecurityErrorView::Decrypt("sealed blob shorter than nonce"@))
    } else {
        match aead_plaintext(key, blob.take(12), blob.skip(12)) {
            Some(plaintext) => Ok(plaintext),
            None => Err(SecurityErrorView::Decrypt("aead::Error"@)),
        }
    }
}

/// Decrypt a `nonce || ciphertext` blob produced by [`super::encrypt::seal`].
///
/// # Errors
/// [`SecurityError::Decrypt`] if the blob is shorter than the nonce or the
/// authentication tag does not verify (tampering or wrong key).
pub fn open(key: &[u8; 32], sealed: &[u8]) -> (r: Result<Vec<u8>, SecurityError>)
    requires
        sealed@.len() >= 28 ==> keystream_decides((sealed@.len() - 28) as nat),
    ensures
        match (r, opened(key@, sealed@)) {
            (Ok(p), Ok(q)) => p@ == q,
            (Err(e), Err(f)) => e@ == f,
            _ => false,
        },
        r matches Ok(p) ==> sealed@.len() == p@.len() + 28,
{
    let nonce_len = AeadAlgo::ChaCha20Poly1305.nonce_len();
    if sealed.len() < nonce_len {
        return Err(SecurityError::Decrypt("sealed blob shorter than nonce".to_string()));
    }
    let nonce = slice_subrange(sealed, 0, nonce_len);
    let ciphertext = slice_subrange(sealed, nonce_len, sealed.len());
    proof {
        assert(nonce@ =~= sealed@.take(12));
        assert(ciphertext@ =~= sealed@.skip(12));
    }
    match aead_decrypt(key, nonce, ciphertext) {
        Ok(plaintext) => Ok(plaintext),
        Err(reason) => Err(SecurityError::Decrypt(reason)),
    }
}

} // verus!
