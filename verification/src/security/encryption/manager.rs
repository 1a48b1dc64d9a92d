//! `SecretCipher`: owns a ChaCha20-Poly1305 key and composes the seal/open halves.

use chacha20poly1305::aead::OsRng;
use chacha20poly1305::{ChaCha20Poly1305, KeyInit};
use vstd::prelude::*;

use crate::security::encryption::decrypt;
use crate::security::encryption::decrypt::opened;
use crate::security::encryption::encrypt;
use crate::security::encryption::encrypt::{keystream_decides, sealed, within_one_nonce};
use crate::security::error::{SecurityError, SecurityErrorView};

verus! {

/// Calls `ChaCha20Poly1305::generate_key` on the OS CSPRNG: thirty-two random bytes, of
/// which nothing is promised.
#[verifier::external_body]
fn random_key() -> (r: [u8; 32])
{
    ChaCha20Poly1305::generate_key(&mut OsRng).into()
}

/// Symmetric authenticated cipher for encrypting stored secrets at rest.
pub struct SecretCipher {
    key: [u8; 32],
}

impl SecretCipher {
    /// The key.
    pub closed spec fn secret(&self) -> Seq<u8> {
        self.key@
    }

    /// Build a cipher with a fresh random 256-bit key from the OS CSPRNG.
    pub fn generate() -> (r: SecretCipher)
        ensures
            r.secret().len() == 32,
    {
        SecretCipher { key: random_key() }
    }

    /// Build a cipher from an existing 32-byte key.
    pub fn from_key(key: [u8; 32]) -> (r: SecretCipher)
        ensures
            r.secret() == key@,
    {
        SecretCipher { key }
    }

    /// Encrypt `plaintext`, returning `nonce || ciphertext`, which decrypts to it under
    /// the same key.
    ///
    /// # Errors
    /// [`SecurityError::Encrypt`] if the plaintext is more than one nonce can encrypt.
    pub fn encrypt(&self, plaintext: &[u8]) -> (r: Result<Vec<u8>, SecurityError>)
        requires
            keystream_decides(plaintext@.len()),
        ensures
            r is Ok <==> within_one_nonce(plaintext@.len()),
            r matches Ok(blob) ==> exists|nonce: Seq<u8>|
                nonce.len() == 12 && blob@ == #[trigger] sealed(self.secret(), nonce, plaintext@),
            r matches Ok(blob) ==> blob@.len() == plaintext@.len() + 28,
            r matches Ok(blob) ==> opened(self.secret(), blob@) == Ok::<
                Seq<u8>,
                SecurityErrorView,
            >(plaintext@),
            r matches Err(e) ==> e@ == SecurityErrorView::Encrypt("aead::Error"@),
    {
        encrypt::seal(&self.key, plaintext)
    }

    /// Decrypt a blob produced by [`Self::encrypt`].
    ///
    /// # Errors
    /// [`SecurityError::Decrypt`] if authentication fails.
    pub fn decrypt(&self, sealed: &[u8]) -> (r: Result<Vec<u8>, SecurityError>)
        requires
            sealed@.len() >= 28 ==> keystream_decides((sealed@.len() - 28) as nat),
        ensures
            match (r, opened(self.secret(), sealed@)) {
                (Ok(p), Ok(q)) => p@ == q,
                (Err(e), Err(f)) => e@ == f,
                _ => false,
            },
            r matches Ok(p) ==> sealed@.len() == p@.len() + 28,
    {
        decrypt::open(&self.key, sealed)
    }
}

} // verus!
