//! Algorithm registry: the password-hashing and AEAD primitives the rest of
//! `encryption` is built on.

use vstd::prelude::*;

verus! {

/// Password-hashing algorithms supported by the security layer.
#[derive(Debug, Clone, Copy, PartialEq, Eq, Structural)]
pub enum PasswordAlgo {
    /// Argon2id: memory-hard, OWASP-recommended; the project default.
    Argon2id,
}

/// Authenticated-encryption algorithms supported for secret storage.
#[derive(Debug, Clone, Copy, PartialEq, Eq, Structural)]
pub enum AeadAlgo {
    /// ChaCha20-Poly1305: the project default.
    ChaCha20Poly1305,
}

impl AeadAlgo {
    /// Nonce length, in bytes, for this AEAD (consumed by the decrypt path).
    pub fn nonce_len(self) -> (r: usize)
        ensures
            r == 12,
    {
        match self {
            AeadAlgo::ChaCha20Poly1305 => 12,
        }
    }
}

} // verus!
