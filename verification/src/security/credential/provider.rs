//! The `CredentialStore` contract and the `Credential` value type.

use vstd::prelude::*;
use vstd::utf8::encode_utf8;

use crate::security::encryption::hash::{
    argon2_phc, hashed, phc_verdict, settled, PasswordHasher, VerdictView,
};
use crate::security::encryption::salt::sixteen_bytes_b64;
use crate::security::error::SecurityError;

verus! {

/// A stored credential: a username, an Argon2 PHC password hash, and an optional
/// `SecretCipher`-encrypted secret blob (e.g. a relay password / OAuth token).
#[derive(Debug, PartialEq, Eq)]
pub struct Credential {
    /// The account username (lookup key).
    pub username: String,
    /// Argon2id PHC string (salt + params embedded).
    pub password_phc: String,
    /// Optional encrypted secret (ciphertext from `SecretCipher`).
    pub secret: Option<Vec<u8>>,
}

/// What a [`Credential`] holds.
pub struct CredentialView {
    pub username: Seq<char>,
    pub password_phc: Seq<char>,
    pub secret: Option<Seq<u8>>,
}

impl View for Credential {
    type V = CredentialView;

    open spec fn view(&self) -> CredentialView {
        CredentialView {
            username: self.username@,
            password_phc: self.password_phc@,
            secret: match self.secret {
                Some(blob) => Some(blob@),
                None => None,
            },
        }
    }
}

impl Clone for Credential {
    fn clone(&self) -> (r: Credential)
        ensures
            r@ == self@,
    {
        Credential {
            username: self.username.clone(),
            password_phc: self.password_phc.clone(),
            secret: match &self.secret {
                Some(blob) => Some(vstd::slice::slice_to_vec(blob.as_slice())),
                None => None,
            },
        }
    }
}

impl Credential {
    /// Create a credential, hashing `password` with `hasher`. The password verifies
    /// against it.
    ///
    /// # Errors
    /// Propagates [`SecurityError::Hash`] if hashing fails.
    pub fn new(username: &str, password: &str, hasher: &PasswordHasher) -> (r: Result<
        Credential,
        SecurityError,
    >)
        ensures
            encode_utf8(password@).len() <= 0xffff_ffff ==> r is Ok,
            r matches Ok(c) ==> {
                &&& c@.username == username@
                &&& c@.secret is None
                &&& phc_verdict(encode_utf8(password@), c@.password_phc) == VerdictView::Matches
                &&& exists|salt: Seq<char>|
                    sixteen_bytes_b64(salt) && #[trigger] argon2_phc(encode_utf8(password@), salt)
                        == Ok::<Seq<char>, Seq<char>>(c@.password_phc)
            },
            r matches Err(e) ==> exists|salt: Seq<char>|
                sixteen_bytes_b64(salt) && hashed(
                    Err(e),
                    #[trigger] argon2_phc(encode_utf8(password@), salt),
                ),
            r matches Err(e) ==> e@ is Hash,
    {
        match hasher.hash(password) {
            Ok(password_phc) => {
                proof {
                    let salt = choose|salt: Seq<char>|
                        sixteen_bytes_b64(salt) && hashed(
                            Ok(password_phc),
                            #[trigger] argon2_phc(encode_utf8(password@), salt),
                        );
                    assert(argon2_phc(encode_utf8(password@), salt) == Ok::<Seq<char>, Seq<char>>(
                        password_phc@,
                    ));
                }
                Ok(Credential { username: username.to_string(), password_phc, secret: None })
            },
            Err(e) => Err(e),
        }
    }

    /// Attach an encrypted secret blob.
    pub fn with_secret(self, sealed: Vec<u8>) -> (r: Credential)
        ensures
            r@ == (CredentialView { secret: Some(sealed@), ..self@ }),
    {
        Credential {
            username: self.username,
            password_phc: self.password_phc,
            secret: Some(sealed),
        }
    }
}

/// What verifying a password comes to: an unknown user is a wrong password.
pub open spec fn verification(
    accounts: Map<Seq<char>, CredentialView>,
    username: Seq<char>,
    password: Seq<char>,
) -> VerdictView {
    if accounts.contains_key(username) {
        phc_verdict(encode_utf8(password), accounts[username].password_phc)
    } else {
        VerdictView::Differs
    }
}

/// Whether a result is a failure of the storage behind a store.
pub open spec fn storage_failed<T>(r: Result<T, SecurityError>) -> bool {
    r matches Err(e) && e@ is Credential
}

/// Storage and verification of [`Credential`]s.
pub trait CredentialStore: Send + Sync {
    /// The credentials in the store, by username.
    spec fn accounts(&self) -> Map<Seq<char>, CredentialView>;

    /// Insert or replace a credential (keyed by username).
    ///
    /// # Errors
    /// [`SecurityError::Credential`] on a storage failure.
    fn put(&mut self, credential: Credential) -> (r: Result<(), SecurityError>)
        ensures
            r is Ok || storage_failed(r),
            final(self).accounts() == if r is Ok {
                old(self).accounts().insert(credential@.username, credential@)
            } else {
                old(self).accounts()
            },
    ;

    /// Fetch a credential by username, if present.
    ///
    /// # Errors
    /// [`SecurityError::Credential`] on a storage failure.
    fn get(&self, username: &str) -> (r: Result<Option<Credential>, SecurityError>)
        ensures
            match r {
                Ok(Some(c)) => self.accounts().contains_key(username@) && c@
                    == self.accounts()[username@],
                Ok(None) => !self.accounts().contains_key(username@),
                Err(_) => storage_failed(r),
            },
    ;

    /// Verify a plaintext `password` against the stored hash for `username`.
    /// Returns `Ok(false)` for an unknown user or a wrong password.
    ///
    /// Implementations **must not** leak account existence through timing: the
    /// unknown-user path must spend the same work as a real verify by hashing
    /// against a decoy (see [`PasswordHasher::verify_dummy`]). Returning `Ok(false)`
    /// early without hashing reopens an account-enumeration oracle.
    ///
    /// # Errors
    /// [`SecurityError::Hash`] if the stored PHC is malformed;
    /// [`SecurityError::Credential`] on a storage failure.
    fn verify_password(&self, username: &str, password: &str) -> (r: Result<bool, SecurityError>)
        ensures
            storage_failed(r) || settled(r, verification(self.accounts(), username@, password@)),
    ;
}

// ---------------------------------------------------------------------------
// Laws
// ---------------------------------------------------------------------------

/// A credential that verifies a password does so from the store it was put into.
pub proof fn law_stored_credential_verifies(
    accounts: Map<Seq<char>, CredentialView>,
    credential: CredentialView,
    password: Seq<char>,
)
    ensures
        verification(
            accounts.insert(credential.username, credential),
            credential.username,
            password,
        ) == phc_verdict(encode_utf8(password), credential.password_phc),
{
}

/// Storing one credential changes what no other account verifies.
pub proof fn law_put_keeps_other_accounts(
    accounts: Map<Seq<char>, CredentialView>,
    credential: CredentialView,
    username: Seq<char>,
    password: Seq<char>,
)
    requires
        username != credential.username,
    ensures
        verification(accounts.insert(credential.username, credential), username, password)
            == verification(accounts, username, password),
{
}

/// An unknown user is answered as a wrong password is.
pub proof fn law_unknown_user_is_a_wrong_password(
    accounts: Map<Seq<char>, CredentialView>,
    username: Seq<char>,
    password: Seq<char>,
    r: Result<bool, SecurityError>,
)
    requires
        !accounts.contains_key(username),
    ensures
        settled(r, verification(accounts, username, password)) <==> r == Ok::<bool, SecurityError>(
            false,
        ),
{
}

} // verus!
