//! `CredentialReceiver`: the intake seam that validates credentials a connecting
//! session *presents* against a [`CredentialStore`]. This is what the identity
//! layer calls when an SMTP/IMAP/POP client authenticates.

use vstd::prelude::*;
use vstd::utf8::encode_utf8;

use crate::security::credential::provider::{
    storage_failed, verification, CredentialStore, CredentialView,
};
use crate::security::encryption::hash::{phc_verdict, VerdictView};
use crate::security::error::{SecurityError, SecurityErrorView};

verus! {

/// Outcome of authenticating presented credentials.
#[derive(Debug, Clone, Copy, PartialEq, Eq, Structural)]
pub enum AuthOutcome {
    /// The username + password matched a stored credential.
    Authenticated,
    /// No match (unknown user or wrong password).
    Rejected,
}

/// Whether a result is what a verdict on presented credentials comes to.
pub open spec fn answers(r: Result<AuthOutcome, SecurityError>, verdict: VerdictView) -> bool {
    match verdict {
        VerdictView::Matches => r == Ok::<AuthOutcome, SecurityError>(AuthOutcome::Authenticated),
        VerdictView::Differs => r == Ok::<AuthOutcome, SecurityError>(AuthOutcome::Rejected),
        VerdictView::Fault(reason) => r matches Err(e) && e@ == SecurityErrorView::Hash(reason),
    }
}

/// The outcome that a store's answer stands for; its errors are passed on.
pub fn outcome(verified: Result<bool, SecurityError>) -> (r: Result<AuthOutcome, SecurityError>)
    ensures
        match verified {
            Ok(true) => r == Ok::<AuthOutcome, SecurityError>(AuthOutcome::Authenticated),
            Ok(false) => r == Ok::<AuthOutcome, SecurityError>(AuthOutcome::Rejected),
            Err(e) => r == Err::<AuthOutcome, SecurityError>(e),
        },
{
    match verified {
        Ok(true) => Ok(AuthOutcome::Authenticated),
        Ok(false) => Ok(AuthOutcome::Rejected),
        Err(e) => Err(e),
    }
}

/// Validates presented credentials against a backing [`CredentialStore`].
pub struct CredentialReceiver<S: CredentialStore> {
    pub store: S,
}

impl<S: CredentialStore> CredentialReceiver<S> {
    /// Wrap a credential store.
    pub fn new(store: S) -> (r: CredentialReceiver<S>)
        ensures
            r.store == store,
    {
        CredentialReceiver { store }
    }

    /// Authenticate a presented `username` + `password`: the [`outcome`] of what the store
    /// answers.
    ///
    /// # Errors
    /// Propagates store/hash errors; a wrong password is `Ok(AuthOutcome::Rejected)`, not
    /// an error.
    pub fn authenticate(&self, username: &str, password: &str) -> (r: Result<
        AuthOutcome,
        SecurityError,
    >)
        ensures
            exists|answer: Result<bool, SecurityError>| #[trigger]
                call_ensures(S::verify_password, (&self.store, username, password), answer)
                    && call_ensures(outcome, (answer,), r),
            storage_failed(r) || answers(
                r,
                verification(self.store.accounts(), username@, password@),
            ),
    {
        outcome(self.store.verify_password(username, password))
    }
}

// ---------------------------------------------------------------------------
// Laws
// ---------------------------------------------------------------------------

/// Nobody is authenticated but a user on record whose password Argon2 finds to be the one
/// that was hashed, and such a user always is; a wrong password and an unknown user are
/// rejected alike.
pub proof fn law_only_the_right_password_authenticates(
    accounts: Map<Seq<char>, CredentialView>,
    username: Seq<char>,
    password: Seq<char>,
    r: Result<AuthOutcome, SecurityError>,
)
    requires
        answers(r, verification(accounts, username, password)),
    ensures
        r == Ok::<AuthOutcome, SecurityError>(AuthOutcome::Authenticated) <==> accounts.contains_key(
            username,
        ) && phc_verdict(encode_utf8(password), accounts[username].password_phc) is Matches,
        !accounts.contains_key(username) ==> r == Ok::<AuthOutcome, SecurityError>(
            AuthOutcome::Rejected,
        ),
        accounts.contains_key(username) && phc_verdict(
            encode_utf8(password),
            accounts[username].password_phc,
        ) is Differs ==> r == Ok::<AuthOutcome, SecurityError>(AuthOutcome::Rejected),
        r is Err ==> accounts.contains_key(username) && phc_verdict(
            encode_utf8(password),
            accounts[username].password_phc,
        ) is Fault,
{
}

} // verus!
