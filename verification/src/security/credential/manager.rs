//! In-memory [`CredentialStore`] implementation.

use vstd::prelude::*;

use crate::assoc::Assoc;
use crate::security::credential::provider::{
    verification, Credential, CredentialStore, CredentialView,
};
use crate::security::encryption::hash::{settled, PasswordHasher};
use crate::security::error::SecurityError;

verus! {

/// An in-memory credential store. Owns the [`PasswordHasher`] used to verify
/// passwords; a persistent (DB) implementation can replace this behind the same
/// [`CredentialStore`] trait.
pub struct MemoryCredentialStore {
    hasher: PasswordHasher,
    creds: Assoc<String, Credential>,
}

impl Default for MemoryCredentialStore {
    fn default() -> (r: MemoryCredentialStore)
        ensures
            r.accounts() == Map::<Seq<char>, CredentialView>::empty(),
    {
        MemoryCredentialStore::new()
    }
}

impl MemoryCredentialStore {
    /// Create an empty store with the default password hasher.
    pub fn new() -> (r: MemoryCredentialStore)
        ensures
            r.accounts() == Map::<Seq<char>, CredentialView>::empty(),
    {
        let r = MemoryCredentialStore { hasher: PasswordHasher::default(), creds: Assoc::new() };
        assert(r.accounts() =~= Map::<Seq<char>, CredentialView>::empty());
        r
    }

    /// The hasher's configuration.
    pub closed spec fn configured(&self) -> PasswordHasher {
        self.hasher
    }

    /// The hasher this store uses (e.g. to build [`Credential`]s consistently).
    pub fn hasher(&self) -> (r: &PasswordHasher)
        ensures
            *r == self.configured(),
    {
        &self.hasher
    }
}

impl CredentialStore for MemoryCredentialStore {
    closed spec fn accounts(&self) -> Map<Seq<char>, CredentialView> {
        self.creds@.map_values(|c: Credential| c@)
    }

    /// Storage in memory does not fail.
    fn put(&mut self, credential: Credential) -> (r: Result<(), SecurityError>)
        ensures
            r is Ok,
    {
        let ghost before = self.creds@;
        let username = credential.username.clone();
        self.creds.insert(username, credential);
        proof {
            assert(self.accounts() =~= old(self).accounts().insert(
                credential@.username,
                credential@,
            ));
        }
        Ok(())
    }

    /// Storage in memory does not fail.
    fn get(&self, username: &str) -> (r: Result<Option<Credential>, SecurityError>)
        ensures
            r is Ok,
    {
        let key = username.to_string();
        match self.creds.get(&key) {
            Some(credential) => Ok(Some(credential.clone())),
            None => Ok(None),
        }
    }

    /// Storage in memory does not fail.
    fn verify_password(&self, username: &str, password: &str) -> (r: Result<bool, SecurityError>)
        ensures
            settled(r, verification(self.accounts(), username@, password@)),
    {
        let key = username.to_string();
        match self.creds.get(&key) {
            Some(credential) => self.hasher.verify(password, credential.password_phc.as_str()),
            None => {
                // Unknown user: still spend a verification's worth of time against
                // a decoy hash, so this path is indistinguishable by timing from a
                // real (wrong-password) verify: no account enumeration.
                let _ = self.hasher.verify_dummy(password);
                Ok(false)
            },
        }
    }
}

} // verus!
