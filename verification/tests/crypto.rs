//! Password hashing, secret encryption and credentials.

use std::time::{Duration, Instant};

use argon2::password_hash::{PasswordHash, PasswordVerifier};
use argon2::Argon2;
use snail::security::credential::reciever::outcome;
use snail::security::credential::{
    AuthOutcome, Credential, CredentialReceiver, CredentialStore, MemoryCredentialStore,
};
use snail::security::encryption::algos::AeadAlgo;
use snail::security::encryption::hash::{settle, PasswordHasher, Verdict, DECOY_PHC};
use snail::security::encryption::{decrypt, encrypt, salt, SecretCipher};
use snail::security::error::SecurityError;

#[test]
fn stored_credential_verifies_correct_password() {
    let mut store = MemoryCredentialStore::new();
    let cred = Credential::new("alice", "s3cret-pass", store.hasher()).unwrap();
    store.put(cred).unwrap();
    assert!(store.verify_password("alice", "s3cret-pass").unwrap());
}

#[test]
fn wrong_password_and_unknown_user_return_false() {
    let mut store = MemoryCredentialStore::new();
    let cred = Credential::new("alice", "s3cret-pass", store.hasher()).unwrap();
    store.put(cred).unwrap();
    assert!(!store.verify_password("alice", "wrong").unwrap());
    assert!(!store.verify_password("nobody", "whatever").unwrap());
}

#[test]
fn get_returns_stored_credential() {
    let mut store = MemoryCredentialStore::new();
    let cred = Credential::new("bob", "pw", store.hasher()).unwrap();
    store.put(cred).unwrap();
    assert_eq!(store.get("bob").unwrap().unwrap().username, "bob");
    assert!(store.get("ghost").unwrap().is_none());
}

#[test]
fn unknown_user_verify_still_hashes_no_timing_oracle() {
    let mut store = MemoryCredentialStore::new();
    let cred = Credential::new("alice", "s3cret-pass", store.hasher()).unwrap();
    store.put(cred).unwrap();

    // Average a few iterations to smooth scheduling noise; the signal we guard
    // against (no hashing on the miss path) is ~1000x, so the threshold is
    // generous.
    let avg = |f: &dyn Fn()| -> Duration {
        const ITERS: u32 = 3;
        let start = Instant::now();
        for _ in 0..ITERS {
            f();
        }
        start.elapsed() / ITERS
    };

    // Known user, wrong password: one real Argon2 verify.
    let real = avg(&|| {
        assert!(!store.verify_password("alice", "wrong").unwrap());
    });
    // Unknown user: must also perform an Argon2 verify (against the decoy).
    let miss = avg(&|| {
        assert!(!store.verify_password("nobody", "wrong").unwrap());
    });

    assert!(
        miss >= real / 4,
        "unknown-user verify ({miss:?}) must cost on the order of a real verify \
         ({real:?}): it is skipping the hash (account-enumeration timing oracle)"
    );
}

fn store_with(user: &str, pw: &str) -> MemoryCredentialStore {
    let mut store = MemoryCredentialStore::new();
    let cred = Credential::new(user, pw, store.hasher()).unwrap();
    store.put(cred).unwrap();
    store
}

#[test]
fn accepts_valid_credentials() {
    let rx = CredentialReceiver::new(store_with("alice", "pw"));
    assert_eq!(
        rx.authenticate("alice", "pw").unwrap(),
        AuthOutcome::Authenticated
    );
}

#[test]
fn rejects_wrong_password() {
    let rx = CredentialReceiver::new(store_with("alice", "pw"));
    assert_eq!(
        rx.authenticate("alice", "nope").unwrap(),
        AuthOutcome::Rejected
    );
}

#[test]
fn replacing_one_credential_leaves_the_others() {
    let mut store = store_with("alice", "one");
    let bob = Credential::new("bob", "two", store.hasher()).unwrap();
    store.put(bob).unwrap();
    let alice = Credential::new("alice", "three", store.hasher())
        .unwrap()
        .with_secret(vec![1, 2, 3]);
    store.put(alice.clone()).unwrap();
    assert!(!store.verify_password("alice", "one").unwrap());
    assert!(store.verify_password("alice", "three").unwrap());
    assert!(store.verify_password("bob", "two").unwrap());
    assert_eq!(store.get("alice").unwrap(), Some(alice));
}

#[test]
fn malformed_stored_hash_is_an_error_and_not_a_rejection() {
    let mut store = MemoryCredentialStore::default();
    store
        .put(Credential {
            username: "carol".into(),
            password_phc: "not-a-phc-string".into(),
            secret: None,
        })
        .unwrap();
    let rx = CredentialReceiver::new(store);
    assert!(matches!(
        rx.authenticate("carol", "pw"),
        Err(SecurityError::Hash(_))
    ));
    assert!(matches!(
        outcome(Err(SecurityError::Credential("down".into()))),
        Err(SecurityError::Credential(_))
    ));
}

#[test]
fn chacha_nonce_len_is_96_bits() {
    assert_eq!(AeadAlgo::ChaCha20Poly1305.nonce_len(), 12);
}

#[test]
fn hash_then_verify_roundtrips() {
    let h = PasswordHasher::default();
    let phc = h.hash("correct horse battery staple").unwrap();
    assert!(h.verify("correct horse battery staple", &phc).unwrap());
}

#[test]
fn wrong_password_fails_verification() {
    let h = PasswordHasher::default();
    let phc = h.hash("correct horse battery staple").unwrap();
    assert!(!h.verify("Tr0ub4dor&3", &phc).unwrap());
}

#[test]
fn same_password_hashes_differ_by_salt() {
    let h = PasswordHasher::default();
    assert_ne!(h.hash("pw").unwrap(), h.hash("pw").unwrap());
}

#[test]
fn malformed_phc_errors() {
    let h = PasswordHasher::default();
    assert!(h.verify("pw", "not-a-phc-string").is_err());
}

#[test]
fn hashing_under_one_salt_is_repeatable() {
    let h = PasswordHasher::default();
    let one = h.hash_with("pw", "c29tZXNhbHRzb21lc2FsdA").unwrap();
    assert_eq!(one, h.hash_with("pw", "c29tZXNhbHRzb21lc2FsdA").unwrap());
    assert!(one.starts_with("$argon2id$v=19$m=19456,t=2,p=1$c29tZXNhbHRzb21lc2FsdA$"));
    assert!(h.verify("pw", &one).unwrap());
    assert!(h.hash_with("pw", "!").is_err());
}

#[test]
fn the_decoy_is_a_well_formed_hash_of_nothing() {
    let h = PasswordHasher::default();
    assert!(!h.verify_dummy("anything").unwrap());
    assert!(!h.verify("", DECOY_PHC).unwrap());
}

#[test]
fn verdicts_settle() {
    assert!(settle(Verdict::Matches).unwrap());
    assert!(!settle(Verdict::Differs).unwrap());
    match settle(Verdict::Fault("why".into())) {
        Err(e) => assert_eq!(e.to_string(), "password hashing error: why"),
        Ok(_) => panic!("a fault is an error"),
    }
}

#[test]
fn encrypt_then_decrypt_roundtrips() {
    let c = SecretCipher::generate();
    let sealed = c.encrypt(b"oauth-refresh-token").unwrap();
    assert_eq!(
        c.decrypt(&sealed).unwrap().as_slice(),
        b"oauth-refresh-token"
    );
}

#[test]
fn tampered_ciphertext_fails() {
    let c = SecretCipher::generate();
    let mut sealed = c.encrypt(b"secret").unwrap();
    *sealed.last_mut().unwrap() ^= 0xFF;
    assert!(c.decrypt(&sealed).is_err());
}

#[test]
fn wrong_key_fails() {
    let sealed = SecretCipher::generate().encrypt(b"secret").unwrap();
    assert!(SecretCipher::generate().decrypt(&sealed).is_err());
}

#[test]
fn from_key_is_deterministic_for_decryption() {
    let key = [7u8; 32];
    let sealed = SecretCipher::from_key(key).encrypt(b"hello").unwrap();
    assert_eq!(
        SecretCipher::from_key(key)
            .decrypt(&sealed)
            .unwrap()
            .as_slice(),
        b"hello"
    );
}

#[test]
fn sealed_blob_is_nonce_then_ciphertext_then_tag() {
    let key = [7u8; 32];
    let nonce = [1u8; 12];
    let blob = encrypt::seal_with(&key, &nonce, b"hello").unwrap();
    assert_eq!(blob.len(), 12 + 5 + 16);
    assert_eq!(&blob[..12], &nonce);
    assert_ne!(&blob[12..17], b"hello");
    assert_eq!(decrypt::open(&key, &blob).unwrap(), b"hello");
    assert_ne!(encrypt::seal(&key, b"hello").unwrap(), blob);
}

#[test]
fn short_blobs_do_not_open() {
    let key = [0u8; 32];
    match decrypt::open(&key, &[0u8; 11]) {
        Err(e) => assert_eq!(
            e.to_string(),
            "decryption error: sealed blob shorter than nonce"
        ),
        Ok(_) => panic!("eleven bytes hold no nonce"),
    }
    match decrypt::open(&key, &[0u8; 20]) {
        Err(e) => assert_eq!(e.to_string(), "decryption error: aead::Error"),
        Ok(_) => panic!("eight bytes hold no tag"),
    }
}

#[test]
fn generated_salts_are_unique() {
    assert_ne!(salt::generate(), salt::generate());
    assert_eq!(salt::generate().len(), 22);
}

#[test]
fn security_errors_read_as_sentences() {
    assert_eq!(
        SecurityError::Encrypt("x".into()).to_string(),
        "encryption error: x"
    );
    assert_eq!(
        SecurityError::Credential("x".into()).to_string(),
        "credential error: x"
    );
    assert_eq!(
        SecurityError::Firewall("x".into()).to_string(),
        "firewall error: x"
    );
}

/// A PHC string with the given parameters, and a salt and hash behind them.
fn phc_with(params: &str) -> String {
    format!("$argon2id$v=19${params}$c29tZXNhbHRzb21lc2FsdA$AAAAAAAAAAAAAAAAAAAAAAAAAAAAAAAAAAAAAAAAAAA")
}

fn hash_fault(r: Result<bool, SecurityError>) -> String {
    match r {
        Err(SecurityError::Hash(reason)) => reason,
        other => panic!("no hash error: {other:?}"),
    }
}

/// What Argon2 itself says of a PHC string.
fn argon2_says(phc: &str) -> Result<bool, String> {
    let answer = PasswordHash::new(phc)
        .and_then(|hash| Argon2::default().verify_password(b"pw", &hash));
    match answer {
        Ok(()) => Ok(true),
        Err(argon2::password_hash::Error::Password) => Ok(false),
        Err(e) => Err(e.to_string()),
    }
}

#[test]
fn too_much_parallelism_is_a_fault() {
    let hasher = PasswordHasher::default();
    let fault = |params: &str| hash_fault(hasher.verify("pw", &phc_with(params)));
    assert_eq!(fault("m=19456,t=2,p=536870912"), "invalid parameter value: value to long");
    // Eight times as much, wrapped around, is more memory than there is.
    assert_eq!(fault("m=19456,t=2,p=4294967295"), "invalid parameter value: value to short");
    assert_eq!(fault("m=4294967295,p=4294967295"), "invalid parameter value: value to long");
    assert_eq!(fault("m=19456,t=0,p=536870912"), "invalid parameter value: value to short");
    // The last value counts, other parameters may stand around, and the version can be
    // left out.
    assert_eq!(fault("p=1,keyid=AAAA,p=536870912"), "invalid parameter value: value to long");
    let phc = "$argon2id$p=536870912$c29tZXNhbHRzb21lc2FsdA$AAAAAAAAAAAAAAAAAAAAAA";
    assert_eq!(hash_fault(hasher.verify("pw", phc)), "invalid parameter value: value to long");
}

#[test]
fn argon2_decides_where_its_arithmetic_does_not_overflow() {
    let hasher = PasswordHasher::default();
    let mut strings = Vec::new();
    for params in [
        // Taken one way or the other.
        "m=19456,t=2,p=1",
        "m=19456,t=2,p=536870912,p=1",
        "m=19456,t=2,p=536870911",
        "m=19456,t=2,p=16777216",
        // Malformed besides asking for too much.
        "m=19456,t=2,p=0536870912",
        "m=19456,t=2,p=+536870912",
        "m=19456,t=2,p=4294967296",
        "m=19456,t=2,p=x,p=536870912",
        "m=019456,t=2,p=536870912",
        "m=7,t=2,p=536870912",
        "m=,p=536870912",
        "q=1,p=536870912",
        "keyid=AAAAAAAAAAAAAAAAAAAA,p=536870912",
        "data=A,p=536870912",
        "p=536870912,t",
        "p=536870912,t=1=2",
    ] {
        strings.push(phc_with(params));
    }
    for phc in [
        // A bad salt, a bad hash, trailing data, a bad version, a bad name.
        "$argon2id$v=19$p=536870912$!$AAAAAAAAAAAAAAAAAAAAAA",
        "$argon2id$v=19$p=536870912$c29tZXNhbHRzb21lc2FsdA$A",
        "$argon2id$v=19$p=536870912$c29tZXNhbHRzb21lc2FsdA$AAAAAAAAAAAAAAAAAAAAAA$A",
        "$argon2id$v=x$p=536870912$c29tZXNhbHRzb21lc2FsdA$AAAAAAAAAAAAAAAAAAAAAA",
        "$Argon2id$v=19$p=536870912$c29tZXNhbHRzb21lc2FsdA$AAAAAAAAAAAAAAAAAAAAAA",
        // Nothing to verify against.
        "$argon2id$v=19$p=536870912",
        "$argon2id$v=19$p=536870912$c29tZXNhbHRzb21lc2FsdA",
        "$argon2id",
        "",
    ] {
        strings.push(phc.to_string());
    }
    for phc in &strings {
        let ours = match hasher.verify("pw", phc) {
            Ok(matches) => Ok(matches),
            Err(SecurityError::Hash(reason)) => Err(reason),
            Err(e) => panic!("another error: {e:?}"),
        };
        assert_eq!(ours, argon2_says(phc), "PHC string {phc}");
    }
}

#[test]
fn stored_hash_that_asks_for_too_much_is_an_error() {
    let mut store = MemoryCredentialStore::new();
    let mut cred = Credential::new("alice", "pw", store.hasher()).unwrap();
    cred.password_phc = phc_with("m=19456,t=2,p=536870912");
    store.put(cred).unwrap();
    assert_eq!(
        hash_fault(store.verify_password("alice", "pw")),
        "invalid parameter value: value to long"
    );
    assert!(matches!(
        CredentialReceiver::new(store).authenticate("alice", "pw"),
        Err(SecurityError::Hash(_))
    ));
}
