//! Cryptography and connection policy: password hashing, secret encryption,
//! credential storage, firewall, greylisting, throttling and audit logging.

pub mod audit;
pub mod credential;
pub mod encryption;
pub mod error;
pub mod firewall;
pub mod greylist;
pub mod laws;
pub mod operation_laws;
pub mod throttle;

pub use audit::{AuditConfig, AuditEvent, AuditLog};
pub use credential::{
    AuthOutcome, Credential, CredentialReceiver, CredentialStore, MemoryCredentialStore,
};
pub use encryption::{PasswordHasher, SecretCipher};
pub use error::SecurityError;
pub use firewall::{Decision, DenyReason, Firewall, FirewallConfig, FirewallManager};
pub use greylist::{GreyDecision, Greylist, GreylistConfig};
pub use throttle::{AuthThrottle, ThrottleConfig};
