//! DKIM signature verification (RFC 6376 and RFC 8463).
//!
//! - [`canonicalize`] has the `simple` and `relaxed` header and body algorithms.
//! - [`signature`] parses a `DKIM-Signature` header field into its tags.
//! - [`verify`] locates the signatures of a message, checks the body hash, and
//!   verifies each signature with RSA (RFC 6376) or Ed25519 (RFC 8463).
//! - [`form_laws`] and [`laws`] state what canonical forms and tags are, which bytes a
//!   signature covers, and what its verification gives.
//!
//! Verification runs on the verbatim message bytes, so canonicalization sees
//! exactly what the signer signed.

pub mod canonicalize;
pub mod form_laws;
pub mod laws;
pub mod signature;
pub mod verify;

pub use signature::{Algorithm, DkimSignature};
pub use verify::{verify, DkimOutcome, DkimResult};
