//! SPF (Sender Policy Framework, RFC 7208): given a connecting IP, the HELO name,
//! and the `MAIL FROM` identity, decide whether the IP is authorized to send for
//! that domain.
//!
//! - [`record`] parses a `v=spf1` TXT record into directives and modifiers.
//! - [`macro_expand`] expands `%{...}` macros in domain-specs (§7).
//! - [`eval`] runs `check_host()` over the answers of DNS, enforcing the mandatory
//!   DNS-lookup budget, and returns an [`SpfResult`].
//! - [`laws`], [`result_laws`], [`record_laws`] and [`macro_laws`] state what holds of
//!   every evaluation, every term of a record and every macro.
//!
//! This module decides only the result; whether an SPF `Fail` blocks a message or
//! merely annotates it (a `Received-SPF` header for DMARC to weigh) is a policy
//! choice made by the server.

pub mod eval;
pub mod laws;
pub mod macro_expand;
pub mod macro_laws;
pub mod record;
pub mod record_laws;
pub mod result_laws;

pub use eval::{evaluate, SpfResult, SpfStep};
pub use record::{Directive, Mechanism, Qualifier, SpfRecord};
