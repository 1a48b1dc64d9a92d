//! The network layer: DNS record grammars, sender authentication (SPF, DKIM,
//! DMARC), transport policy (MTA-STS, DANE) and TLS configuration.

pub mod base64;
pub mod dane;
pub mod digest;
pub mod dkim;
pub mod dmarc;
pub mod dns;
pub mod error;
pub mod mta_sts;
pub mod operation_laws;
pub mod spf;
pub mod tls;
pub mod tls_laws;
pub mod view_laws;
