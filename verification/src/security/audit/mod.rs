//! Security audit logging.

pub mod audit_logger;
pub mod config;
pub mod sink;

pub use audit_logger::{AuditEvent, AuditLog};
pub use config::AuditConfig;
pub use sink::{ChainStatus, DurableAuditSink};
