//! Shared primitives: a typed error type ([`error::UtilError`]) and process
//! configuration ([`config::Config`]).

pub mod config;
pub mod error;

pub use config::Config;
pub use error::UtilError;
