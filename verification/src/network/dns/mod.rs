//! DNS record values, their grammars, and the questions asked of DNS.

pub mod a;
pub mod dkim;
pub mod dmarc;
pub mod laws;
pub mod lookup;
pub mod manager;
pub mod mx;
pub mod reverse;
pub mod tlsa;
pub mod txt;

pub use a::AddressRecord;
pub use dkim::DkimRecord;
pub use dmarc::{AlignmentMode, DmarcPolicy, DmarcRecord};
pub use lookup::{DnsAnswer, DnsQuery};
pub use mx::MxRecord;
pub use reverse::PtrRecord;
pub use tlsa::{TlsaMatching, TlsaRecord, TlsaSelector, TlsaUsage};
pub use txt::TxtRecord;
