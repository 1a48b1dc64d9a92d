//! Host address record (A / AAAA).

use vstd::prelude::*;

use crate::ip::IpAddr;

verus! {

/// A resolved host address (IPv4 or IPv6).
#[derive(Debug, Clone, Copy, PartialEq, Eq, Structural)]
pub struct AddressRecord(pub IpAddr);

} // verus!
