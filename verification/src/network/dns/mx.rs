//! MX record: a mail-exchange host with a preference.

use vstd::prelude::*;

use crate::text::chars_of;

verus! {

/// A mail-exchange record.
#[derive(Debug, Clone, PartialEq, Eq)]
pub struct MxRecord {
    /// Lower preference means higher priority.
    pub preference: u16,
    /// Exchange hostname (trailing dot stripped).
    pub exchange: String,
}

impl MxRecord {
    /// Whether this is an RFC 7505 "null MX": a `0 .` record whose root exchange
    /// reduces to an empty host once the trailing dot is stripped, signalling
    /// that the domain explicitly accepts no mail. Delivery to it is a permanent
    /// failure (the recipient should bounce), never something to retry.
    pub fn is_null(&self) -> (r: bool)
        ensures
            r == (self.exchange@.len() == 0),
    {
        let chars = chars_of(self.exchange.as_str());
        chars.len() == 0
    }
}

} // verus!
