//! Allowlist: IP addresses that are always permitted by the firewall.

use vstd::prelude::*;

use crate::assoc::Assoc;
use crate::ip::IpAddr;

verus! {

/// A set of IP addresses that are always permitted.
pub struct AllowList {
    ips: Assoc<IpAddr, ()>,
}

impl View for AllowList {
    type V = Set<IpAddr>;

    closed spec fn view(&self) -> Set<IpAddr> {
        self.ips@.dom()
    }
}

impl AllowList {
    /// Create an empty allowlist.
    pub fn new() -> (r: AllowList)
        ensures
            r@ == Set::<IpAddr>::empty(),
    {
        AllowList { ips: Assoc::new() }
    }

    /// Add an IP. Returns `true` if it was newly inserted.
    pub fn insert(&mut self, ip: IpAddr) -> (r: bool)
        ensures
            r == !old(self)@.contains(ip),
            final(self)@ == old(self)@.insert(ip),
    {
        let known = self.ips.contains(&ip);
        self.ips.insert(ip, ());
        !known
    }

    /// Remove an IP. Returns `true` if it was present.
    pub fn remove(&mut self, ip: &IpAddr) -> (r: bool)
        ensures
            r == old(self)@.contains(*ip),
            final(self)@ == old(self)@.remove(*ip),
    {
        self.ips.remove(ip)
    }

    /// Whether `ip` is allowlisted.
    pub fn contains(&self, ip: &IpAddr) -> (r: bool)
        ensures
            r == self@.contains(*ip),
    {
        self.ips.contains(ip)
    }

    /// Number of allowlisted IPs.
    pub fn len(&self) -> (r: usize)
        ensures
            r == self@.len(),
    {
        self.ips.len()
    }

    /// Whether the allowlist is empty.
    pub fn is_empty(&self) -> (r: bool)
        ensures
            r == (self@ == Set::<IpAddr>::empty()),
    {
        let count = self.ips.len();
        proof {
            if self@.len() == 0 {
                assert(self@ =~= Set::<IpAddr>::empty());
            }
        }
        count == 0
    }
}

} // verus!
