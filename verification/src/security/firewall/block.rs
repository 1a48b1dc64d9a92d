//! Blocklist: IP addresses that are always denied by the firewall.

use vstd::prelude::*;

use crate::assoc::Assoc;
use crate::ip::IpAddr;

verus! {

/// A set of IP addresses that are always denied.
pub struct BlockList {
    ips: Assoc<IpAddr, ()>,
}

impl View for BlockList {
    type V = Set<IpAddr>;

    closed spec fn view(&self) -> Set<IpAddr> {
        self.ips@.dom()
    }
}

impl BlockList {
    /// Create an empty blocklist.
    pub fn new() -> (r: BlockList)
        ensures
            r@ == Set::<IpAddr>::empty(),
    {
        BlockList { ips: Assoc::new() }
    }

    /// Add an IP. Returns `true` if it was newly inserted.
    pub fn insert(&mut self, ip: IpAddr) -> (r: bool)
        ensures
            r == !old(self)@.contains(ip),
            final(self)@ == old(self)@.insert(ip),
    {
        let known = self.ips.contains(&ip);
        self.ips.insert(ip, ());
        !known
    }

    /// Remove an IP. Returns `true` if it was present.
    pub fn remove(&mut self, ip: &IpAddr) -> (r: bool)
        ensures
            r == old(self)@.contains(*ip),
            final(self)@ == old(self)@.remove(*ip),
    {
        self.ips.remove(ip)
    }

    /// Whether `ip` is blocklisted.
    pub fn contains(&self, ip: &IpAddr) -> (r: bool)
        ensures
            r == self@.contains(*ip),
    {
        self.ips.contains(ip)
    }

    /// Number of blocklisted IPs.
    pub fn len(&self) -> (r: usize)
        ensures
            r == self@.len(),
    {
        self.ips.len()
    }

    /// Whether the blocklist is empty.
    pub fn is_empty(&self) -> (r: bool)
        ensures
            r == (self@ == Set::<IpAddr>::empty()),
    {
        let count = self.ips.len();
        proof {
            if self@.len() == 0 {
                assert(self@ =~= Set::<IpAddr>::empty());
            }
        }
        count == 0
    }
}

} // verus!
