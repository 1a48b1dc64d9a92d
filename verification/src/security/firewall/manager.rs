//! `FirewallManager`: owns a [`Firewall`] built from configuration and supports
//! reloading that configuration at runtime.

use vstd::prelude::*;

use crate::clock::Timestamp;
use crate::security::firewall::config::FirewallConfig;
use crate::security::firewall::firewall::{Firewall, FirewallView};

verus! {

/// Owns the live [`Firewall`] and the configuration it was built from, so the
/// composition root can hold one handle and reload policy without re-plumbing.
pub struct FirewallManager {
    firewall: Firewall,
    config: FirewallConfig,
}

impl FirewallManager {
    /// What the live firewall holds.
    pub closed spec fn live(&self) -> FirewallView {
        self.firewall@
    }

    /// The configuration the current firewall was built from.
    pub closed spec fn policy(&self) -> FirewallConfig {
        self.config
    }

    /// Build a manager (and its firewall) from `config`.
    pub fn new(config: FirewallConfig, now: Timestamp) -> (r: FirewallManager)
        requires
            config.quota.valid(),
        ensures
            r.live() == FirewallView::built(config, now),
            r.policy() == config,
    {
        let firewall = Firewall::new(&config, now);
        FirewallManager { firewall, config }
    }

    /// The live firewall.
    pub fn firewall(&self) -> (r: &Firewall)
        ensures
            r@ == self.live(),
    {
        &self.firewall
    }

    /// The live firewall, to check connections with.
    pub fn firewall_mut(&mut self) -> (r: &mut Firewall)
        ensures
            r@ == old(self).live(),
            final(self).live() == final(r)@,
            final(self).policy() == old(self).policy(),
    {
        &mut self.firewall
    }

    /// The configuration the current firewall was built from.
    pub fn config(&self) -> (r: &FirewallConfig)
        ensures
            *r == self.policy(),
    {
        &self.config
    }

    /// Replace the firewall with one built from `config` (policy reload).
    pub fn reload(&mut self, config: FirewallConfig, now: Timestamp)
        requires
            config.quota.valid(),
        ensures
            final(self).live() == FirewallView::built(config, now),
            final(self).policy() == config,
    {
        self.firewall = Firewall::new(&config, now);
        self.config = config;
    }
}

} // verus!
