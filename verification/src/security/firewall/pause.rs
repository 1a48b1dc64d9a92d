//! Firewall enforcement toggle.

use vstd::prelude::*;

verus! {

/// A switch that enables/disables firewall enforcement at runtime. When paused,
/// the firewall permits everything (useful for maintenance / incident response).
#[derive(Debug)]
pub struct PauseSwitch {
    paused: bool,
}

impl View for PauseSwitch {
    type V = bool;

    /// Whether enforcement is paused.
    closed spec fn view(&self) -> bool {
        self.paused
    }
}

impl Default for PauseSwitch {
    fn default() -> (r: PauseSwitch)
        ensures
            !r@,
    {
        PauseSwitch { paused: false }
    }
}

impl PauseSwitch {
    /// Create a switch in the enforcing (not paused) state.
    pub fn new() -> (r: PauseSwitch)
        ensures
            !r@,
    {
        PauseSwitch { paused: false }
    }

    /// Pause enforcement (everything will be allowed). Returns `true` only when
    /// this call actually transitioned the switch from enforcing to paused, so a
    /// caller can audit the transition exactly once (idempotent re-pauses are
    /// reported as `false`).
    pub fn pause(&mut self) -> (r: bool)
        ensures
            final(self)@,
            r == !old(self)@,
    {
        let before = self.paused;
        self.paused = true;
        !before
    }

    /// Resume enforcement. Returns `true` only when this call actually
    /// transitioned the switch from paused to enforcing.
    pub fn resume(&mut self) -> (r: bool)
        ensures
            !final(self)@,
            r == old(self)@,
    {
        let before = self.paused;
        self.paused = false;
        before
    }

    /// Whether enforcement is currently paused.
    pub fn is_paused(&self) -> (r: bool)
        ensures
            r == self@,
    {
        self.paused
    }
}

} // verus!
