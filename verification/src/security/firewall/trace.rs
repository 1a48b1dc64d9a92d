//! Bounded ring of recent firewall decisions, for forensics / observability.

use vstd::prelude::*;

use crate::ip::IpAddr;
use crate::ring::{ring_push, Ring};
use crate::security::firewall::decision::Decision;

verus! {

/// A capacity-bounded record of the most recent `(Ip, Decision)` pairs. Oldest
/// entries are dropped once capacity is reached.
pub struct DecisionTrace {
    ring: Ring<(IpAddr, Decision)>,
}

impl View for DecisionTrace {
    type V = Seq<(IpAddr, Decision)>;

    /// The retained decisions, oldest first.
    closed spec fn view(&self) -> Seq<(IpAddr, Decision)> {
        self.ring@
    }
}

impl DecisionTrace {
    /// How many decisions are retained at most.
    pub closed spec fn cap(&self) -> nat {
        self.ring.cap()
    }

    /// Create a trace holding up to `capacity` entries (minimum 1).
    pub fn new(capacity: usize) -> (r: DecisionTrace)
        ensures
            r@ == Seq::<(IpAddr, Decision)>::empty(),
            r.cap() == if capacity == 0 {
                1
            } else {
                capacity as nat
            },
    {
        DecisionTrace { ring: Ring::new(capacity) }
    }

    /// Record a decision, evicting the oldest entry if at capacity.
    pub fn record(&mut self, ip: IpAddr, decision: Decision)
        ensures
            final(self)@ == ring_push(old(self)@, old(self).cap(), (ip, decision)),
            final(self).cap() == old(self).cap(),
    {
        self.ring.push((ip, decision));
    }

    /// The retained decisions, oldest first.
    pub fn recent(&self) -> (r: Vec<(IpAddr, Decision)>)
        ensures
            r@ == self@,
    {
        let mut out: Vec<(IpAddr, Decision)> = Vec::new();
        let mut i: usize = 0;
        while i < self.ring.len()
            invariant
                i <= self.ring@.len(),
                out@ == self.ring@.take(i as int),
            decreases self.ring@.len() - i,
        {
            out.push(*self.ring.get(i));
            assert(self.ring@.take(i + 1) =~= self.ring@.take(i as int).push(
                self.ring@[i as int],
            ));
            i = i + 1;
        }
        assert(self.ring@.take(i as int) =~= self.ring@);
        out
    }

    /// Number of decisions currently retained, never more than the capacity.
    pub fn len(&self) -> (r: usize)
        ensures
            r == self@.len(),
            r <= self.cap(),
    {
        self.ring.len()
    }

    /// Whether the trace is empty.
    pub fn is_empty(&self) -> (r: bool)
        ensures
            r == (self@.len() == 0),
    {
        self.ring.len() == 0
    }
}

} // verus!
