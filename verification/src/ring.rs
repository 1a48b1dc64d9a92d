//! A capacity-bounded queue that drops its oldest entry when full.

use std::collections::VecDeque;

use vstd::prelude::*;

verus! {

/// The entries after one more: the oldest is dropped where the ring is full.
pub open spec fn ring_push<A>(entries: Seq<A>, capacity: nat, entry: A) -> Seq<A> {
    if entries.len() == capacity {
        entries.skip(1).push(entry)
    } else {
        entries.push(entry)
    }
}

/// The most recent entries, oldest first.
pub struct Ring<A> {
    capacity: usize,
    entries: VecDeque<A>,
}

impl<A> View for Ring<A> {
    type V = Seq<A>;

    closed spec fn view(&self) -> Seq<A> {
        self.entries@
    }
}

impl<A> Ring<A> {
    #[verifier::type_invariant]
    spec fn bounded(self) -> bool {
        1 <= self.capacity && self.entries@.len() <= self.capacity
    }

    /// How many entries are retained at most.
    pub closed spec fn cap(&self) -> nat {
        self.capacity as nat
    }

    /// An empty ring that holds up to `capacity` entries (minimum 1).
    pub fn new(capacity: usize) -> (r: Ring<A>)
        ensures
            r@ == Seq::<A>::empty(),
            r.cap() == if capacity == 0 {
                1
            } else {
                capacity as nat
            },
    {
        let capacity = if capacity == 0 {
            1
        } else {
            capacity
        };
        Ring { capacity, entries: VecDeque::new() }
    }

    /// Append an entry, evicting the oldest if at capacity.
    pub fn push(&mut self, entry: A)
        ensures
            final(self)@ == ring_push(old(self)@, old(self).cap(), entry),
            final(self).cap() == old(self).cap(),
            1 <= final(self)@.len() <= final(self).cap(),
            final(self)@.len() >= old(self)@.len(),
    {
        proof {
            use_type_invariant(&*self);
        }
        let ghost before = self.entries@;
        let mut entries: VecDeque<A> = VecDeque::new();
        std::mem::swap(&mut entries, &mut self.entries);
        if entries.len() == self.capacity {
            entries.pop_front();
            assert(entries@ =~= before.skip(1));
        }
        entries.push_back(entry);
        self.entries = entries;
    }

    /// The entry at an index, counted from the oldest.
    pub fn get(&self, i: usize) -> (r: &A)
        requires
            i < self@.len(),
        ensures
            *r == self@[i as int],
    {
        &self.entries[i]
    }

    /// How many entries are retained.
    pub fn len(&self) -> (r: usize)
        ensures
            r == self@.len(),
            r <= self.cap(),
    {
        proof {
            use_type_invariant(self);
        }
        self.entries.len()
    }
}

/// A ring holds the latest entries, as many as it has room for, oldest first: one more puts
/// itself last and drops the oldest one only where the ring is full.
pub proof fn law_ring_holds_the_latest<A>(entries: Seq<A>, capacity: nat, entry: A, i: int)
    requires
        1 <= capacity,
        entries.len() <= capacity,
    ensures
        ({
            let after = ring_push(entries, capacity, entry);
            &&& after.last() == entry
            &&& entries.len() < capacity ==> after.len() == entries.len() + 1
            &&& entries.len() < capacity && 0 <= i < entries.len() ==> after[i] == entries[i]
            &&& entries.len() == capacity ==> after.len() == capacity
            &&& entries.len() == capacity && 0 <= i < capacity - 1 ==> after[i] == entries[i + 1]
        }),
{
}

} // verus!
