//! A small map, kept as a list of entries with distinct keys. Its view is a
//! mathematical map from the keys' views to the values.

use vstd::prelude::*;

use crate::text::str_eq;

verus! {

/// A key of an [`Assoc`]: two keys are the same where their views are.
pub trait Key: View + Sized {
    /// Whether two keys are the same.
    fn same(&self, other: &Self) -> (r: bool)
        ensures
            r == (self@ == other@),
    ;
}

impl Key for String {
    fn same(&self, other: &Self) -> (r: bool) {
        str_eq(self.as_str(), other.as_str())
    }
}

/// A map from keys to values.
pub struct Assoc<K: Key, V> {
    entries: Vec<(K, V)>,
}

/// The map that a list of entries stands for.
pub closed spec fn entry_map<K: Key, V>(entries: Seq<(K, V)>) -> Map<K::V, V>
    decreases entries.len(),
{
    if entries.len() == 0 {
        Map::empty()
    } else {
        entry_map(entries.drop_last()).insert(entries.last().0@, entries.last().1)
    }
}

/// No two entries have the same key.
pub closed spec fn distinct_keys<K: Key, V>(entries: Seq<(K, V)>) -> bool {
    forall|i: int, j: int|
        0 <= i < j < entries.len() ==> #[trigger] entries[i].0@ != #[trigger] entries[j].0@
}

/// The entries of `m` whose values satisfy `p`.
pub open spec fn kept<A, V>(m: Map<A, V>, p: spec_fn(V) -> bool) -> Map<A, V> {
    m.restrict(Set::new(|k: A| p(m[k])))
}

proof fn lemma_entry_map<K: Key, V>(entries: Seq<(K, V)>)
    requires
        distinct_keys(entries),
    ensures
        forall|i: int|
            #![trigger entries[i]]
            0 <= i < entries.len() ==> entry_map(entries).contains_key(entries[i].0@) && entry_map(
                entries,
            )[entries[i].0@] == entries[i].1,
        forall|k: K::V|
            entry_map(entries).contains_key(k) ==> exists|i: int|
                0 <= i < entries.len() && #[trigger] entries[i].0@ == k,
        entry_map(entries).dom().finite(),
        entry_map(entries).len() == entries.len(),
    decreases entries.len(),
{
    if entries.len() > 0 {
        let front = entries.drop_last();
        assert(distinct_keys(front)) by {
            assert forall|i: int, j: int| 0 <= i < j < front.len() implies #[trigger] front[i].0@
                != #[trigger] front[j].0@ by {
                assert(entries[i].0@ != entries[j].0@);
            }
        }
        lemma_entry_map(front);
        let last = entries.last();
        assert(!entry_map(front).contains_key(last.0@)) by {
            if entry_map(front).contains_key(last.0@) {
                let i = choose|i: int| 0 <= i < front.len() && #[trigger] front[i].0@ == last.0@;
                assert(entries[i].0@ == last.0@);
                assert(entries[i].0@ != entries[entries.len() - 1].0@);
            }
        }
        assert forall|i: int| #![trigger entries[i]] 0 <= i < entries.len() implies entry_map(
            entries,
        ).contains_key(entries[i].0@) && entry_map(entries)[entries[i].0@] == entries[i].1 by {
            if i < front.len() {
                assert(front[i] == entries[i]);
                assert(entries[i].0@ != entries[entries.len() - 1].0@);
            }
        }
        assert forall|k: K::V| entry_map(entries).contains_key(k) implies exists|i: int|
            0 <= i < entries.len() && #[trigger] entries[i].0@ == k by {
            if k == last.0@ {
                assert(entries[entries.len() - 1].0@ == k);
            } else {
                let i = choose|i: int| 0 <= i < front.len() && #[trigger] front[i].0@ == k;
                assert(entries[i].0@ == k);
            }
        }
    } else {
        assert(entry_map(entries).dom() =~= Set::empty());
    }
}

proof fn lemma_entry_map_eq<K: Key, V>(entries: Seq<(K, V)>, m: Map<K::V, V>)
    requires
        distinct_keys(entries),
        forall|i: int|
            #![trigger entries[i]]
            0 <= i < entries.len() ==> m.contains_key(entries[i].0@) && m[entries[i].0@]
                == entries[i].1,
        forall|k: K::V|
            m.contains_key(k) ==> exists|i: int|
                0 <= i < entries.len() && #[trigger] entries[i].0@ == k,
    ensures
        entry_map(entries) == m,
{
    lemma_entry_map(entries);
    let e = entry_map(entries);
    assert forall|k: K::V| e.contains_key(k) == m.contains_key(k) by {
        if e.contains_key(k) {
            let i = choose|i: int| 0 <= i < entries.len() && #[trigger] entries[i].0@ == k;
            assert(m.contains_key(entries[i].0@));
        }
        if m.contains_key(k) {
            let i = choose|i: int| 0 <= i < entries.len() && #[trigger] entries[i].0@ == k;
            assert(e.contains_key(entries[i].0@));
        }
    }
    assert forall|k: K::V| e.contains_key(k) implies e[k] == m[k] by {
        let i = choose|i: int| 0 <= i < entries.len() && #[trigger] entries[i].0@ == k;
        assert(e[entries[i].0@] == entries[i].1);
    }
    assert(e =~= m);
}

/// The entries whose values satisfy `p`, last first.
spec fn accepted<K: Key, V>(entries: Seq<(K, V)>, p: spec_fn(V) -> bool) -> Seq<(K, V)>
    decreases entries.len(),
{
    if entries.len() == 0 {
        Seq::empty()
    } else {
        let e = entries.last();
        (if p(e.1) {
            seq![e]
        } else {
            Seq::empty()
        }) + accepted(entries.drop_last(), p)
    }
}

proof fn lemma_accepted<K: Key, V>(entries: Seq<(K, V)>, p: spec_fn(V) -> bool)
    ensures
        forall|e: (K, V)| #[trigger]
            accepted(entries, p).contains(e) <==> entries.contains(e) && p(e.1),
    decreases entries.len(),
{
    if entries.len() > 0 {
        let front = entries.drop_last();
        let last = entries.last();
        lemma_accepted(front, p);
        let tail = accepted(front, p);
        let all = accepted(entries, p);
        assert forall|e: (K, V)| #[trigger] all.contains(e) <==> entries.contains(e) && p(e.1) by {
            if all.contains(e) {
                let j = choose|j: int| 0 <= j < all.len() && all[j] == e;
                if p(last.1) && j == 0 {
                    assert(entries[entries.len() - 1] == e);
                } else {
                    let k = if p(last.1) {
                        j - 1
                    } else {
                        j
                    };
                    assert(tail[k] == e);
                    assert(tail.contains(e));
                    let i = choose|i: int| 0 <= i < front.len() && front[i] == e;
                    assert(entries[i] == e);
                }
            }
            if entries.contains(e) && p(e.1) {
                let i = choose|i: int| 0 <= i < entries.len() && entries[i] == e;
                if i == entries.len() - 1 {
                    assert(all[0] == e);
                } else {
                    assert(front[i] == e);
                    assert(tail.contains(e));
                    let j = choose|j: int| 0 <= j < tail.len() && tail[j] == e;
                    let k = if p(last.1) {
                        j + 1
                    } else {
                        j
                    };
                    assert(all[k] == e);
                }
            }
        }
    }
}

proof fn lemma_accepted_distinct<K: Key, V>(entries: Seq<(K, V)>, p: spec_fn(V) -> bool)
    requires
        distinct_keys(entries),
    ensures
        distinct_keys(accepted(entries, p)),
    decreases entries.len(),
{
    if entries.len() > 0 {
        let front = entries.drop_last();
        let last = entries.last();
        assert forall|i: int, j: int| 0 <= i < j < front.len() implies #[trigger] front[i].0@
            != #[trigger] front[j].0@ by {
            assert(entries[i].0@ != entries[j].0@);
        }
        lemma_accepted_distinct(front, p);
        lemma_accepted(front, p);
        let tail = accepted(front, p);
        let all = accepted(entries, p);
        assert forall|i: int, j: int| 0 <= i < j < all.len() implies #[trigger] all[i].0@
            != #[trigger] all[j].0@ by {
            if p(last.1) {
                if i == 0 {
                    assert(all[j] == tail[j - 1]);
                    assert(tail.contains(tail[j - 1]));
                    let k = choose|k: int| 0 <= k < front.len() && front[k] == tail[j - 1];
                    assert(entries[k].0@ != entries[entries.len() - 1].0@);
                } else {
                    assert(tail[i - 1].0@ != tail[j - 1].0@);
                }
            } else {
                assert(tail[i].0@ != tail[j].0@);
            }
        }
    }
}

proof fn lemma_accepted_map<K: Key, V>(entries: Seq<(K, V)>, p: spec_fn(V) -> bool)
    requires
        distinct_keys(entries),
    ensures
        distinct_keys(accepted(entries, p)),
        entry_map(accepted(entries, p)) == kept(entry_map(entries), p),
{
    let all = accepted(entries, p);
    let m = kept(entry_map(entries), p);
    lemma_accepted(entries, p);
    lemma_accepted_distinct(entries, p);
    lemma_entry_map(entries);
    assert forall|j: int| #![trigger all[j]] 0 <= j < all.len() implies m.contains_key(all[j].0@)
        && m[all[j].0@] == all[j].1 by {
        assert(all.contains(all[j]));
        let i = choose|i: int| 0 <= i < entries.len() && entries[i] == all[j];
        assert(entry_map(entries).contains_key(entries[i].0@));
    }
    assert forall|k: K::V| m.contains_key(k) implies exists|j: int|
        0 <= j < all.len() && #[trigger] all[j].0@ == k by {
        let i = choose|i: int| 0 <= i < entries.len() && #[trigger] entries[i].0@ == k;
        assert(entry_map(entries)[entries[i].0@] == entries[i].1);
        assert(entries.contains(entries[i]));
        assert(all.contains(entries[i]));
        let j = choose|j: int| 0 <= j < all.len() && all[j] == entries[i];
        assert(all[j].0@ == k);
    }
    lemma_entry_map_eq(all, m);
}

impl<K: Key, V> View for Assoc<K, V> {
    type V = Map<K::V, V>;

    closed spec fn view(&self) -> Map<K::V, V> {
        entry_map(self.entries@)
    }
}

impl<K: Key, V> Assoc<K, V> {
    #[verifier::type_invariant]
    spec fn distinct(self) -> bool {
        distinct_keys(self.entries@)
    }

    /// The empty map.
    pub fn new() -> (r: Self)
        ensures
            r@ == Map::<K::V, V>::empty(),
    {
        Assoc { entries: Vec::new() }
    }

    /// The number of entries.
    pub fn len(&self) -> (r: usize)
        ensures
            r == self@.len(),
            self@.dom().finite(),
    {
        proof {
            use_type_invariant(self);
            lemma_entry_map(self.entries@);
        }
        self.entries.len()
    }

    /// Where the key stands.
    fn find(&self, key: &K) -> (r: Option<usize>)
        ensures
            r matches Some(i) ==> i < self.entries@.len() && self.entries@[i as int].0@ == key@,
            r is None ==> forall|i: int|
                0 <= i < self.entries@.len() ==> #[trigger] self.entries@[i].0@ != key@,
    {
        let mut i: usize = 0;
        while i < self.entries.len()
            invariant
                i <= self.entries.len(),
                forall|j: int| 0 <= j < i ==> #[trigger] self.entries@[j].0@ != key@,
            decreases self.entries.len() - i,
        {
            if self.entries[i].0.same(key) {
                return Some(i);
            }
            i = i + 1;
        }
        None
    }

    /// The value under a key.
    pub fn get(&self, key: &K) -> (r: Option<&V>)
        ensures
            match r {
                Some(v) => self@.contains_key(key@) && *v == self@[key@],
                None => !self@.contains_key(key@),
            },
    {
        proof {
            use_type_invariant(self);
            lemma_entry_map(self.entries@);
        }
        match self.find(key) {
            Some(i) => {
                let e = &self.entries[i];
                assert(self.entries@[i as int] == *e);
                Some(&e.1)
            },
            None => None,
        }
    }

    /// Whether a key has a value.
    pub fn contains(&self, key: &K) -> (r: bool)
        ensures
            r == self@.contains_key(key@),
    {
        self.get(key).is_some()
    }

    /// Put a value under a key, replacing the one it had.
    pub fn insert(&mut self, key: K, value: V)
        ensures
            final(self)@ == old(self)@.insert(key@, value),
    {
        proof {
            use_type_invariant(&*self);
            lemma_entry_map(self.entries@);
        }
        let at = self.find(&key);
        let ghost before = self.entries@;
        let mut entries: Vec<(K, V)> = Vec::new();
        std::mem::swap(&mut entries, &mut self.entries);
        match at {
            Some(i) => {
                let ghost kv = key@;
                entries.set(i, (key, value));
                proof {
                    assert forall|a: int, b: int| 0 <= a < b < entries@.len() implies #[trigger] entries@[a].0@
                        != #[trigger] entries@[b].0@ by {
                        assert(before[a].0@ != before[b].0@);
                    }
                    assert forall|k: K::V| entry_map(before).insert(kv, value).contains_key(
                        k,
                    ) implies exists|j: int|
                        0 <= j < entries@.len() && #[trigger] entries@[j].0@ == k by {
                        if k == kv {
                            assert(entries@[i as int].0@ == k);
                        } else {
                            let j = choose|j: int|
                                0 <= j < before.len() && #[trigger] before[j].0@ == k;
                            assert(entries@[j].0@ == k);
                        }
                    }
                    assert forall|j: int| #![trigger entries@[j]] 0 <= j < entries@.len() implies entry_map(
                        before,
                    ).insert(kv, value).contains_key(entries@[j].0@) && entry_map(before).insert(
                        kv,
                        value,
                    )[entries@[j].0@] == entries@[j].1 by {
                        assert(entry_map(before).contains_key(before[j].0@));
                        if j != i {
                            if j < i {
                                assert(before[j].0@ != before[i as int].0@);
                            } else {
                                assert(before[i as int].0@ != before[j].0@);
                            }
                        }
                    }
                    lemma_entry_map_eq(entries@, entry_map(before).insert(kv, value));
                }
            },
            None => {
                entries.push((key, value));
                proof {
                    assert forall|a: int, b: int| 0 <= a < b < entries@.len() implies #[trigger] entries@[a].0@
                        != #[trigger] entries@[b].0@ by {
                        if b < before.len() {
                            assert(before[a].0@ != before[b].0@);
                        } else {
                            assert(before[a].0@ != key@);
                        }
                    }
                    assert(entries@.drop_last() =~= before);
                }
            },
        }
        self.entries = entries;
    }

    /// Take a key out. Returns whether it had a value.
    pub fn remove(&mut self, key: &K) -> (r: bool)
        ensures
            final(self)@ == old(self)@.remove(key@),
            r == old(self)@.contains_key(key@),
    {
        proof {
            use_type_invariant(&*self);
            lemma_entry_map(self.entries@);
        }
        let at = self.find(key);
        let ghost before = self.entries@;
        match at {
            Some(i) => {
                let mut entries: Vec<(K, V)> = Vec::new();
                std::mem::swap(&mut entries, &mut self.entries);
                entries.remove(i);
                proof {
                    let m = entry_map(before).remove(key@);
                    assert forall|a: int, b: int| 0 <= a < b < entries@.len() implies #[trigger] entries@[a].0@
                        != #[trigger] entries@[b].0@ by {
                        let a2 = if a < i {
                            a
                        } else {
                            a + 1
                        };
                        let b2 = if b < i {
                            b
                        } else {
                            b + 1
                        };
                        assert(before[a2].0@ != before[b2].0@);
                    }
                    assert forall|j: int| #![trigger entries@[j]] 0 <= j < entries@.len() implies m.contains_key(
                        entries@[j].0@,
                    ) && m[entries@[j].0@] == entries@[j].1 by {
                        let j2 = if j < i {
                            j
                        } else {
                            j + 1
                        };
                        assert(entries@[j] == before[j2]);
                        assert(entry_map(before).contains_key(before[j2].0@));
                        if j2 < i {
                            assert(before[j2].0@ != before[i as int].0@);
                        } else {
                            assert(before[i as int].0@ != before[j2].0@);
                        }
                    }
                    assert forall|k: K::V| m.contains_key(k) implies exists|j: int|
                        0 <= j < entries@.len() && #[trigger] entries@[j].0@ == k by {
                        let j = choose|j: int| 0 <= j < before.len() && #[trigger] before[j].0@
                            == k;
                        if j < i {
                            assert(entries@[j].0@ == k);
                        } else {
                            assert(entries@[j - 1].0@ == k);
                        }
                    }
                    lemma_entry_map_eq(entries@, m);
                }
                self.entries = entries;
                true
            },
            None => {
                assert(entry_map(before).remove(key@) =~= entry_map(before));
                false
            },
        }
    }

    /// Keep the entries whose values the predicate accepts.
    pub fn retain<F: Fn(&V) -> bool>(&mut self, f: F, Ghost(p): Ghost<spec_fn(V) -> bool>)
        requires
            forall|v: &V| #[trigger] call_requires(f, (v,)),
            forall|v: &V, r: bool| #[trigger] call_ensures(f, (v,), r) ==> r == p(*v),
        ensures
            final(self)@ == kept(old(self)@, p),
    {
        proof {
            use_type_invariant(&*self);
            lemma_entry_map(self.entries@);
        }
        let ghost before = self.entries@;
        let mut rest: Vec<(K, V)> = Vec::new();
        std::mem::swap(&mut rest, &mut self.entries);
        let mut done: Vec<(K, V)> = Vec::new();
        assert(done@ + accepted(rest@, p) =~= accepted(before, p));
        while rest.len() > 0
            invariant
                forall|v: &V| #[trigger] call_requires(f, (v,)),
                forall|v: &V, r: bool| #[trigger] call_ensures(f, (v,), r) ==> r == p(*v),
                done@ + accepted(rest@, p) == accepted(before, p),
            decreases rest@.len(),
        {
            let ghost all = rest@;
            let ghost so_far = done@;
            let e = rest.pop().unwrap();
            assert(rest@ =~= all.drop_last());
            if f(&e.1) {
                assert(so_far.push(e) + accepted(rest@, p) =~= so_far + (seq![e] + accepted(
                    rest@,
                    p,
                )));
                done.push(e);
            } else {
                assert(Seq::<(K, V)>::empty() + accepted(rest@, p) =~= accepted(rest@, p));
            }
        }
        proof {
            assert(done@ =~= accepted(before, p));
            lemma_accepted_map(before, p);
        }
        self.entries = done;
    }

    /// The keys in storage order.
    pub closed spec fn keys(&self) -> Seq<K::V> {
        self.entries@.map_values(|e: (K, V)| e.0@)
    }

    /// The entry at a place in storage order.
    pub fn nth(&self, i: usize) -> (r: (&K, &V))
        requires
            i < self@.len(),
        ensures
            self.keys().len() == self@.len(),
            self.keys()[i as int] == r.0@,
            self@.contains_key(r.0@),
            self@[r.0@] == *r.1,
            forall|k: K::V| self@.contains_key(k) ==> self.keys().contains(k),
    {
        proof {
            use_type_invariant(self);
            lemma_entry_map(self.entries@);
            assert forall|k: K::V| self@.contains_key(k) implies self.keys().contains(k) by {
                let j = choose|j: int| 0 <= j < self.entries@.len() && #[trigger] self.entries@[j].0@ == k;
                assert(self.keys()[j] == k);
            }
        }
        let e = &self.entries[i];
        assert(self.entries@[i as int] == *e);
        (&e.0, &e.1)
    }
}

/// Keeping the entries whose values satisfy a condition keeps each of those as it is, and no
/// other.
pub proof fn law_kept_entries_satisfy<A, V>(m: Map<A, V>, p: spec_fn(V) -> bool, key: A)
    ensures
        kept(m, p).contains_key(key) <==> m.contains_key(key) && p(m[key]),
        kept(m, p).contains_key(key) ==> kept(m, p)[key] == m[key],
{
}

} // verus!
