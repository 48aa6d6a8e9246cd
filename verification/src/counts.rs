//! Counting maps: per-address connection counts keyed by text, and
//! per-status response counts keyed by status code.

use vstd::prelude::*;

verus! {

/// A key of a counting map: comparable and copyable by value.
pub trait CountKey: Sized + View {
    fn same_key(&self, other: &Self) -> (r: bool)
        ensures
            r == (self@ == other@);

    fn copy_key(&self) -> (r: Self)
        ensures
            r@ == self@;
}

impl CountKey for String {
    fn same_key(&self, other: &Self) -> (r: bool) {
        *self == *other
    }

    fn copy_key(&self) -> (r: Self) {
        self.clone()
    }
}

impl CountKey for u16 {
    fn same_key(&self, other: &Self) -> (r: bool) {
        *self == *other
    }

    fn copy_key(&self) -> (r: Self) {
        *self
    }
}

/// The count of `k` in `m`, zero where `m` has no entry.
pub open spec fn get_or_zero<K>(m: Map<K, u64>, k: K) -> nat {
    if m.contains_key(k) {
        m[k] as nat
    } else {
        0
    }
}

/// `a` and `b` added key by key: the keys of either, each with the sum of
/// its counts.
pub open spec fn map_add<K>(a: Map<K, u64>, b: Map<K, u64>) -> Map<K, u64> {
    Map::new(
        |k: K| a.contains_key(k) || b.contains_key(k),
        |k: K| (get_or_zero(a, k) + get_or_zero(b, k)) as u64,
    )
}

/// Adding `a` and `b` key by key overflows no count.
pub open spec fn map_add_fits<K>(a: Map<K, u64>, b: Map<K, u64>) -> bool {
    forall|k: K| #[trigger] get_or_zero(a, k) + get_or_zero(b, k) <= u64::MAX
}

/// Counts per key, in the order the keys were first counted.
pub struct CountMap<K: CountKey> {
    entries: Vec<(K, u64)>,
    model: Ghost<Map<K::V, u64>>,
}

/// Connection counts per remote address (its text form).
pub type AddrCounts = CountMap<String>;

/// Response counts per HTTP status code.
pub type StatusCounts = CountMap<u16>;

impl<K: CountKey> View for CountMap<K> {
    type V = Map<K::V, u64>;

    closed spec fn view(&self) -> Map<K::V, u64> {
        self.model@
    }
}

impl<K: CountKey> CountMap<K> {
    /// The entries, in order, as (address, count) pairs.
    pub closed spec fn entries_view(&self) -> Seq<(K::V, u64)> {
        self.entries@.map_values(|e: (K, u64)| (e.0@, e.1))
    }

    /// Each address has one entry, and the entries are exactly the map.
    pub closed spec fn wf(&self) -> bool {
        &&& forall|i: int|
            0 <= i < self.entries@.len() ==> #[trigger] self.model@.contains_key(
                self.entries@[i].0@,
            ) && self.model@[self.entries@[i].0@] == self.entries@[i].1
        &&& forall|k: K::V| #[trigger]
            self.model@.contains_key(k) ==> exists|i: int|
                0 <= i < self.entries@.len() && #[trigger] self.entries@[i].0@ == k
        &&& forall|i: int, j: int|
            0 <= i < self.entries@.len() && 0 <= j < self.entries@.len() && i != j
                ==> #[trigger] self.entries@[i].0@ != #[trigger] self.entries@[j].0@
    }

    pub proof fn lemma_entries_match(&self)
        requires
            self.wf(),
        ensures
            self.entries_view().len() == self@.dom().len(),
            forall|i: int|
                0 <= i < self.entries_view().len() ==> #[trigger] self@.contains_key(
                    self.entries_view()[i].0,
                ) && self@[self.entries_view()[i].0] == self.entries_view()[i].1,
            forall|k: K::V| #[trigger]
                self@.contains_key(k) ==> exists|i: int|
                    0 <= i < self.entries_view().len() && #[trigger] self.entries_view()[i].0 == k,
            forall|i: int, j: int|
                0 <= i < self.entries_view().len() && 0 <= j < self.entries_view().len() && i
                    != j ==> #[trigger] self.entries_view()[i].0 != #[trigger] self.entries_view()[j].0,
            self@.dom().finite(),
    {
        let ev = self.entries_view();
        assert forall|k: K::V| #[trigger] self@.contains_key(k) implies exists|i: int|
            0 <= i < ev.len() && #[trigger] ev[i].0 == k by {
            let i = choose|i: int| 0 <= i < self.entries@.len() && #[trigger] self.entries@[i].0@ == k;
            assert(ev[i].0 == k);
        }
        let keys = ev.map_values(|e: (K::V, u64)| e.0);
        assert(keys.no_duplicates()) by {
            assert forall|i: int, j: int| 0 <= i < keys.len() && 0 <= j < keys.len() && i != j
                implies keys[i] != keys[j] by {
                assert(self.entries@[i].0@ != self.entries@[j].0@);
            }
        }
        assert(keys.to_set() =~= self@.dom()) by {
            assert forall|k: K::V| keys.to_set().contains(k) <==> self@.dom().contains(k) by {
                if keys.to_set().contains(k) {
                    let i = choose|i: int| 0 <= i < keys.len() && keys[i] == k;
                    assert(self.entries@[i].0@ == k);
                }
                if self@.dom().contains(k) {
                    let i = choose|i: int| 0 <= i < ev.len() && #[trigger] ev[i].0 == k;
                    assert(keys[i] == k);
                }
            }
        }
        keys.unique_seq_to_set();
    }

    /// No address counted yet.
    pub fn new() -> (r: Self)
        ensures
            r.wf(),
            r@ == Map::<K::V, u64>::empty(),
            r.entries_view() == Seq::<(K::V, u64)>::empty(),
    {
        let r = CountMap { entries: Vec::new(), model: Ghost(Map::empty()) };
        assert(r.entries_view() =~= Seq::<(K::V, u64)>::empty());
        r
    }

    /// The number of addresses counted.
    pub fn len(&self) -> (n: usize)
        requires
            self.wf(),
        ensures
            n == self.entries_view().len(),
            n == self@.dom().len(),
    {
        proof {
            self.lemma_entries_match();
        }
        self.entries.len()
    }

    /// The `i`-th entry: an address and its count.
    pub fn entry(&self, i: usize) -> (r: (&K, u64))
        requires
            self.wf(),
            i < self.entries_view().len(),
        ensures
            (r.0@, r.1) == self.entries_view()[i as int],
    {
        (&self.entries[i].0, self.entries[i].1)
    }

    /// The count of `key`, zero for a key not counted.
    pub fn get(&self, key: &K) -> (r: u64)
        requires
            self.wf(),
        ensures
            r == get_or_zero(self@, key@),
    {
        let n = self.entries.len();
        let mut i: usize = 0;
        while i < n
            invariant
                n == self.entries@.len(),
                i <= n,
                self.wf(),
                forall|j: int| 0 <= j < i ==> #[trigger] self.entries@[j].0@ != key@,
            decreases n - i,
        {
            if self.entries[i].0.same_key(key) {
                assert(self.model@.contains_key(self.entries@[i as int].0@));
                return self.entries[i].1;
            }
            i = i + 1;
        }
        proof {
            if self.model@.contains_key(key@) {
                let j = choose|j: int| 0 <= j < self.entries@.len() && #[trigger] self.entries@[j].0@ == key@;
                assert(false);
            }
        }
        0
    }

    /// Adds `count` to the count of `key`, appending a new entry for an address
    /// not yet counted.
    pub fn add(&mut self, key: &K, count: u64)
        requires
            old(self).wf(),
            get_or_zero(old(self)@, key@) + count <= u64::MAX,
        ensures
            final(self).wf(),
            final(self)@ == old(self)@.insert(key@, (get_or_zero(old(self)@, key@) + count) as u64),
            old(self)@.contains_key(key@) ==> final(self).entries_view().len()
                == old(self).entries_view().len(),
            !old(self)@.contains_key(key@) ==> final(self).entries_view() == old(self).entries_view().push((key@, count)),
    {
        let n = self.entries.len();
        let mut i: usize = 0;
        while i < n
            invariant
                n == self.entries@.len(),
                i <= n,
                self == old(self),
                self.wf(),
                get_or_zero(self@, key@) + count <= u64::MAX,
                forall|j: int| 0 <= j < i ==> #[trigger] self.entries@[j].0@ != key@,
            decreases n - i,
        {
            if self.entries[i].0.same_key(key) {
                let old_count = self.entries[i].1;
                assert(self.entries@[i as int].0@ == key@);
                assert(self.model@.contains_key(key@));
                assert(self.model@[key@] == old_count);
                let new_count = old_count + count;
                let ghost new_model = self.model@.insert(key@, new_count);
                let k = self.entries[i].0.copy_key();
                self.entries.set(i, (k, new_count));
                self.model = Ghost(new_model);
                proof {
                    assert forall|j: int| 0 <= j < self.entries@.len() implies #[trigger] self.model@.contains_key(
                        self.entries@[j].0@) && self.model@[self.entries@[j].0@] == self.entries@[j].1 by {
                        if j != i {
                            assert(old(self).entries@[j].0@ != old(self).entries@[i as int].0@);
                            assert(old(self).model@.contains_key(old(self).entries@[j].0@));
                        }
                    }
                    assert forall|j: int, l: int|
                        0 <= j < self.entries@.len() && 0 <= l < self.entries@.len() && j != l
                            implies #[trigger] self.entries@[j].0@ != #[trigger] self.entries@[l].0@ by {
                        assert(old(self).entries@[j].0@ != old(self).entries@[l].0@);
                    }
                    assert forall|k2: K::V| #[trigger] self.model@.contains_key(k2) implies exists|j: int|
                        0 <= j < self.entries@.len() && #[trigger] self.entries@[j].0@ == k2 by {
                        if k2 == key@ {
                            assert(self.entries@[i as int].0@ == k2);
                        } else {
                            assert(old(self).model@.contains_key(k2));
                            let j = choose|j: int| 0 <= j < old(self).entries@.len() && #[trigger] old(self).entries@[j].0@ == k2;
                            assert(self.entries@[j].0@ == k2);
                        }
                    }
                    assert(self.entries_view() =~= old(self).entries_view().update(i as int, (key@, new_count)));
                }
                return;
            }
            i = i + 1;
        }
        proof {
            if self.model@.contains_key(key@) {
                let j = choose|j: int| 0 <= j < self.entries@.len() && #[trigger] self.entries@[j].0@ == key@;
                assert(false);
            }
        }
        let ghost new_model = self.model@.insert(key@, count);
        self.entries.push((key.copy_key(), count));
        self.model = Ghost(new_model);
        proof {
            assert forall|k2: K::V| #[trigger] self.model@.contains_key(k2) implies exists|j: int|
                0 <= j < self.entries@.len() && #[trigger] self.entries@[j].0@ == k2 by {
                if k2 == key@ {
                    assert(self.entries@[n as int].0@ == k2);
                } else {
                    assert(old(self).model@.contains_key(k2));
                    let j = choose|j: int| 0 <= j < old(self).entries@.len() && #[trigger] old(self).entries@[j].0@ == k2;
                    assert(self.entries@[j].0@ == k2);
                }
            }
            assert(self.entries_view() =~= old(self).entries_view().push((key@, count)));
        }
    }

    /// Adds every count of `other` to this one, address by address.
    pub fn add_all(&mut self, other: &CountMap<K>)
        requires
            old(self).wf(),
            other.wf(),
            map_add_fits(old(self)@, other@),
        ensures
            final(self).wf(),
            final(self)@ == map_add(old(self)@, other@),
    {
        proof {
            other.lemma_entries_match();
        }
        let ghost ev = other.entries_view();
        let n = other.entries.len();
        let mut i: usize = 0;
        while i < n
            invariant
                other.wf(),
                ev == other.entries_view(),
                n == ev.len(),
                i <= n,
                self.wf(),
                map_add_fits(old(self)@, other@),
                forall|j: int, l: int|
                    0 <= j < ev.len() && 0 <= l < ev.len() && j != l ==> #[trigger] ev[j].0
                        != #[trigger] ev[l].0,
                forall|j: int| 0 <= j < ev.len() ==> #[trigger] other@.contains_key(ev[j].0) && other@[ev[j].0] == ev[j].1,
                forall|k: K::V| #[trigger] other@.contains_key(k) ==> exists|j: int|
                    0 <= j < ev.len() && #[trigger] ev[j].0 == k,
                forall|k: K::V|
                    #[trigger] self@.contains_key(k) <==> (old(self)@.contains_key(k) || exists|j: int|
                        0 <= j < i && #[trigger] ev[j].0 == k),
                forall|k: K::V|
                    #[trigger] get_or_zero(self@, k) == get_or_zero(old(self)@, k) + if exists|j: int|
                        0 <= j < i && #[trigger] ev[j].0 == k {
                        get_or_zero(other@, k)
                    } else {
                        0
                    },
            decreases n - i,
        {
            let (key, count) = other.entry(i);
            let ghost k0 = key@;
            proof {
                assert(ev[i as int].0 == k0);
                assert(!exists|j: int| 0 <= j < i && #[trigger] ev[j].0 == k0);
                assert(get_or_zero(self@, k0) == get_or_zero(old(self)@, k0));
                assert(get_or_zero(other@, k0) == count);
                assert(get_or_zero(old(self)@, k0) + get_or_zero(other@, k0) <= u64::MAX);
            }
            let ghost before = self@;
            self.add(key, count);
            proof {
                assert forall|k: K::V| #[trigger] self@.contains_key(k) <==> (old(self)@.contains_key(k) || exists|j: int|
                        0 <= j < i + 1 && #[trigger] ev[j].0 == k) by {
                    if k == k0 {
                        assert(ev[i as int].0 == k);
                    } else {
                        if exists|j: int| 0 <= j < i + 1 && #[trigger] ev[j].0 == k {
                            let j = choose|j: int| 0 <= j < i + 1 && #[trigger] ev[j].0 == k;
                            assert(j < i);
                        }
                    }
                }
                assert forall|k: K::V|
                    #[trigger] get_or_zero(self@, k) == get_or_zero(old(self)@, k) + if exists|j: int|
                        0 <= j < i + 1 && #[trigger] ev[j].0 == k {
                        get_or_zero(other@, k)
                    } else {
                        0
                    } by {
                    if k == k0 {
                        assert(ev[i as int].0 == k);
                    } else {
                        assert(get_or_zero(self@, k) == get_or_zero(before, k));
                        if exists|j: int| 0 <= j < i + 1 && #[trigger] ev[j].0 == k {
                            let j = choose|j: int| 0 <= j < i + 1 && #[trigger] ev[j].0 == k;
                            assert(j < i);
                        }
                    }
                }
            }
            i = i + 1;
        }
        proof {
            assert forall|k: K::V| #[trigger] other@.contains_key(k) implies exists|j: int|
                0 <= j < i && #[trigger] ev[j].0 == k by {
                let j = choose|j: int| 0 <= j < ev.len() && #[trigger] ev[j].0 == k;
            }
            assert forall|k: K::V| (exists|j: int| 0 <= j < i && #[trigger] ev[j].0 == k) implies #[trigger] other@.contains_key(k) by {
                let j = choose|j: int| 0 <= j < i && #[trigger] ev[j].0 == k;
            }
            assert(self@ =~= map_add(old(self)@, other@)) by {
                assert forall|k: K::V| self@.contains_key(k) implies #[trigger] self@[k] == map_add(old(self)@, other@)[k] by {
                    assert(get_or_zero(self@, k) == self@[k]);
                }
            }
        }
    }
}

} // verus!
