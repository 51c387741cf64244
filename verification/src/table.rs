//! Ordered tables: finite maps from 128-bit identifiers to values, kept in
//! increasing key order; listings come in that order.

use vstd::prelude::*;

verus! {

/// Every key is smaller than the keys after it.
pub open spec fn strictly_increasing(s: Seq<u128>) -> bool {
    forall|i: int, j: int| 0 <= i < j < s.len() ==> s[i] < s[j]
}

/// The keys of a sequence of entries.
pub open spec fn entry_keys<V>(entries: Seq<(u128, V)>) -> Seq<u128> {
    Seq::new(entries.len(), |i: int| entries[i].0)
}

/// An ordered table from identifiers to values.
pub struct Table<V> {
    entries: Vec<(u128, V)>,
}

/// A table has as many values as keys.
pub broadcast proof fn lemma_table_lengths<V>(t: Table<V>)
    ensures
        #[trigger] t.values().len() == t.keys().len(),
{
}

impl<V> Table<V> {
    /// The keys, in increasing order.
    pub closed spec fn keys(&self) -> Seq<u128> {
        entry_keys(self.entries@)
    }

    /// The values, in the order of their keys.
    pub closed spec fn values(&self) -> Seq<V> {
        Seq::new(self.entries@.len(), |i: int| self.entries@[i].1)
    }

    #[verifier::type_invariant]
    pub open spec fn well_formed(&self) -> bool {
        &&& strictly_increasing(self.keys())
        &&& self.values().len() == self.keys().len()
    }

    /// The table as a map.
    pub open spec fn view(&self) -> Map<u128, V> {
        Map::new(
            |k: u128| self.keys().contains(k),
            |k: u128| self.values()[self.keys().index_of(k)],
        )
    }

    /// The `j`-th key is found at position `j`.
    proof fn lemma_index_of(&self, j: int)
        requires
            self.well_formed(),
            0 <= j < self.keys().len(),
        ensures
            self.keys().index_of(self.keys()[j]) == j,
    {
        let k = self.keys()[j];
        assert(self.keys().contains(k));
        let i = self.keys().index_of(k);
        assert(0 <= i < self.keys().len() && self.keys()[i] == k);
    }

    /// The map holds exactly the keys, each with the value at its position.
    pub proof fn lemma_view(&self)
        requires
            self.well_formed(),
        ensures
            forall|k: u128| #[trigger] self@.contains_key(k) <==> self.keys().contains(k),
            forall|j: int|
                0 <= j < self.keys().len() ==> #[trigger] self@[self.keys()[j]] == self.values()[j],
    {
        assert forall|j: int| 0 <= j < self.keys().len() implies #[trigger] self@[self.keys()[j]]
            == self.values()[j] by {
            self.lemma_index_of(j);
        }
    }

    /// The map has as many keys as the table has entries.
    pub proof fn lemma_dom_len(&self)
        requires
            self.well_formed(),
        ensures
            self@.dom().finite(),
            self@.dom().len() == self.keys().len(),
    {
        self.lemma_view();
        assert(self@.dom() =~= self.keys().to_set());
        assert(self.keys().no_duplicates()) by {
            assert forall|i: int, j: int|
                0 <= i < self.keys().len() && 0 <= j < self.keys().len() && i != j implies self.keys()[i]
                != self.keys()[j] by {
                if i < j {
                    assert(self.keys()[i] < self.keys()[j]);
                } else {
                    assert(self.keys()[j] < self.keys()[i]);
                }
            }
        }
        self.keys().unique_seq_to_set();
    }

    /// An empty table.
    pub fn new() -> (t: Table<V>)
        ensures
            t@ == Map::<u128, V>::empty(),
            t.keys() == Seq::<u128>::empty(),
    {
        let t = Table { entries: Vec::new() };
        assert(t.keys() =~= Seq::<u128>::empty());
        assert(t@ =~= Map::<u128, V>::empty());
        t
    }

    /// Number of entries.
    pub fn len(&self) -> (n: usize)
        ensures
            n == self.keys().len(),
    {
        self.entries.len()
    }

    /// The `i`-th key in increasing order.
    pub fn key_at(&self, i: usize) -> (k: u128)
        requires
            i < self.keys().len(),
        ensures
            k == self.keys()[i as int],
    {
        self.entries[i].0
    }

    /// The value of the `i`-th key.
    pub fn value_at(&self, i: usize) -> (v: &V)
        requires
            i < self.keys().len(),
        ensures
            *v == self.values()[i as int],
    {
        proof {
            use_type_invariant(self);
        }
        &self.entries[i].1
    }

    /// The first position whose key is not below `k`.
    fn lower_bound(&self, k: u128) -> (i: usize)
        ensures
            i <= self.keys().len(),
            forall|j: int| 0 <= j < i ==> self.keys()[j] < k,
            i < self.keys().len() ==> self.keys()[i as int] >= k,
    {
        let mut i: usize = 0;
        while i < self.entries.len() && self.entries[i].0 < k
            invariant
                i <= self.entries@.len(),
                forall|j: int| 0 <= j < i ==> self.keys()[j] < k,
            decreases self.entries@.len() - i,
        {
            i = i + 1;
        }
        i
    }

    /// Whether `k` has a value.
    pub fn contains_key(&self, k: u128) -> (b: bool)
        ensures
            b == self@.contains_key(k),
    {
        proof {
            use_type_invariant(self);
            self.lemma_view();
        }
        let i = self.lower_bound(k);
        if i < self.entries.len() && self.entries[i].0 == k {
            assert(self.keys()[i as int] == k);
            true
        } else {
            assert(!self.keys().contains(k)) by {
                if self.keys().contains(k) {
                    let j = self.keys().index_of(k);
                    assert(self.keys()[j] == k);
                    if j < i {
                    } else if j > i {
                        assert(self.keys()[i as int] < self.keys()[j]);
                    }
                }
            }
            false
        }
    }

    /// The value of `k`, if any.
    pub fn get(&self, k: u128) -> (v: Option<&V>)
        ensures
            v is Some <==> self@.contains_key(k),
            v matches Some(x) ==> *x == self@[k],
    {
        proof {
            use_type_invariant(self);
            self.lemma_view();
        }
        let i = self.lower_bound(k);
        if i < self.entries.len() && self.entries[i].0 == k {
            assert(self.keys()[i as int] == k);
            assert(self.values()[i as int] == self.entries@[i as int].1);
            Some(&self.entries[i].1)
        } else {
            assert(!self.keys().contains(k)) by {
                if self.keys().contains(k) {
                    let j = self.keys().index_of(k);
                    assert(self.keys()[j] == k);
                    if j < i {
                    } else if j > i {
                        assert(self.keys()[i as int] < self.keys()[j]);
                    }
                }
            }
            None
        }
    }

    /// Records `v` under `k`, in place of any earlier value.
    pub fn upsert(&mut self, k: u128, v: V)
        ensures
            final(self)@ == old(self)@.insert(k, v),
            final(self).keys().len() == old(self).keys().len() + if old(self)@.contains_key(k) {
                0int
            } else {
                1int
            },
    {
        proof {
            use_type_invariant(&*self);
            self.lemma_view();
        }
        let ghost pre = *self;
        let i = self.lower_bound(k);
        let mut entries: Vec<(u128, V)> = Vec::new();
        std::mem::swap(&mut entries, &mut self.entries);
        assert(entries@ == pre.entries@);
        if i < entries.len() && entries[i].0 == k {
            entries.set(i, (k, v));
            assert(entry_keys(entries@) =~= pre.keys());
            self.entries = entries;
            proof {
                assert(self.keys() =~= pre.keys());
                assert(self.values() =~= pre.values().update(i as int, v));
                self.lemma_view();
                assert(self@ =~= pre@.insert(k, v)) by {
                    assert forall|q: u128| #[trigger] self@.contains_key(q) implies self@[q]
                        == pre@.insert(k, v)[q] by {
                        let j = self.keys().index_of(q);
                        assert(self.keys()[j] == q);
                        assert(self@[q] == self.values()[j]);
                        if q != k {
                            assert(j != i);
                            assert(pre@[pre.keys()[j]] == pre.values()[j]);
                        }
                    }
                }
            }
        } else {
            entries.insert(i, (k, v));
            proof {
                assert(!pre.keys().contains(k)) by {
                    if pre.keys().contains(k) {
                        let j = pre.keys().index_of(k);
                        assert(pre.keys()[j] == k);
                        if j > i {
                            assert(pre.keys()[i as int] < pre.keys()[j]);
                        }
                    }
                }
                assert(entry_keys(entries@) =~= pre.keys().insert(i as int, k));
                if i < pre.keys().len() {
                    assert(pre.keys()[i as int] != k);
                }
                assert(strictly_increasing(entry_keys(entries@)));
            }
            self.entries = entries;
            proof {
                assert(self.keys() =~= pre.keys().insert(i as int, k));
                assert(self.values() =~= pre.values().insert(i as int, v));
                assert(!pre.keys().contains(k)) by {
                    if pre.keys().contains(k) {
                        let j = pre.keys().index_of(k);
                        assert(pre.keys()[j] == k);
                        if j > i {
                            assert(pre.keys()[i as int] < pre.keys()[j]);
                        }
                    }
                }
                self.lemma_view();
                assert forall|q: u128| #[trigger] self@.contains_key(q) <==> pre@.insert(
                    k,
                    v,
                ).contains_key(q) by {
                    if self.keys().contains(q) && q != k {
                        let j = self.keys().index_of(q);
                        if j < i {
                            assert(pre.keys()[j] == q);
                        } else {
                            assert(pre.keys()[j - 1] == q);
                        }
                    }
                    if pre.keys().contains(q) {
                        let j = pre.keys().index_of(q);
                        if j < i {
                            assert(self.keys()[j] == q);
                        } else {
                            assert(self.keys()[j + 1] == q);
                        }
                    }
                    if q == k {
                        assert(self.keys()[i as int] == k);
                    }
                }
                assert forall|q: u128| #[trigger] self@.contains_key(q) implies self@[q]
                    == pre@.insert(k, v)[q] by {
                    let j = self.keys().index_of(q);
                    assert(self.keys()[j] == q);
                    assert(self@[q] == self.values()[j]);
                    if q != k {
                        if j < i {
                            assert(pre@[pre.keys()[j]] == pre.values()[j]);
                        } else {
                            assert(pre@[pre.keys()[j - 1]] == pre.values()[j - 1]);
                        }
                    }
                }
                assert(self@ =~= pre@.insert(k, v));
            }
        }
    }

    /// Takes out the value of `k`, if any.
    pub fn remove(&mut self, k: u128) -> (v: Option<V>)
        ensures
            final(self)@ == old(self)@.remove(k),
            v is Some <==> old(self)@.contains_key(k),
            v matches Some(x) ==> x == old(self)@[k],
            final(self).keys().len() == old(self).keys().len() - if old(self)@.contains_key(k) {
                1int
            } else {
                0int
            },
    {
        proof {
            use_type_invariant(&*self);
            self.lemma_view();
        }
        let ghost pre = *self;
        let i = self.lower_bound(k);
        if i < self.entries.len() && self.entries[i].0 == k {
            let mut entries: Vec<(u128, V)> = Vec::new();
            std::mem::swap(&mut entries, &mut self.entries);
            assert(entries@ == pre.entries@);
            let (_, old_v) = entries.remove(i);
            assert(entry_keys(entries@) =~= pre.keys().remove(i as int));
            self.entries = entries;
            proof {
                assert(self.keys() =~= pre.keys().remove(i as int));
                assert(self.values() =~= pre.values().remove(i as int));
                assert(pre.keys()[i as int] == k);
                self.lemma_view();
                assert forall|q: u128| #[trigger] self@.contains_key(q) <==> pre@.remove(
                    k,
                ).contains_key(q) by {
                    if self.keys().contains(q) {
                        let j = self.keys().index_of(q);
                        if j < i {
                            assert(pre.keys()[j] == q);
                        } else {
                            assert(pre.keys()[j + 1] == q);
                            assert(pre.keys()[i as int] < pre.keys()[j + 1]);
                        }
                    }
                    if pre.keys().contains(q) && q != k {
                        let j = pre.keys().index_of(q);
                        if j < i {
                            assert(self.keys()[j] == q);
                        } else {
                            assert(j != i);
                            assert(self.keys()[j - 1] == q);
                        }
                    }
                }
                assert forall|q: u128| #[trigger] self@.contains_key(q) implies self@[q]
                    == pre@.remove(k)[q] by {
                    let j = self.keys().index_of(q);
                    assert(self.keys()[j] == q);
                    assert(self@[q] == self.values()[j]);
                    if j < i {
                        assert(pre@[pre.keys()[j]] == pre.values()[j]);
                    } else {
                        assert(pre@[pre.keys()[j + 1]] == pre.values()[j + 1]);
                    }
                }
                assert(self@ =~= pre@.remove(k));
                assert(old_v == pre@[k]);
            }
            Some(old_v)
        } else {
            proof {
                assert(!pre.keys().contains(k)) by {
                    if pre.keys().contains(k) {
                        let j = pre.keys().index_of(k);
                        assert(pre.keys()[j] == k);
                        if j > i {
                            assert(pre.keys()[i as int] < pre.keys()[j]);
                        }
                    }
                }
                assert(self@ =~= pre@.remove(k));
            }
            None
        }
    }
}


/// The views of the tables of a table.
pub open spec fn nested_view<V>(tables: Map<u128, Table<V>>) -> Map<u128, Map<u128, V>> {
    tables.map_values(|t: Table<V>| t@)
}

/// The view of the table under `a`, empty where there is none.
pub open spec fn inner_view<V>(tables: Map<u128, Table<V>>, a: u128) -> Map<u128, V> {
    if tables.contains_key(a) {
        tables[a]@
    } else {
        Map::empty()
    }
}

impl<V> Table<Table<V>> {
    /// Records `v` under `b` in the table under `a`, creating that table
    /// when there is none.
    pub fn upsert_in(&mut self, a: u128, b: u128, v: V)
        ensures
            final(self)@.dom() == old(self)@.dom().insert(a),
            forall|x: u128| x != a && #[trigger] old(self)@.contains_key(x) ==> final(self)@[x]
                == old(self)@[x],
            final(self)@[a]@ == inner_view(old(self)@, a).insert(b, v),
            final(self)@[a].keys().len() == (if old(self)@.contains_key(a) {
                old(self)@[a].keys().len() as int
            } else {
                0int
            }) + if inner_view(old(self)@, a).contains_key(b) {
                0int
            } else {
                1int
            },
    {
        let mut inner = match self.remove(a) {
            Some(t) => t,
            None => Table::new(),
        };
        inner.upsert(b, v);
        self.upsert(a, inner);
        assert(final(self)@.dom() =~= old(self)@.dom().insert(a));
    }

    /// The value under `b` in the table under `a`, if any.
    pub fn get_in(&self, a: u128, b: u128) -> (v: Option<&V>)
        ensures
            v is Some <==> inner_view(self@, a).contains_key(b),
            v matches Some(x) ==> *x == inner_view(self@, a)[b],
    {
        match self.get(a) {
            Some(inner) => inner.get(b),
            None => None,
        }
    }

    /// Takes out the value under `b` in the table under `a`, if any; the
    /// table under `a` stays, possibly empty.
    pub fn remove_in(&mut self, a: u128, b: u128) -> (v: Option<V>)
        ensures
            v is Some <==> inner_view(old(self)@, a).contains_key(b),
            v matches Some(x) ==> x == inner_view(old(self)@, a)[b],
            old(self)@.contains_key(a) ==> final(self)@.dom() == old(self)@.dom(),
            !old(self)@.contains_key(a) ==> final(self)@ == old(self)@,
            forall|x: u128| x != a && #[trigger] old(self)@.contains_key(x) ==> final(self)@[x]
                == old(self)@[x],
            old(self)@.contains_key(a) ==> final(self)@[a]@ == old(self)@[a]@.remove(b),
    {
        match self.remove(a) {
            Some(t) => {
                let mut inner = t;
                let v = inner.remove(b);
                self.upsert(a, inner);
                assert(final(self)@.dom() =~= old(self)@.dom());
                v
            },
            None => None,
        }
    }

    /// Number of values in the table under `a`.
    pub fn len_in(&self, a: u128) -> (n: usize)
        ensures
            self@.contains_key(a) ==> n == self@[a].keys().len(),
            !self@.contains_key(a) ==> n == 0,
    {
        match self.get(a) {
            Some(inner) => inner.len(),
            None => 0,
        }
    }
}

/// Values that can be compared with each other.
pub trait SameValue: Sized {
    fn same_value(&self, other: &Self) -> (b: bool)
        ensures
            b == (*self == *other),
    ;
}

impl<V: SameValue> Table<V> {
    /// Records `v` under `k` unless a different value is there already; an
    /// equal value is written again.
    pub fn create(&mut self, k: u128, v: V) -> (res: Result<(), ()>)
        ensures
            res is Err <==> (old(self)@.contains_key(k) && old(self)@[k] != v),
            res is Err ==> final(self)@ == old(self)@,
            res is Ok ==> final(self)@ == old(self)@.insert(k, v),
    {
        let different = match self.get(k) {
            Some(prev) => !prev.same_value(&v),
            None => false,
        };
        if different {
            Err(())
        } else {
            self.upsert(k, v);
            Ok(())
        }
    }
}

impl<V> Table<V> {
    /// Records `v` under `k` where some value is there already.
    pub fn update(&mut self, k: u128, v: V) -> (res: Result<(), ()>)
        ensures
            res is Err <==> !old(self)@.contains_key(k),
            res is Err ==> final(self)@ == old(self)@,
            res is Ok ==> final(self)@ == old(self)@.insert(k, v),
    {
        if self.contains_key(k) {
            self.upsert(k, v);
            Ok(())
        } else {
            Err(())
        }
    }
}

/// A read gives back what the last write under the same key wrote, and
/// reads under other keys are unchanged.
pub proof fn law_read_after_upsert<V>(before: Table<V>, after: Table<V>, k: u128, v: V)
    requires
        after@ == before@.insert(k, v),
    ensures
        after@.contains_key(k) && after@[k] == v,
        forall|x: u128|
            x != k ==> (#[trigger] after@.contains_key(x) == before@.contains_key(x)) && (
            before@.contains_key(x) ==> after@[x] == before@[x]),
{
}

/// After a removal nothing is read under the key, and reads under other
/// keys are unchanged.
pub proof fn law_read_after_remove<V>(before: Table<V>, after: Table<V>, k: u128)
    requires
        after@ == before@.remove(k),
    ensures
        !after@.contains_key(k),
        forall|x: u128|
            x != k ==> (#[trigger] after@.contains_key(x) == before@.contains_key(x)) && (
            before@.contains_key(x) ==> after@[x] == before@[x]),
{
}

/// Creating a value that is already there succeeds and changes nothing.
pub proof fn law_create_is_idempotent<V>(
    before: Table<V>,
    after: Table<V>,
    k: u128,
    v: V,
    res: Result<(), ()>,
)
    requires
        before@.contains_key(k),
        before@[k] == v,
        res is Err <==> (before@.contains_key(k) && before@[k] != v),
        res is Err ==> after@ == before@,
        res is Ok ==> after@ == before@.insert(k, v),
    ensures
        res is Ok,
        after@ == before@,
{
    assert(before@.insert(k, v) =~= before@);
}

} // verus!
