//! A small finite map for keys that can be compared for equality.
//!
//! The graph and the caches of a build are such maps. Entries are kept in the
//! order in which their keys first arrived, and a key is looked up by
//! comparing it with the stored ones.

use vstd::prelude::*;

verus! {

/// A key that can be compared with another: two keys are the same when they
/// hold the same characters.
pub trait Key: DeepView + Sized {
    /// Whether `self` and `other` are the same key.
    fn same(&self, other: &Self) -> (equal: bool)
        ensures
            equal == (self.deep_view() == other.deep_view()),
    ;
}

impl Key for String {
    fn same(&self, other: &Self) -> (equal: bool) {
        *self == *other
    }
}

impl Key for (String, String) {
    fn same(&self, other: &Self) -> (equal: bool) {
        self.0 == other.0 && self.1 == other.1
    }
}

/// The keys of `entries`, in order.
pub open spec fn entry_keys<K: Key, V>(entries: Seq<(K, V)>) -> Seq<K::V> {
    Seq::new(entries.len(), |i: int| entries[i].0.deep_view())
}

/// A finite map from keys to values.
///
/// Its view maps the characters of each key to the deep view of the value
/// stored for it. A key has at most one entry; inserting under a key that is
/// present replaces its value.
pub struct Table<K: Key, V: DeepView> {
    entries: Vec<(K, V)>,
}

impl<K: Key, V: DeepView> View for Table<K, V> {
    type V = Map<K::V, V::V>;

    closed spec fn view(&self) -> Map<K::V, V::V> {
        let keys = entry_keys(self.entries@);
        Map::new(
            |k: K::V| keys.contains(k),
            |k: K::V| self.entries@[keys.index_of(k)].1.deep_view(),
        )
    }
}

impl<K: Key, V: DeepView> Table<K, V> {
    #[verifier::type_invariant]
    spec fn distinct(&self) -> bool {
        entry_keys(self.entries@).no_duplicates()
    }

    /// A table has finitely many entries.
    pub proof fn lemma_finite(&self)
        ensures
            self@.dom().finite(),
    {
        let keys = entry_keys(self.entries@);
        vstd::seq_lib::seq_to_set_is_finite(keys);
    }

    /// The table without entries.
    pub fn new() -> (table: Self)
        ensures
            table@ == Map::<K::V, V::V>::empty(),
    {
        Table { entries: Vec::new() }
    }

    /// The place of the entry of `key`, if it has one.
    fn position(&self, key: &K) -> (at: Option<usize>)
        ensures
            match at {
                Some(i) => i < self.entries.len() && self.entries[i as int].0.deep_view()
                    == key.deep_view() && entry_keys(self.entries@).contains(key.deep_view())
                    && entry_keys(self.entries@).index_of(key.deep_view()) == i,
                None => !entry_keys(self.entries@).contains(key.deep_view()),
            },
    {
        proof {
            use_type_invariant(self);
        }
        let ghost keys = entry_keys(self.entries@);
        let mut i: usize = 0;
        while i < self.entries.len()
            invariant
                i <= self.entries.len(),
                keys == entry_keys(self.entries@),
                keys.no_duplicates(),
                forall|j: int| 0 <= j < i ==> keys[j] != key.deep_view(),
            decreases self.entries.len() - i,
        {
            if self.entries[i].0.same(key) {
                assert(keys[i as int] == key.deep_view());
                assert(keys[keys.index_of(key.deep_view())] == key.deep_view());
                return Some(i);
            }
            i += 1;
        }
        assert(keys.contains(key.deep_view()) ==> keys[keys.index_of(key.deep_view())]
            == key.deep_view());
        None
    }

    /// Whether `key` has an entry.
    pub fn contains_key(&self, key: &K) -> (found: bool)
        ensures
            found == self@.dom().contains(key.deep_view()),
    {
        self.position(key).is_some()
    }

    /// The value stored for `key`, if it has an entry.
    pub fn get(&self, key: &K) -> (found: Option<&V>)
        ensures
            found is Some == self@.dom().contains(key.deep_view()),
            found matches Some(value) ==> value.deep_view() == self@[key.deep_view()],
    {
        match self.position(key) {
            Some(i) => Some(&self.entries[i].1),
            None => None,
        }
    }

    /// Stores `value` for `key`, in place of any value stored for it before.
    pub fn insert(&mut self, key: K, value: V)
        ensures
            final(self)@ == old(self)@.insert(key.deep_view(), value.deep_view()),
    {
        proof {
            use_type_invariant(&*self);
        }
        let at = self.position(&key);
        let ghost before = *self;
        let ghost k0 = key.deep_view();
        let ghost v0 = value.deep_view();
        let mut entries: Vec<(K, V)> = Vec::new();
        core::mem::swap(&mut self.entries, &mut entries);
        match at {
            Some(i) => {
                entries.set(i, (key, value));
                assert(entry_keys(entries@) =~= entry_keys(before.entries@));
            },
            None => {
                entries.push((key, value));
                assert(entry_keys(entries@) =~= entry_keys(before.entries@).push(k0));
            },
        }
        self.entries = entries;
        proof {
            let old_keys = entry_keys(before.entries@);
            let new_keys = entry_keys(self.entries@);
            assert forall|k: K::V| #[trigger]
                self@.dom().contains(k) == before@.insert(k0, v0).dom().contains(k) by {
                if old_keys.contains(k) {
                    assert(new_keys[old_keys.index_of(k)] == k);
                }
                if new_keys.contains(k) && k != k0 {
                    assert(old_keys[new_keys.index_of(k)] == k);
                }
                if k == k0 && at is None {
                    assert(new_keys[old_keys.len() as int] == k);
                }
            }
            assert forall|k: K::V| #[trigger] self@.dom().contains(k) implies self@[k]
                == before@.insert(k0, v0)[k] by {
                let j = new_keys.index_of(k);
                assert(new_keys[j] == k);
                if k != k0 {
                    assert(old_keys[old_keys.index_of(k)] == k);
                }
            }
        }
    }

    /// The number of entries.
    pub fn len(&self) -> (n: usize)
        ensures
            n == self@.dom().len(),
            self@.dom().finite(),
    {
        proof {
            use_type_invariant(self);
            let keys = entry_keys(self.entries@);
            keys.unique_seq_to_set();
            self.lemma_finite();
        }
        self.entries.len()
    }
}

} // verus!
