//! Maps in storage.

use crate::number::Identity;
use vstd::prelude::*;

verus! {

/// A map from keys to values.
pub struct StorageMap<K, V> {
    entries: Vec<(K, V)>,
}

/// No key occurs twice.
pub closed spec fn distinct_keys<K, V>(entries: Seq<(K, V)>) -> bool {
    forall|i: int, j: int|
        0 <= i < entries.len() && 0 <= j < entries.len() && (#[trigger] entries[i]).0 == (
        #[trigger] entries[j]).0 ==> i == j
}

/// One of the entries has this key.
pub closed spec fn has_key<K, V>(entries: Seq<(K, V)>, key: K) -> bool {
    exists|i: int| 0 <= i < entries.len() && (#[trigger] entries[i]).0 == key
}

/// The place of the entry with this key.
pub closed spec fn place_of<K, V>(entries: Seq<(K, V)>, key: K) -> int {
    choose|i: int| 0 <= i < entries.len() && (#[trigger] entries[i]).0 == key
}

/// The map that the entries make up.
pub closed spec fn map_of<K, V>(entries: Seq<(K, V)>) -> Map<K, V> {
    Map::new(|key: K| has_key(entries, key), |key: K| entries[place_of(entries, key)].1)
}

impl<K, V> View for StorageMap<K, V> {
    type V = Map<K, V>;

    closed spec fn view(&self) -> Map<K, V> {
        map_of(self.entries@)
    }
}

/// What the entries tell of the map.
proof fn lemma_entry<K, V>(entries: Seq<(K, V)>, i: int)
    requires
        distinct_keys(entries),
        0 <= i < entries.len(),
    ensures
        map_of(entries).contains_key(entries[i].0),
        map_of(entries)[entries[i].0] == entries[i].1,
{
    assert(has_key(entries, entries[i].0));
    let place = place_of(entries, entries[i].0);
    assert(entries[place].0 == entries[i].0);
}

impl<K, V> StorageMap<K, V> {
    #[verifier::type_invariant]
    closed spec fn well_formed(self) -> bool {
        distinct_keys(self.entries@)
    }

    /// The empty map.
    pub fn new() -> (r: Self)
        ensures
            r@ == Map::<K, V>::empty(),
    {
        let r = StorageMap { entries: Vec::new() };
        assert(r@ =~= Map::<K, V>::empty());
        r
    }
}

impl<K: Identity, V> StorageMap<K, V> {
    /// The place of the entry with this key, or the number of entries if there is none.
    fn find(&self, key: &K) -> (r: usize)
        ensures
            r <= self.entries@.len(),
            r < self.entries@.len() ==> self.entries@[r as int].0 == *key,
            r == self.entries@.len() ==> !has_key(self.entries@, *key),
    {
        let mut i: usize = 0;
        while i < self.entries.len()
            invariant
                0 <= i <= self.entries@.len(),
                forall|j: int| 0 <= j < i ==> (#[trigger] self.entries@[j]).0 != *key,
            decreases self.entries@.len() - i,
        {
            if self.entries[i].0.same(key) {
                return i;
            }
            i = i + 1;
        }
        i
    }

    /// The value under a key, if there is one.
    pub fn get(&self, key: &K) -> (r: Option<&V>)
        ensures
            match r {
                Some(v) => self@.contains_key(*key) && self@[*key] == *v,
                None => !self@.contains_key(*key),
            },
    {
        proof {
            use_type_invariant(self);
        }
        let i: usize = self.find(key);
        if i < self.entries.len() {
            proof {
                lemma_entry(self.entries@, i as int);
            }
            Some(&self.entries[i].1)
        } else {
            None
        }
    }

    /// Removes the value under a key, if there is one.
    pub fn remove(&mut self, key: &K)
        ensures
            final(self)@ == old(self)@.remove(*key),
    {
        proof {
            use_type_invariant(&*self);
        }
        let ghost before = self.entries@;
        let i: usize = self.find(key);
        if i < self.entries.len() {
            let mut entries: Vec<(K, V)> = Vec::new();
            std::mem::swap(&mut entries, &mut self.entries);
            let _removed = entries.swap_remove(i);
            proof {
                let after = entries@;
                assert forall|j: int| 0 <= j < after.len() implies exists|k: int|
                    0 <= k < before.len() && k != i && before[k] == #[trigger] after[j] by {
                    let k = if j == i {
                        before.len() - 1
                    } else {
                        j
                    };
                    assert(before[k] == after[j]);
                }
                assert forall|k: int| 0 <= k < before.len() && k != i implies exists|j: int|
                    0 <= j < after.len() && after[j] == #[trigger] before[k] by {
                    let j = if k == before.len() - 1 {
                        i as int
                    } else {
                        k
                    };
                    assert(after[j] == before[k]);
                }
                assert(distinct_keys(after));
                assert forall|k: K| #[trigger] map_of(after).contains_key(k) implies map_of(
                    before,
                ).remove(*key).contains_key(k) && map_of(after)[k] == map_of(before)[k] by {
                    let j = place_of(after, k);
                    let m = choose|m: int|
                        0 <= m < before.len() && m != i && before[m] == after[j];
                    lemma_entry(after, j);
                    lemma_entry(before, m);
                }
                assert forall|k: K| #[trigger]
                    map_of(before).remove(*key).contains_key(k) implies map_of(
                    after,
                ).contains_key(k) by {
                    let m = place_of(before, k);
                    assert(before[m].0 == k && m != i);
                    let j = choose|j: int| 0 <= j < after.len() && after[j] == before[m];
                    lemma_entry(after, j);
                }
                assert(map_of(after) =~= map_of(before).remove(*key));
            }
            self.entries = entries;
        } else {
            assert(self@ =~= old(self)@.remove(*key));
        }
    }

    /// Puts a value under a key, in place of what was there.
    pub fn insert(&mut self, key: K, value: V)
        ensures
            final(self)@ == old(self)@.insert(key, value),
    {
        self.remove(&key);
        proof {
            use_type_invariant(&*self);
        }
        let ghost before = self.entries@;
        let mut entries: Vec<(K, V)> = Vec::new();
        std::mem::swap(&mut entries, &mut self.entries);
        entries.push((key, value));
        proof {
            let after = entries@;
            assert(!map_of(before).contains_key(key));
            assert(distinct_keys(after)) by {
                assert forall|i: int, j: int|
                    0 <= i < after.len() && 0 <= j < after.len() && (#[trigger] after[i]).0 == (
                    #[trigger] after[j]).0 implies i == j by {
                    if i < before.len() {
                        lemma_entry(before, i);
                    }
                    if j < before.len() {
                        lemma_entry(before, j);
                    }
                }
            }
            lemma_entry(after, before.len() as int);
            assert forall|k: K| #[trigger] map_of(before).contains_key(k) implies map_of(
                after,
            ).contains_key(k) && map_of(after)[k] == map_of(before)[k] by {
                let i = place_of(before, k);
                lemma_entry(before, i);
                assert(after[i] == before[i]);
                lemma_entry(after, i);
            }
            assert forall|k: K| #[trigger] map_of(after).contains_key(k) && k != key implies map_of(
                before,
            ).contains_key(k) by {
                let i = place_of(after, k);
                assert(after[i] == before[i]);
                lemma_entry(before, i);
            }
            assert(map_of(after) =~= map_of(before).insert(key, value));
            assert(old(self)@.remove(key).insert(key, value) =~= old(self)@.insert(key, value));
        }
        self.entries = entries;
    }
}

} // verus!
