//! A map from string keys to values, indexed by a `dashmap::DashMap` that
//! resolves each key to the slot holding its value.
use dashmap::DashMap;
use vstd::prelude::*;

verus! {

/// `dashmap::DashMap`, a concurrent hash map; opaque to Verus.
#[verifier::external_type_specification]
#[verifier::external_body]
#[verifier::reject_recursive_types(K)]
#[verifier::reject_recursive_types(V)]
#[verifier::reject_recursive_types(S)]
pub struct ExDashMap<K, V, S>(DashMap<K, V, S>);

/// The entries of a key-to-slot index, keys taken by their characters.
pub uninterp spec fn slot_index(m: DashMap<String, usize>) -> Map<Seq<char>, usize>;

/// `DashMap::new`: an empty map.
#[verifier::external_body]
fn index_new() -> (r: DashMap<String, usize>)
    ensures
        slot_index(r).is_empty(),
{
    DashMap::new()
}

/// `DashMap::insert`: afterwards `key` maps to `slot`, other keys are
/// unchanged. (The displaced value that `insert` returns is dropped.)
#[verifier::external_body]
fn index_insert(m: &mut DashMap<String, usize>, key: String, slot: usize)
    ensures
        slot_index(*final(m)) == slot_index(*old(m)).insert(key@, slot),
{
    m.insert(key, slot);
}

/// `DashMap::get`: the slot stored for `key`, copied out of the guard.
#[verifier::external_body]
fn index_get(m: &DashMap<String, usize>, key: &str) -> (r: Option<usize>)
    ensures
        match r {
            Some(slot) => slot_index(*m).contains_key(key@) && slot_index(*m)[key@] == slot,
            None => !slot_index(*m).contains_key(key@),
        },
{
    m.get(key).map(|entry| *entry)
}

/// `DashMap::remove`: afterwards `key` is absent, other keys are unchanged.
#[verifier::external_body]
fn index_remove(m: &mut DashMap<String, usize>, key: &str)
    ensures
        slot_index(*final(m)) == slot_index(*old(m)).remove(key@),
{
    m.remove(key);
}

/// String keys mapped to values. The `DashMap` resolves a key to a slot;
/// the values themselves live in `values`, so that the contracts can speak
/// of them for any `V` (what the `DashMap` holds is named over plain values
/// only, here slot numbers).
pub struct KeyedStore<V> {
    index: DashMap<String, usize>,
    keys: Vec<String>,
    values: Vec<V>,
}

impl<V> KeyedStore<V> {
    /// Well-formedness: the index maps exactly the stored keys, each to the
    /// slot that holds it, and no key is stored twice.
    pub closed spec fn wf(&self) -> bool {
        &&& self.keys.len() == self.values.len()
        &&& forall|i: int| 0 <= i < self.keys.len() ==> #[trigger] slot_index(self.index).contains_key(self.keys[i]@)
            && slot_index(self.index)[self.keys[i]@] == i
        &&& forall|k: Seq<char>| #[trigger] slot_index(self.index).contains_key(k) ==> {
            let i = slot_index(self.index)[k];
            0 <= i < self.keys.len() && self.keys[i as int]@ == k
        }
    }

    /// The stored entries.
    pub closed spec fn view(&self) -> Map<Seq<char>, V> {
        Map::new(
            |k: Seq<char>| slot_index(self.index).contains_key(k),
            |k: Seq<char>| self.values[slot_index(self.index)[k] as int],
        )
    }

    /// Keys in slot order.
    pub closed spec fn key_order(&self) -> Seq<Seq<char>> {
        self.keys@.map_values(|k: String| k@)
    }

    /// Values in slot order.
    pub closed spec fn value_order(&self) -> Seq<V> {
        self.values@
    }

    pub proof fn lemma_slots(&self)
        requires
            self.wf(),
        ensures
            self.key_order().len() == self.value_order().len(),
            self.key_order().no_duplicates(),
            forall|i: int| 0 <= i < self.key_order().len() ==> #[trigger] self.view().contains_key(self.key_order()[i]) && self.view()[self.key_order()[i]] == self.value_order()[i],
            forall|k: Seq<char>| #[trigger] self.view().contains_key(k) ==> self.key_order().contains(k),
            self.view().dom().finite(),
            self.view().dom().len() == self.key_order().len(),
    {
        let ko = self.key_order();
        assert forall|i: int, j: int| 0 <= i < ko.len() && 0 <= j < ko.len() && i != j implies ko[i] != ko[j] by {
            assert(slot_index(self.index).contains_key(self.keys[i]@));
            assert(slot_index(self.index).contains_key(self.keys[j]@));
        }
        assert forall|k: Seq<char>| #[trigger] self.view().contains_key(k) implies ko.contains(k) by {
            let i = slot_index(self.index)[k] as int;
            assert(ko[i] == k);
        }
        assert(self.view().dom() =~= ko.to_set());
        ko.unique_seq_to_set();
    }

    pub fn new() -> (r: Self)
        ensures
            r.wf(),
            r.view() == Map::<Seq<char>, V>::empty(),
            r.key_order().len() == 0,
    {
        let r = KeyedStore { index: index_new(), keys: Vec::new(), values: Vec::new() };
        assert(r.view() =~= Map::<Seq<char>, V>::empty());
        r
    }

    /// Number of stored keys.
    pub fn len(&self) -> (r: usize)
        requires
            self.wf(),
        ensures
            r == self.view().len(),
            r == self.key_order().len(),
    {
        proof {
            self.lemma_slots();
        }
        self.keys.len()
    }

    pub fn get(&self, key: &str) -> (r: Option<&V>)
        requires
            self.wf(),
        ensures
            match r {
                Some(v) => self.view().contains_key(key@) && *v == self.view()[key@],
                None => !self.view().contains_key(key@),
            },
    {
        match index_get(&self.index, key) {
            Some(slot) => Some(&self.values[slot]),
            None => None,
        }
    }

    pub fn contains_key(&self, key: &str) -> (r: bool)
        requires
            self.wf(),
        ensures
            r == self.view().contains_key(key@),
    {
        index_get(&self.index, key).is_some()
    }

    /// Inserts or replaces the value for `key`. A new key takes the next slot.
    pub fn insert(&mut self, key: String, value: V)
        requires
            old(self).wf(),
        ensures
            final(self).wf(),
            final(self).view() == old(self).view().insert(key@, value),
            old(self).view().contains_key(key@) ==> final(self).key_order() == old(self).key_order(),
            !old(self).view().contains_key(key@) ==> final(self).key_order() == old(self).key_order().push(key@),
    {
        match index_get(&self.index, key.as_str()) {
            Some(slot) => {
                self.values[slot] = value;
                assert(final(self).view() =~= old(self).view().insert(key@, value));
                assert(final(self).key_order() =~= old(self).key_order());
            },
            None => {
                let slot = self.keys.len();
                let k2 = key.clone();
                index_insert(&mut self.index, key, slot);
                self.keys.push(k2);
                self.values.push(value);
                proof {
                    assert forall|i: int| 0 <= i < self.keys.len() implies #[trigger] slot_index(self.index).contains_key(self.keys[i]@)
                        && slot_index(self.index)[self.keys[i]@] == i by {
                        if i < slot {
                            assert(old(self).keys[i]@ != key@);
                        }
                    }
                }
                assert(final(self).view() =~= old(self).view().insert(key@, value));
                assert(final(self).key_order() =~= old(self).key_order().push(key@));
            },
        }
    }

    /// Removes `key`; the last slot moves into the freed one.
    pub fn remove(&mut self, key: &str)
        requires
            old(self).wf(),
        ensures
            final(self).wf(),
            final(self).view() == old(self).view().remove(key@),
    {
        match index_get(&self.index, key) {
            None => {
                assert(final(self).view() =~= old(self).view().remove(key@));
            },
            Some(slot) => {
                let last = self.keys.len() - 1;
                if slot < last {
                    let moved = self.keys[last].clone();
                    index_insert(&mut self.index, moved, slot);
                }
                index_remove(&mut self.index, key);
                self.keys.swap_remove(slot);
                self.values.swap_remove(slot);
                proof {
                    let ok = old(self).keys@;
                    assert forall|i: int| 0 <= i < self.keys.len() implies #[trigger] slot_index(self.index).contains_key(self.keys[i]@)
                        && slot_index(self.index)[self.keys[i]@] == i by {
                        if i == slot {
                            assert(slot_index(old(self).index).contains_key(old(self).keys[last as int]@));
                            assert(self.keys[i]@ == ok[last as int]@);
                            assert(ok[last as int]@ != key@);
                        } else {
                            assert(self.keys[i] == ok[i]);
                            assert(slot_index(old(self).index).contains_key(old(self).keys[i]@));
                            assert(slot_index(old(self).index).contains_key(old(self).keys[last as int]@));
                            assert(ok[i]@ != key@);
                            assert(ok[i]@ != ok[last as int]@);
                        }
                    }
                    assert forall|k: Seq<char>| #[trigger] slot_index(self.index).contains_key(k) implies ({
                        let i = slot_index(self.index)[k];
                        0 <= i < self.keys.len() && self.keys[i as int]@ == k
                    }) by {
                        if slot < last && k == ok[last as int]@ {
                        } else {
                            assert(slot_index(old(self).index).contains_key(k));
                            let j = slot_index(old(self).index)[k] as int;
                            assert(ok[j]@ == k);
                            assert(j != slot as int);
                            assert(j != last as int);
                        }
                    }
                }
                assert(final(self).view() =~= old(self).view().remove(key@));
            },
        }
    }

    /// The key and value in slot `i`.
    pub fn slot(&self, i: usize) -> (r: (&String, &V))
        requires
            self.wf(),
            i < self.key_order().len(),
        ensures
            r.0@ == self.key_order()[i as int],
            *r.1 == self.value_order()[i as int],
    {
        (&self.keys[i], &self.values[i])
    }

    /// All keys, in slot order.
    pub fn keys(&self) -> (r: Vec<String>)
        requires
            self.wf(),
        ensures
            r@.map_values(|k: String| k@) == self.key_order(),
    {
        let r = self.keys.clone();
        assert(r@.map_values(|k: String| k@) =~= self.key_order());
        r
    }
}

} // verus!
