//! [`EasyMap`]: a hash map with a fallback value for absent keys.
use std::collections::HashMap;
use std::hash::Hash;
use std::ops::{Deref, Index, IndexMut};
use vstd::laws_eq::obeys_concrete_eq;
use vstd::prelude::*;
use vstd::std_specs::cmp::PartialEqSpecImpl;
use vstd::std_specs::convert::FromSpecImpl;
use vstd::std_specs::hash::*;
use vstd::std_specs::iter::IteratorSpec;

use crate::model::{advance, clone_is_exact, key_model};

verus! {

/// A `HashMap` that answers the lookup of an absent key with a fallback value.
///
/// Its view is the mathematical map of its entries; `fallback` is the value
/// that stands for every key without an entry. The contracts over the view
/// hold for key types that satisfy `obeys_key_model`, the condition under
/// which the standard hash map behaves as a map of values.
#[derive(Debug)]
pub struct EasyMap<K: Eq + Hash, V: Clone> {
    inner: HashMap<K, V>,
    default: V,
}

impl<K: Eq + Hash, V: Clone> View for EasyMap<K, V> {
    type V = Map<K, V>;

    closed spec fn view(&self) -> Map<K, V> {
        self.inner@
    }
}

impl<K: Eq + Hash, V: Clone + Default> EasyMap<K, V> {
    /// Creates an empty map whose fallback is the default value of `V`.
    pub fn new() -> (m: EasyMap<K, V>)
        ensures
            m@ == Map::<K, V>::empty(),
            call_ensures(V::default, (), m.fallback()),
    {
        EasyMap::new_with_default(V::default())
    }
}

impl<K: Eq + Hash, V: Clone> EasyMap<K, V> {
    /// The value that a lookup gives for a key without an entry.
    pub closed spec fn fallback(&self) -> V {
        self.default
    }

    /// What a lookup of `k` gives: the value of its entry, or the fallback.
    pub open spec fn lookup(&self, k: K) -> V {
        if self@.contains_key(k) {
            self@[k]
        } else {
            self.fallback()
        }
    }

    /// Creates an empty map with the given fallback.
    pub fn new_with_default(default: V) -> (m: EasyMap<K, V>)
        ensures
            m@ == Map::<K, V>::empty(),
            m.fallback() == default,
    {
        EasyMap { inner: HashMap::new(), default }
    }

    /// Sets the entry of `k` to `v`; returns the value it had, if any.
    pub fn insert(&mut self, k: K, v: V) -> (previous: Option<V>)
        ensures
            final(self).fallback() == old(self).fallback(),
            obeys_key_model::<K>() ==> final(self)@ == old(self)@.insert(k, v),
            obeys_key_model::<K>() ==> previous == old(self)@.get(k),
    {
        self.inner.insert(k, v)
    }

    /// Removes the entry of `k`; returns the value it had, if any.
    pub fn remove(&mut self, k: K) -> (removed: Option<V>)
        ensures
            final(self).fallback() == old(self).fallback(),
            obeys_key_model::<K>() ==> final(self)@ == old(self)@.remove(k),
            obeys_key_model::<K>() ==> removed == old(self)@.get(k),
    {
        self.inner.remove(&k)
    }
}

/// `map[key]` as a value: the entry's value, or the fallback for an absent
/// key. The map is left as it is.
impl<K: Eq + Hash, V: Clone> Index<K> for EasyMap<K, V> {
    type Output = V;

    fn index(&self, key: K) -> (value: &V)
        ensures
            obeys_key_model::<K>() ==> *value == self.lookup(key),
    {
        match self.inner.get(&key) {
            Some(v) => v,
            None => &self.default,
        }
    }
}

impl<K: Eq + Hash, V: Clone> vstd::std_specs::core::IndexSpecImpl<K> for EasyMap<K, V> {
    open spec fn index_req(&self, index: &K) -> bool {
        true
    }
}

/// `map[key]` as a place: a key without an entry first gets one, holding a
/// clone of the fallback, whether or not anything is then written to it.
impl<K: Eq + Hash, V: Clone> IndexMut<K> for EasyMap<K, V> {
    fn index_mut(&mut self, key: K) -> (slot: &mut V)
        ensures
            final(self).fallback() == old(self).fallback(),
            obeys_key_model::<K>() ==> final(self)@ == old(self)@.insert(key, *final(slot)),
            obeys_key_model::<K>() ==> if old(self)@.contains_key(key) {
                *slot == old(self)@[key]
            } else {
                cloned(old(self).fallback(), *slot)
            },
    {
        self.inner.entry(key).or_insert(self.default.clone())
    }
}

impl<K: Eq + Hash + Clone, V: Clone> EasyMap<K, V> {
    /// Clones of the entries, each once, in the order in which the hash map
    /// gives them.
    ///
    /// The walk is bounded by the number of entries, not by the iterator, so
    /// that it ends for every key type, whatever is known of the iterator.
    pub fn to_vec(&self) -> (items: Vec<(K, V)>)
        ensures
            key_model::<K>() && clone_is_exact::<V>() ==> items@.to_set() == self@.kv_pairs(),
            key_model::<K>() && clone_is_exact::<V>() ==> items@.no_duplicates(),
    {
        let n = self.inner.len();
        let mut it = self.inner.iter();
        let ghost entries = it.remaining();
        let mut items: Vec<(K, V)> = Vec::new();
        let mut i: usize = 0;
        while i < n
            invariant
                i <= n,
                key_model::<K>() && clone_is_exact::<V>() ==> {
                    &&& entries.len() == n
                    &&& entries.unref().to_set() == self@.kv_pairs()
                    &&& entries.no_duplicates()
                    &&& it.remaining() == entries.skip(i as int)
                    &&& items@ == entries.unref().take(i as int)
                },
            decreases n - i,
        {
            match advance(&mut it) {
                Some(entry) => {
                    let (k, v) = entry;
                    let key = k.clone();
                    let value = v.clone();
                    assert(cloned(*k, key) && cloned(*v, value));
                    items.push((key, value));
                    proof {
                        if key_model::<K>() && clone_is_exact::<V>() {
                            assert(entries[i as int] == entry);
                            assert(entries.unref().take(i + 1) =~= entries.unref().take(
                                i as int,
                            ).push((*k, *v)));
                        }
                    }
                },
                None => {},
            }
            i += 1;
        }
        proof {
            if key_model::<K>() && clone_is_exact::<V>() {
                assert(entries.unref().take(n as int) =~= entries.unref());
                assert forall|a: int, b: int|
                    0 <= a < b < entries.len() implies entries.unref()[a] != entries.unref()[b] by {
                    assert(entries[a] != entries[b]);
                }
            }
        }
        items
    }
}

/// Consuming iteration, in no particular order, over clones of the entries.
impl<K: Eq + Hash + Clone, V: Clone> IntoIterator for EasyMap<K, V> {
    type Item = (K, V);

    type IntoIter = std::vec::IntoIter<(K, V)>;

    fn into_iter(self) -> (items: std::vec::IntoIter<(K, V)>)
        ensures
            key_model::<K>() && clone_is_exact::<V>() ==> items.remaining().to_set()
                == self@.kv_pairs(),
            key_model::<K>() && clone_is_exact::<V>() ==> items.remaining().no_duplicates(),
    {
        self.to_vec().into_iter()
    }
}

/// Read access to the underlying hash map.
impl<K: Eq + Hash, V: Clone> Deref for EasyMap<K, V> {
    type Target = HashMap<K, V>;

    fn deref(&self) -> (inner: &HashMap<K, V>)
        ensures
            inner@ == self@,
    {
        &self.inner
    }
}

/// The map that inserting the pairs in order builds: of two pairs with one
/// key the later one stays.
pub open spec fn entries_of<K, V>(pairs: Seq<(K, V)>) -> Map<K, V>
    decreases pairs.len(),
{
    if pairs.len() == 0 {
        Map::empty()
    } else {
        entries_of(pairs.drop_last()).insert(pairs.last().0, pairs.last().1)
    }
}

/// Whether some pair of `pairs` has the key `k`.
pub open spec fn has_key<K, V>(pairs: Seq<(K, V)>, k: K) -> bool {
    exists|i: int| 0 <= i < pairs.len() && (#[trigger] pairs[i]).0 == k
}

/// Whether the pair at `i` is the last of `pairs` with its key.
pub open spec fn is_last_with_its_key<K, V>(pairs: Seq<(K, V)>, i: int) -> bool {
    &&& 0 <= i < pairs.len()
    &&& forall|j: int| i < j < pairs.len() ==> (#[trigger] pairs[j]).0 != pairs[i].0
}

/// What `entries_of` comes to: its keys are the keys of the pairs, and each
/// key has the value of the last pair that holds it.
pub proof fn lemma_entries_of_last_pair_stays<K, V>(pairs: Seq<(K, V)>)
    ensures
        forall|k: K| #[trigger] entries_of(pairs).contains_key(k) <==> has_key(pairs, k),
        forall|i: int| #[trigger]
            is_last_with_its_key(pairs, i) ==> entries_of(pairs)[pairs[i].0] == pairs[i].1,
    decreases pairs.len(),
{
    if pairs.len() > 0 {
        let front = pairs.drop_last();
        let last = pairs.last();
        let n = pairs.len() - 1;
        lemma_entries_of_last_pair_stays(front);
        assert(entries_of(pairs) == entries_of(front).insert(last.0, last.1));
        assert forall|k: K| #[trigger] entries_of(pairs).contains_key(k) <==> has_key(
            pairs,
            k,
        ) by {
            if entries_of(pairs).contains_key(k) {
                if k == last.0 {
                    assert(pairs[n].0 == k);
                } else {
                    assert(entries_of(front).contains_key(k));
                    assert(has_key(front, k));
                    let i = choose|i: int| 0 <= i < front.len() && (#[trigger] front[i]).0 == k;
                    assert(pairs[i].0 == k);
                }
            }
            if has_key(pairs, k) {
                let i = choose|i: int| 0 <= i < pairs.len() && (#[trigger] pairs[i]).0 == k;
                if i < n {
                    assert(front[i].0 == k);
                    assert(has_key(front, k));
                }
            }
        }
        assert forall|i: int| #[trigger] is_last_with_its_key(pairs, i) implies entries_of(
            pairs,
        )[pairs[i].0] == pairs[i].1 by {
            if i < n {
                assert(front[i] == pairs[i]);
                assert(pairs[n].0 != pairs[i].0);
                assert forall|j: int| i < j < front.len() implies (#[trigger] front[j]).0
                    != front[i].0 by {
                    assert(pairs[j].0 != pairs[i].0);
                }
                assert(is_last_with_its_key(front, i));
            }
        }
    }
}

impl<K: Eq + Hash, V: Clone> EasyMap<K, V> {
    /// Creates a map with the given fallback and, for each pair in order, an
    /// entry from its key to its value.
    pub fn from_pairs_with_default(default: V, pairs: Vec<(K, V)>) -> (m: EasyMap<K, V>)
        ensures
            m.fallback() == default,
            obeys_key_model::<K>() ==> m@ == entries_of(pairs@),
    {
        let mut m = EasyMap::new_with_default(default);
        for pair in it: pairs.into_iter()
            invariant
                it.seq() == pairs@,
                m.fallback() == default,
                obeys_key_model::<K>() ==> m@ == entries_of(pairs@.take(it.index())),
        {
            proof {
                let i = it.index();
                assert(pairs@.take(i + 1).drop_last() =~= pairs@.take(i));
            }
            let (k, v) = pair;
            m.insert(k, v);
        }
        proof {
            assert(pairs@.take(pairs@.len() as int) =~= pairs@);
        }
        m
    }

    /// Gives up the underlying hash map, and with it the fallback.
    pub fn into_hash_map(self) -> (inner: HashMap<K, V>)
        ensures
            inner@ == self@,
    {
        self.inner
    }
}

/// Builds a map from pairs, inserted in order, with the default value of `V`
/// as fallback.
///
/// Only the entries and the fallback of the result are determined by the
/// argument, not the hash table that holds them: the contract is the
/// `ensures` of `from`.
impl<K: Eq + Hash, V: Clone + Default> From<Vec<(K, V)>> for EasyMap<K, V> {
    fn from(v: Vec<(K, V)>) -> (m: EasyMap<K, V>)
        ensures
            call_ensures(V::default, (), m.fallback()),
            obeys_key_model::<K>() ==> m@ == entries_of(v@),
    {
        EasyMap::from_pairs_with_default(V::default(), v)
    }
}

impl<K: Eq + Hash, V: Clone + Default> FromSpecImpl<Vec<(K, V)>> for EasyMap<K, V> {
    open spec fn obeys_from_spec() -> bool {
        false
    }

    open spec fn from_spec(v: Vec<(K, V)>) -> EasyMap<K, V> {
        arbitrary()
    }
}

/// Builds a map from clones of the pairs, inserted in order, with the default
/// value of `V` as fallback.
impl<K: Eq + Hash + Clone, V: Clone + Default> From<&[(K, V)]> for EasyMap<K, V> {
    fn from(v: &[(K, V)]) -> (m: EasyMap<K, V>)
        ensures
            call_ensures(V::default, (), m.fallback()),
            key_model::<K>() && clone_is_exact::<V>() ==> m@ == entries_of(v@),
    {
        let mut m = EasyMap::new();
        let n = v.len();
        let mut i: usize = 0;
        while i < n
            invariant
                i <= n,
                n == v@.len(),
                call_ensures(V::default, (), m.fallback()),
                key_model::<K>() && clone_is_exact::<V>() ==> m@ == entries_of(v@.take(i as int)),
            decreases n - i,
        {
            proof {
                assert(v@.take(i + 1).drop_last() =~= v@.take(i as int));
            }
            let key = v[i].0.clone();
            let value = v[i].1.clone();
            assert(cloned(v@[i as int].0, key) && cloned(v@[i as int].1, value));
            m.insert(key, value);
            i += 1;
        }
        proof {
            assert(v@.take(v@.len() as int) =~= v@);
        }
        m
    }
}

impl<K: Eq + Hash + Clone, V: Clone + Default> FromSpecImpl<&[(K, V)]> for EasyMap<K, V> {
    open spec fn obeys_from_spec() -> bool {
        false
    }

    open spec fn from_spec(v: &[(K, V)]) -> EasyMap<K, V> {
        arbitrary()
    }
}

/// A clone has the same entries, and a clone of the fallback as its fallback.
impl<K: Eq + Hash + Clone, V: Clone> Clone for EasyMap<K, V> {
    fn clone(&self) -> (out: EasyMap<K, V>)
        ensures
            out@ == self@,
            cloned(self.fallback(), out.fallback()),
    {
        EasyMap { inner: self.inner.clone(), default: self.default.clone() }
    }
}

/// Whether every entry of `a` is an entry of `b`, with an equal value.
///
/// The walk is bounded by the length of `a`, not by its iterator, so that it
/// ends for every key type, whatever is known of the iterator.
fn entries_within<K: Eq + Hash, V: PartialEq>(a: &HashMap<K, V>, b: &HashMap<K, V>) -> (within:
    bool)
    ensures
        obeys_key_model::<K>() && obeys_concrete_eq::<V>() ==> within == a@.submap_of(b@),
{
    let n = a.len();
    let mut it = a.iter();
    let ghost entries = it.remaining();
    let mut i: usize = 0;
    while i < n
        invariant
            i <= n,
            obeys_key_model::<K>() && obeys_concrete_eq::<V>() ==> {
                &&& entries.len() == n
                &&& entries == spec_hash_map_iter(a).remaining()
                &&& it.remaining() == entries.skip(i as int)
                &&& forall|j: int|
                    0 <= j < i ==> b@.contains_key(*(#[trigger] entries[j]).0) && b@[*entries[j].0]
                        == *entries[j].1
            },
        decreases n - i,
    {
        match advance(&mut it) {
            Some(entry) => {
                let (k, v) = entry;
                proof {
                    if obeys_key_model::<K>() && obeys_concrete_eq::<V>() {
                        assert(entries[i as int] == entry);
                        assert(a@.contains_key(*entries[i as int].0));
                        assert(a@[*k] == *v);
                    }
                }
                match b.get(k) {
                    Some(w) => {
                        proof {
                            reveal(obeys_concrete_eq);
                        }
                        if !(*v == *w) {
                            return false;
                        }
                    },
                    None => {
                        return false;
                    },
                }
            },
            None => {},
        }
        i += 1;
    }
    proof {
        if obeys_key_model::<K>() && obeys_concrete_eq::<V>() {
            assert forall|k: K| #[trigger] a@.dom().contains(k) implies b@.dom().contains(k)
                && a@[k] == b@[k] by {
                assert(entries.contains((&k, &a@[k])));
                let j = choose|j: int| 0 <= j < entries.len() && entries[j] == (&k, &a@[k]);
                assert(*entries[j].0 == k);
            }
        }
    }
    true
}

/// Two maps are equal when they have the same entries and the same fallback.
///
/// This is what `==` computes where the keys satisfy `obeys_key_model` and
/// `==` on `V` tells whether two values are the same (`obeys_concrete_eq`).
impl<K: Eq + Hash, V: Clone + PartialEq> PartialEq for EasyMap<K, V> {
    fn eq(&self, other: &EasyMap<K, V>) -> (same: bool) {
        proof {
            reveal(obeys_concrete_eq);
        }
        let same = self.default == other.default && entries_within(&self.inner, &other.inner)
            && entries_within(&other.inner, &self.inner);
        proof {
            if obeys_key_model::<K>() && obeys_concrete_eq::<V>() {
                if self@.submap_of(other@) && other@.submap_of(self@) {
                    assert(self@.dom() =~= other@.dom());
                    assert(self@ =~= other@);
                }
            }
        }
        same
    }
}

impl<K: Eq + Hash, V: Clone + PartialEq> PartialEqSpecImpl for EasyMap<K, V> {
    open spec fn obeys_eq_spec() -> bool {
        obeys_key_model::<K>() && obeys_concrete_eq::<V>()
    }

    open spec fn eq_spec(&self, other: &EasyMap<K, V>) -> bool {
        self@ == other@ && self.fallback() == other.fallback()
    }
}

impl<K: Eq + Hash, V: Clone + Eq> Eq for EasyMap<K, V> {

}

/// A key without an entry is looked up as the fallback, and a key with an
/// entry as the value of the entry.
pub proof fn lemma_lookup<K: Eq + Hash, V: Clone>(m: EasyMap<K, V>, k: K)
    ensures
        !m@.contains_key(k) ==> m.lookup(k) == m.fallback(),
        m@.contains_key(k) ==> m.lookup(k) == m@[k],
{
}

/// Once a value is assigned to a key, the key is looked up as that value,
/// and every other key as before.
pub proof fn lemma_lookup_after_assignment<K: Eq + Hash, V: Clone>(
    before: EasyMap<K, V>,
    after: EasyMap<K, V>,
    k: K,
    v: V,
)
    requires
        after@ == before@.insert(k, v),
        after.fallback() == before.fallback(),
    ensures
        after.lookup(k) == v,
        forall|other: K| other != k ==> after.lookup(other) == before.lookup(other),
{
}

/// Once a key without an entry is indexed as a place and nothing is written
/// there, the key has an entry, which holds what the place held: a clone of
/// the fallback.
pub proof fn lemma_place_of_absent_key<K: Eq + Hash, V: Clone>(
    before: EasyMap<K, V>,
    after: EasyMap<K, V>,
    k: K,
    slot: V,
)
    requires
        !before@.contains_key(k),
        cloned(before.fallback(), slot),
        after@ == before@.insert(k, slot),
        after.fallback() == before.fallback(),
    ensures
        after@.contains_key(k),
        cloned(before.fallback(), after.lookup(k)),
        clone_is_exact::<V>() ==> after.lookup(k) == before.fallback(),
{
}

} // verus!
