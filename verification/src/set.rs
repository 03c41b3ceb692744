//! [`EasySet`]: a hash set with set algebra, a subset ordering and
//! conversions, and the laws of its algebra.
use std::cmp::Ordering;
use std::collections::HashSet;
use std::hash::Hash;
use std::ops::Deref;
use vstd::prelude::*;
use vstd::std_specs::cmp::{PartialEqSpecImpl, PartialOrdSpecImpl};
use vstd::std_specs::convert::{FromSpec, FromSpecImpl};
use vstd::std_specs::hash::*;
use vstd::std_specs::iter::IteratorSpec;

use crate::model::{advance, key_model};

verus! {

/// A `HashSet` with set algebra and a subset ordering.
///
/// Its view is the mathematical set of its keys. The contracts over that view
/// hold for key types that satisfy `obeys_key_model`, the condition under
/// which the standard hash set behaves as a set of values.
#[derive(Debug)]
pub struct EasySet<K: Eq + Hash> {
    inner: HashSet<K>,
}

impl<K: Eq + Hash> View for EasySet<K> {
    type V = Set<K>;

    closed spec fn view(&self) -> Set<K> {
        self.inner@
    }
}

/// The set `s` with `k` flipped: removed if it was a member, added if not.
pub open spec fn toggled<K>(s: Set<K>, k: K) -> Set<K> {
    if s.contains(k) {
        s.remove(k)
    } else {
        s.insert(k)
    }
}

/// The elements that are in exactly one of `a` and `b`.
pub open spec fn symmetric_difference<K>(a: Set<K>, b: Set<K>) -> Set<K> {
    Set::new(|x: K| a.contains(x) != b.contains(x))
}

/// The elements of `src` whose membership in `other` is `member`.
spec fn selected<K>(src: Set<K>, other: Set<K>, member: bool) -> Set<K> {
    Set::new(|x: K| src.contains(x) && other.contains(x) == member)
}

impl<K: Eq + Hash> EasySet<K> {
    /// Creates an empty set.
    pub fn new() -> (s: EasySet<K>)
        ensures
            s@ == Set::<K>::empty(),
    {
        EasySet { inner: HashSet::new() }
    }

    /// Adds `k`; returns whether it was newly added.
    pub fn insert(&mut self, k: K) -> (added: bool)
        ensures
            obeys_key_model::<K>() ==> final(self)@ == old(self)@.insert(k),
            obeys_key_model::<K>() ==> added == !old(self)@.contains(k),
    {
        self.inner.insert(k)
    }

    /// Whether `k` is a member.
    pub fn contains(&self, k: &K) -> (found: bool)
        ensures
            obeys_key_model::<K>() ==> found == self@.contains(*k),
    {
        self.inner.contains(k)
    }

    /// Removes `k`; returns whether it was a member.
    pub fn remove(&mut self, k: &K) -> (removed: bool)
        ensures
            obeys_key_model::<K>() ==> final(self)@ == old(self)@.remove(*k),
            obeys_key_model::<K>() ==> removed == old(self)@.contains(*k),
    {
        self.inner.remove(k)
    }

    /// Flips the membership of `k` and returns whether it was a member before.
    pub fn toggle(&mut self, k: K) -> (was_member: bool)
        ensures
            obeys_key_model::<K>() ==> was_member == old(self)@.contains(k),
            obeys_key_model::<K>() ==> final(self)@ == toggled(old(self)@, k),
    {
        let contained_key = self.contains(&k);
        if contained_key {
            self.remove(&k);
        } else {
            self.insert(k);
        }
        contained_key
    }
}

impl<K: Eq + Hash + Clone> EasySet<K> {
    /// Adds to `self` a clone of each key of `src` whose membership in `other`
    /// is `member`.
    ///
    /// The walk is bounded by the length of `src`, not by its iterator, so
    /// that it ends for every key type, whatever is known of the iterator.
    fn absorb(&mut self, src: &HashSet<K>, other: &HashSet<K>, member: bool)
        ensures
            key_model::<K>() ==> final(self)@ == old(self)@.union(
                selected(src@, other@, member),
            ),
    {
        let n = src.len();
        let mut it = src.iter();
        let ghost keys = it.remaining();
        let mut i: usize = 0;
        while i < n
            invariant
                i <= n,
                key_model::<K>() ==> {
                    &&& keys.len() == n
                    &&& keys.unref().to_set() == src@
                    &&& it.remaining() == keys.skip(i as int)
                    &&& forall|x: K| #[trigger]
                        self@.contains(x) <==> old(self)@.contains(x) || (other@.contains(x)
                            == member && exists|j: int| 0 <= j < i && *keys[j] == x)
                },
            decreases n - i,
        {
            match advance(&mut it) {
                Some(k) => {
                    if other.contains(k) == member {
                        let c = k.clone();
                        assert(cloned(*k, c));
                        self.insert(c);
                    }
                },
                None => {},
            }
            i += 1;
        }
        proof {
            if key_model::<K>() {
                assert forall|x: K| src@.contains(x) <==> exists|j: int|
                    0 <= j < n && *keys[j] == x by {
                    if src@.contains(x) {
                        assert(keys.unref().contains(x));
                        let j = choose|j: int| 0 <= j < keys.unref().len() && keys.unref()[j] == x;
                        assert(*keys[j] == x);
                    }
                    if exists|j: int| 0 <= j < n && *keys[j] == x {
                        let j = choose|j: int| 0 <= j < n && *keys[j] == x;
                        assert(keys.unref()[j] == x);
                    }
                }
                assert(final(self)@ =~= old(self)@.union(selected(src@, other@, member)));
            }
        }
    }

    /// The keys that are in both `self` and `rhs`.
    pub fn intersect(&self, rhs: &EasySet<K>) -> (out: EasySet<K>)
        ensures
            key_model::<K>() ==> out@ == self@.intersect(rhs@),
    {
        let mut out = EasySet::new();
        out.absorb(&self.inner, &rhs.inner, true);
        proof {
            if key_model::<K>() {
                assert(out@ =~= self@.intersect(rhs@));
            }
        }
        out
    }

    /// The keys that are in `self` or in `rhs`.
    pub fn union_with(&self, rhs: &EasySet<K>) -> (out: EasySet<K>)
        ensures
            key_model::<K>() ==> out@ == self@.union(rhs@),
    {
        let mut out = EasySet::new();
        out.absorb(&self.inner, &self.inner, true);
        out.absorb(&rhs.inner, &self.inner, false);
        proof {
            if key_model::<K>() {
                assert(out@ =~= self@.union(rhs@));
            }
        }
        out
    }

    /// The keys that are in exactly one of `self` and `rhs`.
    pub fn symmetric_diff(&self, rhs: &EasySet<K>) -> (out: EasySet<K>)
        ensures
            key_model::<K>() ==> out@ == symmetric_difference(self@, rhs@),
    {
        let mut out = EasySet::new();
        out.absorb(&self.inner, &rhs.inner, false);
        out.absorb(&rhs.inner, &self.inner, false);
        proof {
            if key_model::<K>() {
                assert(out@ =~= symmetric_difference(self@, rhs@));
            }
        }
        out
    }

    /// The keys that are in `self` and not in `rhs`.
    pub fn diff(&self, rhs: &EasySet<K>) -> (out: EasySet<K>)
        ensures
            key_model::<K>() ==> out@ == self@.difference(rhs@),
    {
        let mut out = EasySet::new();
        out.absorb(&self.inner, &rhs.inner, false);
        proof {
            if key_model::<K>() {
                assert(out@ =~= self@.difference(rhs@));
            }
        }
        out
    }
}

impl<K: Eq + Hash> EasySet<K> {
    /// Whether every key of `self` is a key of `other`.
    ///
    /// The walk is bounded by the length of `self`, as in the set operations.
    pub fn is_subset(&self, other: &EasySet<K>) -> (included: bool)
        ensures
            obeys_key_model::<K>() ==> included == self@.subset_of(other@),
    {
        let n = self.inner.len();
        let mut it = self.inner.iter();
        let ghost keys = it.remaining();
        let mut i: usize = 0;
        while i < n
            invariant
                i <= n,
                obeys_key_model::<K>() ==> {
                    &&& keys.len() == n
                    &&& keys.unref().to_set() == self@
                    &&& it.remaining() == keys.skip(i as int)
                    &&& forall|j: int| 0 <= j < i ==> other@.contains(*#[trigger] keys[j])
                },
            decreases n - i,
        {
            match advance(&mut it) {
                Some(k) => {
                    if !other.contains(k) {
                        proof {
                            if obeys_key_model::<K>() {
                                assert(keys.unref()[i as int] == *k);
                                assert(keys.unref().contains(*k));
                                assert(self@.contains(*k));
                            }
                        }
                        return false;
                    }
                },
                None => {},
            }
            i += 1;
        }
        proof {
            if obeys_key_model::<K>() {
                assert forall|x: K| self@.contains(x) implies other@.contains(x) by {
                    assert(keys.unref().contains(x));
                    let j = choose|j: int| 0 <= j < keys.unref().len() && keys.unref()[j] == x;
                    assert(*keys[j] == x);
                }
            }
        }
        true
    }
}

impl<K: Eq + Hash + Clone> EasySet<K> {
    /// Clones of the keys, each once, in the order in which the hash set
    /// gives them.
    ///
    /// The walk is bounded by the length of `self`, as in the set operations.
    pub fn to_vec(&self) -> (items: Vec<K>)
        ensures
            key_model::<K>() ==> items@.to_set() == self@,
            key_model::<K>() ==> items@.no_duplicates(),
    {
        let n = self.inner.len();
        let mut it = self.inner.iter();
        let ghost keys = it.remaining();
        let mut items: Vec<K> = Vec::new();
        let mut i: usize = 0;
        while i < n
            invariant
                i <= n,
                key_model::<K>() ==> {
                    &&& keys.len() == n
                    &&& keys.unref().to_set() == self@
                    &&& keys.no_duplicates()
                    &&& it.remaining() == keys.skip(i as int)
                    &&& items@ == keys.unref().take(i as int)
                },
            decreases n - i,
        {
            match advance(&mut it) {
                Some(k) => {
                    let c = k.clone();
                    assert(cloned(*k, c));
                    items.push(c);
                    proof {
                        if key_model::<K>() {
                            assert(keys.unref().take(i + 1) =~= keys.unref().take(i as int).push(
                                *k,
                            ));
                        }
                    }
                },
                None => {},
            }
            i += 1;
        }
        proof {
            if key_model::<K>() {
                assert(keys.unref().take(n as int) =~= keys.unref());
                assert forall|a: int, b: int|
                    0 <= a < b < keys.len() implies keys.unref()[a] != keys.unref()[b] by {
                    assert(keys[a] != keys[b]);
                }
            }
        }
        items
    }
}

/// Consuming iteration, in no particular order, over clones of the keys.
impl<K: Eq + Hash + Clone> IntoIterator for EasySet<K> {
    type Item = K;

    type IntoIter = std::vec::IntoIter<K>;

    fn into_iter(self) -> (items: std::vec::IntoIter<K>)
        ensures
            key_model::<K>() ==> items.remaining().to_set() == self@,
            key_model::<K>() ==> items.remaining().no_duplicates(),
    {
        self.to_vec().into_iter()
    }
}

/// Read access to the underlying hash set.
impl<K: Eq + Hash> Deref for EasySet<K> {
    type Target = HashSet<K>;

    fn deref(&self) -> (inner: &HashSet<K>)
        ensures
            inner@ == self@,
    {
        &self.inner
    }
}

/// How `a` stands to `b` by inclusion: `Less` for a strict subset, `Greater`
/// for a strict superset, `Equal` for the same set, and no relation otherwise.
pub open spec fn inclusion_order<K>(a: Set<K>, b: Set<K>) -> Option<Ordering> {
    if a == b {
        Some(Ordering::Equal)
    } else if a.subset_of(b) {
        Some(Ordering::Less)
    } else if b.subset_of(a) {
        Some(Ordering::Greater)
    } else {
        None
    }
}

/// The inclusion order forced into three outcomes: sets that are not related
/// by inclusion count as `Equal`.
pub open spec fn flattened_order<K>(a: Set<K>, b: Set<K>) -> Ordering {
    match inclusion_order(a, b) {
        Some(o) => o,
        None => Ordering::Equal,
    }
}

impl<K: Eq + Hash> EasySet<K> {
    /// Compares by inclusion with three outcomes.
    ///
    /// Beware that two sets of which neither includes the other compare as
    /// `Equal` here although `==` tells them apart; `partial_cmp` reports
    /// such a pair as unrelated.
    pub fn cmp(&self, other: &EasySet<K>) -> (o: Ordering)
        ensures
            obeys_key_model::<K>() ==> o == flattened_order(self@, other@),
    {
        match self.partial_cmp(other) {
            Some(o) => o,
            None => Ordering::Equal,
        }
    }
}

/// Two sets are equal when they hold the same keys.
impl<K: Eq + Hash> PartialEq for EasySet<K> {
    fn eq(&self, other: &EasySet<K>) -> (same: bool) {
        let same = self.is_subset(other) && other.is_subset(self);
        proof {
            if obeys_key_model::<K>() {
                assert(same == (self@ =~= other@));
            }
        }
        same
    }
}

impl<K: Eq + Hash> PartialEqSpecImpl for EasySet<K> {
    open spec fn obeys_eq_spec() -> bool {
        obeys_key_model::<K>()
    }

    open spec fn eq_spec(&self, other: &EasySet<K>) -> bool {
        self@ == other@
    }
}

impl<K: Eq + Hash> Eq for EasySet<K> {

}

/// Sets are ordered by inclusion: `a < b` when `a` is a strict subset of `b`.
/// Two sets of which neither includes the other are not related.
impl<K: Eq + Hash> PartialOrd for EasySet<K> {
    fn partial_cmp(&self, other: &EasySet<K>) -> (o: Option<Ordering>) {
        let below = self.is_subset(other);
        let above = other.is_subset(self);
        proof {
            if obeys_key_model::<K>() {
                assert((below && above) == (self@ =~= other@));
            }
        }
        if below && above {
            Some(Ordering::Equal)
        } else if below {
            Some(Ordering::Less)
        } else if above {
            Some(Ordering::Greater)
        } else {
            None
        }
    }
}

impl<K: Eq + Hash> PartialOrdSpecImpl for EasySet<K> {
    open spec fn obeys_partial_cmp_spec() -> bool {
        obeys_key_model::<K>()
    }

    open spec fn partial_cmp_spec(&self, other: &EasySet<K>) -> Option<Ordering> {
        inclusion_order(self@, other@)
    }
}

/// A clone holds a clone of each key.
impl<K: Eq + Hash + Clone> Clone for EasySet<K> {
    fn clone(&self) -> (out: EasySet<K>)
        ensures
            key_model::<K>() ==> out@ == self@,
    {
        let mut out = EasySet::new();
        out.absorb(&self.inner, &self.inner, true);
        proof {
            if key_model::<K>() {
                assert(out@ =~= self@);
            }
        }
        out
    }
}

/// Builds the set of the vector's items, inserting them in order.
///
/// Only the keys of the result are determined by the argument, not the hash
/// table that holds them: the contract is the `ensures` of `from`.
impl<K: Eq + Hash> From<Vec<K>> for EasySet<K> {
    fn from(v: Vec<K>) -> (out: EasySet<K>)
        ensures
            obeys_key_model::<K>() ==> out@ == v@.to_set(),
    {
        let mut out = EasySet::new();
        for k in it: v.into_iter()
            invariant
                it.seq() == v@,
                obeys_key_model::<K>() ==> out@ == v@.take(it.index()).to_set(),
        {
            proof {
                let i = it.index();
                assert(v@.take(i + 1) =~= v@.take(i).push(v@[i]));
                v@.take(i).lemma_push_to_set_commute(v@[i]);
            }
            out.insert(k);
        }
        proof {
            assert(v@.take(v@.len() as int) =~= v@);
        }
        out
    }
}

impl<K: Eq + Hash> FromSpecImpl<Vec<K>> for EasySet<K> {
    open spec fn obeys_from_spec() -> bool {
        false
    }

    open spec fn from_spec(v: Vec<K>) -> EasySet<K> {
        arbitrary()
    }
}

/// Builds the set of the slice's items, cloning each.
impl<K: Eq + Hash + Clone> From<&[K]> for EasySet<K> {
    fn from(v: &[K]) -> (out: EasySet<K>)
        ensures
            key_model::<K>() ==> out@ == v@.to_set(),
    {
        let mut out = EasySet::new();
        let n = v.len();
        let mut i: usize = 0;
        while i < n
            invariant
                i <= n,
                n == v@.len(),
                key_model::<K>() ==> out@ == v@.take(i as int).to_set(),
            decreases n - i,
        {
            proof {
                assert(v@.take(i + 1) =~= v@.take(i as int).push(v@[i as int]));
                v@.take(i as int).lemma_push_to_set_commute(v@[i as int]);
            }
            let c = v[i].clone();
            assert(cloned(v@[i as int], c));
            out.insert(c);
            i += 1;
        }
        proof {
            assert(v@.take(v@.len() as int) =~= v@);
        }
        out
    }
}

impl<K: Eq + Hash + Clone> FromSpecImpl<&[K]> for EasySet<K> {
    open spec fn obeys_from_spec() -> bool {
        false
    }

    open spec fn from_spec(v: &[K]) -> EasySet<K> {
        arbitrary()
    }
}

/// Builds the set of the characters of a string.
impl From<String> for EasySet<char> {
    fn from(s: String) -> (out: EasySet<char>)
        ensures
            obeys_key_model::<char>() ==> out@ == s@.to_set(),
    {
        let mut out = EasySet::new();
        for c in it: s.as_str().chars()
            invariant
                it.seq() == s@,
                obeys_key_model::<char>() ==> out@ == s@.take(it.index()).to_set(),
        {
            proof {
                let i = it.index();
                assert(s@.take(i + 1) =~= s@.take(i).push(s@[i]));
                s@.take(i).lemma_push_to_set_commute(s@[i]);
            }
            out.insert(c);
        }
        proof {
            assert(s@.take(s@.len() as int) =~= s@);
        }
        out
    }
}

impl FromSpecImpl<String> for EasySet<char> {
    open spec fn obeys_from_spec() -> bool {
        false
    }

    open spec fn from_spec(s: String) -> EasySet<char> {
        arbitrary()
    }
}

/// Copies another set.
impl<K: Eq + Hash + Clone> From<&EasySet<K>> for EasySet<K> {
    fn from(easy: &EasySet<K>) -> (out: EasySet<K>)
        ensures
            key_model::<K>() ==> out@ == easy@,
    {
        easy.clone()
    }
}

impl<K: Eq + Hash + Clone> FromSpecImpl<&EasySet<K>> for EasySet<K> {
    open spec fn obeys_from_spec() -> bool {
        false
    }

    open spec fn from_spec(easy: &EasySet<K>) -> EasySet<K> {
        arbitrary()
    }
}

/// Wraps a hash set.
impl<K: Eq + Hash> From<HashSet<K>> for EasySet<K> {
    fn from(inner: HashSet<K>) -> (out: EasySet<K>)
        ensures
            out@ == inner@,
    {
        EasySet { inner }
    }
}

impl<K: Eq + Hash> FromSpecImpl<HashSet<K>> for EasySet<K> {
    open spec fn obeys_from_spec() -> bool {
        true
    }

    closed spec fn from_spec(inner: HashSet<K>) -> EasySet<K> {
        EasySet { inner }
    }
}

/// Copies a hash set.
impl<K: Eq + Hash + Clone> From<&HashSet<K>> for EasySet<K> {
    fn from(hash: &HashSet<K>) -> (out: EasySet<K>)
        ensures
            key_model::<K>() ==> out@ == hash@,
    {
        let mut out = EasySet::new();
        out.absorb(hash, hash, true);
        proof {
            if key_model::<K>() {
                assert(out@ =~= hash@);
            }
        }
        out
    }
}

impl<K: Eq + Hash + Clone> FromSpecImpl<&HashSet<K>> for EasySet<K> {
    open spec fn obeys_from_spec() -> bool {
        false
    }

    open spec fn from_spec(hash: &HashSet<K>) -> EasySet<K> {
        arbitrary()
    }
}

/// Unwraps the hash set.
impl<K: Eq + Hash> From<EasySet<K>> for HashSet<K> {
    fn from(easy: EasySet<K>) -> (out: HashSet<K>)
        ensures
            out@ == easy@,
    {
        easy.inner
    }
}

impl<K: Eq + Hash> FromSpecImpl<EasySet<K>> for HashSet<K> {
    open spec fn obeys_from_spec() -> bool {
        true
    }

    closed spec fn from_spec(easy: EasySet<K>) -> HashSet<K> {
        easy.inner
    }
}

/// Copies the hash set out.
impl<K: Eq + Hash + Clone> From<&EasySet<K>> for HashSet<K> {
    fn from(easy: &EasySet<K>) -> (out: HashSet<K>)
        ensures
            key_model::<K>() ==> out@ == easy@,
    {
        easy.clone().inner
    }
}

impl<K: Eq + Hash + Clone> FromSpecImpl<&EasySet<K>> for HashSet<K> {
    open spec fn obeys_from_spec() -> bool {
        false
    }

    open spec fn from_spec(easy: &EasySet<K>) -> HashSet<K> {
        arbitrary()
    }
}

/// Intersection does not depend on the order of its operands.
pub proof fn lemma_intersection_commutes<K: Eq + Hash>(a: EasySet<K>, b: EasySet<K>)
    ensures
        a@.intersect(b@) == b@.intersect(a@),
{
    assert(a@.intersect(b@) =~= b@.intersect(a@));
}

/// Union does not depend on the order of its operands.
pub proof fn lemma_union_commutes<K: Eq + Hash>(a: EasySet<K>, b: EasySet<K>)
    ensures
        a@.union(b@) == b@.union(a@),
{
    assert(a@.union(b@) =~= b@.union(a@));
}

/// The symmetric difference is the union of the two differences.
pub proof fn lemma_symmetric_difference_is_union_of_differences<K: Eq + Hash>(
    a: EasySet<K>,
    b: EasySet<K>,
)
    ensures
        symmetric_difference(a@, b@) == a@.difference(b@).union(b@.difference(a@)),
{
    assert(symmetric_difference(a@, b@) =~= a@.difference(b@).union(b@.difference(a@)));
}

/// A set combined with itself: intersection and union give the set back,
/// symmetric difference and difference give the empty set.
pub proof fn lemma_self_combination<K: Eq + Hash>(a: EasySet<K>)
    ensures
        a@.intersect(a@) == a@,
        a@.union(a@) == a@,
        symmetric_difference(a@, a@) == Set::<K>::empty(),
        a@.difference(a@) == Set::<K>::empty(),
{
    assert(a@.intersect(a@) =~= a@);
    assert(a@.union(a@) =~= a@);
    assert(symmetric_difference(a@, a@) =~= Set::<K>::empty());
    assert(a@.difference(a@) =~= Set::<K>::empty());
}

/// A set that is included in another and differs from it is `Less` than it,
/// and the other is `Greater`, in both forms of the comparison.
pub proof fn lemma_strict_subset_is_less<K: Eq + Hash>(a: EasySet<K>, b: EasySet<K>)
    requires
        a@.subset_of(b@),
        a@ != b@,
    ensures
        inclusion_order(a@, b@) == Some(Ordering::Less),
        inclusion_order(b@, a@) == Some(Ordering::Greater),
        flattened_order(a@, b@) == Ordering::Less,
        flattened_order(b@, a@) == Ordering::Greater,
{
    if b@.subset_of(a@) {
        assert(a@ =~= b@);
    }
}

/// Flipping the membership of a key twice gives the set back.
pub proof fn lemma_toggle_twice<K: Eq + Hash>(s: EasySet<K>, k: K)
    ensures
        toggled(toggled(s@, k), k) == s@,
        toggled(s@, k).contains(k) == !s@.contains(k),
{
    assert(toggled(toggled(s@, k), k) =~= s@);
}

/// Unwrapping the hash set of a set and wrapping it again gives the set back.
pub proof fn lemma_hash_set_round_trip<K: Eq + Hash>(s: EasySet<K>)
    ensures
        <EasySet<K> as FromSpec<HashSet<K>>>::from_spec(
            <HashSet<K> as FromSpec<EasySet<K>>>::from_spec(s),
        ) == s,
        <HashSet<K> as FromSpec<EasySet<K>>>::from_spec(s)@ == s@,
{
}

} // verus!
