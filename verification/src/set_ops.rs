//! The set operators `&`, `|`, `^` and `-` on [`EasySet`], each by value, by
//! reference and in place.
//!
//! The right operand is anything that converts into a set. The contracts
//! speak of the set `r` that the conversion gives. As only the keys of a
//! result are determined, not the hash table that holds them, the `*_spec`
//! functions of the operator traits are not obeyed and the `ensures` carry the
//! contract.
use std::hash::Hash;
use std::ops::{BitAnd, BitAndAssign, BitOr, BitOrAssign, BitXor, BitXorAssign, Sub, SubAssign};
use vstd::prelude::*;
use vstd::std_specs::ops::{BitAndSpecImpl, BitOrSpecImpl, BitXorSpecImpl, SubSpecImpl};

use crate::model::key_model;
use crate::set::{symmetric_difference, EasySet};

verus! {

/// `self & rhs`: the keys in both operands.
impl<K: Eq + Hash + Clone, T: Into<EasySet<K>>> BitAnd<T> for &EasySet<K> {
    type Output = EasySet<K>;

    fn bitand(self, rhs: T) -> (out: EasySet<K>)
        ensures
            key_model::<K>() ==> exists|r: EasySet<K>| #[trigger]
                call_ensures(T::into, (rhs,), r) && out@ == self@.intersect(r@),
    {
        let r: EasySet<K> = rhs.into();
        self.intersect(&r)
    }
}

impl<K: Eq + Hash + Clone, T: Into<EasySet<K>>> BitAndSpecImpl<T> for &EasySet<K> {
    open spec fn obeys_bitand_spec() -> bool {
        false
    }

    open spec fn bitand_req(self, rhs: T) -> bool {
        true
    }

    open spec fn bitand_spec(self, rhs: T) -> EasySet<K> {
        arbitrary()
    }
}

/// `self & rhs`: the keys in both operands.
impl<K: Eq + Hash + Clone, T: Into<EasySet<K>>> BitAnd<T> for EasySet<K> {
    type Output = EasySet<K>;

    fn bitand(self, rhs: T) -> (out: EasySet<K>)
        ensures
            key_model::<K>() ==> exists|r: EasySet<K>| #[trigger]
                call_ensures(T::into, (rhs,), r) && out@ == self@.intersect(r@),
    {
        let r: EasySet<K> = rhs.into();
        self.intersect(&r)
    }
}

impl<K: Eq + Hash + Clone, T: Into<EasySet<K>>> BitAndSpecImpl<T> for EasySet<K> {
    open spec fn obeys_bitand_spec() -> bool {
        false
    }

    open spec fn bitand_req(self, rhs: T) -> bool {
        true
    }

    open spec fn bitand_spec(self, rhs: T) -> EasySet<K> {
        arbitrary()
    }
}

/// Keeps in `self` the keys that are also in `rhs`.
impl<K: Eq + Hash + Clone, T: Into<EasySet<K>>> BitAndAssign<T> for EasySet<K> {
    fn bitand_assign(&mut self, rhs: T)
        ensures
            key_model::<K>() ==> exists|r: EasySet<K>| #[trigger]
                call_ensures(T::into, (rhs,), r) && (*final(self))@ == (*old(self))@.intersect(r@),
    {
        let r: EasySet<K> = rhs.into();
        *self = self.intersect(&r);
    }
}

/// `self | rhs`: the keys in either operand.
impl<K: Eq + Hash + Clone, T: Into<EasySet<K>>> BitOr<T> for &EasySet<K> {
    type Output = EasySet<K>;

    fn bitor(self, rhs: T) -> (out: EasySet<K>)
        ensures
            key_model::<K>() ==> exists|r: EasySet<K>| #[trigger]
                call_ensures(T::into, (rhs,), r) && out@ == self@.union(r@),
    {
        let r: EasySet<K> = rhs.into();
        self.union_with(&r)
    }
}

impl<K: Eq + Hash + Clone, T: Into<EasySet<K>>> BitOrSpecImpl<T> for &EasySet<K> {
    open spec fn obeys_bitor_spec() -> bool {
        false
    }

    open spec fn bitor_req(self, rhs: T) -> bool {
        true
    }

    open spec fn bitor_spec(self, rhs: T) -> EasySet<K> {
        arbitrary()
    }
}

/// `self | rhs`: the keys in either operand.
impl<K: Eq + Hash + Clone, T: Into<EasySet<K>>> BitOr<T> for EasySet<K> {
    type Output = EasySet<K>;

    fn bitor(self, rhs: T) -> (out: EasySet<K>)
        ensures
            key_model::<K>() ==> exists|r: EasySet<K>| #[trigger]
                call_ensures(T::into, (rhs,), r) && out@ == self@.union(r@),
    {
        let r: EasySet<K> = rhs.into();
        self.union_with(&r)
    }
}

impl<K: Eq + Hash + Clone, T: Into<EasySet<K>>> BitOrSpecImpl<T> for EasySet<K> {
    open spec fn obeys_bitor_spec() -> bool {
        false
    }

    open spec fn bitor_req(self, rhs: T) -> bool {
        true
    }

    open spec fn bitor_spec(self, rhs: T) -> EasySet<K> {
        arbitrary()
    }
}

/// Adds to `self` the keys of `rhs`.
impl<K: Eq + Hash + Clone, T: Into<EasySet<K>>> BitOrAssign<T> for EasySet<K> {
    fn bitor_assign(&mut self, rhs: T)
        ensures
            key_model::<K>() ==> exists|r: EasySet<K>| #[trigger]
                call_ensures(T::into, (rhs,), r) && (*final(self))@ == (*old(self))@.union(r@),
    {
        let r: EasySet<K> = rhs.into();
        *self = self.union_with(&r);
    }
}

/// `self ^ rhs`: the keys in exactly one operand.
impl<K: Eq + Hash + Clone, T: Into<EasySet<K>>> BitXor<T> for &EasySet<K> {
    type Output = EasySet<K>;

    fn bitxor(self, rhs: T) -> (out: EasySet<K>)
        ensures
            key_model::<K>() ==> exists|r: EasySet<K>| #[trigger]
                call_ensures(T::into, (rhs,), r) && out@ == symmetric_difference(self@, r@),
    {
        let r: EasySet<K> = rhs.into();
        self.symmetric_diff(&r)
    }
}

impl<K: Eq + Hash + Clone, T: Into<EasySet<K>>> BitXorSpecImpl<T> for &EasySet<K> {
    open spec fn obeys_bitxor_spec() -> bool {
        false
    }

    open spec fn bitxor_req(self, rhs: T) -> bool {
        true
    }

    open spec fn bitxor_spec(self, rhs: T) -> EasySet<K> {
        arbitrary()
    }
}

/// `self ^ rhs`: the keys in exactly one operand.
impl<K: Eq + Hash + Clone, T: Into<EasySet<K>>> BitXor<T> for EasySet<K> {
    type Output = EasySet<K>;

    fn bitxor(self, rhs: T) -> (out: EasySet<K>)
        ensures
            key_model::<K>() ==> exists|r: EasySet<K>| #[trigger]
                call_ensures(T::into, (rhs,), r) && out@ == symmetric_difference(self@, r@),
    {
        let r: EasySet<K> = rhs.into();
        self.symmetric_diff(&r)
    }
}

impl<K: Eq + Hash + Clone, T: Into<EasySet<K>>> BitXorSpecImpl<T> for EasySet<K> {
    open spec fn obeys_bitxor_spec() -> bool {
        false
    }

    open spec fn bitxor_req(self, rhs: T) -> bool {
        true
    }

    open spec fn bitxor_spec(self, rhs: T) -> EasySet<K> {
        arbitrary()
    }
}

/// Leaves in `self` the keys that are in exactly one operand.
impl<K: Eq + Hash + Clone, T: Into<EasySet<K>>> BitXorAssign<T> for EasySet<K> {
    fn bitxor_assign(&mut self, rhs: T)
        ensures
            key_model::<K>() ==> exists|r: EasySet<K>| #[trigger]
                call_ensures(T::into, (rhs,), r) && (*final(self))@ == symmetric_difference((*old(self))@, r@),
    {
        let r: EasySet<K> = rhs.into();
        *self = self.symmetric_diff(&r);
    }
}

/// `self - rhs`: the keys of `self` that are not in `rhs`.
impl<K: Eq + Hash + Clone, T: Into<EasySet<K>>> Sub<T> for &EasySet<K> {
    type Output = EasySet<K>;

    fn sub(self, rhs: T) -> (out: EasySet<K>)
        ensures
            key_model::<K>() ==> exists|r: EasySet<K>| #[trigger]
                call_ensures(T::into, (rhs,), r) && out@ == self@.difference(r@),
    {
        let r: EasySet<K> = rhs.into();
        self.diff(&r)
    }
}

impl<K: Eq + Hash + Clone, T: Into<EasySet<K>>> SubSpecImpl<T> for &EasySet<K> {
    open spec fn obeys_sub_spec() -> bool {
        false
    }

    open spec fn sub_req(self, rhs: T) -> bool {
        true
    }

    open spec fn sub_spec(self, rhs: T) -> EasySet<K> {
        arbitrary()
    }
}

/// `self - rhs`: the keys of `self` that are not in `rhs`.
impl<K: Eq + Hash + Clone, T: Into<EasySet<K>>> Sub<T> for EasySet<K> {
    type Output = EasySet<K>;

    fn sub(self, rhs: T) -> (out: EasySet<K>)
        ensures
            key_model::<K>() ==> exists|r: EasySet<K>| #[trigger]
                call_ensures(T::into, (rhs,), r) && out@ == self@.difference(r@),
    {
        let r: EasySet<K> = rhs.into();
        self.diff(&r)
    }
}

impl<K: Eq + Hash + Clone, T: Into<EasySet<K>>> SubSpecImpl<T> for EasySet<K> {
    open spec fn obeys_sub_spec() -> bool {
        false
    }

    open spec fn sub_req(self, rhs: T) -> bool {
        true
    }

    open spec fn sub_spec(self, rhs: T) -> EasySet<K> {
        arbitrary()
    }
}

/// Removes from `self` the keys of `rhs`.
impl<K: Eq + Hash + Clone, T: Into<EasySet<K>>> SubAssign<T> for EasySet<K> {
    fn sub_assign(&mut self, rhs: T)
        ensures
            key_model::<K>() ==> exists|r: EasySet<K>| #[trigger]
                call_ensures(T::into, (rhs,), r) && (*final(self))@ == (*old(self))@.difference(r@),
    {
        let r: EasySet<K> = rhs.into();
        *self = self.diff(&r);
    }
}

} // verus!
