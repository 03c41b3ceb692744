//! The conditions on key and value types under which the contracts of this
//! crate speak, and a helper to walk an iterator of the standard library.
use vstd::prelude::*;
use vstd::std_specs::hash::*;
use vstd::std_specs::iter::IteratorSpec;

verus! {

/// Takes the next item of an iterator that keeps the iterator laws.
pub(crate) fn advance<I: Iterator>(it: &mut I) -> (item: Option<I::Item>)
    ensures
        (*final(it)).obeys_prophetic_iter_laws() == (*old(it)).obeys_prophetic_iter_laws(),
        (*old(it)).obeys_prophetic_iter_laws() ==> if (*old(it)).remaining().len() > 0 {
            &&& (*final(it)).remaining() == (*old(it)).remaining().drop_first()
            &&& item == Some((*old(it)).remaining()[0])
        } else {
            &&& (*final(it)).remaining() == (*old(it)).remaining()
            &&& item is None
        },
{
    it.next()
}

/// The conversion of a value into its own type, `From<T> for T` of the
/// standard library: as its documentation says, it returns the argument
/// unchanged. This contract is taken on trust.
pub assume_specification<U>[ <U as From<U>>::from ](u: U) -> (same: U)
    ensures
        same == u,
;

/// Whether cloning a value of `T` gives back the very same value.
pub open spec fn clone_is_exact<T: Clone>() -> bool {
    forall|a: T, b: T| #[trigger] cloned(a, b) ==> a == b
}

/// Whether the standard hash containers keyed by `K` behave as containers of
/// values, and a clone of a key is the key itself.
pub open spec fn key_model<K: Clone>() -> bool {
    obeys_key_model::<K>() && clone_is_exact::<K>()
}

} // verus!
