//! Handing views over as `owning_ref` references.
//!
//! An `OwningRef` pairs an owner with a reference into it. The verifier
//! sees nothing inside such a value, so the functions here promise nothing
//! about their results: they only make the conversion, on ranges that are
//! known to lie inside the collection.

use crate::chunk::range_of;
use crate::owner::SliceOwner;
use owning_ref::OwningRef;
use std::sync::Arc;
use vstd::prelude::*;

verus! {

/// `owning_ref::OwningRef`, carried through as a value that the verifier
/// does not look into.
#[verifier::external_type_specification]
#[verifier::external_body]
#[verifier::reject_recursive_types(O)]
#[verifier::reject_recursive_types(T)]
pub struct ExOwningRef<O, T: ?Sized>(OwningRef<O, T>);

/// Borrows the element of a collection at `index`.
pub fn element_of<S, T>(owner: &S, index: usize) -> (element: &T) where S: SliceOwner<T>
    requires
        index < owner.elements().len(),
    ensures
        *element == owner.elements()[index as int],
{
    let whole: &[T] = owner.as_slice();
    &whole[index]
}

/// `OwningRef::new` followed by `OwningRef::map`: an owning reference to
/// the elements `[start, start + len)` of the collection behind `owner`.
#[verifier::external_body]
pub(crate) fn range_ref<S, T>(owner: Arc<S>, start: usize, len: usize) -> OwningRef<
    Arc<S>,
    [T],
> where S: SliceOwner<T>
    requires
        start + len <= owner.elements().len(),
{
    OwningRef::new(owner).map(|inner| range_of(inner, start, len))
}

/// `OwningRef::new` followed by `OwningRef::map`: an owning reference to
/// the element at `index` of the collection behind `owner`.
#[verifier::external_body]
pub(crate) fn element_ref<S, T>(owner: Arc<S>, index: usize) -> OwningRef<Arc<S>, T> where
    S: SliceOwner<T>,

    requires
        index < owner.elements().len(),
{
    OwningRef::new(owner).map(|inner| element_of(inner, index))
}

} // verus!
