//! The shared handle behind every view: what the library relies on from
//! `std::sync::Arc`.
//!
//! The reference count lives outside of what the verifier can see, so the
//! contracts here say only what holds whatever the count is.

use std::hash::{Hash, Hasher};
use std::sync::Arc;
use vstd::prelude::*;

verus! {

/// `Arc::clone`: the new handle points at the same allocation, hence at the
/// same value.
#[verifier::external_body]
pub(crate) fn share<S>(owner: &Arc<S>) -> (other: Arc<S>)
    ensures
        other == *owner,
{
    Arc::clone(owner)
}

/// `Arc::try_unwrap`: either the inner value is moved out, or the very same
/// handle comes back. Which of the two happens depends on how many handles
/// exist at the time of the call.
#[verifier::external_body]
pub(crate) fn reclaim<S>(owner: Arc<S>) -> (r: Result<S, Arc<S>>)
    ensures
        match r {
            Ok(inner) => inner == *owner,
            Err(same) => same == owner,
        },
{
    Arc::try_unwrap(owner)
}

/// `Arc::strong_count`: the number of handles to the allocation. The handle
/// passed in is one of them.
#[verifier::external_body]
pub(crate) fn holders<S>(owner: &Arc<S>) -> (n: usize)
    ensures
        n >= 1,
{
    Arc::strong_count(owner)
}

/// `Arc::ptr_eq`: whether two handles point at the same allocation. If they
/// do, they point at the same value.
#[verifier::external_body]
pub(crate) fn same_allocation<S>(a: &Arc<S>, b: &Arc<S>) -> (same: bool)
    ensures
        same ==> *a == *b,
{
    Arc::ptr_eq(a, b)
}

/// `Hash::hash`: feeds `value` into `state`. What a hasher then holds is its
/// own affair; nothing is claimed about it.
#[verifier::external_body]
pub(crate) fn feed<T: Hash, H: Hasher>(value: &T, state: &mut H) {
    value.hash(state)
}

} // verus!
