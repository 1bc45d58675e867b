//! Sliding windows that are handed out as `owning_ref` references.

use crate::owner::SliceOwner;
use crate::partition::{window_count, window_fits};
use crate::refs::range_ref;
use crate::shared::share;
use owning_ref::OwningRef;
use std::marker::PhantomData;
use std::sync::Arc;
use vstd::prelude::*;

verus! {

/// Yields owning references to the windows of a fixed number of elements
/// of a shared collection, each beginning one element after the one before
/// it.
#[derive(Debug)]
pub struct Windows<S, T> where S: SliceOwner<T> {
    owner: Arc<S>,
    size: usize,
    index: usize,
    _phantom: PhantomData<T>,
}

impl<S, T> Windows<S, T> where S: SliceOwner<T> {
    #[verifier::type_invariant]
    spec fn in_bounds(self) -> bool {
        &&& self.index <= self.owner.elements().len()
        &&& self.size > 0
    }

    /// The collection that the references look into.
    pub closed spec fn source(&self) -> S {
        *self.owner
    }

    /// Position in the collection at which the next window begins.
    pub closed spec fn offset(&self) -> nat {
        self.index as nat
    }

    /// Number of elements per window.
    pub closed spec fn width(&self) -> nat {
        self.size as nat
    }

    /// Number of windows still to come.
    pub open spec fn remaining(&self) -> nat {
        window_count((self.source().elements().len() - self.offset()) as nat, self.width())
    }

    /// An iterator over all windows of `size` elements of the collection
    /// behind `owner`.
    pub fn new(owner: Arc<S>, size: usize) -> (it: Self)
        requires
            size > 0,
        ensures
            it.source() == *owner,
            it.offset() == 0,
            it.width() == size,
    {
        Windows { owner, size, index: 0, _phantom: PhantomData }
    }

    /// Hands out a reference to the next window, or `None` when fewer
    /// elements are left than a window holds.
    pub fn next(&mut self) -> (item: Option<OwningRef<Arc<S>, [T]>>)
        ensures
            final(self).source() == old(self).source(),
            final(self).width() == old(self).width(),
            item is None <==> old(self).remaining() == 0,
            item is None ==> *final(self) == *old(self),
            item is Some ==> final(self).offset() == old(self).offset() + 1,
            item is Some ==> final(self).remaining() == old(self).remaining() - 1,
    {
        proof {
            use_type_invariant(&*self);
        }
        let total: usize = self.owner.as_slice().len();
        if window_fits(self.index, self.size, total) {
            let item = range_ref(share(&self.owner), self.index, self.size);
            self.index = self.index + 1;
            Some(item)
        } else {
            None
        }
    }

    /// Number of windows still to come.
    pub fn len(&self) -> (n: usize)
        ensures
            n == self.remaining(),
    {
        proof {
            use_type_invariant(self);
        }
        let total: usize = self.owner.as_slice().len();
        if window_fits(self.index, self.size, total) {
            total - self.index - self.size + 1
        } else {
            0
        }
    }
}

impl<S, T> Clone for Windows<S, T> where S: SliceOwner<T> {
    /// An iterator at the same position over the same collection.
    fn clone(&self) -> (other: Self)
        ensures
            other == *self,
    {
        proof {
            use_type_invariant(self);
        }
        Windows {
            owner: share(&self.owner),
            size: self.size,
            index: self.index,
            _phantom: PhantomData,
        }
    }
}

} // verus!
