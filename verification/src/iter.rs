//! Element by element iteration that hands out `owning_ref` references.

use crate::owner::SliceOwner;
use crate::refs::element_ref;
use crate::shared::share;
use owning_ref::OwningRef;
use std::marker::PhantomData;
use std::sync::Arc;
use vstd::prelude::*;

verus! {

/// Yields one owning reference per element of a shared collection.
#[derive(Debug)]
pub struct Iter<S, T> where S: SliceOwner<T> {
    owner: Arc<S>,
    index: usize,
    _phantom: PhantomData<T>,
}

impl<S, T> Iter<S, T> where S: SliceOwner<T> {
    #[verifier::type_invariant]
    spec fn in_bounds(self) -> bool {
        self.index <= self.owner.elements().len()
    }

    /// The collection that the references look into.
    pub closed spec fn source(&self) -> S {
        *self.owner
    }

    /// Position in the collection of the next element.
    pub closed spec fn offset(&self) -> nat {
        self.index as nat
    }

    /// The elements that have not been handed out yet.
    pub open spec fn remaining(&self) -> Seq<T> {
        self.source().elements().skip(self.offset() as int)
    }

    /// An iterator over all elements of the collection behind `owner`.
    pub fn new(owner: Arc<S>) -> (it: Self)
        ensures
            it.source() == *owner,
            it.offset() == 0,
    {
        Iter { owner, index: 0, _phantom: PhantomData }
    }

    /// Hands out a reference to the next element, or `None` when every
    /// element has been handed out.
    pub fn next(&mut self) -> (item: Option<OwningRef<Arc<S>, T>>)
        ensures
            final(self).source() == old(self).source(),
            item is None <==> old(self).offset() >= old(self).source().elements().len(),
            item is None ==> *final(self) == *old(self),
            item is Some ==> final(self).offset() == old(self).offset() + 1,
    {
        proof {
            use_type_invariant(&*self);
        }
        let total: usize = self.owner.as_slice().len();
        if self.index == total {
            None
        } else {
            let item = element_ref(share(&self.owner), self.index);
            self.index = self.index + 1;
            Some(item)
        }
    }

    /// Number of elements still to come.
    pub fn len(&self) -> (n: usize)
        ensures
            n == self.remaining().len(),
    {
        proof {
            use_type_invariant(self);
        }
        self.owner.as_slice().len() - self.index
    }
}

impl<S, T> Clone for Iter<S, T> where S: SliceOwner<T> {
    /// An iterator at the same position over the same collection.
    fn clone(&self) -> (other: Self)
        ensures
            other == *self,
    {
        proof {
            use_type_invariant(self);
        }
        Iter { owner: share(&self.owner), index: self.index, _phantom: PhantomData }
    }
}

} // verus!
