//! The capability a collection needs to be viewed: it can be read as one
//! contiguous range of elements.

use vstd::prelude::*;

verus! {

/// A collection whose elements form one contiguous range.
///
/// `elements` is the mathematical content of the collection; `as_slice`
/// reads exactly that content.
pub trait SliceOwner<T> {
    /// The elements of the collection, in order.
    spec fn elements(&self) -> Seq<T>;

    /// Borrows the elements as a slice.
    fn as_slice(&self) -> (s: &[T])
        ensures
            s@ == self.elements(),
    ;
}

impl<T> SliceOwner<T> for Vec<T> {
    open spec fn elements(&self) -> Seq<T> {
        self@
    }

    fn as_slice(&self) -> (s: &[T]) {
        Vec::as_slice(self)
    }
}

impl<T, const N: usize> SliceOwner<T> for [T; N] {
    open spec fn elements(&self) -> Seq<T> {
        self@
    }

    fn as_slice(&self) -> (s: &[T]) {
        self
    }
}

impl<T> SliceOwner<T> for [T] {
    open spec fn elements(&self) -> Seq<T> {
        self@
    }

    fn as_slice(&self) -> (s: &[T]) {
        self
    }
}

impl<'b, T, S: SliceOwner<T> + ?Sized> SliceOwner<T> for &'b S {
    open spec fn elements(&self) -> Seq<T> {
        (**self).elements()
    }

    fn as_slice(&self) -> (s: &[T]) {
        (**self).as_slice()
    }
}

impl<'b, T, S: SliceOwner<T> + ?Sized> SliceOwner<T> for &'b mut S {
    open spec fn elements(&self) -> Seq<T> {
        (**self).elements()
    }

    fn as_slice(&self) -> (s: &[T]) {
        (**self).as_slice()
    }
}

impl<T, S: SliceOwner<T> + ?Sized> SliceOwner<T> for Box<S> {
    open spec fn elements(&self) -> Seq<T> {
        (**self).elements()
    }

    fn as_slice(&self) -> (s: &[T]) {
        (**self).as_slice()
    }
}

} // verus!
