//! Entry points: from a collection to its views.

use crate::chunk::Chunk;
use crate::chunks::{EvenChunks, SizedChunks};
use crate::iter::Iter;
use crate::owner::SliceOwner;
use crate::partition::{even_pieces, sized_pieces};
use crate::windows::Windows;
use std::sync::Arc;
use vstd::prelude::*;

verus! {

/// Iteration over a collection that is already shared: every item keeps
/// the collection alive on its own.
pub trait ConcurrentSlice<T>: Sized {
    /// The collection behind the shared handle.
    type Owner: SliceOwner<T>;

    /// The collection that `self` shares.
    spec fn shared(&self) -> Self::Owner;

    /// Hands out the elements one by one.
    fn owning_iter(self) -> (it: Iter<Self::Owner, T>)
        ensures
            it.source() == self.shared(),
            it.offset() == 0,
    ;

    /// Hands out the windows of `size` elements, each beginning one
    /// element after the one before it. A collection of fewer than `size`
    /// elements has no window.
    fn owning_windows(self, size: usize) -> (it: Windows<Self::Owner, T>)
        requires
            size > 0,
        ensures
            it.source() == self.shared(),
            it.offset() == 0,
            it.width() == size,
    ;
}

impl<S, T> ConcurrentSlice<T> for Arc<S> where S: SliceOwner<T> {
    type Owner = S;

    open spec fn shared(&self) -> S {
        **self
    }

    fn owning_iter(self) -> (it: Iter<S, T>) {
        Iter::new(self)
    }

    fn owning_windows(self, size: usize) -> (it: Windows<S, T>) {
        Windows::new(self, size)
    }
}

/// Moves `owner` behind a shared handle and splits it into the elements
/// before `index` and those from `index` on.
pub fn split_at<'a, S, T>(owner: S, index: usize) -> (halves: (Chunk<'a, S, T>, Chunk<'a, S, T>)) where
    S: SliceOwner<T> + Send + Sync + 'a,
    T: Send + Sync,

    requires
        index <= owner.elements().len(),
    ensures
        halves.0@ == owner.elements().take(index as int),
        halves.1@ == owner.elements().skip(index as int),
        halves.0.source() == owner,
        halves.1.source() == owner,
        halves.0.adjoins(&halves.1),
{
    Chunk::new(owner).split_at(index)
}

/// Moves `owner` behind a shared handle and hands it out piece by piece,
/// `chunk_size` elements at a time.
pub fn sized_chunks<'a, S, T>(owner: S, chunk_size: usize) -> (pieces: SizedChunks<'a, S, T>) where
    S: SliceOwner<T> + Send + Sync + 'a,
    T: Send + Sync,

    requires
        owner.elements().len() == 0 || chunk_size > 0,
    ensures
        pieces.pieces() == sized_pieces(owner.elements(), chunk_size as nat),
        pieces.remaining() == owner.elements(),
        pieces.source() == owner,
        pieces.offset() == 0,
{
    Chunk::new(owner).into_sized_chunks(chunk_size)
}

/// Moves `owner` behind a shared handle and divides it into `num_chunks`
/// pieces whose sizes differ by at most one element.
pub fn even_chunks<'a, S, T>(owner: S, num_chunks: usize) -> (pieces: EvenChunks<'a, S, T>) where
    S: SliceOwner<T> + Send + Sync + 'a,
    T: Send + Sync,

    requires
        num_chunks > 0,
    ensures
        pieces.pieces() == even_pieces(owner.elements(), num_chunks as nat),
        pieces.remaining() == owner.elements(),
        pieces.source() == owner,
        pieces.offset() == 0,
{
    Chunk::new(owner).into_even_chunks(num_chunks)
}

/// The number of pieces to divide into: `division` where the caller names
/// one, else the number of workers that `parallelism` reports.
pub open spec fn division_or(division: Option<usize>, parallelism: usize) -> nat {
    match division {
        Some(n) => n as nat,
        None => parallelism as nat,
    }
}

/// Like [`even_chunks`], with the number of pieces taken from `division`
/// or, where that is `None`, from the number of available workers that the
/// caller has found out.
pub fn chunks_by_division<'a, S, T>(
    owner: S,
    division: Option<usize>,
    parallelism: usize,
) -> (pieces: EvenChunks<'a, S, T>) where S: SliceOwner<T> + Send + Sync + 'a, T: Send + Sync
    requires
        division_or(division, parallelism) > 0,
    ensures
        pieces.pieces() == even_pieces(owner.elements(), division_or(division, parallelism)),
        pieces.remaining() == owner.elements(),
        pieces.source() == owner,
        pieces.offset() == 0,
{
    let num_chunks: usize = match division {
        Some(n) => n,
        None => parallelism,
    };
    Chunk::new(owner).into_even_chunks(num_chunks)
}

} // verus!
