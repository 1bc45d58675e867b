//! A view for writing: a shared handle on a collection together with the
//! range of its elements that the holder of the view alone may write.
//!
//! Such views come into being only by splitting and partitioning, which
//! hand out ranges that do not overlap, so no element is ever addressed by
//! two of them.

use crate::owner::SliceOwner;
use crate::chunk::range_of;
use crate::chunks_mut::{EvenChunksMut, IterMut, SizedChunksMut};
use crate::partition::{
    even_base, even_longs, even_pieces, even_shorts, lemma_even_total, sized_pieces,
};
use crate::shared::{holders, reclaim, same_allocation, share};
use std::marker::PhantomData;
use std::ops::{Deref, Range};
use std::sync::Arc;
use vstd::prelude::*;

verus! {

/// A reference-counted view of a contiguous range of a collection, held
/// for writing.
///
/// The view keeps the collection alive. Its content is the range
/// `[offset, offset + len)` of the collection, and no other view for
/// writing that was derived from the same root addresses any position of
/// that range.
#[derive(Debug)]
pub struct ChunkMut<'a, S, T> where S: SliceOwner<T> + Send + Sync + 'a, T: Send + Sync {
    owner: Arc<S>,
    start: usize,
    len: usize,
    _phantom: PhantomData<&'a T>,
}

impl<'a, S, T> ChunkMut<'a, S, T> where S: SliceOwner<T> + Send + Sync + 'a, T: Send + Sync {
    #[verifier::type_invariant]
    spec fn in_bounds(self) -> bool {
        &&& self.start + self.len <= self.owner.elements().len()
        &&& self.start + self.len <= usize::MAX
    }

    /// The collection that the view looks into.
    pub closed spec fn source(&self) -> S {
        *self.owner
    }

    /// Position in the collection of the view's first element.
    pub closed spec fn offset(&self) -> nat {
        self.start as nat
    }

    /// The elements that the view addresses.
    pub closed spec fn view(&self) -> Seq<T> {
        self.owner.elements().subrange(self.start as int, self.start + self.len)
    }

    /// Whether `next` begins where `self` ends, in the same collection.
    pub open spec fn adjoins(&self, next: &Self) -> bool {
        &&& self.source() == next.source()
        &&& self.offset() + self@.len() == next.offset()
    }

    /// A view of `len` elements of `owner`, beginning at `start`.
    pub(crate) fn from_range(owner: Arc<S>, start: usize, len: usize) -> (chunk: Self)
        requires
            start + len <= owner.elements().len(),
            start + len <= usize::MAX,
        ensures
            chunk.source() == *owner,
            chunk.offset() == start,
            chunk@ == owner.elements().subrange(start as int, start + len),
    {
        ChunkMut { owner, start, len, _phantom: PhantomData }
    }

    /// Moves `owner` behind a fresh shared handle and views all of it.
    pub fn new(owner: S) -> (chunk: Self)
        ensures
            chunk@ == owner.elements(),
            chunk.source() == owner,
            chunk.offset() == 0,
    {
        Self::from_arc(Arc::new(owner))
    }

    /// Views all of the collection behind an existing handle.
    pub fn from_arc(owner: Arc<S>) -> (chunk: Self)
        ensures
            chunk@ == owner.elements(),
            chunk.source() == *owner,
            chunk.offset() == 0,
    {
        let len: usize = owner.as_slice().len();
        assert(owner.elements().subrange(0, len as int) =~= owner.elements());
        ChunkMut { owner, start: 0, len, _phantom: PhantomData }
    }

    /// Number of elements in the view.
    pub fn len(&self) -> (n: usize)
        ensures
            n == self@.len(),
    {
        proof {
            use_type_invariant(self);
        }
        self.len
    }

    /// Position in the collection of the view's first element.
    pub fn start_index(&self) -> (n: usize)
        ensures
            n == self.offset(),
            n + self@.len() <= self.source().elements().len(),
            self@ == self.source().elements().subrange(n as int, n + self@.len()),
    {
        proof {
            use_type_invariant(self);
        }
        self.start
    }

    /// The handle through which the view keeps the collection alive.
    pub fn owner(&self) -> (owner: &Arc<S>)
        ensures
            **owner == self.source(),
    {
        &self.owner
    }

    /// Borrows the elements of the view.
    pub fn as_slice(&self) -> (s: &[T])
        ensures
            s@ == self@,
    {
        proof {
            use_type_invariant(self);
        }
        range_of(&*self.owner, self.start, self.len)
    }

    /// Whether both views hold handles on one and the same allocation.
    pub fn same_owner(&self, other: &Self) -> (same: bool)
        ensures
            same ==> self.source() == other.source(),
    {
        same_allocation(&self.owner, &other.owner)
    }

    /// Splits the view into the elements before `index` and those from
    /// `index` on.
    pub fn split_at(self, index: usize) -> (halves: (ChunkMut<'a, S, T>, ChunkMut<'a, S, T>))
        requires
            index <= self@.len(),
        ensures
            halves.0@ == self@.take(index as int),
            halves.1@ == self@.skip(index as int),
            halves.0.source() == self.source(),
            halves.1.source() == self.source(),
            halves.0.offset() == self.offset(),
            halves.1.offset() == self.offset() + index,
            halves.0.adjoins(&halves.1),
    {
        proof {
            use_type_invariant(&self);
        }
        let ChunkMut { owner, start, len, .. } = self;
        let left = ChunkMut { owner: share(&owner), start, len: index, _phantom: PhantomData };
        let right = ChunkMut { owner, start: start + index, len: len - index, _phantom: PhantomData };
        assert(left@ =~= self@.take(index as int));
        assert(right@ =~= self@.skip(index as int));
        (left, right)
    }

    /// Hands out the view piece by piece, `chunk_size` elements at a time;
    /// the last piece holds what is left and may be shorter.
    pub fn into_sized_chunks(self, chunk_size: usize) -> (pieces: SizedChunksMut<'a, S, T>)
        requires
            self@.len() == 0 || chunk_size > 0,
        ensures
            pieces.pieces() == sized_pieces(self@, chunk_size as nat),
            pieces.remaining() == self@,
            pieces.size() == chunk_size,
            pieces.source() == self.source(),
            pieces.offset() == self.offset(),
    {
        proof {
            use_type_invariant(&self);
        }
        let ChunkMut { owner, start, len, .. } = self;
        SizedChunksMut::over(owner, start, chunk_size, start + len)
    }

    /// Divides the view into `num_chunks` pieces whose sizes differ by at
    /// most one element, the longer pieces first. Empty pieces are left
    /// out, so a view of fewer than `num_chunks` elements gives one piece
    /// per element.
    pub fn into_even_chunks(self, num_chunks: usize) -> (pieces: EvenChunksMut<'a, S, T>)
        requires
            num_chunks > 0,
        ensures
            pieces.pieces() == even_pieces(self@, num_chunks as nat),
            pieces.remaining() == self@,
            pieces.base() == even_base(self@.len(), num_chunks as nat),
            pieces.longs() == even_longs(self@.len(), num_chunks as nat),
            pieces.shorts() == even_shorts(self@.len(), num_chunks as nat),
            pieces.source() == self.source(),
            pieces.offset() == self.offset(),
    {
        proof {
            use_type_invariant(&self);
            lemma_even_total(self.len as nat, num_chunks as nat);
        }
        let ChunkMut { owner, start, len, .. } = self;
        let base: usize = len / num_chunks;
        let longs: usize = len % num_chunks;
        let shorts: usize = if base == 0 {
            0
        } else {
            num_chunks - longs
        };
        EvenChunksMut::over(owner, start, base, longs, shorts)
    }

    /// The contents of a sequence of views, view by view.
    pub open spec fn contents(chunks: Seq<Self>) -> Seq<Seq<T>> {
        chunks.map_values(|chunk: Self| chunk@)
    }

    /// Merges views that follow one another in the same collection into
    /// one view of all their elements.
    ///
    /// Views count as looking into the same collection where their
    /// collections are equal; the merged view keeps the handle of the
    /// first.
    pub fn cat(chunks: Vec<Self>) -> (merged: Self)
        requires
            chunks@.len() > 0,
            forall|i: int| 0 <= i < chunks@.len() - 1 ==> (#[trigger] chunks@[i]).adjoins(&chunks@[i + 1]),
        ensures
            merged@ == Self::contents(chunks@).flatten(),
            merged.source() == chunks@[0].source(),
            merged.offset() == chunks@[0].offset(),
    {
        let ghost views = Self::contents(chunks@);
        let ghost elements = chunks@[0].source().elements();
        let head = &chunks[0];
        let first: usize = head.start;
        proof {
            use_type_invariant(head);
            assert(views.take(0).flatten() =~= elements.subrange(first as int, first as int));
        }
        let mut total: usize = 0;
        let mut i: usize = 0;
        while i < chunks.len()
            invariant
                0 <= i <= chunks@.len(),
                chunks@.len() > 0,
                views == Self::contents(chunks@),
                elements == chunks@[0].source().elements(),
                first == chunks@[0].offset(),
                forall|j: int|
                    0 <= j < chunks@.len() - 1 ==> (#[trigger] chunks@[j]).adjoins(&chunks@[j + 1]),
                forall|j: int| 0 <= j <= i && j < chunks@.len() ==> (#[trigger] chunks@[j]).source()
                    == chunks@[0].source(),
                i < chunks@.len() ==> first + total == chunks@[i as int].offset(),
                first + total <= elements.len(),
                first + total <= usize::MAX,
                views.take(i as int).flatten() == elements.subrange(first as int, first + total),
            decreases chunks@.len() - i,
        {
            let chunk = &chunks[i];
            proof {
                use_type_invariant(chunk);
                assert(views.take(i + 1) =~= views.take(i as int).push(chunk@));
                views.take(i as int).lemma_flatten_push(chunk@);
                assert(elements.subrange(first as int, first + total) + chunk@
                    =~= elements.subrange(first as int, first + total + chunk.len));
                if i + 1 < chunks@.len() {
                    assert(chunks@[i as int].adjoins(&chunks@[i + 1]));
                }
            }
            total = total + chunk.len;
            i = i + 1;
        }
        proof {
            assert(views.take(chunks@.len() as int) =~= views);
        }
        ChunkMut { owner: share(&chunks[0].owner), start: first, len: total, _phantom: PhantomData }
    }

    /// Whether each view begins where the one before it ends.
    pub open spec fn contiguous(chunks: Seq<Self>) -> bool {
        forall|i: int|
            0 <= i < chunks.len() - 1 ==> (#[trigger] chunks[i]).offset() + chunks[i]@.len()
                == chunks[i + 1].offset()
    }

    /// Whether all views look into one collection.
    pub open spec fn one_source(chunks: Seq<Self>) -> bool {
        forall|i: int| 0 <= i < chunks.len() ==> (#[trigger] chunks[i]).source() == chunks[0].source()
    }

    /// Whether every view holds its handle on the allocation that the
    /// first view holds its handle on. Fewer than two views always do.
    pub fn share_one_owner(chunks: &Vec<Self>) -> (one: bool)
        ensures
            one ==> Self::one_source(chunks@),
            chunks@.len() <= 1 ==> one,
    {
        let mut i: usize = 1;
        while i < chunks.len()
            invariant
                1 <= i,
                forall|j: int|
                    0 <= j < i && j < chunks@.len() ==> (#[trigger] chunks@[j]).source()
                        == chunks@[0].source(),
            decreases chunks@.len() - i,
        {
            if !same_allocation(&chunks[0].owner, &chunks[i].owner) {
                return false;
            }
            i = i + 1;
        }
        true
    }

    /// Merges the views as [`ChunkMut::cat`] does if `one_owner` holds, there
    /// is at least one view and each view begins where the one before it
    /// ends; `None` otherwise.
    pub fn cat_if(chunks: Vec<Self>, one_owner: bool) -> (merged: Option<Self>)
        requires
            one_owner ==> Self::one_source(chunks@),
        ensures
            merged is Some <==> one_owner && chunks@.len() > 0 && Self::contiguous(chunks@),
            merged matches Some(all) ==> {
                &&& all@ == Self::contents(chunks@).flatten()
                &&& all.source() == chunks@[0].source()
                &&& all.offset() == chunks@[0].offset()
            },
    {
        if !one_owner || chunks.len() == 0 {
            return None;
        }
        let mut i: usize = 1;
        while i < chunks.len()
            invariant
                1 <= i <= chunks@.len(),
                Self::one_source(chunks@),
                forall|j: int|
                    0 <= j < i - 1 ==> (#[trigger] chunks@[j]).offset() + chunks@[j]@.len()
                        == chunks@[j + 1].offset(),
            decreases chunks@.len() - i,
        {
            let before = &chunks[i - 1];
            let after = &chunks[i];
            proof {
                use_type_invariant(before);
            }
            if before.start + before.len != after.start {
                assert(chunks@[i - 1].offset() + chunks@[i - 1]@.len() != chunks@[i - 1 + 1].offset());
                return None;
            }
            i = i + 1;
        }
        assert forall|j: int| 0 <= j < chunks@.len() - 1 implies (#[trigger] chunks@[j]).adjoins(
            &chunks@[j + 1],
        ) by {
            assert(chunks@[j + 1].source() == chunks@[0].source());
        }
        Some(Self::cat(chunks))
    }

    /// Merges the views as [`ChunkMut::cat`] does, after testing what `cat`
    /// demands: `None` if there is no view, if two views hold handles on
    /// different allocations, or if a view does not begin where the one
    /// before it ends. A single view is always merged.
    pub fn try_cat(chunks: Vec<Self>) -> (merged: Option<Self>)
        ensures
            merged is Some ==> chunks@.len() > 0 && Self::contiguous(chunks@) && Self::one_source(
                chunks@,
            ),
            chunks@.len() == 1 ==> merged is Some,
            merged matches Some(all) ==> {
                &&& all@ == Self::contents(chunks@).flatten()
                &&& all.source() == chunks@[0].source()
                &&& all.offset() == chunks@[0].offset()
            },
    {
        let one_owner = Self::share_one_owner(&chunks);
        Self::cat_if(chunks, one_owner)
    }

    /// Splitting a view and merging the two halves gives the view back.
    pub proof fn lemma_split_then_cat(whole: Self, left: Self, right: Self, index: int)
        requires
            0 <= index <= whole@.len(),
            left@ == whole@.take(index),
            right@ == whole@.skip(index),
        ensures
            Self::contents(seq![left, right]).flatten() == whole@,
    {
        let views = Self::contents(seq![left, right]);
        assert(views =~= seq![left@].push(right@));
        seq![left@].lemma_flatten_push(right@);
        seq![left@].lemma_flatten_one_element();
        assert(seq![left@].first() == left@);
        assert(whole@.take(index) + whole@.skip(index) =~= whole@);
    }

    /// Hands out the elements of the view one by one, each behind a handle
    /// of its own.
    pub fn into_iter_owned(self) -> (elements: IterMut<'a, S, T>)
        ensures
            elements.remaining() == self@,
            elements.source() == self.source(),
            elements.offset() == self.offset(),
    {
        proof {
            use_type_invariant(&self);
        }
        let ChunkMut { owner, start, len, .. } = self;
        IterMut::over(owner, start, start + len)
    }

    /// Number of handles on the collection that are alive right now.
    pub fn ref_count(&self) -> (n: usize)
        ensures
            n >= 1,
    {
        holders(&self.owner)
    }

    /// Gives up the view for a view of its positions
    /// `range.start..range.end`, counted from its first element. `None`
    /// if the range is reversed or reaches past the view.
    pub fn into_range(self, range: Range<usize>) -> (sub: Option<Self>)
        ensures
            sub is Some <==> range.start <= range.end <= self@.len(),
            sub matches Some(chunk) ==> {
                &&& chunk@ == self@.subrange(range.start as int, range.end as int)
                &&& chunk.source() == self.source()
                &&& chunk.offset() == self.offset() + range.start
            },
    {
        proof {
            use_type_invariant(&self);
        }
        if range.start <= range.end && range.end <= self.len {
            let ChunkMut { owner, start, .. } = self;
            let chunk = ChunkMut {
                owner,
                start: start + range.start,
                len: range.end - range.start,
                _phantom: PhantomData,
            };
            assert(chunk@ =~= self@.subrange(range.start as int, range.end as int));
            Some(chunk)
        } else {
            None
        }
    }

    /// Gives up the view and hands out its handle on the collection.
    pub fn into_arc_owner(self) -> (owner: Arc<S>)
        ensures
            *owner == self.source(),
    {
        self.owner
    }

    /// Takes the collection back if this view holds the only handle on it;
    /// otherwise the view is returned as it was.
    pub fn try_unwrap_owner(self) -> (r: Result<S, Self>)
        ensures
            match r {
                Ok(owner) => owner == self.source(),
                Err(chunk) => chunk == self,
            },
    {
        proof {
            use_type_invariant(&self);
        }
        let ChunkMut { owner, start, len, .. } = self;
        match reclaim(owner) {
            Ok(inner) => Ok(inner),
            Err(owner) => Err(ChunkMut { owner, start, len, _phantom: PhantomData }),
        }
    }
}

impl<'a, S, T> Deref for ChunkMut<'a, S, T> where S: SliceOwner<T> + Send + Sync + 'a, T: Send + Sync {
    type Target = [T];

    fn deref(&self) -> (s: &[T])
        ensures
            s@ == self@,
    {
        self.as_slice()
    }
}

impl<'a, S, T> AsRef<[T]> for ChunkMut<'a, S, T> where
    S: SliceOwner<T> + Send + Sync + 'a,
    T: Send + Sync,
 {
    fn as_ref(&self) -> (s: &[T])
        ensures
            s@ == self@,
    {
        self.as_slice()
    }
}

} // verus!
