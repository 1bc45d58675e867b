//! Iterators that hand out views of one collection: fixed-size pieces,
//! evenly sized pieces, sliding windows and single elements.

use crate::chunk::Chunk;
use crate::owner::SliceOwner;
use crate::partition::{
    balanced_pieces, balanced_step, lemma_balanced_step, lemma_sized_count, lemma_sized_step,
    lemma_windows_step, sized_pieces, sized_step, window_fits, windows,
};
use crate::shared::{feed, holders, reclaim, share};
use std::cmp::Ordering;
use std::hash::{Hash, Hasher};
use std::marker::PhantomData;
use std::ops::Deref;
use std::sync::Arc;
use vstd::prelude::*;
use vstd::std_specs::cmp::{PartialEqSpec, PartialOrdSpec};

verus! {

/// Yields consecutive views of a fixed number of elements; the last view
/// holds what is left and may be shorter.
#[derive(Debug)]
pub struct SizedChunks<'a, S, T> where S: SliceOwner<T> + Send + Sync + 'a, T: Send + Sync {
    index: usize,
    chunk_size: usize,
    end: usize,
    owner: Arc<S>,
    _phantom: PhantomData<&'a T>,
}

impl<'a, S, T> SizedChunks<'a, S, T> where S: SliceOwner<T> + Send + Sync + 'a, T: Send + Sync {
    #[verifier::type_invariant]
    spec fn in_bounds(self) -> bool {
        &&& self.index <= self.end <= self.owner.elements().len()
        &&& self.index < self.end ==> self.chunk_size > 0
    }

    /// The collection that the views look into.
    pub closed spec fn source(&self) -> S {
        *self.owner
    }

    /// Position in the collection at which the next view begins.
    pub closed spec fn offset(&self) -> nat {
        self.index as nat
    }

    /// The elements that have not been handed out yet.
    pub closed spec fn remaining(&self) -> Seq<T> {
        self.owner.elements().subrange(self.index as int, self.end as int)
    }

    /// Number of elements per view.
    pub closed spec fn size(&self) -> nat {
        self.chunk_size as nat
    }

    /// The contents of the views still to come, in order.
    pub open spec fn pieces(&self) -> Seq<Seq<T>> {
        sized_pieces(self.remaining(), self.size())
    }

    /// An iterator over the range `[index, end)` of `owner`.
    pub(crate) fn over(owner: Arc<S>, index: usize, chunk_size: usize, end: usize) -> (it: Self)
        requires
            index <= end <= owner.elements().len(),
            index < end ==> chunk_size > 0,
        ensures
            it.source() == *owner,
            it.offset() == index,
            it.size() == chunk_size,
            it.remaining() == owner.elements().subrange(index as int, end as int),
    {
        SizedChunks { index, chunk_size, end, owner, _phantom: PhantomData }
    }

    /// Hands out the next view, or `None` when every element has been
    /// handed out.
    pub fn next(&mut self) -> (item: Option<Chunk<'a, S, T>>)
        ensures
            final(self).source() == old(self).source(),
            final(self).size() == old(self).size(),
            item is None <==> old(self).pieces().len() == 0,
            item is None ==> *final(self) == *old(self),
            item matches Some(chunk) ==> {
                &&& chunk@ == old(self).pieces()[0]
                &&& chunk.source() == old(self).source()
                &&& chunk.offset() == old(self).offset()
                &&& final(self).pieces() == old(self).pieces().skip(1)
                &&& final(self).offset() == old(self).offset() + chunk@.len()
                &&& final(self).remaining() == old(self).remaining().skip(chunk@.len() as int)
            },
    {
        proof {
            use_type_invariant(&*self);
        }
        let ghost before = self.remaining();
        match sized_step(self.index, self.chunk_size, self.end) {
            None => {
                proof {
                    if self.chunk_size > 0 {
                        lemma_sized_count(0, self.chunk_size as nat);
                    }
                }
                None
            },
            Some(bound) => {
                let start = self.index;
                let chunk = Chunk::from_range(share(&self.owner), start, bound - start);
                self.index = bound;
                proof {
                    lemma_sized_step(before, self.chunk_size as nat);
                    assert(chunk@ =~= before.take(bound - start));
                    assert(self.remaining() =~= before.skip(bound - start));
                }
                Some(chunk)
            },
        }
    }

    /// Hands out every remaining view.
    pub fn collect(self) -> (all: Vec<Chunk<'a, S, T>>)
        ensures
            Chunk::contents(all@) == self.pieces(),
            all@.len() == self.pieces().len(),
            forall|i: int|
                0 <= i < all@.len() ==> (#[trigger] all@[i])@ == self.pieces()[i] && all@[i].source()
                    == self.source(),
            forall|i: int| 0 <= i < all@.len() - 1 ==> (#[trigger] all@[i]).adjoins(&all@[i + 1]),
            all@.len() > 0 ==> all@[0].offset() == self.offset(),
    {
        let ghost pieces = self.pieces();
        let ghost source = self.source();
        let ghost first = self.offset();
        let mut rest = self;
        let mut all: Vec<Chunk<'a, S, T>> = Vec::new();
        loop
            invariant
                rest.source() == source,
                all@.len() + rest.pieces().len() == pieces.len(),
                rest.pieces() == pieces.skip(all@.len() as int),
                forall|i: int|
                    0 <= i < all@.len() ==> (#[trigger] all@[i])@ == pieces[i] && all@[i].source()
                        == source,
                forall|i: int|
                    0 <= i < all@.len() - 1 ==> (#[trigger] all@[i]).adjoins(&all@[i + 1]),
                all@.len() > 0 ==> all@[0].offset() == first && all@[all@.len() - 1].offset()
                    + all@[all@.len() - 1]@.len() == rest.offset(),
                all@.len() == 0 ==> rest.offset() == first,
            ensures
                all@.len() == pieces.len(),
            decreases rest.pieces().len(),
        {
            match rest.next() {
                Some(chunk) => {
                    all.push(chunk);
                    assert(rest.pieces() =~= pieces.skip(all@.len() as int));
                },
                None => {
                    break ;
                },
            }
        }
        assert(Chunk::contents(all@) =~= pieces);
        all
    }

    /// Number of views still to come.
    pub fn len(&self) -> (n: usize)
        ensures
            n == self.pieces().len(),
    {
        proof {
            use_type_invariant(self);
        }
        if self.index >= self.end {
            proof {
                if self.chunk_size > 0 {
                    lemma_sized_count(0, self.chunk_size as nat);
                }
            }
            0
        } else {
            let left: usize = self.end - self.index;
            let size: usize = self.chunk_size;
            assert((left - 1) / (size as int) + 1 == (left + size - 1) / (size as int))
                by (nonlinear_arith)
                requires
                    left >= 1,
                    size >= 1,
            ;
            (left - 1) / size + 1
        }
    }

    /// Gives up the iterator for the number of views still to come.
    pub fn count(self) -> (n: usize)
        ensures
            n == self.pieces().len(),
    {
        self.len()
    }

    /// Gives up the iterator and hands out its handle on the collection.
    pub fn into_arc_owner(self) -> (owner: Arc<S>)
        ensures
            *owner == self.source(),
    {
        self.owner
    }

    /// Takes the collection back if this iterator holds the only handle on
    /// it; otherwise the iterator is returned as it was.
    pub fn try_unwrap_owner(self) -> (r: Result<S, Self>)
        ensures
            match r {
                Ok(owner) => owner == self.source(),
                Err(it) => it == self,
            },
    {
        proof {
            use_type_invariant(&self);
        }
        let SizedChunks { index, chunk_size, end, owner, .. } = self;
        match reclaim(owner) {
            Ok(inner) => Ok(inner),
            Err(owner) => Err(SizedChunks { index, chunk_size, end, owner, _phantom: PhantomData }),
        }
    }

    /// Number of handles on the collection that are alive right now.
    pub fn ref_count(&self) -> (n: usize)
        ensures
            n >= 1,
    {
        holders(&self.owner)
    }
}

/// Yields views whose sizes differ by at most one element; the longer
/// views come first.
#[derive(Debug)]
pub struct EvenChunks<'a, S, T> where S: SliceOwner<T> + Send + Sync + 'a, T: Send + Sync {
    base_chunk_size: usize,
    index: usize,
    long_left: usize,
    short_left: usize,
    owner: Arc<S>,
    _phantom: PhantomData<&'a T>,
}

impl<'a, S, T> EvenChunks<'a, S, T> where S: SliceOwner<T> + Send + Sync + 'a, T: Send + Sync {
    #[verifier::type_invariant]
    spec fn in_bounds(self) -> bool {
        &&& self.index + self.extent() <= self.owner.elements().len()
        &&& self.index + self.extent() <= usize::MAX
        &&& self.base_chunk_size == 0 ==> self.short_left == 0
    }

    /// Number of elements that have not been handed out yet.
    spec fn extent(self) -> int {
        self.long_left * (self.base_chunk_size + 1) + self.short_left * self.base_chunk_size
    }

    /// The collection that the views look into.
    pub closed spec fn source(&self) -> S {
        *self.owner
    }

    /// Position in the collection at which the next view begins.
    pub closed spec fn offset(&self) -> nat {
        self.index as nat
    }

    /// The elements that have not been handed out yet.
    pub closed spec fn remaining(&self) -> Seq<T> {
        self.owner.elements().subrange(self.index as int, self.index + self.extent())
    }

    /// Size of the shorter views.
    pub closed spec fn base(&self) -> nat {
        self.base_chunk_size as nat
    }

    /// Number of views still to come that hold one element more than
    /// `base`.
    pub closed spec fn longs(&self) -> nat {
        self.long_left as nat
    }

    /// Number of views still to come that hold `base` elements.
    pub closed spec fn shorts(&self) -> nat {
        self.short_left as nat
    }

    /// The contents of the views still to come, in order.
    pub open spec fn pieces(&self) -> Seq<Seq<T>> {
        balanced_pieces(self.remaining(), self.base(), self.longs(), self.shorts())
    }

    /// An iterator over `longs` views of `base + 1` elements followed by
    /// `shorts` views of `base` elements, beginning at `index`. No view is
    /// empty.
    pub(crate) fn over(owner: Arc<S>, index: usize, base: usize, longs: usize, shorts: usize) -> (it:
        Self)
        requires
            index + longs * (base + 1) + shorts * base <= owner.elements().len(),
            index + longs * (base + 1) + shorts * base <= usize::MAX,
            base == 0 ==> shorts == 0,
        ensures
            it.source() == *owner,
            it.offset() == index,
            it.base() == base,
            it.longs() == longs,
            it.shorts() == shorts,
            it.remaining() == owner.elements().subrange(
                index as int,
                index + longs * (base + 1) + shorts * base,
            ),
    {
        EvenChunks {
            base_chunk_size: base,
            index,
            long_left: longs,
            short_left: shorts,
            owner,
            _phantom: PhantomData,
        }
    }

    /// Hands out the next view, or `None` when every view has been handed
    /// out.
    pub fn next(&mut self) -> (item: Option<Chunk<'a, S, T>>)
        ensures
            final(self).source() == old(self).source(),
            final(self).base() == old(self).base(),
            item is None <==> old(self).pieces().len() == 0,
            item is None ==> *final(self) == *old(self),
            item matches Some(chunk) ==> {
                &&& chunk@ == old(self).pieces()[0]
                &&& chunk.source() == old(self).source()
                &&& chunk.offset() == old(self).offset()
                &&& final(self).pieces() == old(self).pieces().skip(1)
                &&& final(self).offset() == old(self).offset() + chunk@.len()
                &&& final(self).remaining() == old(self).remaining().skip(chunk@.len() as int)
            },
    {
        proof {
            use_type_invariant(&*self);
        }
        let ghost before = self.remaining();
        let ghost base = self.base_chunk_size as nat;
        let ghost longs = self.long_left as nat;
        let ghost shorts = self.short_left as nat;
        proof {
            if longs > 0 {
                assert(longs * (base + 1) >= base + 1) by (nonlinear_arith)
                    requires
                        longs >= 1,
                ;
            }
            assert(shorts * base >= 0) by (nonlinear_arith);
            assert(longs * (base + 1) >= 0) by (nonlinear_arith);
        }
        match balanced_step(self.base_chunk_size, self.long_left, self.short_left) {
            None => None,
            Some(size) => {
                proof {
                    lemma_balanced_step(before, base, longs, shorts);
                    if longs > 0 {
                        assert(longs * (base + 1) == (longs - 1) * (base + 1) + base + 1)
                            by (nonlinear_arith);
                    } else {
                        assert(shorts * base == (shorts - 1) * base + base) by (nonlinear_arith);
                        assert(0 * (base + 1) == 0) by (nonlinear_arith);
                    }
                }
                let start = self.index;
                let chunk = Chunk::from_range(share(&self.owner), start, size);
                if self.long_left > 0 {
                    self.long_left = self.long_left - 1;
                } else {
                    self.short_left = self.short_left - 1;
                }
                self.index = start + size;
                proof {
                    assert(chunk@ =~= before.take(size as int));
                    assert(self.remaining() =~= before.skip(size as int));
                }
                Some(chunk)
            },
        }
    }

    /// Hands out every remaining view.
    pub fn collect(self) -> (all: Vec<Chunk<'a, S, T>>)
        ensures
            Chunk::contents(all@) == self.pieces(),
            all@.len() == self.pieces().len(),
            forall|i: int|
                0 <= i < all@.len() ==> (#[trigger] all@[i])@ == self.pieces()[i] && all@[i].source()
                    == self.source(),
            forall|i: int| 0 <= i < all@.len() - 1 ==> (#[trigger] all@[i]).adjoins(&all@[i + 1]),
            all@.len() > 0 ==> all@[0].offset() == self.offset(),
    {
        let ghost pieces = self.pieces();
        let ghost source = self.source();
        let ghost first = self.offset();
        let mut rest = self;
        let mut all: Vec<Chunk<'a, S, T>> = Vec::new();
        loop
            invariant
                rest.source() == source,
                all@.len() + rest.pieces().len() == pieces.len(),
                rest.pieces() == pieces.skip(all@.len() as int),
                forall|i: int|
                    0 <= i < all@.len() ==> (#[trigger] all@[i])@ == pieces[i] && all@[i].source()
                        == source,
                forall|i: int|
                    0 <= i < all@.len() - 1 ==> (#[trigger] all@[i]).adjoins(&all@[i + 1]),
                all@.len() > 0 ==> all@[0].offset() == first && all@[all@.len() - 1].offset()
                    + all@[all@.len() - 1]@.len() == rest.offset(),
                all@.len() == 0 ==> rest.offset() == first,
            ensures
                all@.len() == pieces.len(),
            decreases rest.pieces().len(),
        {
            match rest.next() {
                Some(chunk) => {
                    all.push(chunk);
                    assert(rest.pieces() =~= pieces.skip(all@.len() as int));
                },
                None => {
                    break ;
                },
            }
        }
        assert(Chunk::contents(all@) =~= pieces);
        all
    }

    /// Number of views still to come.
    pub fn len(&self) -> (n: usize)
        ensures
            n == self.pieces().len(),
    {
        proof {
            use_type_invariant(self);
            let base = self.base_chunk_size as nat;
            let longs = self.long_left as nat;
            let shorts = self.short_left as nat;
            assert(longs * (base + 1) >= longs) by (nonlinear_arith);
            assert(shorts * base >= shorts || base == 0) by (nonlinear_arith);
        }
        self.long_left + self.short_left
    }

    /// Gives up the iterator for the number of views still to come.
    pub fn count(self) -> (n: usize)
        ensures
            n == self.pieces().len(),
    {
        self.len()
    }

    /// Gives up the iterator and hands out its handle on the collection.
    pub fn into_arc_owner(self) -> (owner: Arc<S>)
        ensures
            *owner == self.source(),
    {
        self.owner
    }

    /// Takes the collection back if this iterator holds the only handle on
    /// it; otherwise the iterator is returned as it was.
    pub fn try_unwrap_owner(self) -> (r: Result<S, Self>)
        ensures
            match r {
                Ok(owner) => owner == self.source(),
                Err(it) => it == self,
            },
    {
        proof {
            use_type_invariant(&self);
        }
        let EvenChunks { base_chunk_size, index, long_left, short_left, owner, .. } = self;
        match reclaim(owner) {
            Ok(inner) => Ok(inner),
            Err(owner) => Err(
                EvenChunks {
                    base_chunk_size,
                    index,
                    long_left,
                    short_left,
                    owner,
                    _phantom: PhantomData,
                },
            ),
        }
    }

    /// Number of handles on the collection that are alive right now.
    pub fn ref_count(&self) -> (n: usize)
        ensures
            n >= 1,
    {
        holders(&self.owner)
    }
}

/// Yields one owning handle per element.
#[derive(Debug)]
pub struct Iter<'a, S, T> where S: SliceOwner<T> + Send + Sync + 'a {
    owner: Arc<S>,
    index: usize,
    end: usize,
    _phantom: PhantomData<&'a T>,
}

impl<'a, S, T> Iter<'a, S, T> where S: SliceOwner<T> + Send + Sync + 'a {
    #[verifier::type_invariant]
    spec fn in_bounds(self) -> bool {
        self.index <= self.end <= self.owner.elements().len()
    }

    /// The collection that the handles look into.
    pub closed spec fn source(&self) -> S {
        *self.owner
    }

    /// Position in the collection of the next element.
    pub closed spec fn offset(&self) -> nat {
        self.index as nat
    }

    /// The elements that have not been handed out yet.
    pub closed spec fn remaining(&self) -> Seq<T> {
        self.owner.elements().subrange(self.index as int, self.end as int)
    }

    /// An iterator over the elements `[index, end)` of `owner`.
    pub(crate) fn over(owner: Arc<S>, index: usize, end: usize) -> (it: Self)
        requires
            index <= end <= owner.elements().len(),
        ensures
            it.source() == *owner,
            it.offset() == index,
            it.remaining() == owner.elements().subrange(index as int, end as int),
    {
        Iter { owner, index, end, _phantom: PhantomData }
    }

    /// Hands out a handle on the next element, or `None` when every
    /// element has been handed out.
    pub fn next(&mut self) -> (item: Option<Owned<S, T>>)
        ensures
            final(self).source() == old(self).source(),
            item is None <==> old(self).remaining().len() == 0,
            item is None ==> *final(self) == *old(self),
            item matches Some(element) ==> {
                &&& element@ == old(self).remaining()[0]
                &&& element.source() == old(self).source()
                &&& element.position() == old(self).offset()
                &&& final(self).remaining() == old(self).remaining().skip(1)
                &&& final(self).offset() == old(self).offset() + 1
            },
    {
        proof {
            use_type_invariant(&*self);
        }
        let ghost before = self.remaining();
        if self.index == self.end {
            None
        } else {
            let element = Owned::at(share(&self.owner), self.index);
            self.index = self.index + 1;
            proof {
                assert(self.remaining() =~= before.skip(1));
            }
            Some(element)
        }
    }

    /// Number of elements still to come.
    pub fn len(&self) -> (n: usize)
        ensures
            n == self.remaining().len(),
    {
        proof {
            use_type_invariant(self);
        }
        self.end - self.index
    }

    /// Takes the collection back if this iterator holds the only handle on
    /// it; otherwise the iterator is returned as it was.
    pub fn try_unwrap_owner(self) -> (r: Result<S, Self>)
        ensures
            match r {
                Ok(owner) => owner == self.source(),
                Err(it) => it == self,
            },
    {
        proof {
            use_type_invariant(&self);
        }
        let Iter { owner, index, end, .. } = self;
        match reclaim(owner) {
            Ok(inner) => Ok(inner),
            Err(owner) => Err(Iter { owner, index, end, _phantom: PhantomData }),
        }
    }
}

/// An owning handle on one element of a collection.
#[derive(Debug)]
pub struct Owned<S, T> where S: SliceOwner<T> {
    owner: Arc<S>,
    index: usize,
    _phantom: PhantomData<T>,
}

impl<S, T> Owned<S, T> where S: SliceOwner<T> {
    #[verifier::type_invariant]
    spec fn in_bounds(self) -> bool {
        self.index < self.owner.elements().len()
    }

    /// The collection that the handle looks into.
    pub closed spec fn source(&self) -> S {
        *self.owner
    }

    /// Position in the collection of the element.
    pub closed spec fn position(&self) -> nat {
        self.index as nat
    }

    /// The element that the handle addresses.
    pub closed spec fn view(&self) -> T {
        self.owner.elements()[self.index as int]
    }

    /// A handle on the element of `owner` at `index`.
    pub(crate) fn at(owner: Arc<S>, index: usize) -> (element: Self)
        requires
            index < owner.elements().len(),
        ensures
            element.source() == *owner,
            element.position() == index,
            element@ == owner.elements()[index as int],
    {
        Owned { owner, index, _phantom: PhantomData }
    }

    /// Borrows the element.
    pub fn get(&self) -> (element: &T)
        ensures
            *element == self@,
    {
        proof {
            use_type_invariant(self);
        }
        let whole: &[T] = self.owner.as_slice();
        &whole[self.index]
    }

    /// Takes the collection back if this handle is the only one on it;
    /// otherwise the handle is returned as it was.
    pub fn try_unwrap_owner(self) -> (r: Result<S, Self>)
        ensures
            match r {
                Ok(owner) => owner == self.source(),
                Err(element) => element == self,
            },
    {
        proof {
            use_type_invariant(&self);
        }
        let Owned { owner, index, .. } = self;
        match reclaim(owner) {
            Ok(inner) => Ok(inner),
            Err(owner) => Err(Owned { owner, index, _phantom: PhantomData }),
        }
    }
}

impl<S, T> Deref for Owned<S, T> where S: SliceOwner<T> {
    type Target = T;

    fn deref(&self) -> (element: &T)
        ensures
            *element == self@,
    {
        self.get()
    }
}

impl<S, T> PartialEq for Owned<S, T> where S: SliceOwner<T>, T: PartialEq {
    /// Two handles are equal where the elements they address are.
    fn eq(&self, other: &Self) -> (r: bool) {
        *self.get() == *other.get()
    }
}

impl<S, T> vstd::std_specs::cmp::PartialEqSpecImpl for Owned<S, T> where S: SliceOwner<T>, T: PartialEq {
    open spec fn obeys_eq_spec() -> bool {
        T::obeys_eq_spec()
    }

    open spec fn eq_spec(&self, other: &Self) -> bool {
        self@.eq_spec(&other@)
    }
}

impl<S, T> Eq for Owned<S, T> where S: SliceOwner<T>, T: Eq {

}

impl<S, T> PartialOrd for Owned<S, T> where S: SliceOwner<T>, T: PartialOrd {
    /// Two handles compare as the elements they address do.
    fn partial_cmp(&self, other: &Self) -> (r: Option<Ordering>) {
        self.get().partial_cmp(other.get())
    }
}

impl<S, T> vstd::std_specs::cmp::PartialOrdSpecImpl for Owned<S, T> where S: SliceOwner<T>, T: PartialOrd {
    open spec fn obeys_partial_cmp_spec() -> bool {
        T::obeys_partial_cmp_spec()
    }

    open spec fn partial_cmp_spec(&self, other: &Self) -> Option<Ordering> {
        self@.partial_cmp_spec(&other@)
    }
}

impl<S, T> AsRef<T> for Owned<S, T> where S: SliceOwner<T> {
    fn as_ref(&self) -> (element: &T)
        ensures
            *element == self@,
    {
        self.get()
    }
}

impl<S, T> Hash for Owned<S, T> where S: SliceOwner<T>, T: Hash {
    /// A handle hashes as the element it addresses does.
    fn hash<H: Hasher>(&self, state: &mut H) {
        feed(self.get(), state)
    }
}

/// Yields overlapping views of a fixed number of elements, each beginning
/// one element after the one before it.
#[derive(Debug)]
pub struct Windows<'a, S, T> where S: SliceOwner<T> + Send + Sync + 'a, T: Send + Sync {
    owner: Arc<S>,
    size: usize,
    index: usize,
    end: usize,
    _phantom: PhantomData<&'a T>,
}

impl<'a, S, T> Windows<'a, S, T> where S: SliceOwner<T> + Send + Sync + 'a, T: Send + Sync {
    #[verifier::type_invariant]
    spec fn in_bounds(self) -> bool {
        &&& self.index <= self.end <= self.owner.elements().len()
        &&& self.size > 0
    }

    /// The collection that the views look into.
    pub closed spec fn source(&self) -> S {
        *self.owner
    }

    /// Position in the collection at which the next view begins.
    pub closed spec fn offset(&self) -> nat {
        self.index as nat
    }

    /// The elements that the views still to come range over.
    pub closed spec fn remaining(&self) -> Seq<T> {
        self.owner.elements().subrange(self.index as int, self.end as int)
    }

    /// Number of elements per view.
    pub closed spec fn width(&self) -> nat {
        self.size as nat
    }

    /// The contents of the views still to come, in order.
    pub open spec fn pieces(&self) -> Seq<Seq<T>> {
        windows(self.remaining(), self.width())
    }

    /// An iterator over the windows of `size` elements within the range
    /// `[index, end)` of `owner`.
    pub(crate) fn over(owner: Arc<S>, size: usize, index: usize, end: usize) -> (it: Self)
        requires
            index <= end <= owner.elements().len(),
            size > 0,
        ensures
            it.source() == *owner,
            it.offset() == index,
            it.width() == size,
            it.remaining() == owner.elements().subrange(index as int, end as int),
    {
        Windows { owner, size, index, end, _phantom: PhantomData }
    }

    /// Hands out the next window, or `None` when fewer elements are left
    /// than a window holds.
    pub fn next(&mut self) -> (item: Option<Chunk<'a, S, T>>)
        ensures
            final(self).source() == old(self).source(),
            final(self).width() == old(self).width(),
            item is None <==> old(self).pieces().len() == 0,
            item is None ==> *final(self) == *old(self),
            item matches Some(chunk) ==> {
                &&& chunk@ == old(self).pieces()[0]
                &&& chunk.source() == old(self).source()
                &&& chunk.offset() == old(self).offset()
                &&& final(self).pieces() == old(self).pieces().skip(1)
                &&& final(self).offset() == old(self).offset() + 1
                &&& final(self).remaining() == old(self).remaining().skip(1)
            },
    {
        proof {
            use_type_invariant(&*self);
        }
        let ghost before = self.remaining();
        if window_fits(self.index, self.size, self.end) {
            let chunk = Chunk::from_range(share(&self.owner), self.index, self.size);
            self.index = self.index + 1;
            proof {
                lemma_windows_step(before, self.size as nat);
                assert(chunk@ =~= before.take(self.size as int));
                assert(self.remaining() =~= before.skip(1));
            }
            Some(chunk)
        } else {
            None
        }
    }

    /// Number of windows still to come.
    pub fn len(&self) -> (n: usize)
        ensures
            n == self.pieces().len(),
    {
        proof {
            use_type_invariant(self);
        }
        if window_fits(self.index, self.size, self.end) {
            self.end - self.index - self.size + 1
        } else {
            0
        }
    }

    /// Hands out every remaining window.
    pub fn collect(self) -> (all: Vec<Chunk<'a, S, T>>)
        ensures
            Chunk::contents(all@) == self.pieces(),
            all@.len() == self.pieces().len(),
            forall|i: int|
                0 <= i < all@.len() ==> (#[trigger] all@[i])@ == self.pieces()[i] && all@[i].source()
                    == self.source() && all@[i].offset() == self.offset() + i,
    {
        let ghost pieces = self.pieces();
        let ghost source = self.source();
        let ghost first = self.offset();
        let mut rest = self;
        let mut all: Vec<Chunk<'a, S, T>> = Vec::new();
        loop
            invariant
                rest.source() == source,
                all@.len() + rest.pieces().len() == pieces.len(),
                rest.pieces() == pieces.skip(all@.len() as int),
                rest.offset() == first + all@.len(),
                forall|i: int|
                    0 <= i < all@.len() ==> (#[trigger] all@[i])@ == pieces[i] && all@[i].source()
                        == source && all@[i].offset() == first + i,
            ensures
                all@.len() == pieces.len(),
            decreases rest.pieces().len(),
        {
            match rest.next() {
                Some(chunk) => {
                    all.push(chunk);
                    assert(rest.pieces() =~= pieces.skip(all@.len() as int));
                },
                None => {
                    break ;
                },
            }
        }
        assert(Chunk::contents(all@) =~= pieces);
        all
    }
}

impl<'a, S, T> Clone for Windows<'a, S, T> where S: SliceOwner<T> + Send + Sync + 'a, T: Send + Sync {
    fn clone(&self) -> (other: Self)
        ensures
            other == *self,
    {
        proof {
            use_type_invariant(self);
        }
        Windows {
            owner: share(&self.owner),
            size: self.size,
            index: self.index,
            end: self.end,
            _phantom: PhantomData,
        }
    }
}

} // verus!
