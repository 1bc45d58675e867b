//! The owner handle: a shared, counted handle on a collection, kept to take
//! the collection back once every view of it is gone.

use crate::shared::{holders, reclaim, share};
use std::sync::Arc;
use vstd::prelude::*;

verus! {

/// A shared handle on a collection.
#[derive(Debug)]
pub struct Guard<S> {
    data: Arc<S>,
}

impl<S> Guard<S> where S: Send {
    /// The collection behind the handle.
    pub closed spec fn view(&self) -> S {
        *self.data
    }

    /// Moves `collection` behind a fresh handle.
    pub fn new(collection: S) -> (guard: Self)
        ensures
            guard@ == collection,
    {
        Guard { data: Arc::new(collection) }
    }

    /// Wraps an existing handle.
    pub fn from_arc(data: Arc<S>) -> (guard: Self)
        ensures
            guard@ == *data,
    {
        Guard { data }
    }

    /// Gives up the guard and hands out the handle inside it.
    pub fn into_arc(self) -> (data: Arc<S>)
        ensures
            *data == self@,
    {
        self.data
    }

    /// Takes the collection back if this is the only handle on it;
    /// otherwise the guard is returned as it was.
    pub fn try_unwrap(self) -> (r: Result<S, Self>)
        ensures
            match r {
                Ok(collection) => collection == self@,
                Err(guard) => guard == self,
            },
    {
        match reclaim(self.data) {
            Ok(inner) => Ok(inner),
            Err(data) => Err(Guard { data }),
        }
    }

    /// Number of handles on the collection that are alive right now.
    pub fn ref_count(&self) -> (n: usize)
        ensures
            n >= 1,
    {
        holders(&self.data)
    }
}

impl<S> Clone for Guard<S> where S: Send {
    /// Another handle on the same collection.
    fn clone(&self) -> (other: Self)
        ensures
            other == *self,
    {
        Guard { data: share(&self.data) }
    }
}

} // verus!
