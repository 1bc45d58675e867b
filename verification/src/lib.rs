//! Owned, reference-counted views into one contiguous collection.
//!
//! A collection is moved behind a shared handle once; every view, iterator
//! and element handle derived from it keeps a clone of that handle together
//! with the range of positions it addresses. Views produced by splitting or
//! partitioning address disjoint ranges, so they can be handed to separate
//! workers, and the collection can be taken back once the last of them is
//! gone.

pub mod chunk;
pub mod chunk_mut;
pub mod chunks;
pub mod chunks_mut;
pub mod guard;
pub mod iter;
pub mod owner;
pub mod partition;
pub mod refs;
pub mod shared;
pub mod slice;
pub mod windows;

pub use chunk::Chunk;
pub use chunk_mut::ChunkMut;
pub use chunks::{EvenChunks, Owned, SizedChunks};
pub use chunks_mut::{EvenChunksMut, IterMut, OwnedMut, SizedChunksMut};
pub use guard::Guard;
pub use owner::SliceOwner;
pub use owning_ref::{ArcRef, OwningRef};
pub use slice::ConcurrentSlice;
