use concurrent_slice::ChunkMut;
use std::sync::Arc;

fn lengths(chunks: &[ChunkMut<'_, Vec<u32>, u32>]) -> Vec<usize> {
    chunks.iter().map(|chunk| chunk.len()).collect()
}

fn ranges(chunks: &[ChunkMut<'_, Vec<u32>, u32>]) -> Vec<(usize, usize)> {
    chunks.iter().map(|chunk| (chunk.start_index(), chunk.start_index() + chunk.len())).collect()
}

#[test]
fn mut_split_at_gives_disjoint_halves() {
    let (left, right) = ChunkMut::new((0..16).collect::<Vec<u32>>()).split_at(5);
    assert_eq!(&*left, &[0, 1, 2, 3, 4]);
    assert_eq!(right.to_vec(), (5..16).collect::<Vec<u32>>());
    assert_eq!(left.start_index() + left.len(), right.start_index());
    assert!(left.same_owner(&right));
    assert!(Arc::ptr_eq(left.owner(), right.owner()));
    let merged = ChunkMut::cat(vec![left, right]);
    assert_eq!(merged.to_vec(), (0..16).collect::<Vec<u32>>());
}

#[test]
fn mut_sized_chunks_do_not_overlap() {
    let chunks = ChunkMut::new((0..10).collect::<Vec<u32>>()).into_sized_chunks(4).collect();
    assert_eq!(ranges(&chunks), vec![(0, 4), (4, 8), (8, 10)]);
    assert_eq!(&*chunks[2], &[8, 9]);
}

#[test]
fn mut_even_chunks_of_twenty_five_by_four() {
    let orig: Vec<u32> = (0..25).collect();
    let chunks = ChunkMut::new(orig.clone()).into_even_chunks(4).collect();
    assert_eq!(lengths(&chunks), vec![7, 6, 6, 6]);
    assert_eq!(ranges(&chunks), vec![(0, 7), (7, 13), (13, 19), (19, 25)]);
    let merged = ChunkMut::try_cat(chunks).unwrap();
    assert_eq!(merged.try_unwrap_owner().unwrap(), orig);
}

#[test]
fn mut_empty_view_has_no_chunks() {
    assert_eq!(ChunkMut::new([1u8; 0]).into_sized_chunks(2).count(), 0);
    assert_eq!(ChunkMut::new([1u8; 0]).into_even_chunks(1).count(), 0);
}

#[test]
fn mut_iter_yields_every_position_once() {
    let (_, right) = ChunkMut::new(vec![5u32, 6, 7, 8]).split_at(1);
    let mut iter = right.into_iter_owned();
    assert_eq!(iter.len(), 3);
    let a = iter.next().unwrap();
    let b = iter.next().unwrap();
    let c = iter.next().unwrap();
    assert!(iter.next().is_none());
    assert_eq!((a.index(), *a), (1, 6));
    assert_eq!((b.index(), *b.get()), (2, 7));
    assert_eq!((c.index(), *c), (3, 8));
    assert!(Arc::ptr_eq(a.owner(), c.owner()));
    assert!(a < b);
    assert!(a != b);
}

#[test]
fn mut_into_range_narrows() {
    let chunk = ChunkMut::new((0..10).collect::<Vec<u32>>());
    let sub = chunk.into_range(3..7).unwrap();
    assert_eq!(&*sub, &[3, 4, 5, 6]);
    assert_eq!(sub.start_index(), 3);
    assert_eq!(sub.ref_count(), 1);
    assert!(sub.into_range(2..5).is_none());
}

#[test]
fn mut_try_cat_rejects_gap_and_other_owner() {
    let mut chunks = ChunkMut::new((0..9).collect::<Vec<u32>>()).into_sized_chunks(3).collect();
    chunks.remove(1);
    assert!(ChunkMut::try_cat(chunks).is_none());
    let (left, _) = ChunkMut::new(vec![1u32, 2]).split_at(1);
    let (_, right) = ChunkMut::new(vec![1u32, 2]).split_at(1);
    assert!(ChunkMut::try_cat(vec![left, right]).is_none());
    assert!(ChunkMut::<Vec<u32>, u32>::try_cat(Vec::new()).is_none());
}

#[test]
fn mut_reclaim_needs_every_view_dropped() {
    let orig: Vec<u32> = (0..6).collect();
    let mut chunks = ChunkMut::new(orig.clone()).into_even_chunks(2);
    let first = chunks.next().unwrap();
    let second = chunks.next().unwrap();
    assert!(chunks.next().is_none());
    assert_eq!(first.ref_count(), 3);
    let chunks = chunks.try_unwrap_owner().unwrap_err();
    drop(chunks);
    let first = first.try_unwrap_owner().unwrap_err();
    assert_eq!(&*first, &[0, 1, 2]);
    drop(second);
    assert_eq!(first.try_unwrap_owner().unwrap(), orig);
}

#[test]
fn mut_iterators_hand_out_their_owner() {
    let chunks = ChunkMut::new(vec![1u32, 2, 3]).into_sized_chunks(2);
    assert_eq!(chunks.ref_count(), 1);
    assert_eq!(*chunks.into_arc_owner(), vec![1, 2, 3]);
    let chunks = ChunkMut::new(vec![1u32, 2, 3]).into_even_chunks(2);
    assert_eq!(*chunks.into_arc_owner(), vec![1, 2, 3]);
    let mut iter = ChunkMut::from_arc(Arc::new(vec![1u32])).into_iter_owned();
    let element = iter.next().unwrap();
    drop(iter);
    assert_eq!(element.try_unwrap_owner().unwrap(), vec![1]);
}

#[test]
fn mut_partition_len_counts_down() {
    let mut chunks = ChunkMut::new((0..10).collect::<Vec<u32>>()).into_sized_chunks(4);
    assert_eq!(chunks.len(), 3);
    chunks.next();
    assert_eq!(chunks.len(), 2);
    let mut chunks = ChunkMut::new((0..10).collect::<Vec<u32>>()).into_even_chunks(4);
    assert_eq!(chunks.len(), 4);
    chunks.next();
    assert_eq!(chunks.count(), 3);
}

#[test]
fn mut_share_one_owner_and_cat_if() {
    let pieces = ChunkMut::new((0..8).collect::<Vec<u32>>()).into_even_chunks(3).collect();
    assert!(ChunkMut::share_one_owner(&pieces));
    let merged = ChunkMut::cat_if(pieces, true).unwrap();
    assert_eq!(merged.to_vec(), (0..8).collect::<Vec<u32>>());

    let (left, _) = ChunkMut::new(vec![1u32, 2]).split_at(1);
    let (_, right) = ChunkMut::new(vec![1u32, 2]).split_at(1);
    let both = vec![left, right];
    assert!(!ChunkMut::share_one_owner(&both));
    assert!(ChunkMut::cat_if(both, false).is_none());

    let mut pieces = ChunkMut::new((0..9).collect::<Vec<u32>>()).into_sized_chunks(3).collect();
    pieces.swap(1, 2);
    assert!(ChunkMut::cat_if(pieces, true).is_none());

    let single = vec![ChunkMut::new(vec![5u32, 6])];
    assert_eq!(&*ChunkMut::try_cat(single).unwrap(), &[5, 6]);
}
