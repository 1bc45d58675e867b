use concurrent_slice::slice::{chunks_by_division, even_chunks, sized_chunks, split_at};
use concurrent_slice::chunks::{Iter, Windows};
use concurrent_slice::{Chunk, ChunkMut, EvenChunks, Guard, Owned, SizedChunks};
use std::collections::hash_map::DefaultHasher;
use std::hash::{Hash, Hasher};
use std::sync::Arc;

fn lengths(chunks: &[Chunk<'_, Vec<u32>, u32>]) -> Vec<usize> {
    chunks.iter().map(|chunk| chunk.len()).collect()
}

fn flatten(chunks: &[Chunk<'_, Vec<u32>, u32>]) -> Vec<u32> {
    chunks.iter().flat_map(|chunk| chunk.iter().copied()).collect()
}

#[test]
fn new_views_whole_collection() {
    let chunk = Chunk::new(vec![7u32, 8, 9]);
    assert_eq!(chunk.len(), 3);
    assert_eq!(chunk.start_index(), 0);
    assert_eq!(chunk.as_slice(), &[7, 8, 9]);
    assert_eq!(chunk.ref_count(), 1);
}

#[test]
fn from_arc_counts_existing_handles() {
    let owner = Arc::new(vec![1u32, 2, 3]);
    let chunk = Chunk::from_arc(owner.clone());
    assert_eq!(&*chunk, &[1, 2, 3]);
    assert_eq!(chunk.ref_count(), 2);
    drop(owner);
    assert_eq!(chunk.ref_count(), 1);
}

#[test]
fn split_at_every_index_then_cat() {
    let orig: Vec<u32> = (0..16).collect();
    for index in 0..=orig.len() {
        let (left, right) = Chunk::new(orig.clone()).split_at(index);
        assert_eq!(&*left, &orig[..index]);
        assert_eq!(&*right, &orig[index..]);
        assert_eq!(left.start_index(), 0);
        assert_eq!(right.start_index(), index);
        assert!(left.same_owner(&right));
        let merged = Chunk::cat(vec![left, right]);
        assert_eq!(&*merged, &orig[..]);
    }
}

#[test]
fn split_at_five_of_sixteen() {
    let orig: Vec<u32> = (0..16).collect();
    let (left, right) = split_at(orig, 5);
    assert_eq!(&*left, &[0, 1, 2, 3, 4]);
    assert_eq!(&*right, &[5, 6, 7, 8, 9, 10, 11, 12, 13, 14, 15]);
    let merged = Chunk::cat(vec![left, right]);
    assert_eq!(merged.to_vec(), (0..16).collect::<Vec<u32>>());
}

#[test]
fn split_shares_one_owner() {
    let (left, right) = Chunk::new(vec![1u32, 2, 3, 4]).split_at(2);
    assert_eq!(left.ref_count(), 2);
    assert_eq!(right.ref_count(), 2);
    drop(left);
    assert_eq!(right.ref_count(), 1);
}

#[test]
fn sized_chunks_lengths_and_content() {
    let orig: Vec<u32> = (0..10).collect();
    let chunks = Chunk::new(orig.clone()).into_sized_chunks(4).collect();
    assert_eq!(lengths(&chunks), vec![4, 4, 2]);
    assert_eq!(&*chunks[0], &[0, 1, 2, 3]);
    assert_eq!(&*chunks[1], &[4, 5, 6, 7]);
    assert_eq!(&*chunks[2], &[8, 9]);
    assert_eq!(flatten(&chunks), orig);
}

#[test]
fn sized_chunks_count_is_rounded_up() {
    for len in 0..20u32 {
        for size in 1..7usize {
            let orig: Vec<u32> = (0..len).collect();
            let chunks = sized_chunks(orig.clone(), size).collect();
            assert_eq!(chunks.len(), (len as usize + size - 1) / size);
            for chunk in chunks.iter().rev().skip(1) {
                assert_eq!(chunk.len(), size);
            }
            assert_eq!(flatten(&chunks), orig);
        }
    }
}

#[test]
fn sized_chunks_exact_multiple() {
    let chunks = Chunk::new((0..6).collect::<Vec<u32>>()).into_sized_chunks(3).collect();
    assert_eq!(lengths(&chunks), vec![3, 3]);
}

#[test]
fn sized_chunks_larger_than_view() {
    let chunks = Chunk::new(vec![1u32, 2]).into_sized_chunks(usize::MAX).collect();
    assert_eq!(lengths(&chunks), vec![2]);
}

#[test]
fn sized_chunks_of_empty_view_with_zero_size() {
    assert_eq!(Chunk::new(Vec::<u32>::new()).into_sized_chunks(0).count(), 0);
}

#[test]
fn sized_chunks_stay_exhausted() {
    let mut chunks = Chunk::new(vec![1u32, 2, 3]).into_sized_chunks(2);
    assert!(chunks.next().is_some());
    assert!(chunks.next().is_some());
    assert!(chunks.next().is_none());
    assert!(chunks.next().is_none());
}

#[test]
fn even_chunks_of_twenty_five_by_four() {
    let orig: Vec<u32> = (0..25).collect();
    let chunks = Chunk::new(orig.clone()).into_even_chunks(4).collect();
    assert_eq!(lengths(&chunks), vec![7, 6, 6, 6]);
    assert_eq!(chunks[0].to_vec(), (0..7).collect::<Vec<u32>>());
    assert_eq!(chunks[1].to_vec(), (7..13).collect::<Vec<u32>>());
    assert_eq!(chunks[2].to_vec(), (13..19).collect::<Vec<u32>>());
    assert_eq!(chunks[3].to_vec(), (19..25).collect::<Vec<u32>>());
    let mut rest = chunks;
    let tail = rest.split_off(2);
    let head = Chunk::cat(rest);
    assert_eq!(head.to_vec(), (0..13).collect::<Vec<u32>>());
    let tail = Chunk::cat(tail);
    let all = Chunk::cat(vec![head, tail]);
    assert_eq!(all.to_vec(), orig);
    assert_eq!(all.try_unwrap_owner().unwrap(), orig);
}

#[test]
fn even_chunks_lengths_differ_by_at_most_one() {
    for len in 0..30u32 {
        for parts in 1..9usize {
            let orig: Vec<u32> = (0..len).collect();
            let chunks = even_chunks(orig.clone(), parts).collect();
            let len = len as usize;
            if len >= parts {
                assert_eq!(chunks.len(), parts);
            } else {
                assert_eq!(chunks.len(), len);
            }
            for (i, chunk) in chunks.iter().enumerate() {
                let expected = len / parts + if i < len % parts { 1 } else { 0 };
                assert_eq!(chunk.len(), expected);
            }
            assert_eq!(flatten(&chunks), orig);
        }
    }
}

#[test]
fn even_chunks_fewer_elements_than_parts() {
    let chunks = Chunk::new(vec![4u32, 5]).into_even_chunks(5).collect();
    assert_eq!(lengths(&chunks), vec![1, 1]);
    assert_eq!(&*chunks[0], &[4]);
    assert_eq!(&*chunks[1], &[5]);
}

#[test]
fn even_chunks_count_matches_collect() {
    assert_eq!(Chunk::new((0..16).collect::<Vec<u32>>()).into_even_chunks(3).count(), 3);
    assert_eq!(Chunk::new((0..2).collect::<Vec<u32>>()).into_even_chunks(3).count(), 2);
}

#[test]
fn chunks_by_division_uses_division_when_given() {
    let chunks = chunks_by_division((0..10).collect::<Vec<u32>>(), Some(2), 5).collect();
    assert_eq!(lengths(&chunks), vec![5, 5]);
}

#[test]
fn chunks_by_division_falls_back_to_parallelism() {
    let chunks = chunks_by_division((0..10).collect::<Vec<u32>>(), None, 3).collect();
    assert_eq!(lengths(&chunks), vec![4, 3, 3]);
}

#[test]
fn chunks_adjoin_in_order() {
    let chunks = Chunk::new((0..11).collect::<Vec<u32>>()).into_even_chunks(3).collect();
    let mut expected_start = 0;
    for chunk in chunks.iter() {
        assert_eq!(chunk.start_index(), expected_start);
        expected_start += chunk.len();
    }
    assert_eq!(expected_start, 11);
}

#[test]
fn windows_of_three_over_five() {
    let windows = Chunk::new((0..5).collect::<Vec<u32>>()).into_windows_owned(3).collect();
    assert_eq!(windows.len(), 3);
    assert_eq!(&*windows[0], &[0, 1, 2]);
    assert_eq!(&*windows[1], &[1, 2, 3]);
    assert_eq!(&*windows[2], &[2, 3, 4]);
}

#[test]
fn windows_count_and_overlap() {
    for len in 0..12u32 {
        for width in 1..6usize {
            let orig: Vec<u32> = (0..len).collect();
            let windows = Chunk::new(orig.clone()).into_windows_owned(width);
            let expected = (len as usize + 1).saturating_sub(width);
            assert_eq!(windows.len(), expected);
            let all = windows.collect();
            assert_eq!(all.len(), expected);
            for (i, window) in all.iter().enumerate() {
                assert_eq!(&**window, &orig[i..i + width]);
            }
            for pair in all.windows(2) {
                assert_eq!(&pair[0][1..], &pair[1][..width - 1]);
            }
        }
    }
}

#[test]
fn windows_wider_than_view() {
    let mut windows = Chunk::new(vec![1u32, 2]).into_windows_owned(3);
    assert_eq!(windows.len(), 0);
    assert!(windows.next().is_none());
}

#[test]
fn windows_width_near_limit_does_not_wrap() {
    let mut windows = Chunk::new(vec![1u32, 2]).into_windows_owned(usize::MAX);
    assert!(windows.next().is_none());
}

#[test]
fn windows_len_counts_down() {
    let mut windows = Chunk::new((0..5).collect::<Vec<u32>>()).into_windows_owned(2);
    assert_eq!(windows.len(), 4);
    windows.next();
    assert_eq!(windows.len(), 3);
    let copy = windows.clone();
    assert_eq!(copy.len(), 3);
}

#[test]
fn iter_owned_yields_every_element() {
    let mut iter = Chunk::new(vec![10u32, 20, 30]).into_iter_owned();
    assert_eq!(iter.len(), 3);
    let first = iter.next().unwrap();
    assert_eq!(*first.get(), 10);
    assert_eq!(iter.len(), 2);
    let second = iter.next().unwrap();
    let third = iter.next().unwrap();
    assert_eq!(*second, 20);
    assert_eq!(*third, 30);
    assert!(iter.next().is_none());
    assert!(iter.next().is_none());
    assert_eq!(iter.len(), 0);
}

#[test]
fn iter_owned_of_sub_view() {
    let (_, right) = Chunk::new(vec![1u32, 2, 3, 4]).split_at(2);
    let mut iter = right.into_iter_owned();
    assert_eq!(*iter.next().unwrap(), 3);
    assert_eq!(*iter.next().unwrap(), 4);
    assert!(iter.next().is_none());
}

#[test]
fn owned_compares_as_its_element() {
    let mut iter = Chunk::new(vec![5u32, 5, 9]).into_iter_owned();
    let a = iter.next().unwrap();
    let b = iter.next().unwrap();
    let c = iter.next().unwrap();
    assert!(a == b);
    assert!(a != c);
    assert!(a < c);
    assert!(c > b);
    assert!(a <= b);
}

#[test]
fn to_range_narrows() {
    let chunk = Chunk::new((0..10).collect::<Vec<u32>>());
    let sub = chunk.to_range(2..5).unwrap();
    assert_eq!(&*sub, &[2, 3, 4]);
    assert_eq!(sub.start_index(), 2);
    let inner = sub.to_range(1..3).unwrap();
    assert_eq!(&*inner, &[3, 4]);
    assert_eq!(inner.start_index(), 3);
    assert_eq!(chunk.ref_count(), 3);
}

#[test]
fn to_range_edges() {
    let chunk = Chunk::new((0..4).collect::<Vec<u32>>());
    assert_eq!(chunk.to_range(0..4).unwrap().len(), 4);
    assert_eq!(chunk.to_range(4..4).unwrap().len(), 0);
    assert_eq!(chunk.to_range(0..0).unwrap().len(), 0);
    assert!(chunk.to_range(0..5).is_none());
    assert!(chunk.to_range(3..2).is_none());
    assert!(chunk.to_range(5..5).is_none());
}

#[test]
fn into_range_narrows() {
    let chunk = Chunk::new((0..6).collect::<Vec<u32>>());
    let sub = chunk.into_range(4..6).unwrap();
    assert_eq!(&*sub, &[4, 5]);
    assert!(sub.into_range(1..3).is_none());
}

#[test]
fn try_cat_accepts_contiguous_views() {
    let chunks = Chunk::new((0..9).collect::<Vec<u32>>()).into_sized_chunks(4).collect();
    let merged = Chunk::try_cat(chunks).unwrap();
    assert_eq!(merged.to_vec(), (0..9).collect::<Vec<u32>>());
}

#[test]
fn try_cat_rejects_no_views() {
    assert!(Chunk::<Vec<u32>, u32>::try_cat(Vec::new()).is_none());
}

#[test]
fn try_cat_rejects_gap() {
    let mut chunks = Chunk::new((0..9).collect::<Vec<u32>>()).into_sized_chunks(3).collect();
    chunks.remove(1);
    assert!(Chunk::try_cat(chunks).is_none());
}

#[test]
fn try_cat_rejects_wrong_order() {
    let mut chunks = Chunk::new((0..9).collect::<Vec<u32>>()).into_sized_chunks(3).collect();
    chunks.swap(0, 1);
    assert!(Chunk::try_cat(chunks).is_none());
}

#[test]
fn try_cat_rejects_overlap() {
    let windows = Chunk::new((0..5).collect::<Vec<u32>>()).into_windows_owned(3).collect();
    assert!(Chunk::try_cat(windows).is_none());
}

#[test]
fn try_cat_rejects_other_owner() {
    let (left, _) = Chunk::new(vec![1u32, 2, 3, 4]).split_at(2);
    let (_, right) = Chunk::new(vec![1u32, 2, 3, 4]).split_at(2);
    assert!(!left.same_owner(&right));
    assert!(Chunk::try_cat(vec![left, right]).is_none());
}

#[test]
fn cat_of_single_view() {
    let (left, _right) = Chunk::new(vec![1u32, 2, 3]).split_at(1);
    let merged = Chunk::cat(vec![left]);
    assert_eq!(&*merged, &[1]);
}

#[test]
fn reclaim_succeeds_after_all_views_dropped() {
    let orig: Vec<u32> = (0..12).collect();
    let mut chunks = Chunk::new(orig.clone()).into_sized_chunks(5);
    let first = chunks.next().unwrap();
    let second = chunks.next().unwrap();
    assert_eq!(chunks.ref_count(), 3);
    drop(first);
    drop(second);
    assert_eq!(chunks.ref_count(), 1);
    assert_eq!(chunks.try_unwrap_owner().unwrap(), orig);
}

#[test]
fn reclaim_fails_while_a_view_is_alive() {
    let orig: Vec<u32> = (0..12).collect();
    let mut chunks = Chunk::new(orig.clone()).into_sized_chunks(5);
    let first = chunks.next().unwrap();
    let mut chunks = chunks.try_unwrap_owner().unwrap_err();
    assert_eq!(chunks.ref_count(), 2);
    let second = chunks.next().unwrap();
    assert_eq!(&*second, &[5, 6, 7, 8, 9]);
    let first = first.try_unwrap_owner().unwrap_err();
    assert_eq!(&*first, &[0, 1, 2, 3, 4]);
    assert_eq!(first.start_index(), 0);
    drop(chunks);
    drop(second);
    assert_eq!(first.try_unwrap_owner().unwrap(), orig);
}

#[test]
fn reclaim_through_element_handle() {
    let mut iter = Chunk::new(vec![3u32, 4]).into_iter_owned();
    let element = iter.next().unwrap();
    let iter = iter.try_unwrap_owner().unwrap_err();
    assert_eq!(iter.len(), 1);
    let element = element.try_unwrap_owner().unwrap_err();
    assert_eq!(*element, 3);
    drop(iter);
    assert_eq!(element.try_unwrap_owner().unwrap(), vec![3, 4]);
}

#[test]
fn into_arc_owner_keeps_collection() {
    let (left, right) = Chunk::new(vec![1u32, 2, 3]).split_at(1);
    let owner = left.into_arc_owner();
    assert_eq!(*owner, vec![1, 2, 3]);
    assert_eq!(Arc::strong_count(&owner), 2);
    drop(right);
    assert_eq!(Arc::try_unwrap(owner).unwrap(), vec![1, 2, 3]);
}

#[test]
fn iterators_hand_out_their_owner() {
    let chunks = Chunk::new(vec![1u32, 2, 3]).into_sized_chunks(2);
    assert_eq!(*chunks.into_arc_owner(), vec![1, 2, 3]);
    let chunks = Chunk::new(vec![1u32, 2, 3]).into_even_chunks(2);
    assert_eq!(chunks.ref_count(), 1);
    assert_eq!(*chunks.into_arc_owner(), vec![1, 2, 3]);
}

#[test]
fn into_arc_ref_addresses_the_view() {
    let (_, right) = Chunk::new((0..6).collect::<Vec<u32>>()).split_at(4);
    let reference = right.into_arc_ref();
    assert_eq!(&*reference, &[4, 5]);
    assert_eq!(**reference.as_owner(), (0..6).collect::<Vec<u32>>());
}

#[test]
fn views_of_arrays_and_borrowed_collections() {
    let array = [1u8, 2, 3, 4];
    let (left, right) = Chunk::new(array).split_at(1);
    assert_eq!(&*left, &[1]);
    assert_eq!(&*right, &[2, 3, 4]);
    let owned = vec![9u8, 8, 7];
    let chunk = Chunk::new(&owned);
    assert_eq!(&*chunk, &[9, 8, 7]);
    let chunk = Chunk::new(&owned[1..]);
    assert_eq!(&*chunk, &[8, 7]);
    let boxed: Box<[u8]> = vec![4u8, 5, 6].into_boxed_slice();
    let (left, right) = Chunk::new(boxed).split_at(2);
    assert_eq!(&*left, &[4, 5]);
    assert_eq!(&*right, &[6]);
    let mut buffer = [1u8, 2, 3];
    let chunk = Chunk::new(&mut buffer[..]);
    assert_eq!(chunk.into_even_chunks(2).count(), 2);
}

fn hash_of<H: Hash>(value: &H) -> u64 {
    let mut state = DefaultHasher::new();
    value.hash(&mut state);
    state.finish()
}

#[test]
fn owned_hashes_as_its_element() {
    let mut iter = Chunk::new(vec![11u32, 12]).into_iter_owned();
    let first = iter.next().unwrap();
    let second = iter.next().unwrap();
    assert_eq!(hash_of(&first), hash_of(&11u32));
    assert_eq!(hash_of(&second), hash_of(&12u32));
    assert_ne!(hash_of(&first), hash_of(&second));
}

fn assert_send_sync<X: Send + Sync>() {}

#[test]
fn views_can_cross_threads() {
    assert_send_sync::<Chunk<'static, Vec<u32>, u32>>();
    assert_send_sync::<ChunkMut<'static, Vec<u32>, u32>>();
    assert_send_sync::<SizedChunks<'static, Vec<u32>, u32>>();
    assert_send_sync::<EvenChunks<'static, Vec<u32>, u32>>();
    assert_send_sync::<Windows<'static, Vec<u32>, u32>>();
    assert_send_sync::<Iter<'static, Vec<u32>, u32>>();
    assert_send_sync::<Owned<Vec<u32>, u32>>();
    assert_send_sync::<Guard<Vec<u32>>>();
}

#[test]
fn borrowed_view_iterates_its_elements() {
    let (_, right) = Chunk::new(vec![1u32, 2, 3]).split_at(1);
    let seen: Vec<u32> = (&right).into_iter().copied().collect();
    assert_eq!(seen, vec![2, 3]);
    let as_ref: &[u32] = right.as_ref();
    assert_eq!(as_ref, &[2, 3]);
}

#[test]
fn partition_len_counts_down() {
    let mut chunks = Chunk::new((0..10).collect::<Vec<u32>>()).into_sized_chunks(4);
    assert_eq!(chunks.len(), 3);
    chunks.next();
    assert_eq!(chunks.len(), 2);
    chunks.next();
    chunks.next();
    assert_eq!(chunks.len(), 0);
    let mut chunks = Chunk::new((0..10).collect::<Vec<u32>>()).into_even_chunks(4);
    assert_eq!(chunks.len(), 4);
    chunks.next();
    chunks.next();
    chunks.next();
    assert_eq!(chunks.len(), 1);
    assert_eq!(chunks.count(), 1);
    assert_eq!(Chunk::new((0..8).collect::<Vec<u32>>()).into_sized_chunks(4).len(), 2);
    assert_eq!(Chunk::new((0..9).collect::<Vec<u32>>()).into_sized_chunks(4).len(), 3);
    assert_eq!(Chunk::new((0..3).collect::<Vec<u32>>()).into_even_chunks(7).len(), 3);
}

#[test]
fn share_one_owner_tells_allocations_apart() {
    let pieces = Chunk::new((0..9).collect::<Vec<u32>>()).into_sized_chunks(3).collect();
    assert!(Chunk::share_one_owner(&pieces));
    let (left, _) = Chunk::new(vec![1u32, 2]).split_at(1);
    let (_, right) = Chunk::new(vec![1u32, 2]).split_at(1);
    assert!(!Chunk::share_one_owner(&vec![left, right]));
    assert!(Chunk::<Vec<u32>, u32>::share_one_owner(&Vec::new()));
    assert!(Chunk::share_one_owner(&vec![Chunk::new(vec![1u32])]));
}

#[test]
fn cat_if_merges_only_contiguous_views_of_one_owner() {
    let pieces = Chunk::new((0..9).collect::<Vec<u32>>()).into_sized_chunks(3).collect();
    let merged = Chunk::cat_if(pieces, true).unwrap();
    assert_eq!(merged.to_vec(), (0..9).collect::<Vec<u32>>());
    assert_eq!(merged.start_index(), 0);

    let pieces = Chunk::new((0..9).collect::<Vec<u32>>()).into_sized_chunks(3).collect();
    assert!(Chunk::cat_if(pieces, false).is_none());

    let mut pieces = Chunk::new((0..9).collect::<Vec<u32>>()).into_sized_chunks(3).collect();
    pieces.remove(1);
    assert!(Chunk::cat_if(pieces, true).is_none());

    assert!(Chunk::<Vec<u32>, u32>::cat_if(Vec::new(), true).is_none());
}

#[test]
fn try_cat_merges_a_single_view() {
    let (_, right) = Chunk::new(vec![1u32, 2, 3]).split_at(1);
    let merged = Chunk::try_cat(vec![right]).unwrap();
    assert_eq!(&*merged, &[2, 3]);
    assert_eq!(merged.start_index(), 1);
}

#[test]
fn borrowed_view_iterates_in_order() {
    let chunk = Chunk::new(vec![3u32, 1, 2]);
    let mut seen = Vec::new();
    for element in &chunk {
        seen.push(*element);
    }
    assert_eq!(seen, vec![3, 1, 2]);
    let empty = Chunk::new(Vec::<u32>::new());
    assert_eq!((&empty).into_iter().count(), 0);
}
