use concurrent_slice::iter::Iter;
use concurrent_slice::windows::Windows;
use concurrent_slice::{ConcurrentSlice, Guard};
use std::sync::Arc;

#[test]
fn owning_iter_yields_references_to_each_element() {
    let owner = Arc::new(vec![4u32, 5, 6]);
    let mut iter = owner.owning_iter();
    assert_eq!(iter.len(), 3);
    let first = iter.next().unwrap();
    let second = iter.next().unwrap();
    assert_eq!(iter.len(), 1);
    let third = iter.next().unwrap();
    assert!(iter.next().is_none());
    assert!(iter.next().is_none());
    assert_eq!((*first, *second, *third), (4, 5, 6));
    drop(iter);
    assert_eq!(Arc::strong_count(first.as_owner()), 3);
}

#[test]
fn owning_iter_of_empty_collection() {
    let mut iter = Arc::new(Vec::<u32>::new()).owning_iter();
    assert_eq!(iter.len(), 0);
    assert!(iter.next().is_none());
}

#[test]
fn owning_iter_clone_keeps_position() {
    let mut iter = Iter::new(Arc::new(vec![1u32, 2, 3]));
    iter.next();
    let mut copy = iter.clone();
    assert_eq!(copy.len(), 2);
    assert_eq!(*copy.next().unwrap(), 2);
    assert_eq!(*iter.next().unwrap(), 2);
}

#[test]
fn owning_windows_of_three_over_five() {
    let mut windows = Arc::new((0..5).collect::<Vec<u32>>()).owning_windows(3);
    assert_eq!(windows.len(), 3);
    assert_eq!(&*windows.next().unwrap(), &[0, 1, 2]);
    assert_eq!(&*windows.next().unwrap(), &[1, 2, 3]);
    assert_eq!(windows.len(), 1);
    assert_eq!(&*windows.next().unwrap(), &[2, 3, 4]);
    assert!(windows.next().is_none());
    assert_eq!(windows.len(), 0);
}

#[test]
fn owning_windows_shorter_than_width() {
    let mut windows = Arc::new(vec![1u32, 2]).owning_windows(3);
    assert_eq!(windows.len(), 0);
    assert!(windows.next().is_none());
    let mut windows = Windows::new(Arc::new(vec![1u32, 2]), usize::MAX);
    assert!(windows.next().is_none());
}

#[test]
fn owning_windows_clone_keeps_position() {
    let mut windows = Windows::new(Arc::new(vec![1u32, 2, 3]), 2);
    windows.next();
    let mut copy = windows.clone();
    assert_eq!(&*copy.next().unwrap(), &[2, 3]);
    assert!(copy.next().is_none());
    assert_eq!(&*windows.next().unwrap(), &[2, 3]);
}

#[test]
fn guard_counts_and_reclaims() {
    let guard = Guard::new(vec![1u32, 2, 3]);
    assert_eq!(guard.ref_count(), 1);
    let other = guard.clone();
    assert_eq!(guard.ref_count(), 2);
    let guard = guard.try_unwrap().unwrap_err();
    assert_eq!(guard.ref_count(), 2);
    drop(other);
    assert_eq!(guard.ref_count(), 1);
    assert_eq!(guard.try_unwrap().unwrap(), vec![1, 2, 3]);
}

#[test]
fn guard_wraps_an_existing_handle() {
    let owner = Arc::new(vec![7u32]);
    let guard = Guard::from_arc(owner.clone());
    assert_eq!(guard.ref_count(), 2);
    let inner = guard.into_arc();
    assert!(Arc::ptr_eq(&owner, &inner));
}
