use fixedvec::ErrorKind;
use fixedvec::FixedVec;
use std::hash::{Hash, Hasher};

#[test]
fn new_binds_whole_buffer() {
    let mut space = [7u8; 16];
    let vec = FixedVec::new(&mut space);
    assert_eq!(vec.capacity(), 16);
    assert_eq!(vec.len(), 0);
    assert_eq!(vec.available(), 16);
    assert!(vec.is_empty());
    assert_eq!(vec.as_slice(), &[] as &[u8]);
}

#[test]
fn pushes_within_capacity_keep_order() {
    let mut space = [0u8; 3];
    let mut vec = FixedVec::new(&mut space);
    assert_eq!(vec.push(1), Ok(()));
    assert_eq!(vec.len(), 1);
    assert_eq!(vec.push(2), Ok(()));
    assert_eq!(vec.len(), 2);
    assert_eq!(vec.push(3), Ok(()));
    assert_eq!(vec.len(), 3);
    assert_eq!(vec.as_slice(), &[1, 2, 3]);
    assert_eq!(vec.available(), 0);
    assert!(!vec.is_empty());
}

#[test]
fn push_on_full_fails_and_changes_nothing() {
    let mut space = [0u8; 2];
    let mut vec = FixedVec::new(&mut space);
    vec.push(1).unwrap();
    vec.push(2).unwrap();
    assert_eq!(vec.push(3), Err(ErrorKind::NoSpace));
    assert_eq!(vec.push(4), Err(ErrorKind::NoSpace));
    assert_eq!(vec.as_slice(), &[1, 2]);
    assert_eq!(vec.len(), 2);
    assert_eq!(vec.capacity(), 2);
}

#[test]
fn pop_returns_last_then_none() {
    let mut space = [0u8; 16];
    let mut vec = FixedVec::new(&mut space);
    vec.push_all(&[1, 2]).unwrap();
    assert_eq!(vec.pop(), Some(2));
    assert_eq!(vec.as_slice(), &[1]);
    assert_eq!(vec.pop(), Some(1));
    assert_eq!(vec.pop(), None);
    assert_eq!(vec.len(), 0);
}

#[test]
fn push_all_is_all_or_nothing() {
    let mut space = [0u8; 5];
    let mut vec = FixedVec::new(&mut space);
    assert_eq!(vec.push_all(&[1, 2, 3, 4]), Ok(()));
    assert_eq!(vec.as_slice(), &[1, 2, 3, 4]);
    assert_eq!(vec.push_all(&[5, 6, 7]), Err(ErrorKind::NoSpace));
    assert_eq!(vec.as_slice(), &[1, 2, 3, 4]);
    assert_eq!(vec.len(), 4);
    assert_eq!(vec.push_all(&[5]), Ok(()));
    assert_eq!(vec.as_slice(), &[1, 2, 3, 4, 5]);
    assert_eq!(vec.push_all(&[]), Ok(()));
    assert_eq!(vec.as_slice(), &[1, 2, 3, 4, 5]);
}

#[test]
fn insert_shifts_right() {
    let mut space = [0u8; 5];
    let mut vec = FixedVec::new(&mut space);
    vec.push_all(&[1, 2, 3]).unwrap();
    assert_eq!(vec.insert(1, 15), Ok(()));
    assert_eq!(vec.as_slice(), &[1, 15, 2, 3]);
    assert_eq!(vec.insert(4, 16), Ok(()));
    assert_eq!(vec.as_slice(), &[1, 15, 2, 3, 16]);
    assert_eq!(vec.insert(2, 17), Err(ErrorKind::NoSpace));
    assert_eq!(vec.as_slice(), &[1, 15, 2, 3, 16]);
}

#[test]
fn insert_into_last_free_slot() {
    let mut space = [0u8; 4];
    let mut vec = FixedVec::new(&mut space);
    vec.push_all(&[1, 2, 3]).unwrap();
    assert_eq!(vec.insert(0, 9), Ok(()));
    assert_eq!(vec.as_slice(), &[9, 1, 2, 3]);
    assert_eq!(vec.insert(4, 5), Err(ErrorKind::NoSpace));
    assert_eq!(vec.as_slice(), &[9, 1, 2, 3]);
}

#[test]
fn insert_into_empty() {
    let mut space = [0u8; 2];
    let mut vec = FixedVec::new(&mut space);
    assert_eq!(vec.insert(0, 4), Ok(()));
    assert_eq!(vec.as_slice(), &[4]);
}

#[test]
fn insert_then_remove_restores() {
    let mut space = [0u8; 8];
    let mut vec = FixedVec::new(&mut space);
    vec.push_all(&[10, 20, 30, 40]).unwrap();
    for i in 0..=4usize {
        vec.insert(i, 99).unwrap();
        assert_eq!(vec.len(), 5);
        assert_eq!(vec.remove(i), 99);
        assert_eq!(vec.as_slice(), &[10, 20, 30, 40]);
    }
}

#[test]
fn remove_shifts_left() {
    let mut space = [0u8; 16];
    let mut vec = FixedVec::new(&mut space);
    vec.push_all(&[1, 2, 3]).unwrap();
    assert_eq!(vec.remove(1), 2);
    assert_eq!(vec.as_slice(), &[1, 3]);
    assert_eq!(vec.remove(1), 3);
    assert_eq!(vec.as_slice(), &[1]);
    assert_eq!(vec.remove(0), 1);
    assert!(vec.is_empty());
}

#[test]
fn swap_remove_moves_last_into_place() {
    let mut space = [0u8; 10];
    let mut vec = FixedVec::new(&mut space);
    vec.push_all(&[0, 1, 2, 3]).unwrap();
    assert_eq!(vec.swap_remove(1), 1);
    assert_eq!(vec.as_slice(), &[0, 3, 2]);
    assert_eq!(vec.swap_remove(2), 2);
    assert_eq!(vec.as_slice(), &[0, 3]);
    assert_eq!(vec.swap_remove(0), 0);
    assert_eq!(vec.as_slice(), &[3]);
    assert_eq!(vec.swap_remove(0), 3);
    assert!(vec.is_empty());
}

#[test]
fn clear_keeps_capacity() {
    let mut space = [0u8; 10];
    let mut vec = FixedVec::new(&mut space);
    vec.push_all(&[1, 2, 3]).unwrap();
    assert_eq!(vec.len(), 3);
    vec.clear();
    assert_eq!(vec.len(), 0);
    assert_eq!(vec.capacity(), 10);
    assert_eq!(vec.as_slice(), &[] as &[u8]);
}

#[test]
fn resize_grows_with_fill_and_shrinks() {
    let mut space = [0u8; 10];
    let mut vec = FixedVec::new(&mut space);
    assert_eq!(vec.len(), 0);
    vec.resize(5, 255);
    assert_eq!(vec.as_slice(), &[255, 255, 255, 255, 255]);
    vec.resize(2, 0);
    assert_eq!(vec.as_slice(), &[255, 255]);
    vec.resize(4, 1);
    assert_eq!(vec.as_slice(), &[255, 255, 1, 1]);
    vec.resize(10, 2);
    assert_eq!(vec.len(), 10);
    vec.resize(0, 3);
    assert!(vec.is_empty());
}

#[test]
fn retain_keeps_order_and_counts() {
    let mut space = [0u8; 10];
    let mut vec = FixedVec::new(&mut space);
    vec.push_all(&[1, 2, 3, 4]).unwrap();
    vec.retain(|&x| x % 2 == 0);
    assert_eq!(vec.as_slice(), &[2, 4]);
    vec.push_all(&[5, 6, 7, 8, 9]).unwrap();
    vec.retain(|&x| x != 4 && x < 9);
    assert_eq!(vec.as_slice(), &[2, 5, 6, 7, 8]);
    assert_eq!(vec.len(), 5);
    vec.retain(|_| false);
    assert!(vec.is_empty());
}

#[test]
fn dedup_removes_adjacent_only() {
    let mut space = [0u8; 10];
    let mut vec = FixedVec::new(&mut space);
    vec.push_all(&[1, 2, 2, 3, 2]).unwrap();
    vec.dedup();
    assert_eq!(vec.as_slice(), &[1, 2, 3, 2]);
    vec.dedup();
    assert_eq!(vec.as_slice(), &[1, 2, 3, 2]);
}

#[test]
fn dedup_sorted_and_short() {
    let mut space = [0u8; 10];
    let mut vec = FixedVec::new(&mut space);
    vec.push(7).unwrap();
    vec.dedup();
    assert_eq!(vec.as_slice(), &[7]);
    vec.clear();
    vec.push_all(&[1, 1, 1, 2, 2, 3, 3, 3, 3]).unwrap();
    vec.dedup();
    assert_eq!(vec.as_slice(), &[1, 2, 3]);
}

#[test]
fn map_in_place_transforms_each() {
    let mut space = [0u8; 10];
    let mut vec = FixedVec::new(&mut space);
    vec.push_all(&[1, 2, 3]).unwrap();
    vec.map_in_place(|x: &mut u8| *x *= 2);
    assert_eq!(vec.as_slice(), &[2, 4, 6]);
    assert_eq!(vec.len(), 3);
}

#[test]
fn get_checks_against_length() {
    let mut space = [0u8; 10];
    let mut vec = FixedVec::new(&mut space);
    vec.push_all(&[10, 40, 30]).unwrap();
    assert_eq!(Some(&40), vec.get(1));
    assert_eq!(Some(&30), vec.get(2));
    assert_eq!(None, vec.get(3));
    assert_eq!(None, vec.get(9));
    assert_eq!(None, vec.get(10));
    assert_eq!(None, vec.get(usize::MAX));
}

#[test]
fn get_mut_checks_against_length() {
    let mut space = [0u8; 10];
    let mut vec = FixedVec::new(&mut space);
    vec.push_all(&[10, 40, 30]).unwrap();
    {
        let x = vec.get_mut(1).unwrap();
        *x = 50;
    }
    assert_eq!(Some(&50), vec.get(1));
    assert!(vec.get_mut(3).is_none());
    assert!(vec.get_mut(usize::MAX).is_none());
    assert_eq!(vec.as_slice(), &[10, 50, 30]);
}

#[test]
fn unchecked_access_on_live_index() {
    let mut space = [0u8; 10];
    let mut vec = FixedVec::new(&mut space);
    vec.push_all(&[10, 40, 30]).unwrap();
    assert_eq!(&40, vec.get_unchecked(1));
    {
        let x = vec.get_unchecked_mut(1);
        *x = 50;
    }
    assert_eq!(Some(&50), vec.get(1));
}

#[test]
fn as_mut_slice_exposes_live_region() {
    let mut space = [0u8; 16];
    let mut vec = FixedVec::new(&mut space);
    vec.push_all(&[1, 2]).unwrap();
    {
        let slice = vec.as_mut_slice();
        assert_eq!(slice.len(), 2);
        slice[0] = 9;
    }
    assert_eq!(vec.as_slice(), &[9, 2]);
}

#[test]
fn iter_mut_writes_through() {
    let mut space = [0u8; 10];
    let mut vec = FixedVec::new(&mut space);
    vec.push_all(&[1, 2, 3]).unwrap();
    {
        let mut iter = vec.iter_mut();
        let x = iter.next().unwrap();
        *x = 5;
    }
    assert_eq!(vec.as_slice(), &[5, 2, 3]);
    assert_eq!(vec.iter_mut().count(), 3);
}

#[test]
fn iter_restarts_and_stops_at_length() {
    let mut space = [0u8; 10];
    let mut vec = FixedVec::new(&mut space);
    vec.push_all(&[1, 2, 3]).unwrap();
    let mut iter = vec.iter();
    assert_eq!(iter.next(), Some(&1));
    assert_eq!(iter.next(), Some(&2));
    assert_eq!(iter.next(), Some(&3));
    assert_eq!(iter.next(), None);
    assert_eq!(vec.iter().count(), 3);
}

#[test]
fn extend_truncates_silently() {
    let mut space = [0u8; 4];
    let mut vec = FixedVec::new(&mut space);
    vec.push(9).unwrap();
    vec.extend(0..100);
    assert_eq!(vec.as_slice(), &[9, 0, 1, 2]);
    vec.extend(5..6);
    assert_eq!(vec.as_slice(), &[9, 0, 1, 2]);
}

#[test]
fn extend_draws_nothing_when_full() {
    let mut space = [0u8; 2];
    let mut vec = FixedVec::new(&mut space);
    let mut source = [1u8, 2, 3, 4].into_iter();
    vec.extend(&mut source);
    assert_eq!(vec.as_slice(), &[1, 2]);
    assert_eq!(source.next(), Some(3));
    vec.extend(&mut source);
    assert_eq!(source.next(), Some(4));
}

#[test]
fn extend_from_endless_source() {
    let mut space = [0u8; 3];
    let mut vec = FixedVec::new(&mut space);
    vec.extend(std::iter::repeat(7u8));
    assert_eq!(vec.as_slice(), &[7, 7, 7]);
}

#[test]
fn index_reads_any_slot_of_the_buffer() {
    let mut space = [0u8; 4];
    space[3] = 77;
    let mut vec = FixedVec::new(&mut space);
    vec.push_all(&[1, 2, 3]).unwrap();
    assert_eq!(vec[1], 2);
    assert_eq!(vec[3], 77);
    *vec.index_mut(1) = 5;
    assert_eq!(vec[1], 5);
    *vec.index_mut(3) = 6;
    assert_eq!(vec.as_slice(), &[1, 5, 3]);
    assert_eq!(vec[3], 6);
}

#[test]
fn equality_compares_live_elements() {
    let mut space1 = [0u8; 10];
    let mut vec1 = FixedVec::new(&mut space1);
    vec1.push_all(&[1, 2, 3]).unwrap();
    let mut space2 = [9u8; 3];
    let mut vec2 = FixedVec::new(&mut space2);
    vec2.push_all(&[1, 2, 3]).unwrap();
    assert!(vec1 == vec2);
    vec2.pop();
    assert!(vec1 != vec2);
    vec2.push(4).unwrap();
    assert!(vec1 != vec2);
    vec1.pop();
    vec2.pop();
    assert!(vec1 == vec2);
}

#[test]
fn equal_contents_hash_alike() {
    let mut space1 = [0u8; 10];
    let mut vec1 = FixedVec::new(&mut space1);
    vec1.push_all(&[1, 2, 3, 4, 5]).unwrap();
    let mut space2 = [0u8; 10];
    let mut vec2 = FixedVec::new(&mut space2);
    vec2.push_all(&[1, 2, 3, 4, 5]).unwrap();
    let mut hasher1 = std::collections::hash_map::DefaultHasher::new();
    let mut hasher2 = std::collections::hash_map::DefaultHasher::new();
    vec1.hash(&mut hasher1);
    vec2.hash(&mut hasher2);
    assert_eq!(hasher1.finish(), hasher2.finish());
}

#[test]
fn error_kind_is_comparable() {
    assert_eq!(ErrorKind::NoSpace, ErrorKind::NoSpace);
    assert_eq!(format!("{:?}", ErrorKind::NoSpace), "NoSpace");
}

#[test]
fn slots_past_the_length_keep_their_values() {
    let mut space = [0u8; 4];
    let mut vec = FixedVec::new(&mut space);
    vec.push_all(&[1, 2, 3]).unwrap();
    assert_eq!(vec.pop(), Some(3));
    assert_eq!(vec[2], 3);
    assert_eq!(vec.remove(0), 1);
    assert_eq!(vec.as_slice(), &[2]);
    assert_eq!(vec[1], 2);
    assert_eq!(vec[2], 3);
    vec.clear();
    assert_eq!(vec[0], 2);
    vec.resize(2, 9);
    assert_eq!(vec.as_slice(), &[9, 9]);
    assert_eq!(vec[2], 3);
    assert_eq!(vec[3], 0);
    vec.resize(1, 7);
    assert_eq!(vec[1], 9);
}

#[test]
fn swap_remove_rewrites_one_slot() {
    let mut space = [0u8; 4];
    let mut vec = FixedVec::new(&mut space);
    vec.push_all(&[5, 6, 7]).unwrap();
    assert_eq!(vec.swap_remove(0), 5);
    assert_eq!(vec.as_slice(), &[7, 6]);
    assert_eq!(vec[2], 7);
    assert_eq!(vec[3], 0);
}

#[test]
fn iter_mut_yields_live_slots_in_order() {
    let mut space = [0u8; 5];
    space[3] = 40;
    let mut vec = FixedVec::new(&mut space);
    vec.push_all(&[1, 2, 3]).unwrap();
    let mut seen = Vec::new();
    for slot in vec.iter_mut() {
        seen.push(*slot);
        *slot += 10;
    }
    assert_eq!(seen, vec![1, 2, 3]);
    assert_eq!(vec.as_slice(), &[11, 12, 13]);
    assert_eq!(vec.len(), 3);
    assert_eq!(vec[3], 40);
}
