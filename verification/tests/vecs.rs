use storage_api::collections::{InsertError, PushError, VecIntoIter};
use storage_api::storages::{Global, InlineStorage, SlotStorage};
use storage_api::{Storage, StorageAllocError, Vec};

#[test]
fn push_over_two_element_inline_storage() {
    let mut v = Vec::<i32, InlineStorage<[i32; 2]>>::new().unwrap();
    assert_eq!(v.push(1), Ok(&mut 1));
    assert_eq!(v.push(2), Ok(&mut 2));
    assert_eq!(
        v.push(3),
        Err(PushError { value: 3, alloc_error: StorageAllocError })
    );
    assert_eq!(&*v, &[1, 2]);
}

#[test]
fn insert_over_three_element_inline_storage() {
    let mut v = Vec::<i32, InlineStorage<[i32; 3]>>::new().unwrap();
    assert_eq!(v.insert(1, 1), Err(InsertError { value: 1, alloc_error: None }));
    assert_eq!(v.insert(0, 2), Ok(&mut 2));
    assert_eq!(v.insert(1, 3), Ok(&mut 3));
    assert_eq!(v.insert(1, 4), Ok(&mut 4));
    assert_eq!(
        v.insert(1, 5),
        Err(InsertError { value: 5, alloc_error: Some(StorageAllocError) })
    );
    assert_eq!(&*v, &[2, 4, 3]);
}

#[test]
fn pop_over_three_element_inline_storage() {
    let mut v = Vec::<i32, InlineStorage<[i32; 3]>>::new().unwrap();
    v.extend_from_slice(&[1, 2, 3]).unwrap();
    assert_eq!(v.pop(), Some(3));
    assert_eq!(v.pop(), Some(2));
    v.push(4).unwrap();
    assert_eq!(v.pop(), Some(4));
    assert_eq!(v.pop(), Some(1));
    assert_eq!(v.pop(), None);
    assert_eq!(&*v, &[] as &[i32]);
}

#[test]
fn remove_over_three_element_inline_storage() {
    let mut v = Vec::<i32, InlineStorage<[i32; 3]>>::new().unwrap();
    v.extend_from_slice(&[1, 2, 3]).unwrap();
    assert_eq!(v.remove(3), None);
    assert_eq!(v.remove(1), Some(2));
    assert_eq!(v.remove(0), Some(1));
    assert_eq!(v.remove(0), Some(3));
    assert_eq!(v.remove(0), None);
    assert_eq!(&*v, &[] as &[i32]);
}

#[test]
fn extend_from_slice_over_three_element_inline_storage() {
    let mut v = Vec::<i32, InlineStorage<[i32; 3]>>::new().unwrap();
    assert_eq!(v.extend_from_slice(&[1, 2]), Ok(&mut [1, 2][..]));
    v.remove(1);
    assert_eq!(v.extend_from_slice(&[3, 4]), Ok(&mut [3, 4][..]));
    assert_eq!(v.extend_from_slice(&[5]), Err(StorageAllocError));
    assert_eq!(&*v, &[1, 3, 4]);
}

#[test]
fn pushed_element_can_be_changed_through_the_reference() {
    let mut v = Vec::<i32, InlineStorage<[i32; 3]>>::new().unwrap();
    *v.push(1).unwrap() = 10;
    *v.insert(0, 2).unwrap() += 20;
    assert_eq!(v.as_slice(), &[22, 10]);
    let added = v.extend_from_slice(&[7]).unwrap();
    added[0] = 70;
    assert_eq!(v.as_slice(), &[22, 10, 70]);
}

#[test]
fn as_mut_slice_lends_all_the_elements() {
    let mut v = Vec::<u8, InlineStorage<[u8; 4]>>::new().unwrap();
    v.extend_from_slice(&[3, 1, 2]).unwrap();
    let all = v.as_mut_slice();
    assert_eq!(all, &mut [3, 1, 2][..]);
    all.sort();
    assert_eq!(v.as_slice(), &[1, 2, 3]);
    assert_eq!(v.capacity(), 4);
}

#[test]
fn pushing_and_popping_as_many_leaves_the_vec_empty() {
    let mut v = Vec::<u64, Global>::new().unwrap();
    for i in 0..100u64 {
        assert_eq!(v.push(i), Ok(&mut i.clone()));
    }
    assert_eq!(v.len(), 100);
    let capacity = v.capacity();
    assert!(capacity >= 100);
    for i in (0..100u64).rev() {
        assert_eq!(v.pop(), Some(i));
        assert_eq!(v.capacity(), capacity);
    }
    assert_eq!(v.len(), 0);
    assert_eq!(v.pop(), None);
    assert_eq!(v.capacity(), capacity);
}

#[test]
fn pushing_and_popping_over_a_slot() {
    let mut v = Vec::<u16, SlotStorage>::new_in(SlotStorage::new(1001, 21).unwrap()).unwrap();
    // the slot starts at an odd address: one byte goes to the alignment
    assert_eq!(v.capacity(), 10);
    for i in 0..10u16 {
        assert!(v.push(i).is_ok());
    }
    assert_eq!(v.push(10).map_err(|e| e.value), Err(10));
    for i in (0..10u16).rev() {
        assert_eq!(v.pop(), Some(i));
    }
    assert!(v.is_empty());
    assert_eq!(v.capacity(), 10);
}

#[test]
fn capacity_comes_from_the_bytes_the_storage_reports() {
    let v = Vec::<u16, InlineStorage<[u32; 2]>>::with_capacity(1).unwrap();
    assert_eq!(v.capacity(), 4);
    // seven bytes have room for three values of two bytes
    let v = Vec::<[u8; 2], InlineStorage<[u8; 7]>>::with_capacity(2).unwrap();
    assert_eq!(v.capacity(), 3);
    // a region aligned for bytes is not aligned for u16
    assert!(Vec::<u16, InlineStorage<[u8; 8]>>::with_capacity(1).is_err());
    let v = Vec::<u8, InlineStorage<[u8; 7]>>::with_capacity(2).unwrap();
    assert_eq!(v.capacity(), 7);
    let v = Vec::<u32, Global>::with_capacity(9).unwrap();
    assert_eq!(v.capacity(), 9);
    assert!(Vec::<u8, InlineStorage<[u8; 7]>>::with_capacity(8).is_err());
    assert!(Vec::<u32, Global>::with_capacity(usize::MAX).is_err());
}

#[test]
fn values_that_take_no_room_always_fit() {
    let mut v = Vec::<(), InlineStorage<()>>::new().unwrap();
    assert_eq!(v.capacity(), usize::MAX);
    for _ in 0..1000 {
        assert!(v.push(()).is_ok());
    }
    assert_eq!(v.len(), 1000);
    assert_eq!(v.reserve(usize::MAX - 1000), Ok(()));
    assert_eq!(v.reserve(usize::MAX), Err(StorageAllocError));
    assert_eq!(v.shrink_to_fit(), Ok(()));
    assert_eq!(v.capacity(), usize::MAX);
}

#[test]
fn reserve_makes_the_room_it_promises() {
    let mut v = Vec::<u32, Global>::new().unwrap();
    assert_eq!(v.capacity(), 0);
    assert_eq!(v.reserve(1), Ok(()));
    assert_eq!(v.capacity(), 1);
    v.push(1).unwrap();
    assert_eq!(v.reserve(1), Ok(()));
    assert_eq!(v.capacity(), 2);
    v.push(2).unwrap();
    assert_eq!(v.reserve(1), Ok(()));
    assert_eq!(v.capacity(), 4);
    assert_eq!(v.reserve(2), Ok(()));
    assert_eq!(v.capacity(), 4);
    assert_eq!(v.reserve(7), Ok(()));
    assert_eq!(v.capacity(), 9);
    assert_eq!(v.reserve(8), Ok(()));
    assert_eq!(v.capacity(), 18);
    assert_eq!(v.as_slice(), &[1, 2]);
}

#[test]
fn reserve_falls_back_to_what_is_needed() {
    let mut v = Vec::<u32, Global>::new_in(Global::with_limit(24)).unwrap();
    v.extend_from_slice(&[1, 2]).unwrap();
    assert_eq!(v.capacity(), 2);
    // doubling to 4 takes 16 bytes, which the heap has
    assert_eq!(v.reserve(1), Ok(()));
    assert_eq!(v.capacity(), 4);
    v.extend_from_slice(&[3, 4]).unwrap();
    // doubling to 8 would take 32 bytes: the 20 that are needed are asked for
    assert_eq!(v.reserve(1), Ok(()));
    assert_eq!(v.capacity(), 5);
    v.push(5).unwrap();
    assert_eq!(v.reserve(1), Ok(()));
    assert_eq!(v.capacity(), 6);
    v.push(6).unwrap();
    // neither 48 bytes nor 28 are to be had
    assert_eq!(v.reserve(1), Err(StorageAllocError));
    assert_eq!(v.capacity(), 6);
    assert_eq!(v.as_slice(), &[1, 2, 3, 4, 5, 6]);
}

#[test]
fn reserve_exact_grows_to_what_is_asked() {
    let mut v = Vec::<u32, Global>::new().unwrap();
    v.extend_from_slice(&[1, 2, 3]).unwrap();
    assert_eq!(v.reserve_exact(1), Ok(()));
    assert_eq!(v.capacity(), 4);
    assert_eq!(v.reserve_exact(1), Ok(()));
    assert_eq!(v.capacity(), 4);
    assert_eq!(v.reserve_exact(10), Ok(()));
    assert_eq!(v.capacity(), 13);
    assert_eq!(v.reserve_exact(usize::MAX), Err(StorageAllocError));
    assert_eq!(v.reserve_exact(usize::MAX / 4), Err(StorageAllocError));
    assert_eq!(v.capacity(), 13);
    assert_eq!(v.as_slice(), &[1, 2, 3]);
}

#[test]
fn growing_and_shrinking_on_the_heap_keeps_the_elements() {
    let mut v = Vec::<u8, Global>::with_capacity(4).unwrap();
    v.extend_from_slice(&[1, 2, 3, 4]).unwrap();
    assert_eq!(v.reserve_exact(60), Ok(()));
    assert_eq!(v.capacity(), 64);
    assert_eq!(v.as_slice(), &[1, 2, 3, 4]);
    assert_eq!(v.shrink_to_fit(), Ok(()));
    assert_eq!(v.capacity(), 4);
    assert_eq!(v.as_slice(), &[1, 2, 3, 4]);
}

#[test]
fn shrink_to_fit_over_a_fixed_region_keeps_its_capacity() {
    let mut v = Vec::<i32, InlineStorage<[i32; 3]>>::new().unwrap();
    v.push(1).unwrap();
    assert_eq!(v.shrink_to_fit(), Ok(()));
    assert_eq!(v.capacity(), 3);
    assert_eq!(v.as_slice(), &[1]);
}

#[test]
fn vec_raw_parts_round_trip() {
    let mut v = Vec::<u32, Global>::with_capacity(4).unwrap();
    v.extend_from_slice(&[5, 6]).unwrap();
    let (storage, handle, items, capacity) = v.into_raw_parts();
    assert_eq!(items, [5, 6]);
    assert_eq!(capacity, 4);
    assert_eq!(storage.resolve(handle) % std::mem::align_of::<u32>(), 0);
    let mut v = Vec::from_raw_parts(storage, handle, items, capacity);
    assert_eq!(v.capacity(), 4);
    v.push(7).unwrap();
    assert_eq!(v.as_slice(), &[5, 6, 7]);
}

#[test]
fn into_boxed_slice_discards_the_extra_capacity() {
    let mut v = Vec::<u32, Global>::with_capacity(8).unwrap();
    v.extend_from_slice(&[1, 2, 3]).unwrap();
    let boxed = v.into_boxed_slice().unwrap();
    assert_eq!(**boxed, [1, 2, 3]);
    let (_, _, metadata, items) = storage_api::Box::into_raw_parts(boxed);
    assert_eq!(metadata.size(), 12);
    assert_eq!(items, [1, 2, 3]);
}

#[test]
fn dropping_a_vec_gives_the_allocation_back() {
    let mut v = Vec::<u32, Global>::new().unwrap();
    v.extend_from_slice(&[1, 2, 3]).unwrap();
    let mut heap = storage_api::storage_vec::drop(v);
    assert!(heap.allocate(storage_api::Layout::new::<u64>()).is_ok());
}

#[test]
fn errors_turn_into_the_allocation_error() {
    let push = PushError { value: 3, alloc_error: StorageAllocError };
    assert_eq!(StorageAllocError::from(push), StorageAllocError);
    let insert = InsertError { value: "x", alloc_error: None };
    assert_eq!(StorageAllocError::from(insert), StorageAllocError);
}

#[test]
fn into_iter_hands_the_elements_out_in_order() {
    let mut v = Vec::<i32>::new().unwrap();
    v.extend_from_slice(&[1, 2, 3]).unwrap();
    v.extend_from_slice(&[4, 5, 6]).unwrap();
    let mut count = v.len();
    let mut iter = v.into_iter();
    for expected in [1, 2, 3, 4, 5, 6] {
        assert_eq!(iter.size_hint(), (count, Some(count)));
        assert_eq!(iter.next(), Some(expected));
        count -= 1;
    }
    assert_eq!(count, 0);
    assert_eq!(iter.next(), None);
    assert_eq!(iter.next(), None);
    assert_eq!(iter.next_back(), None);
}

#[test]
fn into_iter_hands_out_from_both_ends() {
    let mut v = Vec::<i32, InlineStorage<[i32; 5]>>::new().unwrap();
    v.extend_from_slice(&[1, 2, 3, 4, 5]).unwrap();
    let mut iter = VecIntoIter::new(v);
    assert_eq!(iter.next_back(), Some(5));
    assert_eq!(iter.next(), Some(1));
    assert_eq!(iter.as_slice(), [&2, &3, &4]);
    assert_eq!(iter.next_back(), Some(4));
    assert_eq!(iter.size_hint(), (2, Some(2)));
    assert_eq!(iter.next(), Some(2));
    assert_eq!(iter.as_slice(), [&3]);
    assert_eq!(iter.next(), Some(3));
    assert_eq!(iter.next_back(), None);
    assert_eq!(iter.next(), None);
    assert!(iter.as_slice().is_empty());
}

#[test]
fn into_iter_counts_and_finds_the_last() {
    let mut v = Vec::<i32>::new().unwrap();
    v.extend_from_slice(&[1, 2, 3]).unwrap();
    let mut iter = v.into_iter();
    assert_eq!(iter.next(), Some(1));
    assert_eq!(iter.count(), 2);
    let mut v = Vec::<i32>::new().unwrap();
    v.extend_from_slice(&[1, 2, 3]).unwrap();
    assert_eq!(v.into_iter().last(), Some(3));
    let v = Vec::<i32>::new().unwrap();
    assert_eq!(v.into_iter().last(), None);
}

#[test]
fn into_iter_drops_what_is_left_once() {
    let counter = std::rc::Rc::new(());
    let mut v = Vec::<std::rc::Rc<()>, Global>::new().unwrap();
    for _ in 0..5 {
        assert!(v.push(counter.clone()).is_ok());
    }
    assert_eq!(std::rc::Rc::strong_count(&counter), 6);
    let mut iter = v.into_iter();
    let first = iter.next().unwrap();
    let last = iter.next_back().unwrap();
    assert_eq!(std::rc::Rc::strong_count(&counter), 6);
    let mut heap = storage_api::storage_vec::into_iter::drop(iter);
    assert_eq!(std::rc::Rc::strong_count(&counter), 3);
    std::mem::drop(first);
    std::mem::drop(last);
    assert_eq!(std::rc::Rc::strong_count(&counter), 1);
    assert!(heap.allocate(storage_api::Layout::new::<u64>()).is_ok());
}

#[test]
fn vec_agrees_with_a_plain_vec() {
    let mut seed: u64 = 0x9e37_79b9_7f4a_7c15;
    let mut v = Vec::<u64, Global>::new().unwrap();
    let mut plain = std::vec::Vec::<u64>::new();
    for step in 0..3000u64 {
        seed = seed.wrapping_mul(6364136223846793005).wrapping_add(1442695040888963407);
        let index = ((seed >> 20) % (plain.len() as u64 + 2)) as usize;
        match (seed >> 33) % 7 {
            0 | 1 => {
                assert!(v.push(step).is_ok());
                plain.push(step);
            }
            2 => {
                let r = v.insert(index, step).map(|slot| *slot).map_err(|e| e.alloc_error);
                if index <= plain.len() {
                    assert_eq!(r, Ok(step));
                    plain.insert(index, step);
                } else {
                    assert_eq!(r, Err(None));
                }
            }
            3 => assert_eq!(v.pop(), plain.pop()),
            4 => {
                let expected = if index < plain.len() { Some(plain.remove(index)) } else { None };
                assert_eq!(v.remove(index), expected);
            }
            5 => {
                assert!(v.extend_from_slice(&[step, step + 1]).is_ok());
                plain.extend_from_slice(&[step, step + 1]);
            }
            _ => {
                assert_eq!(v.shrink_to_fit(), Ok(()));
                assert_eq!(v.capacity(), v.len());
            }
        }
        assert_eq!(v.as_slice(), plain.as_slice());
        assert!(v.capacity() >= v.len());
    }
}

#[test]
fn into_iter_lends_what_is_left() {
    let mut v = Vec::<i32, InlineStorage<[i32; 4]>>::new().unwrap();
    v.extend_from_slice(&[1, 2, 3, 4]).unwrap();
    let mut iter = v.into_iter();
    assert_eq!(iter.next(), Some(1));
    assert_eq!(iter.next_back(), Some(4));
    assert_eq!(iter.as_mut_slice(0), Some(&mut 2));
    assert_eq!(iter.as_mut_slice(2), None);
    *iter.as_mut_slice(1).unwrap() = 30;
    assert_eq!(iter.as_slice(), [&2, &30]);
    assert_eq!(iter.next_back(), Some(30));
    assert_eq!(iter.next(), Some(2));
    assert_eq!(iter.as_mut_slice(0), None);
}
