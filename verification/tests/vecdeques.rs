use storage_api::collections::PushError;
use storage_api::storages::{Global, InlineStorage};
use storage_api::{StorageAllocError, VecDeque};

fn contents<T: Copy, S: storage_api::Storage>(deque: &VecDeque<T, S>) -> std::vec::Vec<T> {
    let (first, second) = deque.as_slices();
    first.into_iter().chain(second).copied().collect()
}

#[test]
fn deque_starts_empty() {
    let deque = VecDeque::<i32, InlineStorage<[i32; 4]>>::new().unwrap();
    assert_eq!(deque.len(), 0);
    assert!(deque.is_empty());
    assert_eq!(deque.capacity(), 4);
    assert!(deque.is_contiguous());
    let (first, second) = deque.as_slices();
    assert!(first.is_empty());
    assert!(second.is_empty());
    let deque = VecDeque::<i32, Global>::with_capacity(7).unwrap();
    assert_eq!(deque.capacity(), 7);
    assert!(VecDeque::<i32, InlineStorage<[i32; 4]>>::with_capacity(5).is_err());
}

#[test]
fn push_back_appends() {
    let mut deque = VecDeque::<i32, InlineStorage<[i32; 3]>>::new().unwrap();
    assert_eq!(deque.push_back(1), Ok(&mut 1));
    assert_eq!(deque.push_back(2), Ok(&mut 2));
    assert_eq!(deque.push_back(3), Ok(&mut 3));
    assert_eq!(
        deque.push_back(4),
        Err(PushError { value: 4, alloc_error: StorageAllocError })
    );
    assert_eq!(deque.len(), 3);
    assert!(!deque.is_empty());
    assert!(deque.is_contiguous());
    assert_eq!(contents(&deque), [1, 2, 3]);
}

#[test]
fn push_front_wraps_round_the_end() {
    let mut deque = VecDeque::<i32, InlineStorage<[i32; 4]>>::new().unwrap();
    assert_eq!(deque.push_back(1), Ok(&mut 1));
    assert_eq!(deque.push_back(2), Ok(&mut 2));
    assert!(deque.is_contiguous());
    assert_eq!(deque.push_front(0), Ok(&mut 0));
    assert!(!deque.is_contiguous());
    let (first, second) = deque.as_slices();
    assert_eq!(first, [&0]);
    assert_eq!(second, [&1, &2]);
    assert_eq!(deque.push_front(-1), Ok(&mut -1));
    let (first, second) = deque.as_slices();
    assert_eq!(first, [&-1, &0]);
    assert_eq!(second, [&1, &2]);
    assert_eq!(
        deque.push_front(-2),
        Err(PushError { value: -2, alloc_error: StorageAllocError })
    );
    assert_eq!(
        deque.push_back(3),
        Err(PushError { value: 3, alloc_error: StorageAllocError })
    );
    assert_eq!(contents(&deque), [-1, 0, 1, 2]);
}

#[test]
fn pushed_value_can_be_changed_through_the_reference() {
    let mut deque = VecDeque::<i32, InlineStorage<[i32; 4]>>::new().unwrap();
    *deque.push_back(1).unwrap() = 10;
    *deque.push_front(2).unwrap() = 20;
    assert_eq!(contents(&deque), [20, 10]);
}

#[test]
fn make_contiguous_puts_the_elements_in_one_run() {
    let mut deque = VecDeque::<i32, InlineStorage<[i32; 5]>>::new().unwrap();
    deque.push_back(3).unwrap();
    deque.push_back(4).unwrap();
    deque.push_front(2).unwrap();
    deque.push_front(1).unwrap();
    assert!(!deque.is_contiguous());
    assert_eq!(deque.make_contiguous(), [&1, &2, &3, &4]);
    assert!(deque.is_contiguous());
    let (first, second) = deque.as_slices();
    assert_eq!(first, [&1, &2, &3, &4]);
    assert!(second.is_empty());
    assert_eq!(deque.len(), 4);
    assert_eq!(deque.capacity(), 5);
    // the ring goes on as before
    deque.push_front(0).unwrap();
    assert_eq!(contents(&deque), [0, 1, 2, 3, 4]);
    deque.make_contiguous();
    assert_eq!(contents(&deque), [0, 1, 2, 3, 4]);
    assert!(deque.as_slices().1.is_empty());
}

#[test]
fn make_contiguous_moves_one_run_to_the_first_place() {
    let mut deque = VecDeque::<i32, InlineStorage<[i32; 3]>>::new().unwrap();
    deque.push_front(1).unwrap();
    assert!(deque.is_contiguous());
    let (storage, handle, head, length, capacity, cells) = deque.into_raw_parts();
    assert_eq!(head, 2);
    assert_eq!(cells, [None, None, Some(1)]);
    let mut deque = VecDeque::from_raw_parts(storage, handle, head, length, capacity, cells);
    assert_eq!(deque.make_contiguous(), [&1]);
    assert_eq!(contents(&deque), [1]);
    let (_, _, head, length, capacity, cells) = deque.into_raw_parts();
    assert_eq!(head, 0);
    assert_eq!(length, 1);
    assert_eq!(capacity, 3);
    assert_eq!(cells, [Some(1)]);
}

#[test]
fn make_contiguous_moves_nothing_that_starts_at_the_first_place() {
    let mut deque = VecDeque::<i32, InlineStorage<[i32; 5]>>::new().unwrap();
    deque.push_back(1).unwrap();
    deque.push_back(2).unwrap();
    deque.make_contiguous();
    assert!(deque.is_contiguous());
    assert_eq!(contents(&deque), [1, 2]);
    let (_, _, head, _, _, cells) = deque.into_raw_parts();
    assert_eq!(head, 0);
    assert_eq!(cells, [Some(1), Some(2)]);
}

#[test]
fn make_contiguous_starts_a_wrapped_deque_at_the_first_place() {
    let mut deque = VecDeque::<i32, InlineStorage<[i32; 4]>>::new().unwrap();
    deque.push_back(2).unwrap();
    deque.push_back(3).unwrap();
    deque.push_front(1).unwrap();
    deque.make_contiguous();
    let (_, _, head, length, _, cells) = deque.into_raw_parts();
    assert_eq!(head, 0);
    assert_eq!(length, 3);
    assert_eq!(cells, [Some(1), Some(2), Some(3)]);
}

#[test]
fn reserve_exact_on_a_wrapped_deque_made_of_parts() {
    let mut storage = Global::default();
    let layout = storage_api::Layout::array::<i32>(4).unwrap();
    let (handle, _) = storage_api::Storage::allocate(&mut storage, layout).unwrap();
    let cells = vec![Some(2), Some(3), None, Some(1)];
    let mut deque = VecDeque::<i32, Global>::from_raw_parts(storage, handle, 3, 3, 4, cells);
    assert_eq!(deque.reserve_exact(5), Ok(()));
    assert_eq!(deque.capacity(), 8);
    assert_eq!(deque.len(), 3);
    let (first, second) = deque.as_slices();
    assert_eq!(first, [&1]);
    assert_eq!(second, [&2, &3]);
    let (_, _, head, _, _, _) = deque.into_raw_parts();
    assert_eq!(head, 7);
}

#[test]
fn as_mut_slices_lends_the_elements_of_both_runs() {
    let mut deque = VecDeque::<i32, InlineStorage<[i32; 4]>>::new().unwrap();
    deque.push_back(2).unwrap();
    deque.push_back(3).unwrap();
    deque.push_front(1).unwrap();
    assert!(!deque.is_contiguous());
    assert_eq!(deque.as_mut_slices(0), Some(&mut 1));
    assert_eq!(deque.as_mut_slices(2), Some(&mut 3));
    assert_eq!(deque.as_mut_slices(3), None);
    *deque.as_mut_slices(0).unwrap() = 10;
    *deque.as_mut_slices(1).unwrap() += 20;
    assert_eq!(contents(&deque), [10, 22, 3]);
    assert_eq!(deque.len(), 3);
}

#[test]
fn growing_a_wrapped_deque_keeps_the_order() {
    let mut deque = VecDeque::<u32, Global>::with_capacity(4).unwrap();
    deque.push_back(3).unwrap();
    deque.push_back(4).unwrap();
    deque.push_front(2).unwrap();
    deque.push_front(1).unwrap();
    assert_eq!(deque.capacity(), 4);
    assert!(!deque.is_contiguous());
    assert_eq!(deque.reserve_exact(3), Ok(()));
    assert_eq!(deque.capacity(), 7);
    assert_eq!(deque.len(), 4);
    assert!(!deque.is_contiguous());
    let (first, second) = deque.as_slices();
    assert_eq!(first, [&1, &2]);
    assert_eq!(second, [&3, &4]);
    deque.push_back(5).unwrap();
    deque.push_front(0).unwrap();
    assert_eq!(contents(&deque), [0, 1, 2, 3, 4, 5]);
    assert_eq!(deque.capacity(), 7);
}

#[test]
fn growing_one_run_leaves_it_where_it_is() {
    let mut deque = VecDeque::<u32, Global>::with_capacity(2).unwrap();
    deque.push_back(1).unwrap();
    deque.push_back(2).unwrap();
    assert_eq!(deque.reserve_exact(1), Ok(()));
    assert_eq!(deque.capacity(), 3);
    assert!(deque.is_contiguous());
    assert_eq!(contents(&deque), [1, 2]);
}

#[test]
fn deque_reserve_doubles_the_capacity() {
    let mut deque = VecDeque::<u32, Global>::new().unwrap();
    assert_eq!(deque.capacity(), 0);
    for i in 0..9u32 {
        deque.push_back(i).unwrap();
    }
    assert_eq!(deque.capacity(), 16);
    assert_eq!(deque.reserve(7), Ok(()));
    assert_eq!(deque.capacity(), 16);
    assert_eq!(deque.reserve(8), Ok(()));
    assert_eq!(deque.capacity(), 32);
    assert_eq!(deque.reserve(usize::MAX), Err(StorageAllocError));
    assert_eq!(contents(&deque), [0, 1, 2, 3, 4, 5, 6, 7, 8]);
}

#[test]
fn deque_grows_while_wrapped_on_push() {
    let mut deque = VecDeque::<u32, Global>::new().unwrap();
    for i in 0..50u32 {
        if i % 2 == 0 {
            deque.push_back(i).unwrap();
        } else {
            deque.push_front(i).unwrap();
        }
    }
    let mut expected: std::vec::Vec<u32> = (0..50).filter(|i| i % 2 == 1).rev().collect();
    expected.extend((0..50).filter(|i| i % 2 == 0));
    assert_eq!(contents(&deque), expected);
    assert_eq!(deque.len(), 50);
}

#[test]
fn deque_raw_parts_round_trip() {
    let mut deque = VecDeque::<u32, Global>::with_capacity(4).unwrap();
    deque.push_back(2).unwrap();
    deque.push_front(1).unwrap();
    let (storage, handle, head, length, capacity, cells) = deque.into_raw_parts();
    assert_eq!(head, 3);
    assert_eq!(length, 2);
    assert_eq!(capacity, 4);
    assert_eq!(cells, [Some(2), None, None, Some(1)]);
    let mut deque = VecDeque::from_raw_parts(storage, handle, head, length, capacity, cells);
    deque.push_back(3).unwrap();
    assert_eq!(contents(&deque), [1, 2, 3]);
}

#[test]
fn dropping_a_deque_drops_both_runs() {
    let counter = std::rc::Rc::new(());
    let mut deque = VecDeque::<std::rc::Rc<()>, Global>::with_capacity(4).unwrap();
    deque.push_back(counter.clone()).unwrap();
    deque.push_back(counter.clone()).unwrap();
    deque.push_front(counter.clone()).unwrap();
    assert!(!deque.is_contiguous());
    assert_eq!(std::rc::Rc::strong_count(&counter), 4);
    let _heap = storage_api::storage_vecdeque::drop(deque);
    assert_eq!(std::rc::Rc::strong_count(&counter), 1);
}

#[test]
fn deque_agrees_with_a_plain_queue() {
    let mut seed: u64 = 0x2545_f491_4f6c_dd1d;
    let mut deque = VecDeque::<u64, Global>::with_capacity(3).unwrap();
    let mut plain = std::collections::VecDeque::<u64>::new();
    for step in 0..2000u64 {
        seed = seed.wrapping_mul(6364136223846793005).wrapping_add(1442695040888963407);
        match (seed >> 33) % 5 {
            0 | 1 => {
                assert_eq!(deque.push_back(step), Ok(&mut step.clone()));
                plain.push_back(step);
            }
            2 | 3 => {
                assert_eq!(deque.push_front(step), Ok(&mut step.clone()));
                plain.push_front(step);
            }
            _ => {
                if (seed >> 40) % 2 == 0 {
                    deque.make_contiguous();
                    assert!(deque.is_contiguous());
                } else {
                    assert_eq!(deque.reserve_exact(((seed >> 41) % 7) as usize), Ok(()));
                }
            }
        }
        assert_eq!(deque.len(), plain.len());
        assert!(deque.capacity() >= deque.len());
        if step % 97 == 0 {
            assert_eq!(contents(&deque), plain.iter().copied().collect::<std::vec::Vec<u64>>());
        }
    }
    assert_eq!(contents(&deque), plain.iter().copied().collect::<std::vec::Vec<u64>>());
}
