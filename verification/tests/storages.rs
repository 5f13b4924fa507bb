use storage_api::storages::{Global, GlobalHandle, InlineStorage, ShareableStorageWrapper, SlotStorage};
use storage_api::{Layout, ShareableStorage, Storage, StorageAllocError};

fn layout(size: usize, align: usize) -> Layout {
    Layout::from_size_align(size, align).unwrap()
}

#[test]
fn inline_storage_allocates_what_fits() {
    // room for 16 bytes at the alignment of u64
    let mut storage = InlineStorage::<[u64; 2]>::new();
    let align = std::mem::align_of::<u64>();
    for size in [0, 1, 8, 15, 16] {
        let mut a = 1;
        while a <= align {
            let (handle, usable) = storage.allocate(layout(size, a)).unwrap();
            assert_eq!(usable, 16);
            assert_eq!(storage.resolve(handle) % a, 0);
            a *= 2;
        }
    }
}

#[test]
fn inline_storage_refuses_what_does_not_fit() {
    let mut storage = InlineStorage::<[u64; 2]>::new();
    let align = std::mem::align_of::<u64>();
    assert_eq!(storage.allocate(layout(17, 1)), Err(StorageAllocError));
    assert_eq!(storage.allocate(layout(1024, align)), Err(StorageAllocError));
    assert_eq!(storage.allocate(layout(0, align * 2)), Err(StorageAllocError));
    assert_eq!(storage.allocate(layout(16, align * 2)), Err(StorageAllocError));
}

#[test]
fn inline_storage_grows_and_shrinks_in_place() {
    let mut storage = InlineStorage::<[u32; 4]>::new();
    let (handle, usable) = storage.allocate(layout(4, 4)).unwrap();
    assert_eq!(usable, 16);
    let (grown, usable) = storage.grow(layout(4, 4), layout(16, 4), handle).unwrap();
    assert_eq!(grown, handle);
    assert_eq!(usable, 16);
    assert_eq!(
        storage.grow(layout(16, 4), layout(20, 4), grown),
        Err(StorageAllocError)
    );
    let (shrunk, usable) = storage.shrink(layout(16, 4), layout(8, 4), grown).unwrap();
    assert_eq!(shrunk, handle);
    assert_eq!(usable, 16);
    storage.deallocate(layout(8, 4), shrunk);
}

#[test]
fn inline_storage_default_and_clone() {
    let storage: InlineStorage<u64> = Default::default();
    let mut copy = storage.clone();
    assert!(copy.allocate(layout(8, 1)).is_ok());
    assert_eq!(copy.allocate(layout(9, 1)), Err(StorageAllocError));
}

#[test]
fn slot_storage_refuses_a_buffer_that_cannot_exist() {
    assert!(SlotStorage::new(0, 16).is_none());
    assert!(SlotStorage::new(usize::MAX - 7, 16).is_none());
    assert!(SlotStorage::new(4096, (isize::MAX as usize) + 1).is_none());
    assert!(SlotStorage::new(4096, 0).is_some());
    assert!(SlotStorage::new(usize::MAX - 16, 16).is_some());
}

#[test]
fn slot_storage_places_at_the_first_aligned_address() {
    let mut storage = SlotStorage::new(1001, 100).unwrap();
    let (handle, usable) = storage.allocate(layout(10, 1)).unwrap();
    assert_eq!(storage.resolve(handle), 1001);
    assert_eq!(usable, 100);
    let (handle, usable) = storage.allocate(layout(10, 8)).unwrap();
    assert_eq!(storage.resolve(handle), 1008);
    assert_eq!(usable, 93);
    let (handle, usable) = storage.allocate(layout(37, 64)).unwrap();
    assert_eq!(storage.resolve(handle), 1024);
    assert_eq!(usable, 77);
    assert_eq!(storage.resolve(handle) % 64, 0);
}

#[test]
fn slot_storage_refuses_what_does_not_fit() {
    let mut storage = SlotStorage::new(1001, 100).unwrap();
    // the first address aligned to 2048 lies beyond the buffer
    assert_eq!(storage.allocate(layout(0, 2048)), Err(StorageAllocError));
    // the aligned address lies within, but what follows it is too short
    assert_eq!(storage.allocate(layout(78, 64)), Err(StorageAllocError));
    assert!(storage.allocate(layout(77, 64)).is_ok());
    assert_eq!(storage.allocate(layout(101, 1)), Err(StorageAllocError));
    assert!(storage.allocate(layout(100, 1)).is_ok());
}

#[test]
fn slot_storage_places_anew_on_grow_and_shrink() {
    let mut storage = SlotStorage::new(1001, 100).unwrap();
    let (handle, _) = storage.allocate(layout(10, 1)).unwrap();
    let (grown, usable) = storage.grow(layout(10, 1), layout(20, 8), handle).unwrap();
    assert_eq!(storage.resolve(grown), 1008);
    assert_eq!(usable, 93);
    assert_eq!(
        storage.grow(layout(20, 8), layout(94, 8), grown),
        Err(StorageAllocError)
    );
    // the failed call has left the allocation where it was
    assert_eq!(storage.resolve(grown), 1008);
    let (shrunk, usable) = storage.shrink(layout(20, 8), layout(5, 1), grown).unwrap();
    assert_eq!(storage.resolve(shrunk), 1001);
    assert_eq!(usable, 100);
    storage.deallocate(layout(5, 1), shrunk);
}

#[test]
fn global_answers_a_zero_size_request_without_the_heap() {
    let mut heap = Global::with_limit(0);
    let (handle, usable) = heap.allocate(layout(0, 64)).unwrap();
    assert_eq!(handle, GlobalHandle { address: 64, on_heap: false });
    assert_eq!(usable, 0);
    assert_eq!(heap.resolve(handle), 64);
    heap.deallocate(layout(0, 64), handle);
    assert_eq!(heap.allocate(layout(1, 1)), Err(StorageAllocError));
}

#[test]
fn global_places_blocks_apart() {
    let mut heap = Global::default();
    let (first, usable) = heap.allocate(layout(24, 8)).unwrap();
    assert_eq!(usable, 24);
    assert!(first.on_heap);
    let (second, usable) = heap.allocate(layout(100, 64)).unwrap();
    assert_eq!(usable, 100);
    let a = heap.resolve(first);
    let b = heap.resolve(second);
    assert_eq!(a % 8, 0);
    assert_eq!(b % 64, 0);
    assert!(a + 24 <= b);
    heap.deallocate(layout(24, 8), first);
    heap.deallocate(layout(100, 64), second);
}

#[test]
fn global_fails_when_the_heap_is_full() {
    let mut heap = Global::with_limit(100);
    let (first, _) = heap.allocate(layout(60, 4)).unwrap();
    assert_eq!(heap.allocate(layout(41, 1)), Err(StorageAllocError));
    let (second, _) = heap.allocate(layout(40, 4)).unwrap();
    assert_eq!(heap.allocate(layout(1, 1)), Err(StorageAllocError));
    assert!(heap.resolve(first) + 60 <= heap.resolve(second));
}

#[test]
fn global_grows_a_zero_size_allocation_by_allocating() {
    let mut heap = Global::default();
    let (empty, _) = heap.allocate(layout(0, 8)).unwrap();
    let (still_empty, usable) = heap.grow(layout(0, 8), layout(0, 16), empty).unwrap();
    assert_eq!(still_empty, GlobalHandle { address: 16, on_heap: false });
    assert_eq!(usable, 0);
    let (block, usable) = heap.grow(layout(0, 16), layout(32, 16), still_empty).unwrap();
    assert!(block.on_heap);
    assert_eq!(usable, 32);
    assert_eq!(heap.resolve(block) % 16, 0);
}

#[test]
fn global_shrinks_a_block_to_nothing_by_freeing_it() {
    let mut heap = Global::default();
    let (block, _) = heap.allocate(layout(32, 8)).unwrap();
    let (empty, usable) = heap.shrink(layout(32, 8), layout(0, 4), block).unwrap();
    assert_eq!(empty, GlobalHandle { address: 4, on_heap: false });
    assert_eq!(usable, 0);
}

#[test]
fn global_reallocates_the_topmost_block_where_it_lies() {
    let mut heap = Global::default();
    let (block, _) = heap.allocate(layout(64, 16)).unwrap();
    let (shrunk, usable) = heap.shrink(layout(64, 16), layout(16, 8), block).unwrap();
    assert_eq!(shrunk, block);
    assert_eq!(usable, 16);
    let (same, usable) = heap.grow(layout(16, 8), layout(16, 8), shrunk).unwrap();
    assert_eq!(same, block);
    assert_eq!(usable, 16);
    let (grown, usable) = heap.grow(layout(16, 8), layout(48, 8), same).unwrap();
    assert_eq!(grown, block);
    assert_eq!(usable, 48);
    // the room the block gave up is free again
    let (next, _) = heap.allocate(layout(8, 8)).unwrap();
    assert_eq!(heap.resolve(next), heap.resolve(block) + 48);
}

#[test]
fn global_moves_any_other_block_to_grow_it() {
    let mut heap = Global::default();
    let (lower, _) = heap.allocate(layout(16, 8)).unwrap();
    let (upper, _) = heap.allocate(layout(16, 8)).unwrap();
    let (shrunk, usable) = heap.shrink(layout(16, 8), layout(8, 8), lower).unwrap();
    assert_eq!(shrunk, lower);
    assert_eq!(usable, 8);
    let (moved, usable) = heap.grow(layout(8, 8), layout(24, 4), shrunk).unwrap();
    assert_ne!(moved, lower);
    assert_eq!(usable, 24);
    assert_eq!(heap.resolve(moved), heap.resolve(upper) + 16);
}

#[test]
fn global_frees_the_room_of_the_topmost_block() {
    let mut heap = Global::with_limit(100);
    let (lower, _) = heap.allocate(layout(40, 4)).unwrap();
    let (upper, _) = heap.allocate(layout(60, 4)).unwrap();
    assert_eq!(heap.allocate(layout(1, 1)), Err(StorageAllocError));
    heap.deallocate(layout(40, 4), lower);
    // the room of a block below the top stays taken
    assert_eq!(heap.allocate(layout(1, 1)), Err(StorageAllocError));
    heap.deallocate(layout(60, 4), upper);
    let (again, usable) = heap.allocate(layout(60, 4)).unwrap();
    assert_eq!(again, upper);
    assert_eq!(usable, 60);
}

#[test]
fn global_allocates_anew_where_the_alignment_increases() {
    let mut heap = Global::default();
    let (block, _) = heap.allocate(layout(64, 8)).unwrap();
    let (moved, usable) = heap.shrink(layout(64, 8), layout(32, 256), block).unwrap();
    assert_ne!(moved, block);
    assert_eq!(usable, 32);
    assert_eq!(heap.resolve(moved) % 256, 0);
    let (again, usable) = heap.grow(layout(32, 256), layout(40, 1024), moved).unwrap();
    assert_eq!(usable, 40);
    assert_eq!(heap.resolve(again) % 1024, 0);
}

#[test]
fn global_leaves_the_block_in_place_when_it_cannot_grow() {
    let mut heap = Global::with_limit(100);
    let (block, _) = heap.allocate(layout(60, 4)).unwrap();
    let address = heap.resolve(block);
    // the topmost block has no room to grow beyond the end of the heap
    assert_eq!(
        heap.grow(layout(60, 4), layout(101, 4), block),
        Err(StorageAllocError)
    );
    // a greater alignment asks for a new block, for which there is no room
    assert_eq!(
        heap.grow(layout(60, 4), layout(64, 8), block),
        Err(StorageAllocError)
    );
    let (above, _) = heap.allocate(layout(30, 1)).unwrap();
    // a block below the top would have to move to grow
    assert_eq!(
        heap.grow(layout(60, 4), layout(70, 4), block),
        Err(StorageAllocError)
    );
    assert_eq!(heap.resolve(block), address);
    assert_eq!(heap.resolve(above), address + 60);
    // the block is still there to shrink
    let (shrunk, usable) = heap.shrink(layout(60, 4), layout(20, 4), block).unwrap();
    assert_eq!(shrunk, block);
    assert_eq!(usable, 20);
}

#[test]
fn shareable_wrapper_acts_as_the_storage_it_wraps() {
    let mut plain = SlotStorage::new(1001, 100).unwrap();
    let mut wrapped = ShareableStorageWrapper::new(SlotStorage::new(1001, 100).unwrap());
    let (a, usable_a) = plain.allocate(layout(10, 8)).unwrap();
    let (b, usable_b) = wrapped.allocate(layout(10, 8)).unwrap();
    assert_eq!(a, b);
    assert_eq!(usable_a, usable_b);
    assert_eq!(plain.resolve(a), wrapped.resolve(b));
    assert_eq!(
        wrapped.grow(layout(10, 8), layout(200, 8), b),
        Err(StorageAllocError)
    );
    let (c, usable) = wrapped.shrink(layout(10, 8), layout(4, 4), b).unwrap();
    assert_eq!(wrapped.resolve(c), 1004);
    assert_eq!(usable, 97);
    wrapped.deallocate(layout(4, 4), c);
    let mut back = wrapped.into_inner();
    assert!(back.allocate(layout(100, 1)).is_ok());
}

#[test]
fn shareable_wrapper_copies_act_alike() {
    let mut first_copy = ShareableStorageWrapper::new(Global::with_limit(64));
    let (first, _) = first_copy.allocate(layout(16, 8)).unwrap();
    let mut copy = first_copy.make_shared_copy();
    assert_eq!(copy.resolve(first), first_copy.resolve(first));
    let (from_first, _) = first_copy.allocate(layout(16, 8)).unwrap();
    let (from_copy, _) = copy.allocate(layout(16, 8)).unwrap();
    assert_eq!(from_first, from_copy);
    copy.deallocate(layout(16, 8), first);
}
