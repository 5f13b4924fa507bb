use storage_api::collections::RcInner;
use storage_api::storages::{Global, InlineStorage, ShareableStorageWrapper};
use storage_api::{Box, Layout, Rc, Storage, StorageAllocError};

#[test]
fn box_holds_a_value() {
    let mut b = Box::<u64, InlineStorage<u64>>::new(7).unwrap();
    assert_eq!(*b, 7);
    *b.deref_mut() = 8;
    assert_eq!(*b, 8);
    let (value, mut storage) = b.into_inner();
    assert_eq!(value, 8);
    // the region is free again
    assert!(storage.allocate(Layout::new::<u64>()).is_ok());
}

#[test]
fn box_fails_where_the_value_does_not_fit() {
    assert_eq!(
        Box::<u64, InlineStorage<u32>>::new(7).map(|b| *b),
        Err(StorageAllocError)
    );
    assert_eq!(
        Box::<[u8; 32], Global>::new_in([0; 32], Global::with_limit(31)).map(|b| *b),
        Err(StorageAllocError)
    );
}

#[test]
fn box_constructs_the_value_after_allocating() {
    let b = Box::<std::string::String, Global>::new_with(|| "made".to_string()).unwrap();
    assert_eq!(*b, "made");
    let mut called = false;
    let r = Box::<u64, InlineStorage<u8>>::new_with(|| {
        called = true;
        1
    });
    assert!(r.is_err());
    assert!(!called);
}

#[test]
fn box_resolves_to_an_aligned_address() {
    let b = Box::<u64, Global>::new(1).unwrap();
    let address = Box::as_ptr(&b);
    assert_ne!(address, 0);
    assert_eq!(address % std::mem::align_of::<u64>(), 0);
}

#[test]
fn box_raw_parts_round_trip() {
    let counter = std::rc::Rc::new(());
    let b = Box::<std::rc::Rc<()>, Global>::new(counter.clone()).unwrap();
    let address = Box::as_ptr(&b);
    let (storage, handle, metadata, value) = Box::into_raw_parts(b);
    // taking the box apart has neither dropped nor copied the value
    assert_eq!(std::rc::Rc::strong_count(&counter), 2);
    assert_eq!(metadata, Layout::new::<std::rc::Rc<()>>());
    assert_eq!(storage.resolve(handle), address);
    let b = Box::from_raw_parts(storage, handle, metadata, value);
    assert_eq!(std::rc::Rc::strong_count(&counter), 2);
    assert_eq!(Box::as_ptr(&b), address);
    assert!(std::rc::Rc::ptr_eq(&*b, &counter));
    let _heap = storage_api::storage_box::drop(b);
    assert_eq!(std::rc::Rc::strong_count(&counter), 1);
}

#[test]
fn box_into_inner_does_not_drop_the_value() {
    let counter = std::rc::Rc::new(());
    let b = Box::<std::rc::Rc<()>, Global>::new(counter.clone()).unwrap();
    let (value, _heap) = b.into_inner();
    assert_eq!(std::rc::Rc::strong_count(&counter), 2);
    std::mem::drop(value);
    assert_eq!(std::rc::Rc::strong_count(&counter), 1);
}

type Shared = ShareableStorageWrapper<Global>;

fn shared(value: &'static str) -> (Rc<&'static str, Shared>, RcInner<&'static str, Shared>) {
    Rc::new_in(value, ShareableStorageWrapper::new(Global::default())).unwrap()
}

#[test]
fn rc_starts_with_one_reference() {
    let (rc, inner) = shared("value");
    assert_eq!(inner.strong(), 1);
    assert_eq!(*rc.get(&inner), "value");
    let address = Rc::as_ptr(&rc);
    assert_ne!(address, 0);
    assert_eq!(address % std::mem::align_of::<usize>(), 0);
}

#[test]
fn rc_clone_counts_one_more() {
    let (rc, mut inner) = shared("value");
    let second = rc.clone(&mut inner);
    assert_eq!(inner.strong(), 2);
    let third = second.clone(&mut inner);
    assert_eq!(inner.strong(), 3);
    assert_eq!(Rc::as_ptr(&third), Rc::as_ptr(&rc));
    assert_eq!(*third.get(&inner), "value");
}

#[test]
fn rc_keeps_the_value_until_the_last_reference_goes() {
    let counter = std::rc::Rc::new(());
    let (rc, mut inner) = Rc::<std::rc::Rc<()>, Shared>::new_in(
        counter.clone(),
        ShareableStorageWrapper::new(Global::default()),
    )
    .unwrap();
    let second = rc.clone(&mut inner);
    let third = rc.clone(&mut inner);
    assert_eq!(inner.strong(), 3);
    let _ = storage_api::storage_rc::drop(rc, &mut inner);
    let _ = storage_api::storage_rc::drop(third, &mut inner);
    assert_eq!(inner.strong(), 1);
    assert_eq!(std::rc::Rc::strong_count(&counter), 2);
    assert!(std::rc::Rc::ptr_eq(second.get(&inner), &counter));
    let _ = storage_api::storage_rc::drop(second, &mut inner);
    assert_eq!(inner.strong(), 0);
    assert_eq!(std::rc::Rc::strong_count(&counter), 1);
}

#[test]
fn rc_into_inner_needs_the_only_reference() {
    let (rc, mut inner) = shared("value");
    let second = rc.clone(&mut inner);
    let address = Rc::as_ptr(&rc);
    let back = match Rc::into_inner(rc, &mut inner) {
        Ok(_) => panic!("there are two references"),
        Err(back) => back,
    };
    assert_eq!(inner.strong(), 2);
    assert_eq!(Rc::as_ptr(&back), address);
    assert_eq!(*back.get(&inner), "value");
    let _ = storage_api::storage_rc::drop(second, &mut inner);
    assert_eq!(inner.strong(), 1);
    assert_eq!(Rc::into_inner(back, &mut inner).ok().map(|r| r.0), Some("value"));
    assert_eq!(inner.strong(), 0);
}

#[test]
fn rc_fails_where_the_contents_do_not_fit() {
    // the count and the value share one allocation: 16 bytes for a u64
    assert_eq!(std::mem::size_of::<storage_api::collections::Counted<u64>>(), 16);
    assert!(Rc::<u64, InlineStorage<u64>>::new(1).is_err());
    assert!(Rc::<u64, InlineStorage<[u8; 16]>>::new(1).is_err());
    let (rc, mut inner) = Rc::<u64, InlineStorage<[u64; 2]>>::new(1).unwrap();
    assert_eq!(*rc.get(&inner), 1);
    assert_eq!(inner.strong(), 1);
    let mut storage = storage_api::storage_rc::drop(rc, &mut inner);
    assert_eq!(inner.strong(), 0);
    // the region is free again
    assert!(storage.allocate(Layout::new::<[u64; 2]>()).is_ok());
    assert!(Rc::<u64, InlineStorage<[u64; 2]>>::new_with(|| 2).is_ok());
    let mut called = false;
    let r = Rc::<u64, InlineStorage<u8>>::new_with(|| {
        called = true;
        1
    });
    assert!(r.is_err());
    assert!(!called);
    let (rc, inner) = Rc::<u64, Global>::new_with(|| 5).unwrap();
    assert_eq!(*rc.get(&inner), 5);
}

#[test]
fn rc_over_a_heap_of_its_own() {
    let (rc, mut inner) = Rc::<std::string::String, Global>::new("shared".to_string()).unwrap();
    let second = rc.clone(&mut inner);
    assert_eq!(inner.strong(), 2);
    assert_eq!(second.get(&inner), "shared");
    let _ = storage_api::storage_rc::drop(rc, &mut inner);
    let (value, mut heap) = Rc::into_inner(second, &mut inner).ok().unwrap();
    assert_eq!(value, "shared");
    assert!(heap.allocate(Layout::new::<u64>()).is_ok());
}
