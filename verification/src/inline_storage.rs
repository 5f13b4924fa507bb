//! A storage of fixed capacity that lives inside the storage value itself.

use vstd::prelude::*;
use vstd::arithmetic::power2::is_pow2;
use vstd::layout::{align_of, size_of};
use crate::error::StorageAllocError;
use crate::layout::{lemma_pow2_divides, Layout};
use crate::storage::{Storage, StorageHandle};

verus! {

/// The handle of an [`InlineStorage`]. It holds nothing: an inline storage
/// has room for one allocation only.
#[derive(Debug, Clone, Copy, PartialEq, Eq, PartialOrd, Ord, Hash)]
pub struct InlineStorageHandle(());

impl StorageHandle for InlineStorageHandle {

}

impl InlineStorageHandle {
    /// The one value a handle of an inline storage can have.
    pub closed spec fn only() -> Self {
        InlineStorageHandle(())
    }
}

/// A storage with the size and alignment of `T`.
///
/// It serves one allocation at a time, from a region that is part of the
/// storage value. An allocation succeeds exactly when the requested size and
/// alignment both fit that region, and growing or shrinking never moves
/// anything: the request is checked against the same region again.
///
/// The region moves when the storage value does, so the storage is no
/// [`StableStorage`](crate::StableStorage) and keeps no address: an
/// allocation resolves to the alignment of `T`, which stands for whatever
/// address, aligned for `T`, the region has at the time.
pub struct InlineStorage<T> {
    /// The alignment the live allocation was requested with, if there is one.
    live: Ghost<Option<nat>>,
    region: core::marker::PhantomData<T>,
}

/// Whether a region of `size` bytes aligned to `align` has room for `layout`.
pub open spec fn fits_region(layout: Layout, size: nat, align: nat) -> bool {
    layout.align() <= align && layout.size() <= size
}

impl<T> InlineStorage<T> {
    /// Constructs a new inline storage, with nothing allocated in it.
    pub fn new() -> (r: Self)
        ensures
            r.wf(),
            forall|handle: InlineStorageHandle| !r.is_valid(handle),
    {
        InlineStorage { live: Ghost(None), region: core::marker::PhantomData }
    }
}

impl<T> Default for InlineStorage<T> {
    fn default() -> (r: Self)
        ensures
            r.wf(),
            forall|handle: InlineStorageHandle| !r.is_valid(handle),
    {
        Self::new()
    }
}

impl<T> Clone for InlineStorage<T> {
    fn clone(&self) -> (r: Self)
        ensures
            r == *self,
    {
        InlineStorage { live: self.live, region: core::marker::PhantomData }
    }
}

impl<T> Copy for InlineStorage<T> {

}

impl<T> Storage for InlineStorage<T> {
    type Handle = InlineStorageHandle;

    closed spec fn wf(&self) -> bool {
        self.live@ matches Some(align) ==> is_pow2(align as int) && align <= align_of::<T>()
    }

    closed spec fn is_valid(&self, handle: Self::Handle) -> bool {
        self.live@ is Some
    }

    open spec fn usable_size(&self, handle: Self::Handle) -> nat {
        size_of::<T>()
    }

    closed spec fn alignment(&self, handle: Self::Handle) -> nat {
        self.live@.unwrap()
    }

    open spec fn address(&self, handle: Self::Handle) -> nat {
        align_of::<T>()
    }

    open spec fn allocate_spec(&self, layout: Layout) -> Option<(Self::Handle, usize)> {
        if fits_region(layout, size_of::<T>(), align_of::<T>()) {
            Some((InlineStorageHandle::only(), size_of::<T>() as usize))
        } else {
            None
        }
    }

    open spec fn grow_spec(
        &self,
        old_layout: Layout,
        new_layout: Layout,
        handle: Self::Handle,
    ) -> Option<(Self::Handle, usize)> {
        self.allocate_spec(new_layout)
    }

    open spec fn shrink_spec(
        &self,
        old_layout: Layout,
        new_layout: Layout,
        handle: Self::Handle,
    ) -> Option<(Self::Handle, usize)> {
        self.allocate_spec(new_layout)
    }

    closed spec fn allocated(&self, layout: Layout) -> Self {
        InlineStorage { live: Ghost(Some(layout.align() as nat)), region: self.region }
    }

    closed spec fn deallocated(&self, layout: Layout, handle: Self::Handle) -> Self {
        InlineStorage { live: Ghost(None), region: self.region }
    }

    open spec fn grown(&self, old_layout: Layout, new_layout: Layout, handle: Self::Handle) -> Self {
        self.allocated(new_layout)
    }

    open spec fn shrunk(&self, old_layout: Layout, new_layout: Layout, handle: Self::Handle) -> Self {
        self.allocated(new_layout)
    }

    open spec fn multiple() -> bool {
        false
    }

    fn resolve(&self, handle: Self::Handle) -> (address: usize) {
        vstd::layout::layout_for_type_is_valid::<T>();
        let address: usize = core::mem::align_of::<T>();
        proof {
            reveal(is_pow2);
            lemma_pow2_divides(self.live@.unwrap() as int, address as int);
        }
        address
    }

    fn allocate(&mut self, layout: Layout) -> (r: Result<(Self::Handle, usize), StorageAllocError>)
        ensures
            r is Ok <==> fits_region(layout, size_of::<T>(), align_of::<T>()),
    {
        vstd::layout::layout_for_type_is_valid::<T>();
        if layout.align() <= core::mem::align_of::<T>() && layout.size() <= core::mem::size_of::<T>() {
            self.live = Ghost(Some(layout.align() as nat));
            Ok((InlineStorageHandle(()), core::mem::size_of::<T>()))
        } else {
            Err(StorageAllocError)
        }
    }

    fn deallocate(&mut self, layout: Layout, handle: Self::Handle)
        ensures
            forall|other: InlineStorageHandle| !final(self).is_valid(other),
    {
        self.live = Ghost(None);
    }

    fn grow(&mut self, old_layout: Layout, new_layout: Layout, handle: Self::Handle) -> (r: Result<
        (Self::Handle, usize),
        StorageAllocError,
    >) {
        self.allocate(new_layout)
    }

    fn shrink(&mut self, old_layout: Layout, new_layout: Layout, handle: Self::Handle) -> (r:
        Result<(Self::Handle, usize), StorageAllocError>) {
        self.allocate(new_layout)
    }
}

} // verus!
