//! An adapter from which copies of a storage can be made.

use vstd::prelude::*;
use crate::error::StorageAllocError;
use crate::layout::Layout;
use crate::storage::{MultipleStorage, ShareableStorage, StableStorage, Storage};

verus! {

/// A wrapper that turns any storage into a [`ShareableStorage`].
///
/// Whoever makes a copy of the wrapper takes on what the storage itself does
/// not promise: where the storage is no [`MultipleStorage`], an allocation
/// through one copy leaves the handles of the others stale.
pub struct ShareableStorageWrapper<T>(T);

impl<T> ShareableStorageWrapper<T> {
    /// The storage that is wrapped.
    pub closed spec fn inner(&self) -> T {
        self.0
    }

    /// Wraps `storage`.
    pub fn new(storage: T) -> (r: Self)
        ensures
            r.inner() == storage,
    {
        Self(storage)
    }

    /// The wrapper of a storage after an operation is the wrapper of the
    /// storage after that operation.
    pub broadcast proof fn lemma_inner(&self, layout: Layout, other: Layout, handle: T::Handle) where
        T: Storage,

        ensures
            #[trigger] self.allocated(layout).inner() == self.inner().allocated(layout),
            #[trigger] self.deallocated(layout, handle).inner() == self.inner().deallocated(
                layout,
                handle,
            ),
            #[trigger] self.grown(layout, other, handle).inner() == self.inner().grown(
                layout,
                other,
                handle,
            ),
            #[trigger] self.shrunk(layout, other, handle).inner() == self.inner().shrunk(
                layout,
                other,
                handle,
            ),
    {
    }

    /// Takes the wrapper off.
    pub fn into_inner(self) -> (r: T)
        ensures
            r == self.inner(),
    {
        self.0
    }
}

impl<T: Storage> Storage for ShareableStorageWrapper<T> {
    type Handle = T::Handle;

    open spec fn wf(&self) -> bool {
        self.inner().wf()
    }

    open spec fn is_valid(&self, handle: Self::Handle) -> bool {
        self.inner().is_valid(handle)
    }

    open spec fn usable_size(&self, handle: Self::Handle) -> nat {
        self.inner().usable_size(handle)
    }

    open spec fn alignment(&self, handle: Self::Handle) -> nat {
        self.inner().alignment(handle)
    }

    open spec fn address(&self, handle: Self::Handle) -> nat {
        self.inner().address(handle)
    }

    open spec fn allocate_spec(&self, layout: Layout) -> Option<(Self::Handle, usize)> {
        self.inner().allocate_spec(layout)
    }

    open spec fn grow_spec(
        &self,
        old_layout: Layout,
        new_layout: Layout,
        handle: Self::Handle,
    ) -> Option<(Self::Handle, usize)> {
        self.inner().grow_spec(old_layout, new_layout, handle)
    }

    open spec fn shrink_spec(
        &self,
        old_layout: Layout,
        new_layout: Layout,
        handle: Self::Handle,
    ) -> Option<(Self::Handle, usize)> {
        self.inner().shrink_spec(old_layout, new_layout, handle)
    }

    closed spec fn allocated(&self, layout: Layout) -> Self {
        ShareableStorageWrapper(self.0.allocated(layout))
    }

    closed spec fn deallocated(&self, layout: Layout, handle: Self::Handle) -> Self {
        ShareableStorageWrapper(self.0.deallocated(layout, handle))
    }

    closed spec fn grown(&self, old_layout: Layout, new_layout: Layout, handle: Self::Handle) -> Self {
        ShareableStorageWrapper(self.0.grown(old_layout, new_layout, handle))
    }

    closed spec fn shrunk(&self, old_layout: Layout, new_layout: Layout, handle: Self::Handle) -> Self {
        ShareableStorageWrapper(self.0.shrunk(old_layout, new_layout, handle))
    }

    open spec fn multiple() -> bool {
        T::multiple()
    }

    fn resolve(&self, handle: Self::Handle) -> (address: usize) {
        self.0.resolve(handle)
    }

    fn allocate(&mut self, layout: Layout) -> (r: Result<(Self::Handle, usize), StorageAllocError>) {
        self.0.allocate(layout)
    }

    fn deallocate(&mut self, layout: Layout, handle: Self::Handle) {
        self.0.deallocate(layout, handle)
    }

    fn grow(&mut self, old_layout: Layout, new_layout: Layout, handle: Self::Handle) -> (r: Result<
        (Self::Handle, usize),
        StorageAllocError,
    >) {
        self.0.grow(old_layout, new_layout, handle)
    }

    fn shrink(&mut self, old_layout: Layout, new_layout: Layout, handle: Self::Handle) -> (r:
        Result<(Self::Handle, usize), StorageAllocError>) {
        self.0.shrink(old_layout, new_layout, handle)
    }
}

impl<T: Storage + Copy> ShareableStorage for ShareableStorageWrapper<T> {
    fn make_shared_copy(&self) -> (copy: Self) {
        Self(self.0)
    }
}

impl<T: MultipleStorage> MultipleStorage for ShareableStorageWrapper<T> {
    proof fn lemma_multiple() {
        T::lemma_multiple();
    }
}

impl<T: StableStorage> StableStorage for ShareableStorageWrapper<T> {

}

} // verus!
