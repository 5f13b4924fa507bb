//! The allocation interface every backend and container is built against.

use vstd::prelude::*;
use crate::error::StorageAllocError;
use crate::layout::Layout;

verus! {

/// The trait that every handle of a [`Storage`] implements.
///
/// A handle identifies one allocation inside one storage. It is not an
/// address and means nothing to any other storage.
pub trait StorageHandle: core::fmt::Debug + Eq + Ord + core::hash::Hash + Copy {

}

/// The trait for allocating memory in a storage.
///
/// A storage is a state machine over the allocations it has handed out. Each
/// operation either succeeds and returns a handle with the number of bytes
/// actually reserved, which may exceed the request, or fails and leaves the
/// storage exactly as it was, so that every handle that was valid before the
/// failed call is still valid after it.
pub trait Storage: Sized {
    /// The handle type that represents an allocation by this storage.
    type Handle: StorageHandle;

    /// The invariant of the storage.
    spec fn wf(&self) -> bool;

    /// Whether `handle` names an allocation that is live in this state.
    spec fn is_valid(&self, handle: Self::Handle) -> bool;

    /// The number of bytes reserved for a live allocation.
    spec fn usable_size(&self, handle: Self::Handle) -> nat;

    /// The alignment a live allocation was requested with.
    spec fn alignment(&self, handle: Self::Handle) -> nat;

    /// The address a live allocation resolves to.
    spec fn address(&self, handle: Self::Handle) -> nat;

    /// What [`Storage::allocate`] returns in this state: the handle and the
    /// usable size, or `None` where it fails.
    spec fn allocate_spec(&self, layout: Layout) -> Option<(Self::Handle, usize)>;

    /// What [`Storage::grow`] returns in this state.
    spec fn grow_spec(&self, old_layout: Layout, new_layout: Layout, handle: Self::Handle) -> Option<
        (Self::Handle, usize),
    >;

    /// What [`Storage::shrink`] returns in this state.
    spec fn shrink_spec(
        &self,
        old_layout: Layout,
        new_layout: Layout,
        handle: Self::Handle,
    ) -> Option<(Self::Handle, usize)>;

    /// The storage after [`Storage::allocate`] has succeeded in this state.
    spec fn allocated(&self, layout: Layout) -> Self;

    /// The storage after [`Storage::deallocate`] in this state.
    spec fn deallocated(&self, layout: Layout, handle: Self::Handle) -> Self;

    /// The storage after [`Storage::grow`] has succeeded in this state.
    spec fn grown(&self, old_layout: Layout, new_layout: Layout, handle: Self::Handle) -> Self;

    /// The storage after [`Storage::shrink`] has succeeded in this state.
    spec fn shrunk(&self, old_layout: Layout, new_layout: Layout, handle: Self::Handle) -> Self;

    /// Whether an allocation leaves the earlier ones live.
    spec fn multiple() -> bool;

    /// Returns the address of the allocation represented by `handle`.
    ///
    /// The address is never null and satisfies the alignment the allocation
    /// was requested with.
    fn resolve(&self, handle: Self::Handle) -> (address: usize)
        requires
            self.wf(),
            self.is_valid(handle),
        ensures
            address == self.address(handle),
            address != 0,
            address as nat % self.alignment(handle) == 0,
    ;

    /// Allocates memory with the layout specified by `layout`.
    ///
    /// Also returns the number of bytes actually reserved, which may be more
    /// than `layout` asks for. Unless the storage is a [`MultipleStorage`],
    /// this invalidates every earlier allocation.
    fn allocate(&mut self, layout: Layout) -> (r: Result<(Self::Handle, usize), StorageAllocError>)
        requires
            old(self).wf(),
            layout.wf(),
        ensures
            match r {
                Ok((handle, usable)) => {
                    &&& old(self).allocate_spec(layout) == Some((handle, usable))
                    &&& *final(self) == old(self).allocated(layout)
                    &&& final(self).wf()
                    &&& final(self).is_valid(handle)
                    &&& final(self).usable_size(handle) == usable
                    &&& final(self).alignment(handle) == layout.align()
                    &&& layout.size() <= usable <= isize::MAX
                    &&& Self::multiple() ==> forall|other: Self::Handle|
                        #![trigger final(self).is_valid(other)]
                        old(self).is_valid(other) ==> {
                            &&& final(self).is_valid(other)
                            &&& final(self).usable_size(other) == old(self).usable_size(other)
                            &&& final(self).alignment(other) == old(self).alignment(other)
                            &&& final(self).address(other) == old(self).address(other)
                        }
                },
                Err(_) => {
                    &&& old(self).allocate_spec(layout) is None
                    &&& *final(self) == *old(self)
                },
            },
    ;

    /// Gives the allocation named by `handle` back to the storage.
    fn deallocate(&mut self, layout: Layout, handle: Self::Handle)
        requires
            old(self).wf(),
            layout.wf(),
            old(self).is_valid(handle),
            layout.size() <= old(self).usable_size(handle),
            layout.align() == old(self).alignment(handle),
        ensures
            final(self).wf(),
            *final(self) == old(self).deallocated(layout, handle),
            Self::multiple() ==> forall|other: Self::Handle|
                #![trigger final(self).is_valid(other)]
                old(self).is_valid(other) && other != handle ==> {
                    &&& final(self).is_valid(other)
                    &&& final(self).usable_size(other) == old(self).usable_size(other)
                    &&& final(self).alignment(other) == old(self).alignment(other)
                    &&& final(self).address(other) == old(self).address(other)
                },
    ;

    /// Grows an allocation from `old_layout` to `new_layout`.
    ///
    /// On success the old handle is spent and the new one stands for the
    /// allocation; on failure the allocation is untouched and the old handle
    /// is still valid.
    fn grow(&mut self, old_layout: Layout, new_layout: Layout, handle: Self::Handle) -> (r: Result<
        (Self::Handle, usize),
        StorageAllocError,
    >)
        requires
            old(self).wf(),
            old_layout.wf(),
            new_layout.wf(),
            old(self).is_valid(handle),
            old_layout.size() <= old(self).usable_size(handle),
            old_layout.align() == old(self).alignment(handle),
            new_layout.size() >= old_layout.size(),
        ensures
            match r {
                Ok((new_handle, usable)) => {
                    &&& old(self).grow_spec(old_layout, new_layout, handle) == Some(
                        (new_handle, usable),
                    )
                    &&& *final(self) == old(self).grown(old_layout, new_layout, handle)
                    &&& final(self).wf()
                    &&& final(self).is_valid(new_handle)
                    &&& final(self).usable_size(new_handle) == usable
                    &&& final(self).alignment(new_handle) == new_layout.align()
                    &&& new_layout.size() <= usable <= isize::MAX
                    &&& Self::multiple() ==> forall|other: Self::Handle|
                        #![trigger final(self).is_valid(other)]
                        old(self).is_valid(other) && other != handle ==> {
                            &&& final(self).is_valid(other)
                            &&& final(self).usable_size(other) == old(self).usable_size(other)
                            &&& final(self).alignment(other) == old(self).alignment(other)
                            &&& final(self).address(other) == old(self).address(other)
                        }
                },
                Err(_) => {
                    &&& old(self).grow_spec(old_layout, new_layout, handle) is None
                    &&& *final(self) == *old(self)
                },
            },
    ;

    /// Shrinks an allocation from `old_layout` to `new_layout`.
    ///
    /// On success the old handle is spent and the new one stands for the
    /// allocation; on failure the allocation is untouched and the old handle
    /// is still valid.
    fn shrink(&mut self, old_layout: Layout, new_layout: Layout, handle: Self::Handle) -> (r:
        Result<(Self::Handle, usize), StorageAllocError>)
        requires
            old(self).wf(),
            old_layout.wf(),
            new_layout.wf(),
            old(self).is_valid(handle),
            old_layout.size() <= old(self).usable_size(handle),
            old_layout.align() == old(self).alignment(handle),
            new_layout.size() <= old_layout.size(),
        ensures
            match r {
                Ok((new_handle, usable)) => {
                    &&& old(self).shrink_spec(old_layout, new_layout, handle) == Some(
                        (new_handle, usable),
                    )
                    &&& *final(self) == old(self).shrunk(old_layout, new_layout, handle)
                    &&& final(self).wf()
                    &&& final(self).is_valid(new_handle)
                    &&& final(self).usable_size(new_handle) == usable
                    &&& final(self).alignment(new_handle) == new_layout.align()
                    &&& new_layout.size() <= usable <= isize::MAX
                    &&& Self::multiple() ==> forall|other: Self::Handle|
                        #![trigger final(self).is_valid(other)]
                        old(self).is_valid(other) && other != handle ==> {
                            &&& final(self).is_valid(other)
                            &&& final(self).usable_size(other) == old(self).usable_size(other)
                            &&& final(self).alignment(other) == old(self).alignment(other)
                            &&& final(self).address(other) == old(self).address(other)
                        }
                },
                Err(_) => {
                    &&& old(self).shrink_spec(old_layout, new_layout, handle) is None
                    &&& *final(self) == *old(self)
                },
            },
    ;
}

/// Whether every allocation that was live in `pre`, other than `gone`, is
/// live in `post` with the same size, alignment and address.
pub open spec fn keeps_handles<S: Storage>(pre: &S, post: &S, gone: Option<S::Handle>) -> bool {
    forall|other: S::Handle|
        #![trigger post.is_valid(other)]
        pre.is_valid(other) && gone != Some(other) ==> {
            &&& post.is_valid(other)
            &&& post.usable_size(other) == pre.usable_size(other)
            &&& post.alignment(other) == pre.alignment(other)
            &&& post.address(other) == pre.address(other)
        }
}

/// A storage of which copies can be made that act as the storage they were
/// made of.
///
/// A copy is a storage of its own: it is the storage as it was when the copy
/// was made, so that every allocation made before is known to both, and what
/// is done through one of them afterwards is not known to the other.
/// Containers mostly assume that they hold the only copy of their storage, so
/// that nothing else can invalidate their handles. Whoever hands such copies
/// out takes on that none of them is used to invalidate a handle that
/// another copy still depends on.
pub trait ShareableStorage: Storage {
    /// Makes a copy of `self` that acts as `self` does.
    fn make_shared_copy(&self) -> (copy: Self)
        ensures
            copy == *self,
    ;
}

/// A storage from which several allocations can be made without
/// invalidating the earlier ones.
pub trait MultipleStorage: Storage {
    /// Every implementor shows that its allocations keep the earlier ones.
    proof fn lemma_multiple()
        ensures
            Self::multiple(),
    ;
}

/// A storage whose allocations keep their address when the storage value
/// itself is moved.
pub trait StableStorage: Storage {

}

} // verus!
