//! A single value in an allocation of its own.

use vstd::prelude::*;
use crate::error::StorageAllocError;
use crate::global_storage::Global;
use crate::layout::Layout;
use crate::storage::{keeps_handles, Storage};

verus! {

/// A type that owns a single `T` allocated in a storage.
///
/// A handle says nothing of the size of what it names. The box therefore
/// keeps, beside the handle, the layout the value is held under: the layout
/// of `T` for a value whose size the type gives, and the layout of the
/// elements for a run of them whose number is known only when it is made.
pub struct Box<T, S: Storage = Global> {
    handle: S::Handle,
    storage: S,
    metadata: Layout,
    value: T,
}

impl<T, S: Storage> View for Box<T, S> {
    type V = T;

    /// The value in the box.
    closed spec fn view(&self) -> T {
        self.value
    }
}

impl<T, S: Storage> Box<T, S> {
    /// The storage the value is allocated in.
    pub closed spec fn storage(&self) -> S {
        self.storage
    }

    /// The handle of the allocation the value lies in.
    pub closed spec fn handle(&self) -> S::Handle {
        self.handle
    }

    /// The layout the value is held under.
    pub closed spec fn metadata(&self) -> Layout {
        self.metadata
    }

    /// The invariant: the handle names a live allocation of the storage
    /// that the layout of the value fits.
    pub open spec fn wf(&self) -> bool {
        &&& self.storage().wf()
        &&& self.metadata().wf()
        &&& self.storage().is_valid(self.handle())
        &&& self.metadata().size() <= self.storage().usable_size(self.handle())
        &&& self.metadata().align() == self.storage().alignment(self.handle())
    }

    /// What boxing `value` in `storage` comes to: it succeeds exactly where
    /// the storage can allocate the layout of `T`, and the box then holds
    /// the value under that layout, with the handle the storage issued.
    pub open spec fn made(value: T, storage: S, r: Result<Self, StorageAllocError>) -> bool {
        let issued = storage.allocate_spec(Layout::spec_new::<T>());
        &&& r is Ok <==> issued is Some
        &&& r matches Ok(b) ==> {
            &&& b.wf()
            &&& b@ == value
            &&& b.metadata() == Layout::spec_new::<T>()
            &&& issued == Some((b.handle(), issued.unwrap().1))
            &&& b.storage() == storage.allocated(Layout::spec_new::<T>())
        }
    }

    /// Allocates room for a `T` in `storage` and moves `value` into it.
    pub fn new_in(value: T, storage: S) -> (r: Result<Self, StorageAllocError>)
        requires
            storage.wf(),
        ensures
            Self::made(value, storage, r),
    {
        let mut storage = storage;
        let metadata = Layout::new::<T>();
        let (handle, _) = storage.allocate(metadata)?;
        Ok(Self::from_raw_parts(storage, handle, metadata, value))
    }

    /// Allocates room for a `T` in `storage` and constructs the value into
    /// it.
    ///
    /// The allocation is made before `f` is called: where it fails, `f` is
    /// not called at all.
    pub fn new_with_in<F: FnOnce() -> T>(f: F, storage: S) -> (r: Result<Self, StorageAllocError>)
        requires
            storage.wf(),
            call_requires(f, ()),
        ensures
            r is Ok <==> storage.allocate_spec(Layout::spec_new::<T>()) is Some,
            r matches Ok(b) ==> call_ensures(f, (), b@) && Self::made(b@, storage, r),
    {
        let mut storage = storage;
        let metadata = Layout::new::<T>();
        let (handle, _) = storage.allocate(metadata)?;
        Ok(Self::from_raw_parts(storage, handle, metadata, f()))
    }

    /// Moves the `T` out of this box and gives the allocation back to the
    /// storage. The value itself is not dropped: it comes back with the
    /// storage.
    pub fn into_inner(self) -> (r: (T, S))
        requires
            self.wf(),
        ensures
            r.0 == self@,
            r.1.wf(),
            r.1 == self.storage().deallocated(self.metadata(), self.handle()),
            S::multiple() ==> keeps_handles(&self.storage(), &r.1, Some(self.handle())),
    {
        let (storage, handle, metadata, value) = Self::into_raw_parts(self);
        let mut storage = storage;
        storage.deallocate(metadata, handle);
        (value, storage)
    }

    /// Reconstructs a box from a storage, a handle, the layout the value
    /// is held under and the value.
    ///
    /// The opposite of [`Box::into_raw_parts`]. The handle must name a live
    /// allocation of `storage` that the layout fits.
    pub fn from_raw_parts(storage: S, handle: S::Handle, metadata: Layout, value: T) -> (r: Self)
        requires
            storage.wf(),
            metadata.wf(),
            storage.is_valid(handle),
            metadata.size() <= storage.usable_size(handle),
            metadata.align() == storage.alignment(handle),
        ensures
            r.wf(),
            r == Self::spec_from_raw_parts((storage, handle, metadata, value)),
    {
        Self { handle, storage, metadata, value }
    }

    /// The box made of the given parts.
    pub closed spec fn spec_from_raw_parts(parts: (S, S::Handle, Layout, T)) -> Self {
        Box { handle: parts.1, storage: parts.0, metadata: parts.2, value: parts.3 }
    }

    /// The parts of the box: the storage, the handle, the layout the value
    /// is held under and the value.
    pub closed spec fn spec_into_raw_parts(self) -> (S, S::Handle, Layout, T) {
        (self.storage, self.handle, self.metadata, self.value)
    }

    /// What the parts of a box are in terms of the box.
    pub broadcast proof fn lemma_raw_parts(self)
        ensures
            (#[trigger] self.spec_into_raw_parts()).0 == self.storage(),
            self.spec_into_raw_parts().1 == self.handle(),
            self.spec_into_raw_parts().2 == self.metadata(),
            self.spec_into_raw_parts().3 == self@,
    {
    }

    /// What the box made of parts is in terms of the parts.
    pub broadcast proof fn lemma_from_raw_parts(parts: (S, S::Handle, Layout, T))
        ensures
            (#[trigger] Self::spec_from_raw_parts(parts)).storage() == parts.0,
            Self::spec_from_raw_parts(parts).handle() == parts.1,
            Self::spec_from_raw_parts(parts).metadata() == parts.2,
            Self::spec_from_raw_parts(parts)@ == parts.3,
    {
    }

    /// Taking a box apart and putting the parts together again gives the
    /// box that was taken apart: nothing is freed, copied or dropped on the
    /// way.
    pub proof fn lemma_raw_parts_round_trip(self)
        ensures
            Self::spec_from_raw_parts(self.spec_into_raw_parts()) == self,
    {
    }

    /// Splits the box into its storage, its handle, the layout the value is
    /// held under and the value. Nothing is freed and the value is not
    /// dropped.
    ///
    /// The opposite of [`Box::from_raw_parts`].
    pub fn into_raw_parts(b: Self) -> (r: (S, S::Handle, Layout, T))
        ensures
            r == b.spec_into_raw_parts(),
    {
        (b.storage, b.handle, b.metadata, b.value)
    }

    /// Returns the address of the value. The handle is resolved anew on
    /// every call: no address is kept, as it may change when the storage
    /// moves.
    pub fn as_ptr(b: &Self) -> (address: usize)
        requires
            b.wf(),
        ensures
            address == b.storage().address(b.handle()),
            address != 0,
            address as nat % (b.metadata().align() as nat) == 0,
    {
        b.storage.resolve(b.handle)
    }

    /// Lends the value mutably.
    pub fn deref_mut(&mut self) -> (r: &mut T)
        ensures
            *r == old(self)@,
            final(self)@ == *final(r),
            final(self).storage() == old(self).storage(),
            final(self).handle() == old(self).handle(),
            final(self).metadata() == old(self).metadata(),
    {
        &mut self.value
    }
}

impl<T, S: Storage + Default> Box<T, S> {
    /// [`Box::new_in`] with the default value of the storage.
    pub fn new(value: T) -> (r: Result<Self, StorageAllocError>)
        requires
            forall|storage: S| call_ensures(S::default, (), storage) ==> storage.wf(),
        ensures
            exists|storage: S| call_ensures(S::default, (), storage) && Self::made(value, storage, r),
    {
        Self::new_in(value, S::default())
    }

    /// [`Box::new_with_in`] with the default value of the storage.
    pub fn new_with<F: FnOnce() -> T>(f: F) -> (r: Result<Self, StorageAllocError>)
        requires
            forall|storage: S| call_ensures(S::default, (), storage) ==> storage.wf(),
            call_requires(f, ()),
        ensures
            exists|storage: S|
                {
                    &&& call_ensures(S::default, (), storage)
                    &&& r is Ok <==> storage.allocate_spec(Layout::spec_new::<T>()) is Some
                    &&& r matches Ok(b) ==> call_ensures(f, (), b@) && Self::made(b@, storage, r)
                },
    {
        Self::new_with_in(f, S::default())
    }
}

impl<T, S: Storage> core::ops::Deref for Box<T, S> {
    type Target = T;

    fn deref(&self) -> (r: &T)
        ensures
            *r == self@,
    {
        &self.value
    }
}

/// Destroys a box: drops the value, then gives the allocation back to the
/// storage under the layout the value was held under. The storage is
/// returned.
pub fn drop<T, S: Storage>(b: Box<T, S>) -> (storage: S)
    requires
        b.wf(),
    ensures
        storage.wf(),
        storage == b.storage().deallocated(b.metadata(), b.handle()),
        S::multiple() ==> keeps_handles(&b.storage(), &storage, Some(b.handle())),
{
    let (storage, handle, metadata, value) = Box::into_raw_parts(b);
    let mut storage = storage;
    let _ = value;
    storage.deallocate(metadata, handle);
    storage
}

} // verus!
