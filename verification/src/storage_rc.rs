//! A value shared by several owners, counted.

use vstd::prelude::*;
use crate::error::StorageAllocError;
use crate::global_storage::Global;
use crate::layout::Layout;
use crate::storage::{ShareableStorage, Storage};
use crate::storage_box::Box;

verus! {

/// The strong count and the value as they lie in the allocation of an
/// [`Rc`]: the allocation has the layout of this type.
pub struct Counted<T> {
    strong: usize,
    value: T,
}

/// What the allocation of an [`Rc`] holds: the strong count and the value.
///
/// All the references to one allocation share it. A reference does not
/// reach it by itself: whoever uses a reference presents the contents of
/// its allocation with it. The value can be taken out of the contents, which
/// takes no room in the allocation: the room is that of a [`Counted`].
pub struct RcInner<T, S: Storage> {
    strong: usize,
    data: Option<T>,
    handle: Ghost<S::Handle>,
}

impl<T, S: Storage> RcInner<T, S> {
    /// The number of references to the allocation.
    pub closed spec fn spec_strong(&self) -> usize {
        self.strong
    }

    /// The value, as long as there is a reference.
    pub closed spec fn data(&self) -> Option<T> {
        self.data
    }

    /// The handle of the allocation these are the contents of.
    pub closed spec fn handle(&self) -> S::Handle {
        self.handle@
    }

    /// The invariant: the value is there exactly as long as the count is
    /// not zero.
    pub open spec fn wf(&self) -> bool {
        self.spec_strong() > 0 <==> self.data() is Some
    }

    /// The contents after another reference has been made: the count is
    /// one more.
    pub closed spec fn cloned(self) -> Self {
        RcInner { strong: (self.strong + 1) as usize, data: self.data, handle: self.handle }
    }

    /// The contents after a reference has gone: the count is one less, and
    /// the value has gone with the last reference.
    pub closed spec fn released(self) -> Self {
        RcInner {
            strong: (self.strong - 1) as usize,
            data: if self.strong == 1 {
                None
            } else {
                self.data
            },
            handle: self.handle,
        }
    }

    /// The contents after `n` references have gone, one after the other.
    pub open spec fn released_n(self, n: nat) -> Self
        decreases n,
    {
        if n == 0 {
            self
        } else {
            self.released().released_n((n - 1) as nat)
        }
    }

    /// What making a reference does to the contents.
    pub broadcast proof fn lemma_cloned(self)
        requires
            self.spec_strong() < usize::MAX,
        ensures
            #[trigger] self.cloned().spec_strong() == self.spec_strong() + 1,
            self.cloned().data() == self.data(),
            self.cloned().handle() == self.handle(),
    {
    }

    /// What letting a reference go does to the contents.
    pub broadcast proof fn lemma_released(self)
        requires
            self.spec_strong() > 0,
        ensures
            #[trigger] self.released().spec_strong() == self.spec_strong() - 1,
            self.released().data() == if self.spec_strong() == 1 {
                None
            } else {
                self.data()
            },
            self.released().handle() == self.handle(),
    {
    }

    /// A reference made and let go again leaves the contents as they were.
    pub proof fn lemma_clone_then_release(self)
        requires
            self.wf(),
            0 < self.spec_strong() < usize::MAX,
        ensures
            self.cloned().released() == self,
    {
    }

    /// While all the references but one go, the value stays: as long as
    /// fewer references have gone than there were, the count is what is
    /// left of it and the value is where it was.
    pub proof fn lemma_release_all_but_one(self, n: nat)
        requires
            self.wf(),
            n < self.spec_strong(),
        ensures
            self.released_n(n).wf(),
            self.released_n(n).spec_strong() == self.spec_strong() - n,
            self.released_n(n).data() == self.data(),
            self.released_n(n).data() is Some,
            self.released_n(n).handle() == self.handle(),
        decreases n,
    {
        if n > 0 {
            self.released().lemma_release_all_but_one((n - 1) as nat);
        }
    }

    /// Returns the number of references to the allocation.
    #[verifier::when_used_as_spec(spec_strong)]
    pub fn strong(&self) -> (r: usize)
        ensures
            r == self.spec_strong(),
    {
        self.strong
    }
}

/// A type that owns a shared `T` allocated in a storage.
///
/// The count and the value lie in one allocation. Every reference holds a
/// copy of the storage and the handle of that allocation; the value is
/// dropped and the allocation freed when the last reference goes.
pub struct Rc<T, S: Storage = Global> {
    handle: S::Handle,
    storage: S,
    metadata: Layout,
    data: core::marker::PhantomData<T>,
}

impl<T, S: Storage> Rc<T, S> {
    /// The storage the allocation was made in.
    pub closed spec fn storage(&self) -> S {
        self.storage
    }

    /// The handle of the allocation.
    pub closed spec fn handle(&self) -> S::Handle {
        self.handle
    }

    /// The layout the count and the value are held under.
    pub closed spec fn metadata(&self) -> Layout {
        self.metadata
    }

    /// The invariant of a reference: its handle names a live allocation of
    /// its storage that the layout of the contents fits.
    pub open spec fn wf(&self) -> bool {
        &&& self.storage().wf()
        &&& self.metadata().wf()
        &&& self.storage().is_valid(self.handle())
        &&& self.metadata().size() <= self.storage().usable_size(self.handle())
        &&& self.metadata().align() == self.storage().alignment(self.handle())
    }

    /// Whether `inner` is what the allocation of this reference holds, with
    /// the reference counted in it.
    pub open spec fn refers_to(&self, inner: &RcInner<T, S>) -> bool {
        &&& inner.wf()
        &&& inner.handle() == self.handle()
        &&& inner.spec_strong() > 0
    }

    /// What sharing `value` in `storage` comes to: it succeeds exactly
    /// where the storage can allocate the layout of a count and a `T`, and
    /// there is then one reference to the value.
    pub open spec fn made(
        value: T,
        storage: S,
        r: Result<(Self, RcInner<T, S>), StorageAllocError>,
    ) -> bool {
        let issued = storage.allocate_spec(Layout::spec_new::<Counted<T>>());
        &&& r is Ok <==> issued is Some
        &&& r matches Ok((rc, inner)) ==> {
            &&& rc.wf()
            &&& rc.refers_to(&inner)
            &&& inner.spec_strong() == 1
            &&& inner.data() == Some(value)
            &&& rc.metadata() == Layout::spec_new::<Counted<T>>()
            &&& issued == Some((rc.handle(), issued.unwrap().1))
            &&& rc.storage() == storage.allocated(Layout::spec_new::<Counted<T>>())
        }
    }

    /// Allocates room for the count and a `T` in `storage` and moves
    /// `value` into it. Returns the first reference and the contents of the
    /// allocation.
    pub fn new_in(value: T, storage: S) -> (r: Result<(Self, RcInner<T, S>), StorageAllocError>)
        requires
            storage.wf(),
        ensures
            Self::made(value, storage, r),
    {
        broadcast use Box::lemma_raw_parts;

        let (storage, handle, metadata, counted) = Box::into_raw_parts(
            Box::new_in(Counted { strong: 1, value }, storage)?,
        );
        let inner = RcInner::<T, S> {
            strong: counted.strong,
            data: Some(counted.value),
            handle: Ghost(handle),
        };
        Ok((Rc { handle, storage, metadata, data: core::marker::PhantomData }, inner))
    }

    /// Allocates room for the count and a `T` in `storage` and constructs
    /// the value into it. Where the allocation fails, `f` is not called.
    pub fn new_with_in<F: FnOnce() -> T>(f: F, storage: S) -> (r: Result<
        (Self, RcInner<T, S>),
        StorageAllocError,
    >)
        requires
            storage.wf(),
            call_requires(f, ()),
        ensures
            r is Ok <==> storage.allocate_spec(Layout::spec_new::<Counted<T>>()) is Some,
            r matches Ok((rc, inner)) ==> {
                &&& inner.data() is Some
                &&& call_ensures(f, (), inner.data().unwrap())
                &&& Self::made(inner.data().unwrap(), storage, r)
            },
    {
        let mut storage = storage;
        let metadata = Layout::new::<Counted<T>>();
        let (handle, _) = storage.allocate(metadata)?;
        let inner = RcInner::<T, S> { strong: 1, data: Some(f()), handle: Ghost(handle) };
        Ok((Rc { handle, storage, metadata, data: core::marker::PhantomData }, inner))
    }

    /// Moves the `T` out of the allocation, if this is the only reference
    /// left, and frees the allocation: the value comes back with the
    /// storage the allocation was given back to. Otherwise the reference
    /// comes back as it was and nothing has changed.
    pub fn into_inner(rc: Self, inner: &mut RcInner<T, S>) -> (r: Result<(T, S), Self>)
        requires
            rc.wf(),
            rc.refers_to(old(inner)),
        ensures
            r is Ok <==> old(inner).spec_strong() == 1,
            match r {
                Ok((value, storage)) => {
                    &&& Some(value) == old(inner).data()
                    &&& storage.wf()
                    &&& storage == rc.storage().deallocated(rc.metadata(), rc.handle())
                    &&& *final(inner) == old(inner).released()
                    &&& final(inner).spec_strong() == 0
                    &&& final(inner).data() is None
                    &&& final(inner).handle() == old(inner).handle()
                },
                Err(back) => back == rc && *final(inner) == *old(inner),
            },
    {
        if inner.strong != 1 {
            return Err(rc);
        }
        let Rc { handle, storage, metadata, data } = rc;
        let mut storage = storage;
        inner.strong = 0;
        match inner.data.take() {
            Some(value) => {
                storage.deallocate(metadata, handle);
                Ok((value, storage))
            },
            None => Err(Rc { handle, storage, metadata, data }),
        }
    }

    /// Lends the value.
    pub fn get<'a>(&self, inner: &'a RcInner<T, S>) -> (r: &'a T)
        requires
            self.refers_to(inner),
        ensures
            Some(*r) == inner.data(),
    {
        match &inner.data {
            Some(value) => value,
            None => vstd::pervasive::unreached(),
        }
    }

    /// Returns the address of the allocation. The handle is resolved anew
    /// on every call.
    pub fn as_ptr(rc: &Self) -> (address: usize)
        requires
            rc.wf(),
        ensures
            address == rc.storage().address(rc.handle()),
            address != 0,
            address as nat % (rc.metadata().align() as nat) == 0,
    {
        rc.storage.resolve(rc.handle)
    }
}

impl<T, S: ShareableStorage> Rc<T, S> {
    /// Makes another reference to the same allocation.
    ///
    /// The count goes up by one. The new reference has the handle of this
    /// one and a copy of its storage. A count that cannot go up any more is
    /// a fault of the caller.
    pub fn clone(&self, inner: &mut RcInner<T, S>) -> (r: Self)
        requires
            self.wf(),
            self.refers_to(old(inner)),
            old(inner).spec_strong() < usize::MAX,
        ensures
            r == *self,
            r.refers_to(final(inner)),
            *final(inner) == old(inner).cloned(),
            final(inner).spec_strong() == old(inner).spec_strong() + 1,
            final(inner).data() == old(inner).data(),
            final(inner).handle() == old(inner).handle(),
    {
        inner.strong = inner.strong + 1;
        Rc {
            handle: self.handle,
            storage: self.storage.make_shared_copy(),
            metadata: self.metadata,
            data: core::marker::PhantomData,
        }
    }
}

impl<T, S: Storage + Default> Rc<T, S> {
    /// [`Rc::new_in`] with the default value of the storage.
    pub fn new(value: T) -> (r: Result<(Self, RcInner<T, S>), StorageAllocError>)
        requires
            forall|storage: S| call_ensures(S::default, (), storage) ==> storage.wf(),
        ensures
            exists|storage: S| call_ensures(S::default, (), storage) && Self::made(value, storage, r),
    {
        Self::new_in(value, S::default())
    }

    /// [`Rc::new_with_in`] with the default value of the storage.
    pub fn new_with<F: FnOnce() -> T>(f: F) -> (r: Result<(Self, RcInner<T, S>), StorageAllocError>)
        requires
            forall|storage: S| call_ensures(S::default, (), storage) ==> storage.wf(),
            call_requires(f, ()),
        ensures
            exists|storage: S|
                {
                    &&& call_ensures(S::default, (), storage)
                    &&& r is Ok <==> storage.allocate_spec(Layout::spec_new::<Counted<T>>())
                        is Some
                    &&& r matches Ok((rc, inner)) ==> {
                        &&& inner.data() is Some
                        &&& call_ensures(f, (), inner.data().unwrap())
                        &&& Self::made(inner.data().unwrap(), storage, r)
                    }
                },
    {
        Self::new_with_in(f, S::default())
    }
}

/// Lets a reference go.
///
/// The count goes down by one. If it reaches zero, the value is dropped and
/// the allocation is given back to the storage; otherwise the value stays
/// where it is for the references that are left. The storage of the
/// reference is returned.
pub fn drop<T, S: Storage>(rc: Rc<T, S>, inner: &mut RcInner<T, S>) -> (storage: S)
    requires
        rc.wf(),
        rc.refers_to(old(inner)),
    ensures
        storage.wf(),
        storage == if old(inner).spec_strong() == 1 {
            rc.storage().deallocated(rc.metadata(), rc.handle())
        } else {
            rc.storage()
        },
        final(inner).wf(),
        *final(inner) == old(inner).released(),
        final(inner).spec_strong() == old(inner).spec_strong() - 1,
        final(inner).handle() == old(inner).handle(),
        final(inner).data() == if old(inner).spec_strong() == 1 {
            None
        } else {
            old(inner).data()
        },
{
    let Rc { handle, storage, metadata, data } = rc;
    let mut storage = storage;
    inner.strong = inner.strong - 1;
    if inner.strong == 0 {
        let _ = inner.data.take();
        storage.deallocate(metadata, handle);
    }
    storage
}

} // verus!
