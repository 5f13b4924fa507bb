//! A growable array over a storage.

pub mod into_iter;

pub use into_iter::VecIntoIter;

use vstd::prelude::*;
use vstd::layout::{align_of, size_of};
use crate::error::StorageAllocError;
use crate::global_storage::Global;
use crate::layout::{
    array_fits,
    array_size,
    elements_in,
    lemma_array_fits,
    lemma_elements_in,
    sized,
    Layout,
};
use crate::storage::{keeps_handles, Storage};
use crate::storage_box::Box;

verus! {

/// The number of values of `T` that fit into `bytes` bytes: the bytes
/// divided by the size of a value, or the greatest count there is where a
/// value takes no room.
pub fn capacity_in<T>(bytes: usize) -> (r: usize)
    ensures
        r == elements_in(bytes as nat, size_of::<T>()),
{
    proof {
        lemma_elements_in(bytes as nat, size_of::<T>());
    }
    bytes.checked_div(core::mem::size_of::<T>()).unwrap_or(usize::MAX)
}

/// `more` values take at least as many bytes as `fewer` do.
pub proof fn lemma_array_size_ordered<T>(fewer: nat, more: nat)
    requires
        fewer <= more,
    ensures
        array_size::<T>(fewer) <= array_size::<T>(more),
{
    assert(fewer * size_of::<T>() <= more * size_of::<T>()) by (nonlinear_arith)
        requires
            fewer <= more,
    {
    }
}

/// A collection for managing a list of elements.
///
/// The elements lie in one allocation of the storage, the first `len` places
/// of `capacity` taken. The capacity is counted in elements and derived from
/// the number of bytes the storage reported as usable, never from the number
/// that was asked for.
pub struct Vec<T, S: Storage = Global> {
    handle: S::Handle,
    capacity: usize,
    storage: S,
    items: std::vec::Vec<T>,
}

impl<T, S: Storage> View for Vec<T, S> {
    type V = Seq<T>;

    closed spec fn view(&self) -> Seq<T> {
        self.items@
    }
}

impl<T, S: Storage> Vec<T, S> {
    /// The number of elements the allocation has room for.
    pub closed spec fn spec_capacity(&self) -> usize {
        self.capacity
    }

    /// The storage the elements are allocated in.
    pub closed spec fn storage(&self) -> S {
        self.storage
    }

    /// The handle of the allocation the elements lie in.
    pub closed spec fn handle(&self) -> S::Handle {
        self.handle
    }

    /// The invariant: the handle names a live allocation of the storage,
    /// aligned for `T` and with room for `capacity` elements, of which no
    /// more than that many are in use.
    pub open spec fn wf(&self) -> bool {
        &&& sized::<T>()
        &&& self.storage().wf()
        &&& self.storage().is_valid(self.handle())
        &&& self.storage().alignment(self.handle()) == align_of::<T>()
        &&& array_size::<T>(self.spec_capacity() as nat) <= self.storage().usable_size(
            self.handle(),
        ) <= isize::MAX
        &&& self@.len() <= self.spec_capacity()
    }

    /// What is left of a vec once its allocation has room for `n` elements:
    /// the handle and the capacity, or `None` where the storage cannot grow
    /// the allocation so far.
    pub open spec fn grow_to_spec(&self, n: nat) -> Option<(S, S::Handle, usize)> {
        if array_fits::<T>(n) {
            match self.storage().grow_spec(
                Layout::spec_array::<T>(self.spec_capacity() as nat),
                Layout::spec_array::<T>(n),
                self.handle(),
            ) {
                Some((handle, usable)) => Some(
                    (
                        self.storage().grown(
                            Layout::spec_array::<T>(self.spec_capacity() as nat),
                            Layout::spec_array::<T>(n),
                            self.handle(),
                        ),
                        handle,
                        elements_in(usable as nat, size_of::<T>()) as usize,
                    ),
                ),
                None => None,
            }
        } else {
            None
        }
    }

    /// What is left of a vec once its allocation has room for exactly its
    /// elements: the handle and the capacity, or `None` where the storage
    /// cannot shrink the allocation.
    pub open spec fn shrink_to_fit_spec(&self) -> Option<(S, S::Handle, usize)> {
        if self.spec_capacity() == self@.len() {
            Some((self.storage(), self.handle(), self.spec_capacity()))
        } else {
            match self.storage().shrink_spec(
                Layout::spec_array::<T>(self.spec_capacity() as nat),
                Layout::spec_array::<T>(self@.len()),
                self.handle(),
            ) {
                Some((handle, usable)) => Some(
                    (
                        self.storage().shrunk(
                            Layout::spec_array::<T>(self.spec_capacity() as nat),
                            Layout::spec_array::<T>(self@.len()),
                            self.handle(),
                        ),
                        handle,
                        elements_in(usable as nat, size_of::<T>()) as usize,
                    ),
                ),
                None => None,
            }
        }
    }

    /// The handle and capacity after `reserve_exact(extra)`, or `None`
    /// where it fails: nothing changes where there is room already, and the
    /// allocation grows to exactly the elements and `extra` more where
    /// there is not.
    pub open spec fn reserve_exact_spec(&self, extra: usize) -> Option<(S, S::Handle, usize)> {
        if self@.len() + extra > usize::MAX {
            None
        } else if self@.len() + extra <= self.spec_capacity() {
            Some((self.storage(), self.handle(), self.spec_capacity()))
        } else {
            self.grow_to_spec((self@.len() + extra) as nat)
        }
    }

    /// Twice the capacity, and at least one; `None` where that cannot be
    /// counted.
    pub open spec fn doubled_capacity(&self) -> Option<usize> {
        if self.spec_capacity() * 2 > usize::MAX {
            None
        } else if self.spec_capacity() == 0 {
            Some(1)
        } else {
            Some((self.spec_capacity() * 2) as usize)
        }
    }

    /// The handle and capacity after `reserve(extra)`, or `None` where it
    /// fails: nothing changes where there is room already; else the
    /// capacity doubles, where that is enough and the storage can do it;
    /// else the allocation grows to exactly the elements and `extra` more.
    pub open spec fn reserve_spec(&self, extra: usize) -> Option<(S, S::Handle, usize)> {
        if self@.len() + extra > usize::MAX {
            None
        } else if self@.len() + extra <= self.spec_capacity() {
            Some((self.storage(), self.handle(), self.spec_capacity()))
        } else {
            let needed = (self@.len() + extra) as nat;
            if self.doubled_capacity() is Some && self.doubled_capacity().unwrap() >= needed
                && self.grow_to_spec(self.doubled_capacity().unwrap() as nat) is Some {
                self.grow_to_spec(self.doubled_capacity().unwrap() as nat)
            } else {
                self.grow_to_spec(needed)
            }
        }
    }

    /// What constructing a vec with room for `capacity` elements in
    /// `storage` comes to: it succeeds exactly where that many elements have
    /// a layout and the storage can allocate it, and the vec is then empty,
    /// with the handle the storage issued and as much capacity as fits into
    /// the bytes the storage reported.
    pub open spec fn made(capacity: usize, storage: S, r: Result<Self, StorageAllocError>) -> bool {
        let issued = storage.allocate_spec(Layout::spec_array::<T>(capacity as nat));
        &&& r is Ok <==> array_fits::<T>(capacity as nat) && issued is Some
        &&& r matches Ok(v) ==> {
            &&& v.wf()
            &&& v@ == Seq::<T>::empty()
            &&& issued == Some((v.handle(), issued.unwrap().1))
            &&& v.storage() == storage.allocated(Layout::spec_array::<T>(capacity as nat))
            &&& v.spec_capacity() == elements_in(issued.unwrap().1 as nat, size_of::<T>())
            &&& v.spec_capacity() >= capacity
        }
    }

    /// Constructs a new vec allocated in `storage`.
    ///
    /// This is the same as `with_capacity_in(0, storage)`.
    pub fn new_in(storage: S) -> (r: Result<Self, StorageAllocError>)
        requires
            storage.wf(),
        ensures
            Self::made(0, storage, r),
    {
        Self::with_capacity_in(0, storage)
    }

    /// Constructs a vec with room for at least `capacity` elements
    /// allocated in `storage`.
    ///
    /// The capacity of the result may be greater than `capacity`, because
    /// the storage may provide more room than was asked for. It fails where
    /// that many elements have no layout, or where the storage does.
    pub fn with_capacity_in(capacity: usize, storage: S) -> (r: Result<Self, StorageAllocError>)
        requires
            storage.wf(),
        ensures
            Self::made(capacity, storage, r),
    {
        let mut storage = storage;
        let layout = match Layout::array::<T>(capacity) {
            Some(layout) => layout,
            None => {
                return Err(StorageAllocError);
            },
        };
        let (handle, capacity_in_bytes) = storage.allocate(layout)?;
        proof {
            lemma_elements_in(capacity_in_bytes as nat, size_of::<T>());
            assert(capacity as nat * size_of::<T>() <= capacity_in_bytes);
        }
        Ok(
            Self {
                handle,
                capacity: capacity_in::<T>(capacity_in_bytes),
                storage,
                items: std::vec::Vec::new(),
            },
        )
    }

    /// Reconstructs a vec from a storage, a handle, the elements and the
    /// capacity.
    ///
    /// The opposite of [`Vec::into_raw_parts`]. The handle must name a live
    /// allocation of `storage` that is aligned for `T` and has room for
    /// `capacity` elements, and there must be no more elements than that.
    pub fn from_raw_parts(
        storage: S,
        handle: S::Handle,
        items: std::vec::Vec<T>,
        capacity: usize,
    ) -> (r: Self)
        requires
            storage.wf(),
            storage.is_valid(handle),
            storage.alignment(handle) == align_of::<T>(),
            array_size::<T>(capacity as nat) <= storage.usable_size(handle) <= isize::MAX,
            items@.len() <= capacity,
        ensures
            r.wf(),
            r == Self::spec_from_raw_parts((storage, handle, items, capacity)),
    {
        let _ = Layout::new::<T>();
        Self { handle, capacity, storage, items }
    }

    /// The vec made of the given parts.
    pub closed spec fn spec_from_raw_parts(
        parts: (S, S::Handle, std::vec::Vec<T>, usize),
    ) -> Self {
        Vec { handle: parts.1, capacity: parts.3, storage: parts.0, items: parts.2 }
    }

    /// The parts of the vec: the storage, the handle, the elements and the
    /// capacity.
    pub closed spec fn spec_into_raw_parts(self) -> (S, S::Handle, std::vec::Vec<T>, usize) {
        (self.storage, self.handle, self.items, self.capacity)
    }

    /// What the vec made of parts is in terms of the parts.
    pub broadcast proof fn lemma_from_raw_parts(parts: (S, S::Handle, std::vec::Vec<T>, usize))
        ensures
            (#[trigger] Self::spec_from_raw_parts(parts)).storage() == parts.0,
            Self::spec_from_raw_parts(parts).handle() == parts.1,
            Self::spec_from_raw_parts(parts)@ == parts.2@,
            Self::spec_from_raw_parts(parts).spec_capacity() == parts.3,
    {
    }

    /// Taking a vec apart and putting the parts together again gives the
    /// vec that was taken apart.
    pub proof fn lemma_raw_parts_round_trip(self)
        ensures
            Self::spec_from_raw_parts(self.spec_into_raw_parts()) == self,
    {
    }

    /// What the parts of a vec are in terms of the vec.
    pub broadcast proof fn lemma_raw_parts(self)
        ensures
            (#[trigger] self.spec_into_raw_parts()).0 == self.storage(),
            self.spec_into_raw_parts().1 == self.handle(),
            self.spec_into_raw_parts().2@ == self@,
            self.spec_into_raw_parts().3 == self.spec_capacity(),
    {
    }

    /// Splits the vec into its storage, its handle, its elements and its
    /// capacity. Nothing is freed and no element is dropped.
    ///
    /// The opposite of [`Vec::from_raw_parts`].
    pub fn into_raw_parts(self) -> (r: (S, S::Handle, std::vec::Vec<T>, usize))
        ensures
            r == self.spec_into_raw_parts(),
    {
        (self.storage, self.handle, self.items, self.capacity)
    }

    /// Returns the total number of elements that this vec can hold before
    /// it reallocates.
    #[verifier::when_used_as_spec(spec_capacity)]
    pub fn capacity(&self) -> (r: usize)
        ensures
            r == self.spec_capacity(),
    {
        self.capacity
    }

    /// Grows the allocation to have room for `new_capacity` elements.
    fn grow_to(&mut self, new_capacity: usize) -> (r: Result<(), StorageAllocError>)
        requires
            old(self).wf(),
            new_capacity >= old(self).spec_capacity(),
        ensures
            r is Ok <==> old(self).grow_to_spec(new_capacity as nat) is Some,
            r is Ok ==> {
                &&& final(self).wf()
                &&& final(self)@ == old(self)@
                &&& old(self).grow_to_spec(new_capacity as nat) == Some(
                    (final(self).storage(), final(self).handle(), final(self).spec_capacity()),
                )
                &&& final(self).spec_capacity() >= new_capacity
            },
            r is Err ==> *final(self) == *old(self),
    {
        let new_layout = match Layout::array::<T>(new_capacity) {
            Some(layout) => layout,
            None => {
                return Err(StorageAllocError);
            },
        };
        proof {
            lemma_array_fits::<T>(
                self.capacity as nat,
                self.storage.usable_size(self.handle),
            );
            lemma_array_size_ordered::<T>(self.capacity as nat, new_capacity as nat);
        }
        let old_layout = match Layout::array::<T>(self.capacity) {
            Some(layout) => layout,
            None => {
                return Err(StorageAllocError);
            },
        };
        let (new_handle, capacity_in_bytes) = self.storage.grow(
            old_layout,
            new_layout,
            self.handle,
        )?;
        proof {
            lemma_elements_in(capacity_in_bytes as nat, size_of::<T>());
            assert(new_capacity as nat * size_of::<T>() <= capacity_in_bytes);
        }
        self.handle = new_handle;
        self.capacity = capacity_in::<T>(capacity_in_bytes);
        Ok(())
    }

    /// Makes room for at least `extra_capacity` more elements, without
    /// using a growth factor.
    ///
    /// Where the capacity does not suffice, the allocation grows to exactly
    /// the elements and `extra_capacity` more; the capacity may still come
    /// out greater, as the storage may provide more room than was asked
    /// for. On failure nothing has changed.
    pub fn reserve_exact(&mut self, extra_capacity: usize) -> (r: Result<(), StorageAllocError>)
        requires
            old(self).wf(),
        ensures
            r is Ok <==> old(self).reserve_exact_spec(extra_capacity) is Some,
            r is Ok ==> {
                &&& final(self).wf()
                &&& final(self)@ == old(self)@
                &&& old(self).reserve_exact_spec(extra_capacity) == Some(
                    (final(self).storage(), final(self).handle(), final(self).spec_capacity()),
                )
                &&& final(self).spec_capacity() >= old(self)@.len() + extra_capacity
            },
            r is Err ==> *final(self) == *old(self),
    {
        let new_capacity = match self.items.len().checked_add(extra_capacity) {
            Some(new_capacity) => new_capacity,
            None => {
                return Err(StorageAllocError);
            },
        };
        if new_capacity <= self.capacity {
            return Ok(());
        }
        self.grow_to(new_capacity)
    }

    /// Makes room for at least `extra_capacity` more elements, using a
    /// growth factor.
    ///
    /// Where the capacity does not suffice, it is doubled if that is enough
    /// and the storage can do it, so that the number of reallocations stays
    /// logarithmic in the number of elements pushed; otherwise the
    /// allocation grows to exactly what is needed, which is what a storage
    /// of fixed capacity can still do. On failure nothing has changed.
    pub fn reserve(&mut self, extra_capacity: usize) -> (r: Result<(), StorageAllocError>)
        requires
            old(self).wf(),
        ensures
            r is Ok <==> old(self).reserve_spec(extra_capacity) is Some,
            r is Ok ==> {
                &&& final(self).wf()
                &&& final(self)@ == old(self)@
                &&& old(self).reserve_spec(extra_capacity) == Some(
                    (final(self).storage(), final(self).handle(), final(self).spec_capacity()),
                )
                &&& final(self).spec_capacity() >= old(self)@.len() + extra_capacity
            },
            r is Err ==> *final(self) == *old(self),
    {
        let new_capacity = match self.items.len().checked_add(extra_capacity) {
            Some(new_capacity) => new_capacity,
            None => {
                return Err(StorageAllocError);
            },
        };
        if new_capacity <= self.capacity {
            return Ok(());
        }
        if let Some(twice) = self.capacity.checked_mul(2) {
            let doubled_capacity: usize = if twice < 1 {
                1
            } else {
                twice
            };
            if doubled_capacity >= new_capacity {
                if let Ok(()) = self.grow_to(doubled_capacity) {
                    return Ok(());
                }
            }
        }
        self.grow_to(new_capacity)
    }

    /// Attempts to shrink the allocated capacity to the current length.
    ///
    /// The capacity may still come out greater than the length, as the
    /// storage may provide more room than was asked for. On failure nothing
    /// has changed.
    pub fn shrink_to_fit(&mut self) -> (r: Result<(), StorageAllocError>)
        requires
            old(self).wf(),
        ensures
            r is Ok <==> old(self).shrink_to_fit_spec() is Some,
            r is Ok ==> {
                &&& final(self).wf()
                &&& final(self)@ == old(self)@
                &&& old(self).shrink_to_fit_spec() == Some(
                    (final(self).storage(), final(self).handle(), final(self).spec_capacity()),
                )
            },
            r is Err ==> *final(self) == *old(self),
    {
        if self.capacity == self.items.len() {
            return Ok(());
        }
        proof {
            lemma_array_fits::<T>(
                self.capacity as nat,
                self.storage.usable_size(self.handle),
            );
            lemma_array_size_ordered::<T>(self.items@.len(), self.capacity as nat);
            lemma_array_fits::<T>(self.items@.len(), self.storage.usable_size(self.handle));
        }
        let old_layout = match Layout::array::<T>(self.capacity) {
            Some(layout) => layout,
            None => {
                return Err(StorageAllocError);
            },
        };
        let new_layout = match Layout::array::<T>(self.items.len()) {
            Some(layout) => layout,
            None => {
                return Err(StorageAllocError);
            },
        };
        let (new_handle, capacity_in_bytes) = self.storage.shrink(
            old_layout,
            new_layout,
            self.handle,
        )?;
        proof {
            lemma_elements_in(capacity_in_bytes as nat, size_of::<T>());
            assert(self.items@.len() * size_of::<T>() <= capacity_in_bytes);
        }
        self.handle = new_handle;
        self.capacity = capacity_in::<T>(capacity_in_bytes);
        Ok(())
    }

    /// Adds an element to the end of the vec and returns a reference to it.
    ///
    /// Room for it is reserved first. Where that fails the vec is unchanged
    /// and the value comes back inside the error.
    pub fn push(&mut self, value: T) -> (r: Result<&mut T, PushError<T>>)
        requires
            old(self).wf(),
        ensures
            r is Ok <==> old(self).reserve_spec(1) is Some,
            match r {
                Ok(slot) => {
                    &&& *slot == value
                    &&& final(self)@ == old(self)@.push(*final(slot))
                    &&& final(self).wf()
                    &&& old(self).reserve_spec(1) == Some(
                        (final(self).storage(), final(self).handle(), final(self).spec_capacity()),
                    )
                },
                Err(error) => {
                    &&& error.value == value
                    &&& error.alloc_error == StorageAllocError
                    &&& *final(self) == *old(self)
                },
            },
    {
        match self.reserve(1) {
            Ok(()) => {},
            Err(alloc_error) => {
                return Err(PushError { value, alloc_error });
            },
        }
        self.items.push(value);
        let last: usize = self.items.len() - 1;
        Ok(&mut self.items[last])
    }

    /// Inserts an element at `index` and returns a reference to it.
    ///
    /// An index beyond the length is refused before any allocation is
    /// tried. Room is reserved next; where that fails the error says so.
    /// Either way the vec is unchanged and the value comes back inside the
    /// error.
    pub fn insert(&mut self, index: usize, value: T) -> (r: Result<&mut T, InsertError<T>>)
        requires
            old(self).wf(),
        ensures
            r is Ok <==> index <= old(self)@.len() && old(self).reserve_spec(1) is Some,
            match r {
                Ok(slot) => {
                    &&& *slot == value
                    &&& final(self)@ == old(self)@.insert(index as int, *final(slot))
                    &&& final(self).wf()
                    &&& old(self).reserve_spec(1) == Some(
                        (final(self).storage(), final(self).handle(), final(self).spec_capacity()),
                    )
                },
                Err(error) => {
                    &&& error.value == value
                    &&& error.alloc_error is None <==> index > old(self)@.len()
                    &&& *final(self) == *old(self)
                },
            },
    {
        if index > self.items.len() {
            return Err(InsertError { value, alloc_error: None });
        }
        match self.reserve(1) {
            Ok(()) => {},
            Err(error) => {
                return Err(InsertError { value, alloc_error: Some(error) });
            },
        }
        self.items.insert(index, value);
        proof {
            lemma_insert_update(old(self)@, index as int, value);
        }
        Ok(&mut self.items[index])
    }

    /// Removes the last element from the vec and returns it, or `None` if
    /// the vec is empty. The capacity stays as it is.
    pub fn pop(&mut self) -> (r: Option<T>)
        requires
            old(self).wf(),
        ensures
            final(self).wf(),
            final(self).spec_capacity() == old(self).spec_capacity(),
            final(self).handle() == old(self).handle(),
            final(self).storage() == old(self).storage(),
            match r {
                Some(value) => {
                    &&& old(self)@.len() > 0
                    &&& value == old(self)@.last()
                    &&& final(self)@ == old(self)@.drop_last()
                },
                None => old(self)@.len() == 0 && final(self)@ == old(self)@,
            },
    {
        if self.items.len() == 0 {
            return None;
        }
        self.items.pop()
    }

    /// Removes the element at `index` and returns it, or `None` if the
    /// index is out of range. The elements behind it move one place down.
    pub fn remove(&mut self, index: usize) -> (r: Option<T>)
        requires
            old(self).wf(),
        ensures
            final(self).wf(),
            final(self).spec_capacity() == old(self).spec_capacity(),
            final(self).handle() == old(self).handle(),
            final(self).storage() == old(self).storage(),
            match r {
                Some(value) => {
                    &&& index < old(self)@.len()
                    &&& value == old(self)@[index as int]
                    &&& final(self)@ == old(self)@.remove(index as int)
                },
                None => index >= old(self)@.len() && final(self)@ == old(self)@,
            },
    {
        if index >= self.items.len() {
            return None;
        }
        Some(self.items.remove(index))
    }

    /// Converts the vec to a box over its elements, discarding any extra
    /// capacity.
    ///
    /// The allocation is shrunk to the length first and then handed to the
    /// box as it is: no element is copied.
    pub fn into_boxed_slice(self) -> (r: Result<Box<std::vec::Vec<T>, S>, StorageAllocError>)
        requires
            self.wf(),
        ensures
            r is Ok <==> self.shrink_to_fit_spec() is Some,
            r matches Ok(b) ==> {
                &&& b.wf()
                &&& b@@ == self@
                &&& b.storage() == self.shrink_to_fit_spec().unwrap().0
                &&& b.handle() == self.shrink_to_fit_spec().unwrap().1
                &&& b.metadata() == Layout::spec_array::<T>(self@.len())
            },
    {
        broadcast use Box::lemma_from_raw_parts;

        let mut this = self;
        this.shrink_to_fit()?;
        let (storage, handle, items, capacity) = this.into_raw_parts();
        proof {
            lemma_array_size_ordered::<T>(items@.len(), capacity as nat);
            lemma_array_fits::<T>(items@.len(), storage.usable_size(handle));
        }
        match Layout::array::<T>(items.len()) {
            Some(metadata) => Ok(Box::from_raw_parts(storage, handle, metadata, items)),
            None => Err(StorageAllocError),
        }
    }

    /// Takes the vec apart and makes the iterator that hands its elements
    /// out one by one.
    pub fn into_iter(self) -> (r: VecIntoIter<T, S>)
        requires
            self.wf(),
        ensures
            r.wf(),
            r@ == self@,
            r.start() == 0,
            r.capacity() == self.spec_capacity(),
            r.storage() == self.storage(),
            r.handle() == self.handle(),
    {
        VecIntoIter::new(self)
    }

    /// Returns a slice referencing the elements of this vec.
    pub fn as_slice(&self) -> (r: &[T])
        ensures
            r@ == self@,
    {
        self.items.as_slice()
    }

    /// Returns a mutable slice referencing the elements of this vec.
    pub fn as_mut_slice(&mut self) -> (r: &mut [T])
        requires
            old(self).wf(),
        ensures
            r@ == old(self)@,
            final(r)@.len() == r@.len(),
            final(self)@ == final(r)@,
            final(self).wf(),
            final(self).spec_capacity() == old(self).spec_capacity(),
            final(self).handle() == old(self).handle(),
            final(self).storage() == old(self).storage(),
    {
        let tail = tail_mut(&mut self.items, 0);
        proof {
            assert(old(self)@.subrange(0, old(self)@.len() as int) =~= old(self)@);
            assert forall|s: Seq<T>| #[trigger] (old(self)@.subrange(0, 0) + s) == s by {
                assert(old(self)@.subrange(0, 0) + s =~= s);
            }
        }
        tail
    }
}

impl<T: Copy, S: Storage> Vec<T, S> {
    /// Appends the elements of a slice to the end of the vec and returns
    /// the part of the vec that now holds them.
    ///
    /// Room for all of them is reserved first; where that fails the vec is
    /// unchanged.
    pub fn extend_from_slice(&mut self, values: &[T]) -> (r: Result<&mut [T], StorageAllocError>)
        requires
            old(self).wf(),
        ensures
            values@.len() <= usize::MAX,
            r is Ok <==> old(self).reserve_spec(values@.len() as usize) is Some,
            match r {
                Ok(added) => {
                    &&& added@ == values@
                    &&& final(added)@.len() == values@.len()
                    &&& final(self)@ == old(self)@ + final(added)@
                    &&& final(self).wf()
                    &&& old(self).reserve_spec(values@.len() as usize) == Some(
                        (final(self).storage(), final(self).handle(), final(self).spec_capacity()),
                    )
                },
                Err(_) => *final(self) == *old(self),
            },
    {
        let index: usize = self.items.len();
        let length: usize = values.len();
        self.reserve(length)?;
        let mut i: usize = 0;
        while i < length
            invariant
                i <= length,
                length == values@.len(),
                index == old(self)@.len(),
                index + length <= self.capacity,
                self.items@ == old(self)@ + values@.subrange(0, i as int),
                self.wf(),
                old(self).reserve_spec(length) == Some((self.storage, self.handle, self.capacity)),
            decreases length - i,
        {
            self.items.push(values[i]);
            proof {
                assert(values@.subrange(0, i as int).push(values@[i as int]) =~= values@.subrange(
                    0,
                    i + 1,
                ));
                assert((old(self)@ + values@.subrange(0, i as int)).push(values@[i as int]) =~= old(
                    self,
                )@ + values@.subrange(0, i + 1));
            }
            i += 1;
        }
        proof {
            assert(values@.subrange(0, length as int) =~= values@);
            assert(self.items@.subrange(index as int, self.items@.len() as int) =~= values@);
            assert(self.items@.subrange(0, index as int) =~= old(self)@);
        }
        Ok(tail_mut(&mut self.items, index))
    }
}

impl<T, S: Storage + Default> Vec<T, S> {
    /// [`Vec::new_in`] with the default value of the storage.
    ///
    /// This is the same as `with_capacity(0)`.
    pub fn new() -> (r: Result<Self, StorageAllocError>)
        requires
            forall|storage: S| call_ensures(S::default, (), storage) ==> storage.wf(),
        ensures
            exists|storage: S| call_ensures(S::default, (), storage) && Self::made(0, storage, r),
    {
        Self::new_in(S::default())
    }

    /// [`Vec::with_capacity_in`] with the default value of the storage.
    pub fn with_capacity(capacity: usize) -> (r: Result<Self, StorageAllocError>)
        requires
            forall|storage: S| call_ensures(S::default, (), storage) ==> storage.wf(),
        ensures
            exists|storage: S|
                call_ensures(S::default, (), storage) && Self::made(capacity, storage, r),
    {
        Self::with_capacity_in(capacity, S::default())
    }
}

impl<T, S: Storage> core::ops::Deref for Vec<T, S> {
    type Target = [T];

    fn deref(&self) -> (r: &[T])
        ensures
            r@ == self@,
    {
        self.as_slice()
    }
}

/// Lends the elements of `items` from `from` on.
///
/// This is `IndexMut` of std's `Vec` by a range that is open at its end. The
/// slice it lends starts out as those elements, and what the borrower leaves
/// in it takes their place. That a slice cannot change its length while it is
/// lent is stated here and not proved.
#[verifier::external_body]
fn tail_mut<T>(items: &mut std::vec::Vec<T>, from: usize) -> (tail: &mut [T])
    requires
        from <= old(items)@.len(),
    ensures
        tail@ == old(items)@.subrange(from as int, old(items)@.len() as int),
        final(tail)@.len() == tail@.len(),
        final(items)@ == old(items)@.subrange(0, from as int) + final(tail)@,
{
    &mut items[from..]
}

/// Destroys a vec: drops every element, then gives the allocation back to
/// the storage, which is returned.
pub fn drop<T, S: Storage>(v: Vec<T, S>) -> (storage: S)
    requires
        v.wf(),
    ensures
        storage.wf(),
        storage == v.storage().deallocated(
            Layout::spec_array::<T>(v.spec_capacity() as nat),
            v.handle(),
        ),
        S::multiple() ==> keeps_handles(&v.storage(), &storage, Some(v.handle())),
{
    let Vec { handle, capacity, storage, items } = v;
    let mut storage = storage;
    let _ = items;
    proof {
        lemma_array_fits::<T>(capacity as nat, storage.usable_size(handle));
    }
    match Layout::array::<T>(capacity) {
        Some(layout) => {
            storage.deallocate(layout, handle);
        },
        None => {},
    }
    storage
}

/// The elements after each of `values` has been pushed, first to last.
pub open spec fn pushed<T>(elements: Seq<T>, values: Seq<T>) -> Seq<T>
    decreases values.len(),
{
    if values.len() == 0 {
        elements
    } else {
        pushed(elements.push(values.first()), values.drop_first())
    }
}

/// The elements after `n` of them have been popped.
pub open spec fn popped<T>(elements: Seq<T>, n: nat) -> Seq<T>
    decreases n,
{
    if n == 0 || elements.len() == 0 {
        elements
    } else {
        popped(elements.drop_last(), (n - 1) as nat)
    }
}

/// Pushing values and popping as many again leaves the elements that were
/// there before: a vec that was empty is empty again. Its capacity after the
/// pops is what it was after the pushes, as no pop changes it.
pub proof fn lemma_push_pop<T>(elements: Seq<T>, values: Seq<T>)
    ensures
        pushed(elements, values).len() == elements.len() + values.len(),
        popped(pushed(elements, values), values.len()) == elements,
    decreases values.len(),
{
    if values.len() > 0 {
        let next = elements.push(values.first());
        lemma_push_pop(next, values.drop_first());
        lemma_popped_split(pushed(elements, values), (values.len() - 1) as nat, 1);
        assert(popped(next, 1) == popped(next.drop_last(), 0));
        assert(next.drop_last() =~= elements);
    }
}

/// Popping `m` and then `n` elements is popping `m + n` of them.
pub proof fn lemma_popped_split<T>(elements: Seq<T>, m: nat, n: nat)
    ensures
        popped(elements, m + n) == popped(popped(elements, m), n),
    decreases m,
{
    if m == 0 {
    } else if elements.len() == 0 {
        assert(popped(elements, n) == elements) by {
            if n > 0 {
            }
        }
    } else {
        lemma_popped_split(elements.drop_last(), (m - 1) as nat, n);
    }
}

/// Replacing what was inserted is inserting the replacement.
pub proof fn lemma_insert_update<T>(s: Seq<T>, index: int, value: T)
    requires
        0 <= index <= s.len(),
    ensures
        forall|other: T| #[trigger]
            s.insert(index, value).update(index, other) == s.insert(index, other),
{
    assert forall|other: T| #[trigger]
        s.insert(index, value).update(index, other) == s.insert(index, other) by {
        assert(s.insert(index, value).update(index, other) =~= s.insert(index, other));
    }
}

/// The error returned by [`Vec::push`].
#[derive(Debug, PartialEq, Eq)]
pub struct PushError<T> {
    /// The value that was attempted to be pushed.
    pub value: T,
    /// The allocation error.
    pub alloc_error: StorageAllocError,
}

impl<T> From<PushError<T>> for StorageAllocError {
    fn from(error: PushError<T>) -> (r: Self) {
        error.alloc_error
    }
}

impl<T> vstd::std_specs::convert::FromSpecImpl<PushError<T>> for StorageAllocError {
    open spec fn obeys_from_spec() -> bool {
        true
    }

    open spec fn from_spec(error: PushError<T>) -> Self {
        error.alloc_error
    }
}

/// The error returned by [`Vec::insert`].
#[derive(Debug, PartialEq, Eq)]
pub struct InsertError<T> {
    /// The value that was attempted to be inserted.
    pub value: T,
    /// `None` if the index to insert at was out of range, otherwise the
    /// allocation error.
    pub alloc_error: Option<StorageAllocError>,
}

impl<T> From<InsertError<T>> for StorageAllocError {
    fn from(error: InsertError<T>) -> (r: Self) {
        StorageAllocError
    }
}

impl<T> vstd::std_specs::convert::FromSpecImpl<InsertError<T>> for StorageAllocError {
    open spec fn obeys_from_spec() -> bool {
        true
    }

    open spec fn from_spec(error: InsertError<T>) -> Self {
        StorageAllocError
    }
}

} // verus!
