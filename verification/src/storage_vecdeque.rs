//! A double-ended queue over a storage.

use vstd::prelude::*;
use vstd::layout::{align_of, size_of};
use crate::error::StorageAllocError;
use crate::global_storage::Global;
use crate::layout::{
    array_fits,
    array_size,
    elements_in,
    lemma_array_fits,
    lemma_elements_in,
    sized,
    Layout,
};
use crate::storage::{keeps_handles, Storage};
use crate::storage_vec::{capacity_in, lemma_array_size_ordered, PushError};

verus! {

/// The place in a ring of `capacity` places, the first element of which lies
/// at `head`, where the element `k` places behind the first lies: `head + k`,
/// wrapped round at `capacity`.
pub open spec fn physical(head: int, capacity: int, k: int) -> int {
    if head + k < capacity {
        head + k
    } else {
        head + k - capacity
    }
}

/// Whether the place `p` of a ring holds one of its `length` elements.
pub open spec fn occupied(head: int, length: int, capacity: int, p: int) -> bool {
    if head + length <= capacity {
        head <= p < head + length
    } else {
        head <= p < capacity || 0 <= p < head + length - capacity
    }
}

/// Whether `cells` are the places of a ring: there are no more of them than
/// the capacity, every place that holds an element is among them, and a
/// place is taken exactly if it holds an element.
pub open spec fn ring_wf<T>(cells: Seq<Option<T>>, head: int, length: int, capacity: int) -> bool {
    &&& 0 <= length <= capacity
    &&& 0 <= head
    &&& head == 0 || head < capacity
    &&& cells.len() <= capacity
    &&& forall|p: int|
        0 <= p < capacity && #[trigger] occupied(head, length, capacity, p) ==> p < cells.len()
    &&& forall|p: int|
        0 <= p < cells.len() ==> ((#[trigger] cells[p]) is Some <==> occupied(
            head,
            length,
            capacity,
            p,
        ))
}

/// The elements of a ring, front to back.
pub open spec fn ring_view<T>(cells: Seq<Option<T>>, head: int, length: int, capacity: int) -> Seq<
    T,
> {
    Seq::new(length as nat, |k: int| cells[physical(head, capacity, k)].unwrap())
}

/// Every element of a ring lies in a place that holds an element, and no
/// two of them in the same.
pub proof fn lemma_physical(head: int, length: int, capacity: int)
    requires
        0 <= length <= capacity,
        0 <= head,
        head == 0 || head < capacity,
    ensures
        forall|k: int|
            0 <= k < length ==> 0 <= #[trigger] physical(head, capacity, k) < capacity && occupied(
                head,
                length,
                capacity,
                physical(head, capacity, k),
            ),
        forall|j: int, k: int|
            0 <= j < k < capacity ==> #[trigger] physical(head, capacity, j) != #[trigger] physical(
                head,
                capacity,
                k,
            ),
        length < capacity ==> !occupied(head, length, capacity, physical(head, capacity, length)),
{
}

/// A double-ended queue, held in a ring.
///
/// The elements lie in one allocation of the storage. The first lies at the
/// place `head`; the others follow it and wrap round to the place 0 where
/// they reach the end of the allocation.
pub struct VecDeque<T, S: Storage = Global> {
    handle: S::Handle,
    head: usize,
    length: usize,
    capacity: usize,
    storage: S,
    cells: std::vec::Vec<Option<T>>,
}

impl<T, S: Storage> View for VecDeque<T, S> {
    type V = Seq<T>;

    /// The elements, front to back.
    closed spec fn view(&self) -> Seq<T> {
        ring_view(self.cells@, self.head as int, self.length as int, self.capacity as int)
    }
}

impl<T, S: Storage> VecDeque<T, S> {
    /// The place of the first element.
    pub closed spec fn head(&self) -> usize {
        self.head
    }

    /// The number of elements.
    pub closed spec fn spec_len(&self) -> usize {
        self.length
    }

    /// The number of elements the allocation has room for.
    pub closed spec fn spec_capacity(&self) -> usize {
        self.capacity
    }

    /// The storage the elements are allocated in.
    pub closed spec fn storage(&self) -> S {
        self.storage
    }

    /// The handle of the allocation the elements lie in.
    pub closed spec fn handle(&self) -> S::Handle {
        self.handle
    }

    /// The places of the ring, each empty or holding an element.
    pub closed spec fn cells(&self) -> Seq<Option<T>> {
        self.cells@
    }

    /// The elements are what the places hold, and as many as the length.
    pub broadcast proof fn lemma_view(&self)
        ensures
            #[trigger] self@ == ring_view(
                self.cells(),
                self.head() as int,
                self.spec_len() as int,
                self.spec_capacity() as int,
            ),
            self@.len() == self.spec_len(),
    {
    }

    /// The invariant: the handle names a live allocation of the storage,
    /// aligned for `T` and with room for `capacity` elements, and the
    /// places are those of a ring.
    pub open spec fn wf(&self) -> bool {
        &&& sized::<T>()
        &&& self.storage().wf()
        &&& self.storage().is_valid(self.handle())
        &&& self.storage().alignment(self.handle()) == align_of::<T>()
        &&& array_size::<T>(self.spec_capacity() as nat) <= self.storage().usable_size(
            self.handle(),
        ) <= isize::MAX
        &&& ring_wf(
            self.cells(),
            self.head() as int,
            self.spec_len() as int,
            self.spec_capacity() as int,
        )
    }

    /// Whether the elements lie in one run, which does not wrap round the
    /// end of the allocation.
    pub open spec fn spec_is_contiguous(&self) -> bool {
        self.head() <= self.spec_capacity() - self.spec_len()
    }

    /// What constructing a deque with room for `capacity` elements in
    /// `storage` comes to: it succeeds exactly where that many elements have
    /// a layout and the storage can allocate it, and the deque is then
    /// empty, with the handle the storage issued and as much capacity as
    /// fits into the bytes the storage reported.
    pub open spec fn made(capacity: usize, storage: S, r: Result<Self, StorageAllocError>) -> bool {
        let issued = storage.allocate_spec(Layout::spec_array::<T>(capacity as nat));
        &&& r is Ok <==> array_fits::<T>(capacity as nat) && issued is Some
        &&& r matches Ok(v) ==> {
            &&& v.wf()
            &&& v@ == Seq::<T>::empty()
            &&& v.head() == 0
            &&& issued == Some((v.handle(), issued.unwrap().1))
            &&& v.storage() == storage.allocated(Layout::spec_array::<T>(capacity as nat))
            &&& v.spec_capacity() == elements_in(issued.unwrap().1 as nat, size_of::<T>())
            &&& v.spec_capacity() >= capacity
        }
    }

    /// Constructs a new deque allocated in `storage`.
    ///
    /// This is the same as `with_capacity_in(0, storage)`.
    pub fn new_in(storage: S) -> (r: Result<Self, StorageAllocError>)
        requires
            storage.wf(),
        ensures
            Self::made(0, storage, r),
    {
        Self::with_capacity_in(0, storage)
    }

    /// Constructs a deque with room for at least `capacity` elements
    /// allocated in `storage`.
    ///
    /// The capacity of the result may be greater than `capacity`, because
    /// the storage may provide more room than was asked for. It fails where
    /// that many elements have no layout, or where the storage does.
    pub fn with_capacity_in(capacity: usize, storage: S) -> (r: Result<Self, StorageAllocError>)
        requires
            storage.wf(),
        ensures
            Self::made(capacity, storage, r),
    {
        let mut storage = storage;
        let layout = match Layout::array::<T>(capacity) {
            Some(layout) => layout,
            None => {
                return Err(StorageAllocError);
            },
        };
        let (handle, capacity_in_bytes) = storage.allocate(layout)?;
        proof {
            lemma_elements_in(capacity_in_bytes as nat, size_of::<T>());
            assert(capacity as nat * size_of::<T>() <= capacity_in_bytes);
        }
        let deque = Self {
            handle,
            head: 0,
            length: 0,
            capacity: capacity_in::<T>(capacity_in_bytes),
            storage,
            cells: std::vec::Vec::new(),
        };
        proof {
            assert(deque@ =~= Seq::<T>::empty());
        }
        Ok(deque)
    }

    /// Returns the total number of elements that this deque can hold before
    /// it reallocates.
    #[verifier::when_used_as_spec(spec_capacity)]
    pub fn capacity(&self) -> (r: usize)
        ensures
            r == self.spec_capacity(),
    {
        self.capacity
    }

    /// Returns the number of elements in this deque.
    #[verifier::when_used_as_spec(spec_len)]
    pub fn len(&self) -> (r: usize)
        ensures
            r == self.spec_len(),
            r == self@.len(),
    {
        self.length
    }

    /// Returns whether this deque is empty.
    pub fn is_empty(&self) -> (r: bool)
        ensures
            r == (self@.len() == 0),
    {
        self.length == 0
    }

    /// Returns whether the elements lie in one run.
    #[verifier::when_used_as_spec(spec_is_contiguous)]
    pub fn is_contiguous(&self) -> (r: bool)
        requires
            self.wf(),
        ensures
            r == self.spec_is_contiguous(),
    {
        self.head <= self.capacity - self.length
    }

    /// What is left of a deque once its allocation has room for `n`
    /// elements: the handle and the capacity, or `None` where the storage
    /// cannot grow the allocation so far.
    pub open spec fn grow_to_spec(&self, n: nat) -> Option<(S, S::Handle, usize)> {
        if array_fits::<T>(n) {
            match self.storage().grow_spec(
                Layout::spec_array::<T>(self.spec_capacity() as nat),
                Layout::spec_array::<T>(n),
                self.handle(),
            ) {
                Some((handle, usable)) => Some(
                    (
                        self.storage().grown(
                            Layout::spec_array::<T>(self.spec_capacity() as nat),
                            Layout::spec_array::<T>(n),
                            self.handle(),
                        ),
                        handle,
                        elements_in(usable as nat, size_of::<T>()) as usize,
                    ),
                ),
                None => None,
            }
        } else {
            None
        }
    }

    /// The handle and capacity after `reserve_exact(extra)`, or `None`
    /// where it fails: nothing changes where there is room already, and the
    /// allocation grows to exactly the elements and `extra` more where
    /// there is not.
    pub open spec fn reserve_exact_spec(&self, extra: usize) -> Option<(S, S::Handle, usize)> {
        if self.spec_len() + extra > usize::MAX {
            None
        } else if self.spec_len() + extra <= self.spec_capacity() {
            Some((self.storage(), self.handle(), self.spec_capacity()))
        } else {
            self.grow_to_spec((self.spec_len() + extra) as nat)
        }
    }

    /// Twice the capacity, and at least one; `None` where that cannot be
    /// counted.
    pub open spec fn doubled_capacity(&self) -> Option<usize> {
        if self.spec_capacity() * 2 > usize::MAX {
            None
        } else if self.spec_capacity() == 0 {
            Some(1)
        } else {
            Some((self.spec_capacity() * 2) as usize)
        }
    }

    /// The handle and capacity after `reserve(extra)`, or `None` where it
    /// fails: nothing changes where there is room already; else the
    /// capacity doubles, where that is enough and the storage can do it;
    /// else the allocation grows to exactly the elements and `extra` more.
    pub open spec fn reserve_spec(&self, extra: usize) -> Option<(S, S::Handle, usize)> {
        if self.spec_len() + extra > usize::MAX {
            None
        } else if self.spec_len() + extra <= self.spec_capacity() {
            Some((self.storage(), self.handle(), self.spec_capacity()))
        } else {
            let needed = (self.spec_len() + extra) as nat;
            if self.doubled_capacity() is Some && self.doubled_capacity().unwrap() >= needed
                && self.grow_to_spec(self.doubled_capacity().unwrap() as nat) is Some {
                self.grow_to_spec(self.doubled_capacity().unwrap() as nat)
            } else {
                self.grow_to_spec(needed)
            }
        }
    }

    /// The place of the first element once the capacity is `capacity`: where
    /// it was if the elements lie in one run, and as far from the end as it
    /// was if they wrap round.
    pub open spec fn rehomed_head(&self, capacity: usize) -> int {
        if self.spec_is_contiguous() {
            self.head() as int
        } else {
            self.head() + (capacity - self.spec_capacity())
        }
    }

    /// Grows the allocation to have room for `new_capacity` elements and
    /// puts the ring in order again.
    fn grow_to(&mut self, new_capacity: usize) -> (r: Result<(), StorageAllocError>)
        requires
            old(self).wf(),
            new_capacity > old(self).spec_capacity(),
        ensures
            r is Ok <==> old(self).grow_to_spec(new_capacity as nat) is Some,
            r is Ok ==> {
                &&& final(self).wf()
                &&& final(self)@ == old(self)@
                &&& final(self).spec_len() == old(self).spec_len()
                &&& old(self).grow_to_spec(new_capacity as nat) == Some(
                    (final(self).storage(), final(self).handle(), final(self).spec_capacity()),
                )
                &&& final(self).spec_capacity() >= new_capacity
                &&& final(self).head() == old(self).rehomed_head(final(self).spec_capacity())
            },
            r is Err ==> *final(self) == *old(self),
    {
        let was_contiguous = self.is_contiguous();
        let old_capacity: usize = self.capacity;
        let new_layout = match Layout::array::<T>(new_capacity) {
            Some(layout) => layout,
            None => {
                return Err(StorageAllocError);
            },
        };
        proof {
            lemma_array_fits::<T>(
                self.capacity as nat,
                self.storage.usable_size(self.handle),
            );
            lemma_array_size_ordered::<T>(self.capacity as nat, new_capacity as nat);
        }
        let old_layout = match Layout::array::<T>(self.capacity) {
            Some(layout) => layout,
            None => {
                return Err(StorageAllocError);
            },
        };
        let (new_handle, capacity_in_bytes) = self.storage.grow(
            old_layout,
            new_layout,
            self.handle,
        )?;
        proof {
            lemma_elements_in(capacity_in_bytes as nat, size_of::<T>());
            assert(new_capacity as nat * size_of::<T>() <= capacity_in_bytes);
        }
        self.handle = new_handle;
        self.capacity = capacity_in::<T>(capacity_in_bytes);
        if !was_contiguous {
            self.head = rehome(&mut self.cells, self.head, self.length, old_capacity, self.capacity);
        } else {
            proof {
                lemma_more_room(
                    self.cells@,
                    self.head as int,
                    self.length as int,
                    old_capacity as int,
                    self.capacity as int,
                );
            }
        }
        Ok(())
    }

    /// Makes room for at least `extra_capacity` more elements, without
    /// using a growth factor.
    ///
    /// Where the capacity does not suffice, the allocation grows to exactly
    /// the elements and `extra_capacity` more. If the elements wrapped
    /// round the end of the old allocation, the run that ended there is
    /// moved to the end of the new one, so that the elements keep their
    /// order. On failure nothing has changed.
    pub fn reserve_exact(&mut self, extra_capacity: usize) -> (r: Result<(), StorageAllocError>)
        requires
            old(self).wf(),
        ensures
            r is Ok <==> old(self).reserve_exact_spec(extra_capacity) is Some,
            r is Ok ==> {
                &&& final(self).wf()
                &&& final(self)@ == old(self)@
                &&& final(self).spec_len() == old(self).spec_len()
                &&& old(self).reserve_exact_spec(extra_capacity) == Some(
                    (final(self).storage(), final(self).handle(), final(self).spec_capacity()),
                )
                &&& final(self).spec_capacity() >= old(self).spec_len() + extra_capacity
                &&& final(self).head() == old(self).rehomed_head(final(self).spec_capacity())
            },
            r is Err ==> *final(self) == *old(self),
    {
        let new_capacity = match self.length.checked_add(extra_capacity) {
            Some(new_capacity) => new_capacity,
            None => {
                return Err(StorageAllocError);
            },
        };
        if new_capacity <= self.capacity {
            return Ok(());
        }
        self.grow_to(new_capacity)
    }

    /// Makes room for at least `extra_capacity` more elements, using a
    /// growth factor.
    ///
    /// Where the capacity does not suffice, it is doubled if that is enough
    /// and the storage can do it; otherwise the allocation grows to exactly
    /// what is needed. On failure nothing has changed.
    pub fn reserve(&mut self, extra_capacity: usize) -> (r: Result<(), StorageAllocError>)
        requires
            old(self).wf(),
        ensures
            r is Ok <==> old(self).reserve_spec(extra_capacity) is Some,
            r is Ok ==> {
                &&& final(self).wf()
                &&& final(self)@ == old(self)@
                &&& final(self).spec_len() == old(self).spec_len()
                &&& old(self).reserve_spec(extra_capacity) == Some(
                    (final(self).storage(), final(self).handle(), final(self).spec_capacity()),
                )
                &&& final(self).spec_capacity() >= old(self).spec_len() + extra_capacity
                &&& final(self).head() == old(self).rehomed_head(final(self).spec_capacity())
            },
            r is Err ==> *final(self) == *old(self),
    {
        let new_capacity = match self.length.checked_add(extra_capacity) {
            Some(new_capacity) => new_capacity,
            None => {
                return Err(StorageAllocError);
            },
        };
        if new_capacity <= self.capacity {
            return Ok(());
        }
        if let Some(twice) = self.capacity.checked_mul(2) {
            let doubled_capacity: usize = if twice < 1 {
                1
            } else {
                twice
            };
            if doubled_capacity >= new_capacity {
                if let Ok(()) = self.grow_to(doubled_capacity) {
                    return Ok(());
                }
            }
        }
        self.grow_to(new_capacity)
    }

    /// Adds a value to the end of the deque and returns a reference to it.
    ///
    /// Room for it is reserved first. Where that fails the deque is
    /// unchanged and the value comes back inside the error. The value is
    /// then written behind the last element, at the place 0 if that one
    /// lies at the end of the allocation.
    pub fn push_back(&mut self, value: T) -> (r: Result<&mut T, PushError<T>>)
        requires
            old(self).wf(),
        ensures
            r is Ok <==> old(self).reserve_spec(1) is Some,
            match r {
                Ok(slot) => {
                    &&& *slot == value
                    &&& final(self)@ == old(self)@.push(*final(slot))
                    &&& final(self).wf()
                    &&& old(self).reserve_spec(1) == Some(
                        (final(self).storage(), final(self).handle(), final(self).spec_capacity()),
                    )
                    &&& final(self).head() == old(self).rehomed_head(final(self).spec_capacity())
                },
                Err(error) => {
                    &&& error.value == value
                    &&& error.alloc_error == StorageAllocError
                    &&& *final(self) == *old(self)
                },
            },
    {
        match self.reserve(1) {
            Ok(()) => {},
            Err(alloc_error) => {
                return Err(PushError { value, alloc_error });
            },
        }
        let gap: usize = self.capacity - self.head;
        let place: usize = if self.length < gap {
            self.head + self.length
        } else {
            self.length - gap
        };
        let ghost before = self.cells@;
        fill(&mut self.cells, place + 1);
        proof {
            lemma_write_back(
                self.cells@,
                self.head as int,
                self.length as int,
                self.capacity as int,
                before,
            );
        }
        assert(place == physical(self.head as int, self.capacity as int, self.length as int));
        assert(ring_view(before, self.head as int, self.length as int, self.capacity as int)
            == old(self)@);
        self.length += 1;
        Ok(self.cells[place].insert(value))
    }

    /// Adds a value to the start of the deque and returns a reference to
    /// it.
    ///
    /// Room for it is reserved first. Where that fails the deque is
    /// unchanged and the value comes back inside the error. The value is
    /// then written before the first element, at the end of the allocation
    /// if that one lies at the place 0.
    pub fn push_front(&mut self, value: T) -> (r: Result<&mut T, PushError<T>>)
        requires
            old(self).wf(),
        ensures
            r is Ok <==> old(self).reserve_spec(1) is Some,
            match r {
                Ok(slot) => {
                    &&& *slot == value
                    &&& final(self)@ == seq![*final(slot)] + old(self)@
                    &&& final(self).wf()
                    &&& old(self).reserve_spec(1) == Some(
                        (final(self).storage(), final(self).handle(), final(self).spec_capacity()),
                    )
                    &&& final(self).head() == physical(
                        old(self).rehomed_head(final(self).spec_capacity()),
                        final(self).spec_capacity() as int,
                        final(self).spec_capacity() - 1,
                    )
                },
                Err(error) => {
                    &&& error.value == value
                    &&& error.alloc_error == StorageAllocError
                    &&& *final(self) == *old(self)
                },
            },
    {
        match self.reserve(1) {
            Ok(()) => {},
            Err(alloc_error) => {
                return Err(PushError { value, alloc_error });
            },
        }
        let place: usize = if self.head == 0 {
            self.capacity - 1
        } else {
            self.head - 1
        };
        let ghost before = self.cells@;
        fill(&mut self.cells, place + 1);
        proof {
            lemma_write_front(
                self.cells@,
                self.head as int,
                self.length as int,
                self.capacity as int,
                before,
            );
        }
        assert(place == physical(self.head as int, self.capacity as int, self.capacity - 1));
        assert(ring_view(before, self.head as int, self.length as int, self.capacity as int) == old(self)@);
        self.head = place;
        self.length += 1;
        Ok(self.cells[place].insert(value))
    }

    /// Rearranges the places so that all the elements lie in one run that
    /// starts at the place 0.
    ///
    /// Where they do already, nothing is moved. Otherwise, whether they
    /// wrap round the end of the allocation or lie in one run further up,
    /// every element is moved once, front to back. Returns the run, as
    /// references to the elements front to back; afterwards
    /// [`VecDeque::as_slices`] returns all the elements in the first run.
    pub fn make_contiguous(&mut self) -> (r: std::vec::Vec<&T>)
        requires
            old(self).wf(),
        ensures
            r@.len() == old(self)@.len(),
            forall|i: int| 0 <= i < r@.len() ==> *(#[trigger] r@[i]) == old(self)@[i],
            final(self).wf(),
            final(self)@ == old(self)@,
            final(self).spec_is_contiguous(),
            final(self).spec_len() == old(self).spec_len(),
            final(self).spec_capacity() == old(self).spec_capacity(),
            final(self).handle() == old(self).handle(),
            final(self).storage() == old(self).storage(),
            final(self).head() == 0,
            final(self).cells() == if old(self).head() == 0 {
                old(self).cells()
            } else {
                old(self)@.map_values(|value: T| Some(value))
            },
    {
        if self.head == 0 {
            return self.as_slices().0;
        }
        let gap: usize = self.capacity - self.head;
        let mut packed: std::vec::Vec<Option<T>> = std::vec::Vec::new();
        let mut k: usize = 0;
        proof {
            lemma_physical(self.head as int, self.length as int, self.capacity as int);
        }
        while k < self.length
            invariant
                k <= self.length,
                gap == self.capacity - self.head,
                self.head == old(self).head,
                self.length == old(self).length,
                self.capacity == old(self).capacity,
                self.handle == old(self).handle,
                self.storage == old(self).storage,
                ring_wf(
                    old(self).cells@,
                    self.head as int,
                    self.length as int,
                    self.capacity as int,
                ),
                self.cells@.len() == old(self).cells@.len(),
                packed@.len() == k,
                forall|j: int| 0 <= j < k ==> #[trigger] packed@[j] == Some(old(self)@[j]),
                forall|j: int|
                    k <= j < self.length ==> self.cells@[#[trigger] physical(
                        self.head as int,
                        self.capacity as int,
                        j,
                    )] == old(self).cells@[physical(self.head as int, self.capacity as int, j)],
                forall|j: int, l: int|
                    0 <= j < l < self.capacity ==> #[trigger] physical(
                        self.head as int,
                        self.capacity as int,
                        j,
                    ) != #[trigger] physical(self.head as int, self.capacity as int, l),
                forall|j: int|
                    0 <= j < self.length ==> 0 <= #[trigger] physical(
                        self.head as int,
                        self.capacity as int,
                        j,
                    ) < self.cells@.len() && old(self).cells@[physical(
                        self.head as int,
                        self.capacity as int,
                        j,
                    )] is Some,
            decreases self.length - k,
        {
            let place: usize = if k < gap {
                self.head + k
            } else {
                k - gap
            };
            assert(place == physical(self.head as int, self.capacity as int, k as int));
            let value = self.cells[place].take();
            packed.push(value);
            k += 1;
        }
        self.cells = packed;
        self.head = 0;
        proof {
            assert(self@ =~= old(self)@);
            assert(self.cells@ =~= old(self)@.map_values(|value: T| Some(value)));
        }
        self.as_slices().0
    }

    /// Returns the elements as two runs, front to back: the run that
    /// starts at the head and, if the elements wrap round the end of the
    /// allocation, the run that starts at the place 0.
    ///
    /// After [`VecDeque::make_contiguous`] all the elements are in the
    /// first run.
    pub fn as_slices(&self) -> (r: (std::vec::Vec<&T>, std::vec::Vec<&T>))
        requires
            self.wf(),
        ensures
            r.0@.len() == if self.spec_len() <= self.spec_capacity() - self.head() {
                self.spec_len() as int
            } else {
                self.spec_capacity() - self.head()
            },
            r.0@.len() + r.1@.len() == self@.len(),
            forall|i: int| 0 <= i < r.0@.len() ==> *(#[trigger] r.0@[i]) == self@[i],
            forall|i: int| 0 <= i < r.1@.len() ==> *(#[trigger] r.1@[i]) == self@[r.0@.len() + i],
    {
        let gap: usize = self.capacity - self.head;
        let first_length: usize = if self.length < gap {
            self.length
        } else {
            gap
        };
        proof {
            lemma_physical(self.head as int, self.length as int, self.capacity as int);
        }
        let mut first: std::vec::Vec<&T> = std::vec::Vec::new();
        let mut i: usize = 0;
        while i < first_length
            invariant
                self.wf(),
                i <= first_length <= self.length,
                first_length <= self.capacity - self.head,
                first@.len() == i,
                forall|k: int| 0 <= k < i ==> *(#[trigger] first@[k]) == self@[k],
            decreases first_length - i,
        {
            assert(self.head + i == physical(self.head as int, self.capacity as int, i as int));
            assert(occupied(
                self.head as int,
                self.length as int,
                self.capacity as int,
                self.head + i,
            ));
            match &self.cells[self.head + i] {
                Some(value) => {
                    first.push(value);
                },
                None => {},
            }
            i += 1;
        }
        let mut second: std::vec::Vec<&T> = std::vec::Vec::new();
        let mut j: usize = 0;
        while j < self.length - first_length
            invariant
                self.wf(),
                first_length <= self.length,
                first_length == if self.length <= self.capacity - self.head {
                    self.length as int
                } else {
                    self.capacity - self.head
                },
                j <= self.length - first_length,
                second@.len() == j,
                forall|k: int| 0 <= k < j ==> *(#[trigger] second@[k]) == self@[first_length + k],
            decreases self.length - first_length - j,
        {
            assert(j == physical(
                self.head as int,
                self.capacity as int,
                first_length + j as int,
            ));
            assert(occupied(self.head as int, self.length as int, self.capacity as int, j as int));
            match &self.cells[j] {
                Some(value) => {
                    second.push(value);
                },
                None => {},
            }
            j += 1;
        }
        (first, second)
    }

    /// Lends one of the elements mutably: the one `index` places behind the
    /// first, in whichever of the two runs it lies, or `None` if there are
    /// no more than `index` elements. The places hold the elements one by
    /// one and not as slices of values, so they are lent one at a time.
    pub fn as_mut_slices(&mut self, index: usize) -> (r: Option<&mut T>)
        requires
            old(self).wf(),
        ensures
            r is Some <==> index < old(self)@.len(),
            r matches Some(slot) ==> {
                &&& *slot == old(self)@[index as int]
                &&& final(self)@ == old(self)@.update(index as int, *final(slot))
            },
            r is None ==> *final(self) == *old(self),
            final(self).wf(),
            final(self).head() == old(self).head(),
            final(self).spec_len() == old(self).spec_len(),
            final(self).spec_capacity() == old(self).spec_capacity(),
            final(self).handle() == old(self).handle(),
            final(self).storage() == old(self).storage(),
    {
        if index >= self.length {
            return None;
        }
        let gap: usize = self.capacity - self.head;
        let place: usize = if index < gap {
            self.head + index
        } else {
            index - gap
        };
        proof {
            lemma_lend(
                self.cells@,
                self.head as int,
                self.length as int,
                self.capacity as int,
                index as int,
            );
        }
        self.cells[place].as_mut()
    }

    /// Reconstructs a deque from a storage, a handle, the place of the
    /// first element, the length, the capacity and the places.
    ///
    /// The opposite of [`VecDeque::into_raw_parts`]. The handle must name a
    /// live allocation of `storage` that is aligned for `T` and has room
    /// for `capacity` elements, and the places must be those of a ring of
    /// that capacity.
    pub fn from_raw_parts(
        storage: S,
        handle: S::Handle,
        head: usize,
        length: usize,
        capacity: usize,
        cells: std::vec::Vec<Option<T>>,
    ) -> (r: Self)
        requires
            storage.wf(),
            storage.is_valid(handle),
            storage.alignment(handle) == align_of::<T>(),
            array_size::<T>(capacity as nat) <= storage.usable_size(handle) <= isize::MAX,
            ring_wf(cells@, head as int, length as int, capacity as int),
        ensures
            r.wf(),
            r == Self::spec_from_raw_parts((storage, handle, head, length, capacity, cells)),
    {
        let _ = Layout::new::<T>();
        Self { handle, head, length, capacity, storage, cells }
    }

    /// The deque made of the given parts.
    pub closed spec fn spec_from_raw_parts(
        parts: (S, S::Handle, usize, usize, usize, std::vec::Vec<Option<T>>),
    ) -> Self {
        VecDeque {
            handle: parts.1,
            head: parts.2,
            length: parts.3,
            capacity: parts.4,
            storage: parts.0,
            cells: parts.5,
        }
    }

    /// The parts of the deque: the storage, the handle, the place of the
    /// first element, the length, the capacity and the places.
    pub closed spec fn spec_into_raw_parts(self) -> (
        S,
        S::Handle,
        usize,
        usize,
        usize,
        std::vec::Vec<Option<T>>,
    ) {
        (self.storage, self.handle, self.head, self.length, self.capacity, self.cells)
    }

    /// What the deque made of parts is in terms of the parts.
    pub broadcast proof fn lemma_from_raw_parts(
        parts: (S, S::Handle, usize, usize, usize, std::vec::Vec<Option<T>>),
    )
        ensures
            (#[trigger] Self::spec_from_raw_parts(parts)).storage() == parts.0,
            Self::spec_from_raw_parts(parts).handle() == parts.1,
            Self::spec_from_raw_parts(parts).head() == parts.2,
            Self::spec_from_raw_parts(parts).spec_len() == parts.3,
            Self::spec_from_raw_parts(parts).spec_capacity() == parts.4,
            Self::spec_from_raw_parts(parts).cells() == parts.5@,
            Self::spec_from_raw_parts(parts)@ == ring_view(
                parts.5@,
                parts.2 as int,
                parts.3 as int,
                parts.4 as int,
            ),
    {
    }

    /// Taking a deque apart and putting the parts together again gives the
    /// deque that was taken apart.
    pub proof fn lemma_raw_parts_round_trip(self)
        ensures
            Self::spec_from_raw_parts(self.spec_into_raw_parts()) == self,
    {
    }

    /// What the parts of a deque are in terms of the deque.
    pub broadcast proof fn lemma_raw_parts(self)
        ensures
            (#[trigger] self.spec_into_raw_parts()).0 == self.storage(),
            self.spec_into_raw_parts().1 == self.handle(),
            self.spec_into_raw_parts().2 == self.head(),
            self.spec_into_raw_parts().3 == self.spec_len(),
            self.spec_into_raw_parts().4 == self.spec_capacity(),
            self.spec_into_raw_parts().5@ == self.cells(),
    {
    }

    /// Splits the deque into its storage, its handle, the place of its
    /// first element, its length, its capacity and its places. Nothing is
    /// freed and no element is dropped.
    ///
    /// The opposite of [`VecDeque::from_raw_parts`].
    pub fn into_raw_parts(self) -> (r: (S, S::Handle, usize, usize, usize, std::vec::Vec<Option<T>>))
        ensures
            r == self.spec_into_raw_parts(),
    {
        (self.storage, self.handle, self.head, self.length, self.capacity, self.cells)
    }
}

impl<T, S: Storage + Default> VecDeque<T, S> {
    /// [`VecDeque::new_in`] with the default value of the storage.
    ///
    /// This is the same as `with_capacity(0)`.
    pub fn new() -> (r: Result<Self, StorageAllocError>)
        requires
            forall|storage: S| call_ensures(S::default, (), storage) ==> storage.wf(),
        ensures
            exists|storage: S| call_ensures(S::default, (), storage) && Self::made(0, storage, r),
    {
        Self::new_in(S::default())
    }

    /// [`VecDeque::with_capacity_in`] with the default value of the
    /// storage.
    pub fn with_capacity(capacity: usize) -> (r: Result<Self, StorageAllocError>)
        requires
            forall|storage: S| call_ensures(S::default, (), storage) ==> storage.wf(),
        ensures
            exists|storage: S|
                call_ensures(S::default, (), storage) && Self::made(capacity, storage, r),
    {
        Self::with_capacity_in(capacity, S::default())
    }
}

/// Destroys a deque: drops the elements of both runs, then gives the
/// allocation back to the storage, which is returned.
pub fn drop<T, S: Storage>(deque: VecDeque<T, S>) -> (storage: S)
    requires
        deque.wf(),
    ensures
        storage.wf(),
        storage == deque.storage().deallocated(
            Layout::spec_array::<T>(deque.spec_capacity() as nat),
            deque.handle(),
        ),
        S::multiple() ==> keeps_handles(&deque.storage(), &storage, Some(deque.handle())),
{
    let VecDeque { handle, head, length, capacity, storage, cells } = deque;
    let mut storage = storage;
    let _ = cells;
    proof {
        lemma_array_fits::<T>(capacity as nat, storage.usable_size(handle));
    }
    match Layout::array::<T>(capacity) {
        Some(layout) => {
            storage.deallocate(layout, handle);
        },
        None => {},
    }
    storage
}

/// Whatever takes the place of an element of a ring that is lent, the ring
/// is in order, and its elements are those there were with the one replaced.
pub proof fn lemma_lend<T>(cells: Seq<Option<T>>, head: int, length: int, capacity: int, index: int)
    requires
        ring_wf(cells, head, length, capacity),
        0 <= index < length,
    ensures
        0 <= physical(head, capacity, index) < cells.len(),
        cells[physical(head, capacity, index)] is Some,
        forall|value: T|
            {
                let lent = #[trigger] cells.update(physical(head, capacity, index), Some(value));
                &&& ring_wf(lent, head, length, capacity)
                &&& ring_view(lent, head, length, capacity) == ring_view(
                    cells,
                    head,
                    length,
                    capacity,
                ).update(index, value)
            },
{
    lemma_physical(head, length, capacity);
    let place = physical(head, capacity, index);
    assert(occupied(head, length, capacity, place));
    assert forall|value: T|
        {
            let lent = #[trigger] cells.update(place, Some(value));
            &&& ring_wf(lent, head, length, capacity)
            &&& ring_view(lent, head, length, capacity) == ring_view(
                cells,
                head,
                length,
                capacity,
            ).update(index, value)
        } by {
        let lent = cells.update(place, Some(value));
        assert(lent.len() == cells.len());
        assert forall|p: int| 0 <= p < lent.len() implies ((#[trigger] lent[p]) is Some
            <==> occupied(head, length, capacity, p)) by {
            if p != place {
                assert(cells[p] is Some <==> occupied(head, length, capacity, p));
            }
        }
        assert forall|k: int| 0 <= k < length && k != index implies lent[physical(
            head,
            capacity,
            k,
        )] == cells[physical(head, capacity, k)] by {
            if k < index {
                assert(physical(head, capacity, k) != physical(head, capacity, index));
            } else {
                assert(physical(head, capacity, index) != physical(head, capacity, k));
            }
        }
        assert(ring_view(lent, head, length, capacity) =~= ring_view(
            cells,
            head,
            length,
            capacity,
        ).update(index, value));
    }
}

/// A ring whose elements lie in one run is the same ring when it has more
/// room.
pub proof fn lemma_more_room<T>(
    cells: Seq<Option<T>>,
    head: int,
    length: int,
    old_capacity: int,
    new_capacity: int,
)
    requires
        ring_wf(cells, head, length, old_capacity),
        head + length <= old_capacity <= new_capacity,
    ensures
        ring_wf(cells, head, length, new_capacity),
        ring_view(cells, head, length, new_capacity) == ring_view(
            cells,
            head,
            length,
            old_capacity,
        ),
{
    assert forall|p: int|
        0 <= p < new_capacity && #[trigger] occupied(head, length, new_capacity, p) implies p
        < cells.len() by {
        assert(occupied(head, length, old_capacity, p));
    }
    assert forall|p: int| 0 <= p < cells.len() implies ((#[trigger] cells[p]) is Some
        <==> occupied(head, length, new_capacity, p)) by {
        assert(cells[p] is Some <==> occupied(head, length, old_capacity, p));
    }
    assert(ring_view(cells, head, length, new_capacity) =~= ring_view(
        cells,
        head,
        length,
        old_capacity,
    ));
}

/// Writing behind the last element of a ring that has room, into places
/// that were filled up with empty ones, appends to its elements.
pub proof fn lemma_write_back<T>(
    cells: Seq<Option<T>>,
    head: int,
    length: int,
    capacity: int,
    before: Seq<Option<T>>,
)
    requires
        ring_wf(before, head, length, capacity),
        length < capacity,
        before.len() <= cells.len() <= capacity,
        physical(head, capacity, length) < cells.len(),
        forall|p: int| 0 <= p < before.len() ==> #[trigger] cells[p] == before[p],
        forall|p: int| before.len() <= p < cells.len() ==> (#[trigger] cells[p]) is None,
    ensures
        forall|value: T|
            {
                let written = #[trigger] cells.update(
                    physical(head, capacity, length),
                    Some(value),
                );
                &&& ring_wf(written, head, length + 1, capacity)
                &&& ring_view(written, head, length + 1, capacity) == ring_view(
                    before,
                    head,
                    length,
                    capacity,
                ).push(value)
            },
{
    let place = physical(head, capacity, length);
    assert forall|value: T|
        {
            let written = #[trigger] cells.update(place, Some(value));
            &&& ring_wf(written, head, length + 1, capacity)
            &&& ring_view(written, head, length + 1, capacity) == ring_view(
                before,
                head,
                length,
                capacity,
            ).push(value)
        } by {
        let written = cells.update(place, Some(value));
        lemma_physical(head, length, capacity);
        lemma_physical(head, length + 1, capacity);
        assert(written.len() == cells.len());
        assert forall|p: int| 0 <= p < written.len() implies ((#[trigger] written[p]) is Some
            <==> occupied(head, length + 1, capacity, p)) by {
            if p != place {
                if p < before.len() {
                    assert(cells[p] == before[p]);
                    assert(before[p] is Some <==> occupied(head, length, capacity, p));
                } else {
                    assert(cells[p] is None);
                    assert(!occupied(head, length, capacity, p));
                }
            }
        }
        assert forall|p: int|
            0 <= p < capacity && #[trigger] occupied(head, length + 1, capacity, p) implies p
            < written.len() by {
            if p != place {
                assert(occupied(head, length, capacity, p));
            }
        }
        assert(ring_view(written, head, length + 1, capacity) =~= ring_view(
            before,
            head,
            length,
            capacity,
        ).push(value));
    }
}

/// Writing before the first element of a ring that has room, into places
/// that were filled up with empty ones, prepends to its elements.
pub proof fn lemma_write_front<T>(
    cells: Seq<Option<T>>,
    head: int,
    length: int,
    capacity: int,
    before: Seq<Option<T>>,
)
    requires
        ring_wf(before, head, length, capacity),
        length < capacity,
        before.len() <= cells.len() <= capacity,
        physical(head, capacity, capacity - 1) < cells.len(),
        forall|p: int| 0 <= p < before.len() ==> #[trigger] cells[p] == before[p],
        forall|p: int| before.len() <= p < cells.len() ==> (#[trigger] cells[p]) is None,
    ensures
        forall|value: T|
            {
                let written = #[trigger] cells.update(
                    physical(head, capacity, capacity - 1),
                    Some(value),
                );
                &&& ring_wf(written, physical(head, capacity, capacity - 1), length + 1, capacity)
                &&& ring_view(
                    written,
                    physical(head, capacity, capacity - 1),
                    length + 1,
                    capacity,
                ) == seq![value] + ring_view(before, head, length, capacity)
            },
{
    let place = physical(head, capacity, capacity - 1);
    assert forall|value: T|
        {
            let written = #[trigger] cells.update(place, Some(value));
            &&& ring_wf(written, place, length + 1, capacity)
            &&& ring_view(written, place, length + 1, capacity) == seq![value] + ring_view(
                before,
                head,
                length,
                capacity,
            )
        } by {
        let written = cells.update(place, Some(value));
        lemma_physical(head, length, capacity);
        lemma_physical(place, length + 1, capacity);
        assert(written.len() == cells.len());
        assert forall|p: int| 0 <= p < written.len() implies ((#[trigger] written[p]) is Some
            <==> occupied(place, length + 1, capacity, p)) by {
            if p != place {
                if p < before.len() {
                    assert(cells[p] == before[p]);
                    assert(before[p] is Some <==> occupied(head, length, capacity, p));
                } else {
                    assert(cells[p] is None);
                    assert(!occupied(head, length, capacity, p));
                }
            }
        }
        assert forall|p: int|
            0 <= p < capacity && #[trigger] occupied(place, length + 1, capacity, p) implies p
            < written.len() by {
            if p != place {
                assert(occupied(head, length, capacity, p));
            }
        }
        assert forall|k: int| 0 < k < length + 1 implies written[physical(place, capacity, k)]
            == before[physical(head, capacity, k - 1)] by {
            assert(physical(place, capacity, k) == physical(head, capacity, k - 1));
            assert(occupied(head, length, capacity, physical(head, capacity, k - 1)));
        }
        assert(ring_view(written, place, length + 1, capacity) =~= seq![value] + ring_view(
            before,
            head,
            length,
            capacity,
        ));
    }
}

/// Appends empty places to `cells` until there are `count` of them.
fn fill<T>(cells: &mut std::vec::Vec<Option<T>>, count: usize)
    ensures
        final(cells)@.len() == if old(cells)@.len() < count {
            count as nat
        } else {
            old(cells)@.len()
        },
        forall|p: int| 0 <= p < old(cells)@.len() ==> #[trigger] final(cells)@[p] == old(cells)@[p],
        forall|p: int|
            old(cells)@.len() <= p < final(cells)@.len() ==> (#[trigger] final(cells)@[p]) is None,
{
    while cells.len() < count
        invariant
            old(cells)@.len() <= cells@.len(),
            cells@.len() <= count || cells@.len() == old(cells)@.len(),
            forall|p: int| 0 <= p < old(cells)@.len() ==> #[trigger] cells@[p] == old(cells)@[p],
            forall|p: int| old(cells)@.len() <= p < cells@.len() ==> (#[trigger] cells@[p]) is None,
        decreases count - cells@.len(),
    {
        cells.push(None);
    }
}

/// Moves the run of elements that ends at the old end of a ring up to its
/// new end.
///
/// After an allocation has grown, a ring that wrapped round the old end has
/// its first run in the middle of the places. The run is moved to the end,
/// last element first, so that no element is overwritten before it has been
/// moved, and the head moves with it.
fn rehome<T>(
    cells: &mut std::vec::Vec<Option<T>>,
    head: usize,
    length: usize,
    old_capacity: usize,
    new_capacity: usize,
) -> (new_head: usize)
    requires
        ring_wf(old(cells)@, head as int, length as int, old_capacity as int),
        head + length > old_capacity,
        old_capacity < new_capacity,
    ensures
        new_head == head + (new_capacity - old_capacity),
        ring_wf(final(cells)@, new_head as int, length as int, new_capacity as int),
        ring_view(final(cells)@, new_head as int, length as int, new_capacity as int) == ring_view(
            old(cells)@,
            head as int,
            length as int,
            old_capacity as int,
        ),
{
    let delta: usize = new_capacity - old_capacity;
    assert(occupied(head as int, length as int, old_capacity as int, old_capacity - 1));
    fill(cells, new_capacity);
    let ghost filled = cells@;
    let mut i: usize = old_capacity;
    while i > head
        invariant
            head <= i <= old_capacity,
            delta == new_capacity - old_capacity,
            old_capacity < new_capacity,
            cells@.len() == new_capacity,
            filled.len() == new_capacity,
            forall|p: int| 0 <= p < i ==> #[trigger] cells@[p] == filled[p],
            forall|p: int| i <= p < i + delta && p < new_capacity ==> (#[trigger] cells@[p]) is None,
            forall|p: int| i + delta <= p < new_capacity ==> #[trigger] cells@[p] == filled[p - delta],
        decreases i,
    {
        i -= 1;
        let value = cells[i].take();
        cells[i + delta] = value;
    }
    let new_head: usize = head + delta;
    proof {
        let before = old(cells)@;
        assert forall|p: int| 0 <= p < new_capacity implies ((#[trigger] cells@[p]) is Some
            <==> occupied(new_head as int, length as int, new_capacity as int, p)) by {
            if p < head {
                assert(cells@[p] == before[p]);
            } else if p >= new_head {
                assert(cells@[p] == before[p - delta]);
            }
        }
        assert forall|k: int| 0 <= k < length implies cells@[physical(
            new_head as int,
            new_capacity as int,
            k,
        )] == before[physical(head as int, old_capacity as int, k)] by {
            if head + k < old_capacity {
                assert(cells@[new_head + k] == before[head + k]);
            } else {
                assert(cells@[head + k - old_capacity] == before[head + k - old_capacity]);
            }
        }
        assert(ring_view(cells@, new_head as int, length as int, new_capacity as int) =~= ring_view(
            before,
            head as int,
            length as int,
            old_capacity as int,
        ));
    }
    new_head
}

} // verus!
