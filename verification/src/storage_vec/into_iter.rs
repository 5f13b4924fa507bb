//! The owning iterator of a vec.

use vstd::prelude::*;
use vstd::layout::{align_of, size_of};
use crate::layout::{array_size, lemma_array_fits, sized, Layout};
use crate::storage::{keeps_handles, Storage};
use crate::storage_vec::Vec;

verus! {

/// Owning iterator over a [`Vec`].
///
/// It takes over the allocation of the vec. The elements that are left lie
/// in the places from `start` on, `length` of them; a place whose element
/// has been handed out is empty, so that no element can be handed out or
/// dropped twice.
pub struct VecIntoIter<T, S: Storage> {
    handle: S::Handle,
    storage: S,
    start: usize,
    length: usize,
    capacity: usize,
    cells: std::vec::Vec<Option<T>>,
}

impl<T, S: Storage> View for VecIntoIter<T, S> {
    type V = Seq<T>;

    /// The elements that are left, front to back.
    closed spec fn view(&self) -> Seq<T> {
        Seq::new(self.length as nat, |i: int| self.cells@[self.start + i].unwrap())
    }
}

impl<T, S: Storage> VecIntoIter<T, S> {
    /// The number of elements that have been taken from the front.
    pub closed spec fn start(&self) -> usize {
        self.start
    }

    /// The number of elements the allocation has room for.
    pub closed spec fn capacity(&self) -> usize {
        self.capacity
    }

    /// The storage the elements are allocated in.
    pub closed spec fn storage(&self) -> S {
        self.storage
    }

    /// The handle of the allocation the elements lie in.
    pub closed spec fn handle(&self) -> S::Handle {
        self.handle
    }

    /// Whether the places are as the counters say: empty before `start`,
    /// taken from there on, and none beyond the elements that are left.
    pub closed spec fn cells_wf(&self) -> bool {
        &&& self.cells@.len() == self.start + self.length
        &&& forall|i: int| 0 <= i < self.start ==> (#[trigger] self.cells@[i]) is None
        &&& forall|i: int|
            self.start <= i < self.start + self.length ==> (#[trigger] self.cells@[i]) is Some
    }

    /// The invariant: the handle names a live allocation of the storage,
    /// aligned for `T` and with room for `capacity` elements, and the
    /// elements that are left lie within it.
    pub open spec fn wf(&self) -> bool {
        &&& sized::<T>()
        &&& self.storage().wf()
        &&& self.storage().is_valid(self.handle())
        &&& self.storage().alignment(self.handle()) == align_of::<T>()
        &&& array_size::<T>(self.capacity() as nat) <= self.storage().usable_size(self.handle())
            <= isize::MAX
        &&& self.start() + self@.len() <= self.capacity()
        &&& self.cells_wf()
    }

    /// Takes a vec apart and makes the iterator over its elements.
    pub fn new(vec: Vec<T, S>) -> (r: Self)
        requires
            vec.wf(),
        ensures
            r.wf(),
            r@ == vec@,
            r.start() == 0,
            r.capacity() == vec.spec_capacity(),
            r.storage() == vec.storage(),
            r.handle() == vec.handle(),
    {
        broadcast use Vec::lemma_raw_parts;

        let (storage, handle, items, capacity) = vec.into_raw_parts();
        let mut items = items;
        let length: usize = items.len();
        // the elements come off the end, so they are turned round twice
        let mut reversed: std::vec::Vec<Option<T>> = std::vec::Vec::new();
        while items.len() > 0
            invariant
                items@.len() + reversed@.len() == length,
                length == vec@.len(),
                items@ =~= vec@.subrange(0, items@.len() as int),
                forall|i: int|
                    0 <= i < reversed@.len() ==> (#[trigger] reversed@[i]) == Some(
                        vec@[length - 1 - i],
                    ),
            decreases items@.len(),
        {
            let value = items.pop();
            reversed.push(value);
        }
        let mut cells: std::vec::Vec<Option<T>> = std::vec::Vec::new();
        while reversed.len() > 0
            invariant
                cells@.len() + reversed@.len() == length,
                length == vec@.len(),
                forall|i: int|
                    0 <= i < reversed@.len() ==> (#[trigger] reversed@[i]) == Some(
                        vec@[length - 1 - i],
                    ),
                forall|i: int| 0 <= i < cells@.len() ==> (#[trigger] cells@[i]) == Some(vec@[i]),
            decreases reversed@.len(),
        {
            let value = reversed.pop().unwrap();
            cells.push(value);
        }
        let r = Self { handle, storage, start: 0, length, capacity, cells };
        proof {
            assert(r@ =~= vec@);
        }
        r
    }

    /// Hands out the first of the elements that are left, or `None` if
    /// there is none.
    pub fn next(&mut self) -> (r: Option<T>)
        requires
            old(self).wf(),
        ensures
            final(self).wf(),
            final(self).capacity() == old(self).capacity(),
            final(self).handle() == old(self).handle(),
            final(self).storage() == old(self).storage(),
            match r {
                Some(value) => {
                    &&& old(self)@.len() > 0
                    &&& value == old(self)@.first()
                    &&& final(self)@ == old(self)@.drop_first()
                    &&& final(self).start() == old(self).start() + 1
                },
                None => old(self)@.len() == 0 && *final(self) == *old(self),
            },
    {
        if self.length == 0 {
            return None;
        }
        let value = self.cells[self.start].take();
        self.start += 1;
        self.length -= 1;
        proof {
            assert(self@ =~= old(self)@.drop_first());
        }
        value
    }

    /// Hands out the last of the elements that are left, or `None` if there
    /// is none. The start does not move.
    pub fn next_back(&mut self) -> (r: Option<T>)
        requires
            old(self).wf(),
        ensures
            final(self).wf(),
            final(self).capacity() == old(self).capacity(),
            final(self).handle() == old(self).handle(),
            final(self).storage() == old(self).storage(),
            final(self).start() == old(self).start(),
            match r {
                Some(value) => {
                    &&& old(self)@.len() > 0
                    &&& value == old(self)@.last()
                    &&& final(self)@ == old(self)@.drop_last()
                },
                None => old(self)@.len() == 0 && *final(self) == *old(self),
            },
    {
        if self.length == 0 {
            return None;
        }
        self.length -= 1;
        let value = self.cells.pop().unwrap();
        proof {
            assert(self@ =~= old(self)@.drop_last());
        }
        value
    }

    /// The number of elements that are left, as the least and the most
    /// that are still to come.
    pub fn size_hint(&self) -> (r: (usize, Option<usize>))
        requires
            self.wf(),
        ensures
            r.0 == self@.len(),
            r.1 == Some(r.0),
    {
        (self.length, Some(self.length))
    }

    /// The number of elements that are left.
    pub fn count(self) -> (r: usize)
        requires
            self.wf(),
        ensures
            r == self@.len(),
    {
        self.length
    }

    /// The last of the elements that are left, or `None` if there is none.
    pub fn last(self) -> (r: Option<T>)
        requires
            self.wf(),
        ensures
            r == if self@.len() > 0 {
                Some(self@.last())
            } else {
                None
            },
    {
        let mut this = self;
        this.next_back()
    }

    /// Lends one of the elements that are left mutably: the one `index`
    /// places behind the first, or `None` if there are no more than `index`
    /// of them. The places hold the elements one by one and not as a slice
    /// of values, so they are lent one at a time.
    pub fn as_mut_slice(&mut self, index: usize) -> (r: Option<&mut T>)
        requires
            old(self).wf(),
        ensures
            r is Some <==> index < old(self)@.len(),
            r matches Some(slot) ==> {
                &&& *slot == old(self)@[index as int]
                &&& final(self)@ == old(self)@.update(index as int, *final(slot))
            },
            r is None ==> *final(self) == *old(self),
            final(self).wf(),
            final(self).start() == old(self).start(),
            final(self).capacity() == old(self).capacity(),
            final(self).handle() == old(self).handle(),
            final(self).storage() == old(self).storage(),
    {
        if index >= self.length {
            return None;
        }
        proof {
            lemma_lend(self.cells@, self.start as int, self.length as int, index as int);
        }
        self.cells[self.start + index].as_mut()
    }

    /// Returns references to the elements that are left, front to back.
    pub fn as_slice(&self) -> (r: std::vec::Vec<&T>)
        requires
            self.wf(),
        ensures
            r@.len() == self@.len(),
            forall|i: int| 0 <= i < r@.len() ==> *(#[trigger] r@[i]) == self@[i],
    {
        let mut refs: std::vec::Vec<&T> = std::vec::Vec::new();
        let mut i: usize = 0;
        while i < self.length
            invariant
                self.wf(),
                i <= self.length,
                refs@.len() == i,
                forall|k: int| 0 <= k < i ==> *(#[trigger] refs@[k]) == self@[k],
            decreases self.length - i,
        {
            match &self.cells[self.start + i] {
                Some(value) => {
                    refs.push(value);
                },
                None => {},
            }
            i += 1;
        }
        refs
    }
}

/// Whatever takes the place of an element that is lent, the places stay as
/// the counters say, and the elements are those there were with the one
/// replaced.
proof fn lemma_lend<T>(cells: Seq<Option<T>>, start: int, length: int, index: int)
    requires
        0 <= start,
        0 <= index < length,
        cells.len() == start + length,
        forall|i: int| 0 <= i < start ==> (#[trigger] cells[i]) is None,
        forall|i: int| start <= i < start + length ==> (#[trigger] cells[i]) is Some,
    ensures
        forall|value: T|
            {
                let lent = #[trigger] cells.update(start + index, Some(value));
                &&& lent.len() == start + length
                &&& forall|i: int| 0 <= i < start ==> (#[trigger] lent[i]) is None
                &&& forall|i: int| start <= i < start + length ==> (#[trigger] lent[i]) is Some
                &&& Seq::new(length as nat, |i: int| lent[start + i].unwrap()) == Seq::new(
                    length as nat,
                    |i: int| cells[start + i].unwrap(),
                ).update(index, value)
            },
{
    assert forall|value: T|
        {
            let lent = #[trigger] cells.update(start + index, Some(value));
            &&& lent.len() == start + length
            &&& forall|i: int| 0 <= i < start ==> (#[trigger] lent[i]) is None
            &&& forall|i: int| start <= i < start + length ==> (#[trigger] lent[i]) is Some
            &&& Seq::new(length as nat, |i: int| lent[start + i].unwrap()) == Seq::new(
                length as nat,
                |i: int| cells[start + i].unwrap(),
            ).update(index, value)
        } by {
        let lent = cells.update(start + index, Some(value));
        assert forall|i: int| 0 <= i < start implies (#[trigger] lent[i]) is None by {
            assert(cells[i] is None);
        }
        assert forall|i: int| start <= i < start + length implies (#[trigger] lent[i]) is Some by {
            assert(cells[i] is Some);
        }
        assert(Seq::new(length as nat, |i: int| lent[start + i].unwrap()) =~= Seq::new(
            length as nat,
            |i: int| cells[start + i].unwrap(),
        ).update(index, value));
    }
}

/// Destroys an iterator: drops the elements that are left, each once, then
/// gives the allocation back to the storage, which is returned.
pub fn drop<T, S: Storage>(iter: VecIntoIter<T, S>) -> (storage: S)
    requires
        iter.wf(),
    ensures
        storage.wf(),
        storage == iter.storage().deallocated(
            Layout::spec_array::<T>(iter.capacity() as nat),
            iter.handle(),
        ),
        S::multiple() ==> keeps_handles(&iter.storage(), &storage, Some(iter.handle())),
{
    let VecIntoIter { handle, storage, start, length, capacity, cells } = iter;
    let mut storage = storage;
    let _ = cells;
    proof {
        lemma_array_fits::<T>(capacity as nat, storage.usable_size(handle));
    }
    match Layout::array::<T>(capacity) {
        Some(layout) => {
            storage.deallocate(layout, handle);
        },
        None => {},
    }
    storage
}

} // verus!
