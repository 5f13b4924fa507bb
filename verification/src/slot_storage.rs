//! A storage that allocates from a buffer supplied by the caller.

use vstd::prelude::*;
use vstd::arithmetic::power2::is_pow2;
use crate::error::StorageAllocError;
use crate::layout::{align_offset, lemma_align_offset, offset_to_align, Layout};
use crate::storage::{StableStorage, Storage, StorageHandle};

verus! {

/// The handle of a [`SlotStorage`]: the offset of the allocation from the
/// start of the buffer.
#[derive(Debug, Clone, Copy, PartialEq, Eq, PartialOrd, Ord, Hash)]
pub struct SlotStorageHandle {
    offset: usize,
}

impl StorageHandle for SlotStorageHandle {

}

impl SlotStorageHandle {
    /// The offset of the allocation from the start of the buffer.
    pub closed spec fn offset(self) -> usize {
        self.offset
    }

    /// The handle of the allocation at `offset`.
    pub closed spec fn at(offset: usize) -> Self {
        SlotStorageHandle { offset }
    }

    /// The offset of the handle made for an offset is that offset.
    pub broadcast proof fn lemma_offset(offset: usize)
        ensures
            #[trigger] Self::at(offset).offset() == offset,
    {
    }
}

/// A buffer of bytes that can be allocated from.
///
/// The buffer is owned by someone else and is known to the storage by its
/// address and length only, so that moving the storage moves no allocation.
/// An allocation is placed at the first address of the buffer that satisfies
/// the requested alignment and takes all that follows. There is room for one
/// allocation at a time: a second one is placed without regard to the first,
/// whose handle is stale from then on.
#[derive(Clone, Copy)]
pub struct SlotStorage {
    base: usize,
    len: usize,
    /// Offset and requested alignment of the live allocation, if there is one.
    live: Ghost<Option<(usize, nat)>>,
}

/// Where a buffer of `len` bytes at `base` places an allocation of `layout`
/// and how many bytes it then has, or `None` where it has no room.
pub open spec fn slot_allocation(base: usize, len: usize, layout: Layout) -> Option<(usize, usize)> {
    let offset = align_offset(base as nat, layout.align() as nat);
    if offset <= len && layout.size() <= len - offset {
        Some((offset as usize, (len - offset) as usize))
    } else {
        None
    }
}

impl SlotStorage {
    /// The address of the first byte of the buffer.
    pub closed spec fn base(&self) -> usize {
        self.base
    }

    /// The length of the buffer in bytes.
    pub closed spec fn len(&self) -> usize {
        self.len
    }

    /// Whether a buffer of `len` bytes can lie at `base`: the address is not
    /// null, the buffer ends within the address space and is no longer than
    /// an allocation may be.
    pub open spec fn is_buffer(base: usize, len: usize) -> bool {
        base != 0 && base + len <= usize::MAX && len <= isize::MAX
    }

    /// Constructs a storage over the buffer of `len` bytes at `base`, with
    /// nothing allocated in it. Returns `None` where no buffer can lie there.
    pub fn new(base: usize, len: usize) -> (r: Option<Self>)
        ensures
            r is Some <==> Self::is_buffer(base, len),
            r matches Some(s) ==> {
                &&& s.wf()
                &&& s.base() == base
                &&& s.len() == len
                &&& forall|handle: SlotStorageHandle| !s.is_valid(handle)
            },
    {
        if base == 0 || len > usize::MAX - base || len > isize::MAX as usize {
            None
        } else {
            Some(SlotStorage { base, len, live: Ghost(None) })
        }
    }
}

impl Storage for SlotStorage {
    type Handle = SlotStorageHandle;

    closed spec fn wf(&self) -> bool {
        &&& Self::is_buffer(self.base, self.len)
        &&& self.live@ matches Some((offset, align)) ==> {
            &&& offset <= self.len
            &&& align > 0
            &&& (self.base + offset) as nat % align == 0
        }
    }

    closed spec fn is_valid(&self, handle: Self::Handle) -> bool {
        self.live@ matches Some((offset, _)) && offset == handle.offset
    }

    open spec fn usable_size(&self, handle: Self::Handle) -> nat {
        (self.len() - handle.offset()) as nat
    }

    closed spec fn alignment(&self, handle: Self::Handle) -> nat {
        self.live@.unwrap().1
    }

    open spec fn address(&self, handle: Self::Handle) -> nat {
        (self.base() + handle.offset()) as nat
    }

    open spec fn allocate_spec(&self, layout: Layout) -> Option<(Self::Handle, usize)> {
        match slot_allocation(self.base(), self.len(), layout) {
            Some((offset, usable)) => Some((SlotStorageHandle::at(offset), usable)),
            None => None,
        }
    }

    open spec fn grow_spec(
        &self,
        old_layout: Layout,
        new_layout: Layout,
        handle: Self::Handle,
    ) -> Option<(Self::Handle, usize)> {
        self.allocate_spec(new_layout)
    }

    open spec fn shrink_spec(
        &self,
        old_layout: Layout,
        new_layout: Layout,
        handle: Self::Handle,
    ) -> Option<(Self::Handle, usize)> {
        self.allocate_spec(new_layout)
    }

    closed spec fn allocated(&self, layout: Layout) -> Self {
        SlotStorage {
            base: self.base,
            len: self.len,
            live: Ghost(
                Some(
                    (
                        align_offset(self.base as nat, layout.align() as nat) as usize,
                        layout.align() as nat,
                    ),
                ),
            ),
        }
    }

    closed spec fn deallocated(&self, layout: Layout, handle: Self::Handle) -> Self {
        SlotStorage { base: self.base, len: self.len, live: Ghost(None) }
    }

    open spec fn grown(&self, old_layout: Layout, new_layout: Layout, handle: Self::Handle) -> Self {
        self.allocated(new_layout)
    }

    open spec fn shrunk(&self, old_layout: Layout, new_layout: Layout, handle: Self::Handle) -> Self {
        self.allocated(new_layout)
    }

    open spec fn multiple() -> bool {
        false
    }

    fn resolve(&self, handle: Self::Handle) -> (address: usize) {
        self.base + handle.offset
    }

    fn allocate(&mut self, layout: Layout) -> (r: Result<(Self::Handle, usize), StorageAllocError>)
        ensures
            final(self).base() == old(self).base(),
            final(self).len() == old(self).len(),
            r matches Ok((handle, _)) ==> forall|other: SlotStorageHandle|
                final(self).is_valid(other) <==> other == handle,
    {
        let align: usize = layout.align();
        proof {
            reveal(is_pow2);
            lemma_align_offset(self.base as nat, align as nat);
        }
        let offset: usize = offset_to_align(self.base, align);
        if offset > self.len {
            return Err(StorageAllocError);
        }
        let usable: usize = self.len - offset;
        if layout.size() > usable {
            return Err(StorageAllocError);
        }
        self.live = Ghost(Some((offset, align as nat)));
        Ok((SlotStorageHandle { offset }, usable))
    }

    fn deallocate(&mut self, layout: Layout, handle: Self::Handle)
        ensures
            final(self).base() == old(self).base(),
            final(self).len() == old(self).len(),
            forall|other: SlotStorageHandle| !final(self).is_valid(other),
    {
        self.live = Ghost(None);
    }

    fn grow(&mut self, old_layout: Layout, new_layout: Layout, handle: Self::Handle) -> (r: Result<
        (Self::Handle, usize),
        StorageAllocError,
    >)
        ensures
            final(self).base() == old(self).base(),
            final(self).len() == old(self).len(),
    {
        self.allocate(new_layout)
    }

    fn shrink(&mut self, old_layout: Layout, new_layout: Layout, handle: Self::Handle) -> (r:
        Result<(Self::Handle, usize), StorageAllocError>)
        ensures
            final(self).base() == old(self).base(),
            final(self).len() == old(self).len(),
    {
        self.allocate(new_layout)
    }
}

impl StableStorage for SlotStorage {

}

} // verus!
