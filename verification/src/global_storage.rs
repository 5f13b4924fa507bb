//! The heap: the default storage.

use vstd::prelude::*;
use vstd::arithmetic::power2::is_pow2;
use crate::error::StorageAllocError;
use crate::layout::{
    align_offset,
    is_aligned,
    lemma_align_offset,
    lemma_pow2_divides,
    offset_to_align,
    Layout,
};
use crate::storage::{MultipleStorage, ShareableStorage, Storage, StorageHandle};

verus! {

/// The handle of a [`Global`].
#[derive(Debug, Clone, Copy, PartialEq, Eq, PartialOrd, Ord, Hash)]
pub struct GlobalHandle {
    /// The address the handle resolves to.
    pub address: usize,
    /// Whether the handle names a block of the heap. Where it does not, it
    /// stands for a zero-size allocation, which takes nothing from the heap:
    /// its address is only the alignment that was asked for.
    pub on_heap: bool,
}

impl GlobalHandle {
    /// The handle of a zero-size allocation aligned to `align`.
    pub open spec fn dangling(align: usize) -> GlobalHandle {
        GlobalHandle { address: align, on_heap: false }
    }

    /// The handle of the block at `address`.
    pub open spec fn block(address: usize) -> GlobalHandle {
        GlobalHandle { address, on_heap: true }
    }
}

impl StorageHandle for GlobalHandle {

}

/// The lowest address a heap hands out.
pub const HEAP_BASE: usize = 0x1_0000;

/// The heap: the default storage.
///
/// A heap places blocks in an address space of its own, which starts at
/// [`HEAP_BASE`] and ends where the heap was made to end. Each block is
/// placed at the first aligned address above all the blocks there are, so
/// that no two live blocks overlap, and a request fails when the block would
/// end beyond the heap's last address. The topmost block grows and shrinks
/// where it lies, and its room is free again when it is given back; every
/// other block shrinks where it lies and is moved to the top to grow. A
/// zero-size request never reaches the heap: it is answered with a handle
/// that carries only the requested alignment.
///
/// The heap keeps the book of its blocks. What a block holds stays with the
/// container that owns it.
#[derive(Clone, Copy)]
pub struct Global {
    /// The first address above every live block.
    next: usize,
    /// The address at which the heap ends.
    end: usize,
    /// The live blocks, by address, each with the layout it is held under.
    blocks: Ghost<Map<usize, Layout>>,
}

/// The address at which a heap that has placed blocks up to `next` and ends
/// at `end` places a block of `size` bytes aligned to `align`, or `None`
/// where the block does not fit.
pub open spec fn heap_placement(next: usize, end: usize, size: usize, align: usize) -> Option<usize> {
    let address = next + align_offset(next as nat, align as nat);
    if address + size <= end {
        Some(address as usize)
    } else {
        None
    }
}

/// Finds the address for a block of `size` bytes aligned to `align`.
fn place(next: usize, end: usize, size: usize, align: usize) -> (r: Option<usize>)
    requires
        align > 0,
    ensures
        r == heap_placement(next, end, size, align),
        r matches Some(address) ==> {
            &&& next <= address
            &&& address + size <= end
            &&& is_aligned(address as nat, align as nat)
        },
{
    proof {
        lemma_align_offset(next as nat, align as nat);
    }
    let offset: usize = offset_to_align(next, align);
    if offset > end || next > end - offset {
        return None;
    }
    let address: usize = next + offset;
    if size > end - address {
        return None;
    }
    Some(address)
}

impl Global {
    /// The first address above every live block.
    pub closed spec fn next(&self) -> usize {
        self.next
    }

    /// The address at which the heap ends.
    pub closed spec fn end(&self) -> usize {
        self.end
    }

    /// The live blocks, by address, each with the layout it is held under.
    pub closed spec fn blocks(&self) -> Map<usize, Layout> {
        self.blocks@
    }

    /// The invariant of the heap: every live block is not empty, lies at an
    /// address that is not null and satisfies its alignment, ends below
    /// `next`, and overlaps no other live block.
    #[verifier::opaque]
    pub open spec fn heap_wf(&self) -> bool {
        &&& 0 < self.next() <= self.end()
        &&& forall|address: usize| #[trigger]
            self.blocks().contains_key(address) ==> {
                let layout = self.blocks()[address];
                &&& layout.wf()
                &&& 0 < layout.size() <= isize::MAX
                &&& 0 < layout.align()
                &&& 0 < address
                &&& is_aligned(address as nat, layout.align() as nat)
                &&& address + layout.size() <= self.next()
            }
        &&& forall|low: usize, high: usize|
            #![trigger self.blocks().contains_key(low), self.blocks().contains_key(high)]
            self.blocks().contains_key(low) && self.blocks().contains_key(high) && low < high
                ==> low + self.blocks()[low].size() <= high
    }

    /// Whether every allocation that is live in `self`, other than `gone`,
    /// is live in `post` with the same size, alignment and address.
    spec fn heap_keeps(&self, post: &Self, gone: Option<GlobalHandle>) -> bool {
        forall|other: GlobalHandle|
            #![trigger post.is_valid(other)]
            self.is_valid(other) && gone != Some(other) ==> {
                &&& post.is_valid(other)
                &&& post.usable_size(other) == self.usable_size(other)
                &&& post.alignment(other) == self.alignment(other)
                &&& post.address(other) == self.address(other)
            }
    }

    /// Constructs a heap of at most `limit` bytes, with nothing allocated.
    pub fn with_limit(limit: usize) -> (r: Self)
        ensures
            r.wf(),
            r.next() == HEAP_BASE,
            r.end() == if HEAP_BASE + limit <= usize::MAX {
                (HEAP_BASE + limit) as usize
            } else {
                usize::MAX
            },
            r.blocks() == Map::<usize, Layout>::empty(),
    {
        let end: usize = if limit > usize::MAX - HEAP_BASE {
            usize::MAX
        } else {
            HEAP_BASE + limit
        };
        let heap = Global { next: HEAP_BASE, end, blocks: Ghost(Map::empty()) };
        proof {
            reveal(Global::heap_wf);
        }
        heap
    }

    /// Whether the block named by `handle`, held under `layout`, is the
    /// topmost of the heap.
    pub open spec fn is_top(&self, handle: GlobalHandle, layout: Layout) -> bool {
        handle.on_heap && handle.address + layout.size() == self.next()
    }

    /// What growing or shrinking returns in this state.
    ///
    /// A zero-size allocation is grown by allocating. A block that shrinks
    /// to nothing is freed and replaced by the zero-size handle. Otherwise,
    /// where the new alignment does not exceed the old one, the heap
    /// reallocates: the block stays where it lies if it shrinks, or if it is
    /// the topmost and the heap has the room for it to grow, and is moved to
    /// the top, under its old alignment, if it is any other block that
    /// grows. Where the alignment increases, a new block is allocated for
    /// the new layout.
    pub open spec fn realloc_spec(
        &self,
        old_layout: Layout,
        new_layout: Layout,
        handle: GlobalHandle,
    ) -> Option<(GlobalHandle, usize)> {
        if !handle.on_heap {
            self.allocate_spec(new_layout)
        } else if new_layout.size() == 0 {
            Some((GlobalHandle::dangling(new_layout.align()), 0))
        } else if old_layout.align() >= new_layout.align() {
            if new_layout.size() <= old_layout.size() {
                Some((handle, new_layout.size()))
            } else if self.is_top(handle, old_layout) {
                if handle.address + new_layout.size() <= self.end() {
                    Some((handle, new_layout.size()))
                } else {
                    None
                }
            } else {
                match heap_placement(
                    self.next(),
                    self.end(),
                    new_layout.size(),
                    old_layout.align(),
                ) {
                    Some(moved) => Some((GlobalHandle::block(moved), new_layout.size())),
                    None => None,
                }
            }
        } else {
            self.allocate_spec(new_layout)
        }
    }

    /// The heap after growing or shrinking has succeeded in this state.
    pub closed spec fn reallocated(
        &self,
        old_layout: Layout,
        new_layout: Layout,
        handle: GlobalHandle,
    ) -> Self {
        if !handle.on_heap {
            self.allocated(new_layout)
        } else if new_layout.size() == 0 {
            self.deallocated(old_layout, handle)
        } else if old_layout.align() >= new_layout.align() {
            if new_layout.size() <= old_layout.size() || self.is_top(handle, old_layout) {
                Global {
                    next: if self.is_top(handle, old_layout) {
                        (handle.address + new_layout.size()) as usize
                    } else {
                        self.next
                    },
                    end: self.end,
                    blocks: Ghost(self.blocks@.insert(handle.address, new_layout)),
                }
            } else {
                let moved = heap_placement(
                    self.next,
                    self.end,
                    new_layout.size(),
                    old_layout.align(),
                ).unwrap();
                Global {
                    next: (moved + new_layout.size()) as usize,
                    end: self.end,
                    blocks: Ghost(self.blocks@.remove(handle.address).insert(moved, new_layout)),
                }
            }
        } else {
            self.allocated(new_layout).deallocated(old_layout, handle)
        }
    }

    /// What the heap is after an allocation: the block has been placed and
    /// `next` stands behind it, unless nothing was asked for.
    pub broadcast proof fn lemma_allocated(&self, layout: Layout)
        requires
            self.allocate_spec(layout) is Some,
        ensures
            (#[trigger] self.allocated(layout)).end() == self.end(),
            layout.size() == 0 ==> self.allocated(layout) == *self,
            layout.size() != 0 ==> {
                let address = heap_placement(
                    self.next(),
                    self.end(),
                    layout.size(),
                    layout.align(),
                ).unwrap();
                &&& self.allocated(layout).next() == address + layout.size()
                &&& self.allocated(layout).blocks() == self.blocks().insert(address, layout)
            },
    {
    }

    /// What the heap is after a deallocation: the block is gone, and its
    /// room is free again if it was the topmost, unless the handle was that
    /// of a zero-size allocation.
    pub broadcast proof fn lemma_deallocated(&self, layout: Layout, handle: GlobalHandle)
        ensures
            (#[trigger] self.deallocated(layout, handle)).end() == self.end(),
            self.deallocated(layout, handle).next() == if self.is_top(handle, layout) {
                handle.address
            } else {
                self.next()
            },
            self.deallocated(layout, handle).blocks() == if handle.on_heap {
                self.blocks().remove(handle.address)
            } else {
                self.blocks()
            },
    {
    }

    /// Grows or shrinks the allocation named by `handle`.
    ///
    /// On failure nothing is restored because nothing was touched: the old
    /// allocation is left in place and its handle is still valid.
    fn realloc(&mut self, old_layout: Layout, new_layout: Layout, handle: GlobalHandle) -> (r:
        Result<(GlobalHandle, usize), StorageAllocError>)
        requires
            old(self).wf(),
            old_layout.wf(),
            new_layout.wf(),
            old(self).is_valid(handle),
            old_layout.size() <= old(self).usable_size(handle),
            old_layout.align() == old(self).alignment(handle),
        ensures
            match r {
                Ok((new_handle, usable)) => {
                    &&& old(self).realloc_spec(old_layout, new_layout, handle) == Some(
                        (new_handle, usable),
                    )
                    &&& *final(self) == old(self).reallocated(old_layout, new_layout, handle)
                    &&& final(self).wf()
                    &&& final(self).is_valid(new_handle)
                    &&& final(self).usable_size(new_handle) == usable
                    &&& final(self).alignment(new_handle) == new_layout.align()
                    &&& new_layout.size() <= usable <= isize::MAX
                    &&& old(self).heap_keeps(final(self), Some(handle))
                    &&& handle.on_heap && new_handle != handle ==> !final(self).is_valid(handle)
                },
                Err(_) => {
                    &&& old(self).realloc_spec(old_layout, new_layout, handle) is None
                    &&& *final(self) == *old(self)
                },
            },
    {
        proof {
            reveal(is_pow2);
            reveal(Global::heap_wf);
        }
        if !handle.on_heap {
            // the old allocation took nothing from the heap
            return self.allocate(new_layout);
        }
        let address: usize = handle.address;
        let new_size: usize = new_layout.size();
        if new_size == 0 {
            let new_alloc = self.allocate(new_layout)?;
            let ghost mid = *self;
            assert(self.is_valid(handle));
            self.deallocate(old_layout, handle);
            proof {
                lemma_keeps_handles_then(old(self), &mid, self, handle);
            }
            Ok(new_alloc)
        } else if old_layout.align() >= new_layout.align() {
            // the heap reallocates: the block stays where it lies if it
            // shrinks or is the topmost, and is moved to the top if not
            proof {
                lemma_pow2_divides(new_layout.align() as int, old_layout.align() as int);
                lemma_block(old(self), address);
                lemma_aligned_to_smaller(
                    address as nat,
                    old_layout.align() as nat,
                    new_layout.align() as nat,
                );
            }
            let top: bool = self.next - address == old_layout.size();
            if new_size <= old_layout.size() || top {
                if top {
                    if new_size > self.end - address {
                        return Err(StorageAllocError);
                    }
                    self.next = address + new_size;
                }
                self.blocks = Ghost(self.blocks@.insert(address, new_layout));
                proof {
                    lemma_resized(old(self), self, address, new_layout);
                }
                Ok((handle, new_size))
            } else {
                match place(self.next, self.end, new_size, old_layout.align()) {
                    Some(moved) => {
                        proof {
                            lemma_aligned_to_smaller(
                                moved as nat,
                                old_layout.align() as nat,
                                new_layout.align() as nat,
                            );
                        }
                        self.next = moved + new_size;
                        self.blocks = Ghost(self.blocks@.remove(address).insert(moved, new_layout));
                        proof {
                            lemma_placed(old(self), self, moved, new_layout, Some(address));
                        }
                        Ok((GlobalHandle { address: moved, on_heap: true }, new_size))
                    },
                    None => Err(StorageAllocError),
                }
            }
        } else {
            // a reallocation cannot raise the alignment: allocate anew, then
            // free the old block
            let (new_alloc, _) = self.allocate(new_layout)?;
            let ghost mid = *self;
            assert(self.is_valid(handle));
            self.deallocate(old_layout, handle);
            proof {
                lemma_keeps_handles_then(old(self), &mid, self, handle);
                assert(mid.is_valid(new_alloc));
                assert(new_alloc != handle);
            }
            Ok((new_alloc, new_size))
        }
    }
}

/// Placing a block above all earlier ones, after freeing at most one of
/// them, keeps the heap's invariant.
proof fn lemma_placed(pre: &Global, post: &Global, address: usize, layout: Layout, gone: Option<usize>)
    requires
        pre.heap_wf(),
        layout.wf(),
        0 < layout.size() <= isize::MAX,
        0 < layout.align(),
        pre.next() <= address,
        is_aligned(address as nat, layout.align() as nat),
        post.next() == address + layout.size(),
        post.next() <= post.end(),
        post.blocks() == match gone {
            Some(freed) => pre.blocks().remove(freed).insert(address, layout),
            None => pre.blocks().insert(address, layout),
        },
    ensures
        post.heap_wf(),
{
    reveal(Global::heap_wf);
    assert forall|a: usize| #[trigger] post.blocks().contains_key(a) implies {
        let layout = post.blocks()[a];
        &&& layout.wf()
        &&& 0 < layout.size() <= isize::MAX
        &&& 0 < layout.align()
        &&& 0 < a
        &&& is_aligned(a as nat, layout.align() as nat)
        &&& a + layout.size() <= post.next()
    } by {
        if a != address {
            assert(pre.blocks().contains_key(a));
        }
    }
    assert forall|low: usize, high: usize|
        #![trigger post.blocks().contains_key(low), post.blocks().contains_key(high)]
        post.blocks().contains_key(low) && post.blocks().contains_key(high) && low
            < high implies low + post.blocks()[low].size() <= high by {
        if low != address {
            assert(pre.blocks().contains_key(low));
        }
        if high != address {
            assert(pre.blocks().contains_key(high));
        }
    }
}

/// What the invariant says of one live block, and of the topmost.
proof fn lemma_block(heap: &Global, address: usize)
    requires
        heap.heap_wf(),
        heap.blocks().contains_key(address),
    ensures
        0 < address,
        0 < heap.blocks()[address].size(),
        address + heap.blocks()[address].size() <= heap.next(),
        heap.next() <= heap.end(),
        is_aligned(address as nat, heap.blocks()[address].align() as nat),
        address + heap.blocks()[address].size() == heap.next() ==> forall|other: usize|
            #![trigger heap.blocks().contains_key(other)]
            heap.blocks().contains_key(other) && other != address ==> other
                + heap.blocks()[other].size() <= address,
{
    reveal(Global::heap_wf);
    if address + heap.blocks()[address].size() == heap.next() {
        assert forall|other: usize|
            #![trigger heap.blocks().contains_key(other)]
            heap.blocks().contains_key(other) && other != address implies other
            + heap.blocks()[other].size() <= address by {
            if other > address {
                assert(heap.blocks().contains_key(address) && heap.blocks().contains_key(other));
            } else {
                assert(heap.blocks().contains_key(other) && heap.blocks().contains_key(address));
            }
        }
    }
}

/// Giving a block back, and its room with it if it was the topmost, keeps
/// the heap's invariant.
proof fn lemma_freed(pre: &Global, post: &Global, address: usize)
    requires
        pre.heap_wf(),
        pre.blocks().contains_key(address),
        post.end() == pre.end(),
        post.blocks() == pre.blocks().remove(address),
        post.next() == pre.next() || (post.next() == address && address
            + pre.blocks()[address].size() == pre.next()),
    ensures
        post.heap_wf(),
{
    lemma_block(pre, address);
    reveal(Global::heap_wf);
    assert forall|a: usize| #[trigger] post.blocks().contains_key(a) implies {
        let layout = post.blocks()[a];
        &&& layout.wf()
        &&& 0 < layout.size() <= isize::MAX
        &&& 0 < layout.align()
        &&& 0 < a
        &&& is_aligned(a as nat, layout.align() as nat)
        &&& a + layout.size() <= post.next()
    } by {
        assert(pre.blocks().contains_key(a));
    }
    assert forall|low: usize, high: usize|
        #![trigger post.blocks().contains_key(low), post.blocks().contains_key(high)]
        post.blocks().contains_key(low) && post.blocks().contains_key(high) && low
            < high implies low + post.blocks()[low].size() <= high by {
        assert(pre.blocks().contains_key(low));
        assert(pre.blocks().contains_key(high));
    }
}

/// Holding a live block under another layout where it lies keeps the heap's
/// invariant, if the block does not grow or is the topmost and the heap has
/// the room.
proof fn lemma_resized(pre: &Global, post: &Global, address: usize, layout: Layout)
    requires
        pre.heap_wf(),
        pre.blocks().contains_key(address),
        layout.wf(),
        0 < layout.size() <= isize::MAX,
        0 < layout.align(),
        is_aligned(address as nat, layout.align() as nat),
        post.end() == pre.end(),
        post.blocks() == pre.blocks().insert(address, layout),
        (post.next() == pre.next() && layout.size() <= pre.blocks()[address].size()) || (address
            + pre.blocks()[address].size() == pre.next() && post.next() == address + layout.size()
            && post.next() <= post.end()),
    ensures
        post.heap_wf(),
{
    lemma_block(pre, address);
    reveal(Global::heap_wf);
    assert forall|a: usize| #[trigger] post.blocks().contains_key(a) implies {
        let layout = post.blocks()[a];
        &&& layout.wf()
        &&& 0 < layout.size() <= isize::MAX
        &&& 0 < layout.align()
        &&& 0 < a
        &&& is_aligned(a as nat, layout.align() as nat)
        &&& a + layout.size() <= post.next()
    } by {
        assert(pre.blocks().contains_key(a));
    }
    assert forall|low: usize, high: usize|
        #![trigger post.blocks().contains_key(low), post.blocks().contains_key(high)]
        post.blocks().contains_key(low) && post.blocks().contains_key(high) && low
            < high implies low + post.blocks()[low].size() <= high by {
        assert(pre.blocks().contains_key(low));
        assert(pre.blocks().contains_key(high));
    }
}

/// What an allocation keeps and the deallocation of `handle` after it keeps,
/// the two together keep.
proof fn lemma_keeps_handles_then(pre: &Global, mid: &Global, post: &Global, handle: GlobalHandle)
    requires
        pre.heap_keeps(mid, None),
        mid.heap_keeps(post, Some(handle)),
    ensures
        pre.heap_keeps(post, Some(handle)),
{
    assert forall|other: GlobalHandle|
        #![trigger post.is_valid(other)]
        pre.is_valid(other) && Some(handle) != Some(other) implies {
        &&& post.is_valid(other)
        &&& post.usable_size(other) == pre.usable_size(other)
        &&& post.alignment(other) == pre.alignment(other)
        &&& post.address(other) == pre.address(other)
    } by {
        assert(mid.is_valid(other));
        assert(mid.usable_size(other) == pre.usable_size(other));
        assert(post.is_valid(other));
        assert(post.usable_size(other) == mid.usable_size(other));
    }
}

/// An address aligned to a multiple of `small` is aligned to `small`.
pub proof fn lemma_aligned_to_smaller(address: nat, large: nat, small: nat)
    requires
        small > 0,
        large % small == 0,
        is_aligned(address, large),
        large > 0,
    ensures
        is_aligned(address, small),
{
    vstd::arithmetic::div_mod::lemma_fundamental_div_mod(address as int, large as int);
    vstd::arithmetic::div_mod::lemma_fundamental_div_mod(large as int, small as int);
    let q = address as int / large as int;
    let p = large as int / small as int;
    assert(address as int == (q * p) * small) by (nonlinear_arith)
        requires
            address as int == large * q,
            large as int == small * p,
    {
    }
    vstd::arithmetic::div_mod::lemma_mod_multiples_basic(q * p, small as int);
}

impl Default for Global {
    /// A heap that ends where the address space ends.
    fn default() -> (r: Self)
        ensures
            r.wf(),
            r.next() == HEAP_BASE,
            r.end() == usize::MAX,
            r.blocks() == Map::<usize, Layout>::empty(),
    {
        Global::with_limit(usize::MAX)
    }
}

impl Storage for Global {
    type Handle = GlobalHandle;

    open spec fn wf(&self) -> bool {
        self.heap_wf()
    }

    open spec fn is_valid(&self, handle: Self::Handle) -> bool {
        if handle.on_heap {
            self.blocks().contains_key(handle.address)
        } else {
            is_pow2(handle.address as int)
        }
    }

    open spec fn usable_size(&self, handle: Self::Handle) -> nat {
        if handle.on_heap {
            self.blocks()[handle.address].size() as nat
        } else {
            0
        }
    }

    open spec fn alignment(&self, handle: Self::Handle) -> nat {
        if handle.on_heap {
            self.blocks()[handle.address].align() as nat
        } else {
            handle.address as nat
        }
    }

    open spec fn address(&self, handle: Self::Handle) -> nat {
        handle.address as nat
    }

    open spec fn allocate_spec(&self, layout: Layout) -> Option<(Self::Handle, usize)> {
        if layout.size() == 0 {
            Some((GlobalHandle::dangling(layout.align()), 0))
        } else {
            match heap_placement(self.next(), self.end(), layout.size(), layout.align()) {
                Some(address) => Some((GlobalHandle::block(address), layout.size())),
                None => None,
            }
        }
    }

    open spec fn grow_spec(
        &self,
        old_layout: Layout,
        new_layout: Layout,
        handle: Self::Handle,
    ) -> Option<(Self::Handle, usize)> {
        self.realloc_spec(old_layout, new_layout, handle)
    }

    open spec fn shrink_spec(
        &self,
        old_layout: Layout,
        new_layout: Layout,
        handle: Self::Handle,
    ) -> Option<(Self::Handle, usize)> {
        self.realloc_spec(old_layout, new_layout, handle)
    }

    closed spec fn allocated(&self, layout: Layout) -> Self {
        if layout.size() == 0 {
            *self
        } else {
            let address = heap_placement(self.next, self.end, layout.size(), layout.align()).unwrap();
            Global {
                next: (address + layout.size()) as usize,
                end: self.end,
                blocks: Ghost(self.blocks@.insert(address, layout)),
            }
        }
    }

    closed spec fn deallocated(&self, layout: Layout, handle: Self::Handle) -> Self {
        if handle.on_heap {
            Global {
                next: if self.is_top(handle, layout) {
                    handle.address
                } else {
                    self.next
                },
                end: self.end,
                blocks: Ghost(self.blocks@.remove(handle.address)),
            }
        } else {
            *self
        }
    }

    open spec fn grown(&self, old_layout: Layout, new_layout: Layout, handle: Self::Handle) -> Self {
        self.reallocated(old_layout, new_layout, handle)
    }

    open spec fn shrunk(&self, old_layout: Layout, new_layout: Layout, handle: Self::Handle) -> Self {
        self.reallocated(old_layout, new_layout, handle)
    }

    open spec fn multiple() -> bool {
        true
    }

    fn resolve(&self, handle: Self::Handle) -> (address: usize) {
        proof {
            reveal(Global::heap_wf);
            reveal(is_pow2);
            if !handle.on_heap {
                vstd::arithmetic::div_mod::lemma_mod_self_0(handle.address as int);
            }
        }
        handle.address
    }

    fn allocate(&mut self, layout: Layout) -> (r: Result<(Self::Handle, usize), StorageAllocError>)
        ensures
            r matches Ok((handle, _)) ==> handle.on_heap ==> !old(self).blocks().contains_key(
                handle.address,
            ),
            final(self).end() == old(self).end(),
    {
        proof {
            reveal(is_pow2);
            reveal(Global::heap_wf);
        }
        match layout.size() {
            0 => Ok((GlobalHandle { address: layout.align(), on_heap: false }, 0)),
            size => match place(self.next, self.end, size, layout.align()) {
                Some(address) => {
                    self.next = address + size;
                    self.blocks = Ghost(self.blocks@.insert(address, layout));
                    proof {
                        lemma_placed(old(self), self, address, layout, None);
                    }
                    let handle = GlobalHandle { address, on_heap: true };
                    Ok((handle, size))
                },
                None => Err(StorageAllocError),
            },
        }
    }

    fn deallocate(&mut self, layout: Layout, handle: Self::Handle)
        ensures
            handle.on_heap ==> !final(self).is_valid(handle),
            final(self).end() == old(self).end(),
    {
        if handle.on_heap {
            proof {
                lemma_block(old(self), handle.address);
            }
            if self.next - handle.address == layout.size() {
                self.next = handle.address;
            }
            self.blocks = Ghost(self.blocks@.remove(handle.address));
            proof {
                lemma_freed(old(self), self, handle.address);
            }
        }
    }

    fn grow(&mut self, old_layout: Layout, new_layout: Layout, handle: Self::Handle) -> (r: Result<
        (Self::Handle, usize),
        StorageAllocError,
    >)
        ensures
            r is Ok && handle.on_heap && r.unwrap().0 != handle ==> !final(self).is_valid(handle),
    {
        self.realloc(old_layout, new_layout, handle)
    }

    fn shrink(&mut self, old_layout: Layout, new_layout: Layout, handle: Self::Handle) -> (r:
        Result<(Self::Handle, usize), StorageAllocError>)
        ensures
            r is Ok && handle.on_heap && r.unwrap().0 != handle ==> !final(self).is_valid(handle),
    {
        self.realloc(old_layout, new_layout, handle)
    }
}

impl MultipleStorage for Global {
    proof fn lemma_multiple() {
    }
}

/// A heap keeps every allocation apart from the others, so that a copy of
/// it can be handed to each of several owners.
impl ShareableStorage for Global {
    fn make_shared_copy(&self) -> (copy: Self) {
        *self
    }
}

} // verus!
