//! Size and alignment of a requested region of memory.

use vstd::prelude::*;
use vstd::arithmetic::power2::is_pow2;
use vstd::layout::{align_of, size_of, valid_layout};

verus! {

/// The largest size a region aligned to `align` may have: rounding the size
/// up to a multiple of `align` must not exceed `isize::MAX`.
pub open spec fn max_size_for_align(align: usize) -> int {
    isize::MAX as int - (isize::MAX as int % align as int)
}

/// A (size, alignment) pair describing a requested region.
///
/// The alignment is a power of two and the size, rounded up to the alignment,
/// fits the address space.
#[derive(Clone, Copy, Debug, PartialEq, Eq, Structural)]
pub struct Layout {
    size: usize,
    align: usize,
}

/// Whether `n` is a power of two, decided by halving.
pub fn is_power_of_two(n: usize) -> (r: bool)
    ensures
        r == is_pow2(n as int),
{
    if n == 0 {
        proof {
            reveal(is_pow2);
        }
        return false;
    }
    let mut m: usize = n;
    while m % 2 == 0
        invariant
            m > 0,
            is_pow2(m as int) == is_pow2(n as int),
        decreases m,
    {
        proof {
            reveal(is_pow2);
        }
        m = m / 2;
    }
    proof {
        reveal(is_pow2);
    }
    m == 1
}

impl Layout {
    /// The size in bytes.
    pub closed spec fn spec_size(&self) -> usize {
        self.size
    }

    /// The alignment in bytes.
    pub closed spec fn spec_align(&self) -> usize {
        self.align
    }

    /// The invariant of every layout an executable function handles.
    #[verifier::type_invariant]
    pub open spec fn wf(&self) -> bool {
        valid_layout(self.spec_size(), self.spec_align())
    }

    /// The layout with the given size and alignment, if there is one.
    pub fn from_size_align(size: usize, align: usize) -> (r: Option<Layout>)
        ensures
            r is Some <==> valid_layout(size, align),
            r matches Some(l) ==> l.spec_size() == size && l.spec_align() == align && l.wf(),
    {
        if !is_power_of_two(align) {
            return None;
        }
        proof {
            reveal(is_pow2);
            vstd::arithmetic::div_mod::lemma_mod_decreases(isize::MAX as nat, align as nat);
        }
        let limit: usize = (isize::MAX as usize) - ((isize::MAX as usize) % align);
        if size > limit {
            return None;
        }
        Some(Layout { size, align })
    }

    /// The size in bytes.
    #[verifier::when_used_as_spec(spec_size)]
    pub fn size(&self) -> (r: usize)
        ensures
            r == self.spec_size(),
    {
        self.size
    }

    /// The alignment in bytes.
    #[verifier::when_used_as_spec(spec_align)]
    pub fn align(&self) -> (r: usize)
        ensures
            r == self.spec_align(),
            is_pow2(r as int),
            self.wf(),
    {
        proof {
            use_type_invariant(self);
        }
        self.align
    }
}

/// The number of bytes `n` consecutive values of `T` occupy.
pub open spec fn array_size<T>(n: nat) -> nat {
    n * size_of::<T>()
}

/// Whether `n` consecutive values of `T` have a layout.
pub open spec fn array_fits<T>(n: nat) -> bool {
    array_size::<T>(n) <= max_size_for_align(align_of::<T>() as usize)
}

/// What every type that executable code handles has: a size and an
/// alignment that form a layout, the size a multiple of the alignment.
pub open spec fn sized<T>() -> bool {
    &&& size_of::<T>() <= isize::MAX
    &&& 0 < align_of::<T>() <= usize::MAX
    &&& is_pow2(align_of::<T>() as int)
    &&& size_of::<T>() % align_of::<T>() == 0
    &&& valid_layout(size_of::<T>() as usize, align_of::<T>() as usize)
}

/// The number of values of `size` bytes each that fit into `bytes` bytes.
/// Of a value that takes no room, as many fit as can be counted.
pub open spec fn elements_in(bytes: nat, size: nat) -> nat {
    if size == 0 {
        usize::MAX as nat
    } else {
        bytes / size
    }
}

/// As many values as fit into `bytes` do fit, and no count that fits is
/// greater.
pub proof fn lemma_elements_in(bytes: nat, size: nat)
    ensures
        elements_in(bytes, size) * size <= bytes,
        forall|n: nat| n <= usize::MAX && #[trigger] (n * size) <= bytes ==> n <= elements_in(bytes, size),
        bytes <= usize::MAX ==> elements_in(bytes, size) <= usize::MAX,
{
    if size == 0 {
        assert(elements_in(bytes, size) * size == 0) by (nonlinear_arith)
            requires
                size == 0,
        {
        }
    } else {
        vstd::arithmetic::div_mod::lemma_fundamental_div_mod(bytes as int, size as int);
        vstd::arithmetic::div_mod::lemma_div_pos_is_pos(bytes as int, size as int);
        assert((bytes / size) * size == size * (bytes / size)) by (nonlinear_arith);
        assert forall|n: nat| n <= usize::MAX && #[trigger] (n * size) <= bytes implies n
            <= elements_in(bytes, size) by {
            vstd::arithmetic::div_mod::lemma_div_is_ordered((n * size) as int, bytes as int, size as int);
            vstd::arithmetic::div_mod::lemma_div_multiples_vanish(n as int, size as int);
        }
        if bytes <= usize::MAX {
            vstd::arithmetic::div_mod::lemma_div_is_ordered_by_denominator(bytes as int, 1, size as int);
        }
    }
}

/// Values of `T` that fit into a region no larger than a layout may be have
/// an array layout.
pub proof fn lemma_array_fits<T>(n: nat, usable: nat)
    requires
        sized::<T>(),
        array_size::<T>(n) <= usable <= isize::MAX,
    ensures
        array_fits::<T>(n),
{
    let size = size_of::<T>() as int;
    let align = align_of::<T>() as int;
    let most = isize::MAX as int;
    vstd::arithmetic::div_mod::lemma_fundamental_div_mod(size, align);
    vstd::arithmetic::div_mod::lemma_fundamental_div_mod(most, align);
    let total = n as int * size;
    let k = n as int * (size / align);
    assert(total == align * k) by (nonlinear_arith)
        requires
            total == n as int * size,
            size == align * (size / align),
            k == n as int * (size / align),
    {
    }
    // `total` is a multiple of `align` that does not exceed `most`
    assert(k <= most / align) by {
        vstd::arithmetic::div_mod::lemma_div_is_ordered(total, most, align);
        vstd::arithmetic::div_mod::lemma_div_multiples_vanish(k, align);
        assert(align * k == k * align) by (nonlinear_arith);
    }
    assert(align * k <= align * (most / align)) by (nonlinear_arith)
        requires
            k <= most / align,
            align > 0,
    {
    }
}

impl Layout {
    /// The layout with the given size and alignment.
    pub closed spec fn of(size: usize, align: usize) -> Layout {
        Layout { size, align }
    }

    /// A layout made of a size and an alignment has that size and alignment.
    pub broadcast proof fn lemma_of(size: usize, align: usize)
        ensures
            (#[trigger] Layout::of(size, align)).spec_size() == size,
            Layout::of(size, align).spec_align() == align,
    {
    }

    /// The layout of a single `T`.
    pub open spec fn spec_new<T>() -> Layout {
        Layout::of(size_of::<T>() as usize, align_of::<T>() as usize)
    }

    /// The layout of `n` consecutive values of `T`.
    pub open spec fn spec_array<T>(n: nat) -> Layout {
        Layout::of(array_size::<T>(n) as usize, align_of::<T>() as usize)
    }

    /// The layout of a single `T`.
    pub fn new<T>() -> (r: Layout)
        ensures
            r.wf(),
            r == Layout::spec_new::<T>(),
            r.spec_size() as nat == size_of::<T>(),
            r.spec_align() as nat == align_of::<T>(),
            sized::<T>(),
    {
        vstd::layout::layout_for_type_is_valid::<T>();
        let size: usize = core::mem::size_of::<T>();
        let align: usize = core::mem::align_of::<T>();
        proof {
            broadcast use vstd::layout::align_properties;

            reveal(is_pow2);
            vstd::arithmetic::div_mod::lemma_mod_decreases(isize::MAX as nat, align as nat);
        }
        Layout { size, align }
    }

    /// The layout of `n` consecutive values of `T`, unless their size
    /// overflows what a layout may hold.
    pub fn array<T>(n: usize) -> (r: Option<Layout>)
        ensures
            r is Some <==> array_fits::<T>(n as nat),
            r matches Some(l) ==> {
                &&& l.wf()
                &&& l == Layout::spec_array::<T>(n as nat)
                &&& l.spec_size() as nat == array_size::<T>(n as nat)
                &&& l.spec_align() as nat == align_of::<T>()
            },
            sized::<T>(),
    {
        let one = Layout::new::<T>();
        let size: usize = core::mem::size_of::<T>();
        let align: usize = core::mem::align_of::<T>();
        proof {
            reveal(is_pow2);
            vstd::arithmetic::div_mod::lemma_mod_decreases(isize::MAX as nat, align as nat);
        }
        let limit: usize = (isize::MAX as usize) - ((isize::MAX as usize) % align);
        match size.checked_mul(n) {
            Some(total) => {
                assert(total as nat == array_size::<T>(n as nat)) by (nonlinear_arith)
                    requires
                        total == size * n,
                        size as nat == size_of::<T>(),
                {
                }
                if total <= limit {
                    Some(Layout { size: total, align })
                } else {
                    None
                }
            },
            None => {
                assert(array_size::<T>(n as nat) > usize::MAX) by (nonlinear_arith)
                    requires
                        size * n > usize::MAX,
                        size as nat == size_of::<T>(),
                {
                }
                None
            },
        }
    }
}

/// A power of two divides every power of two that is not smaller.
pub proof fn lemma_pow2_divides(small: int, large: int)
    requires
        is_pow2(small),
        is_pow2(large),
        small <= large,
    ensures
        large % small == 0,
    decreases large,
{
    reveal(is_pow2);
    if small == 1 {
        assert(large % 1 == 0);
    } else {
        lemma_pow2_divides(small / 2, large / 2);
        vstd::arithmetic::div_mod::lemma_fundamental_div_mod(large / 2, small / 2);
        let q = (large / 2) / (small / 2);
        assert(large == q * small) by (nonlinear_arith)
            requires
                large == 2 * (large / 2),
                small == 2 * (small / 2),
                large / 2 == (small / 2) * q,
        {
        }
        vstd::arithmetic::div_mod::lemma_mod_multiples_basic(q, small);
    }
}

/// Whether `address` is a multiple of `align`.
pub open spec fn is_aligned(address: nat, align: nat) -> bool {
    address % align == 0
}

/// The distance from `address` up to the next multiple of `align`.
pub open spec fn align_offset(address: nat, align: nat) -> nat {
    ((align - address % align) % (align as int)) as nat
}

/// `align_offset` is the least distance to an aligned address.
pub proof fn lemma_align_offset(address: nat, align: nat)
    requires
        align > 0,
    ensures
        align_offset(address, align) < align,
        is_aligned(address + align_offset(address, align), align),
        forall|k: nat| k < align_offset(address, align) ==> !#[trigger] is_aligned(address + k, align),
{
    let a = align as int;
    let rem = (address % align) as int;
    vstd::arithmetic::div_mod::lemma_fundamental_div_mod(address as int, a);
    let q = address as int / a;
    if rem == 0 {
        assert(a % a == 0) by {
            vstd::arithmetic::div_mod::lemma_mod_self_0(a);
        }
    } else {
        vstd::arithmetic::div_mod::lemma_small_mod((a - rem) as nat, align);
        assert(address + (a - rem) == (q + 1) * a) by (nonlinear_arith)
            requires
                address == a * q + rem,
        {
        }
        vstd::arithmetic::div_mod::lemma_mod_multiples_basic(q + 1, a);
        assert forall|k: nat| k < align_offset(address, align) implies !#[trigger] is_aligned(
            address + k,
            align,
        ) by {
            assert(address + k == a * q + (rem + k)) by (nonlinear_arith)
                requires
                    address == a * q + rem,
            {
            }
            vstd::arithmetic::div_mod::lemma_mod_multiples_vanish(q, rem + k, a);
            vstd::arithmetic::div_mod::lemma_small_mod((rem + k) as nat, align);
        }
    }
}

/// Computes the distance from `address` up to the next multiple of `align`.
pub fn offset_to_align(address: usize, align: usize) -> (r: usize)
    requires
        align > 0,
    ensures
        r == align_offset(address as nat, align as nat),
{
    let rem: usize = address % align;
    if rem == 0 {
        proof {
            vstd::arithmetic::div_mod::lemma_mod_self_0(align as int);
        }
        0
    } else {
        proof {
            vstd::arithmetic::div_mod::lemma_small_mod((align - rem) as nat, align as nat);
        }
        align - rem
    }
}

} // verus!
