//! A UTF-8 string over a storage.

use vstd::prelude::*;
use vstd::string::StringSliceAdditionalSpecFns;
use vstd::utf8::{decode_utf8, encode_utf8, valid_utf8};
use crate::error::StorageAllocError;
use crate::global_storage::{Global, HEAP_BASE};
use crate::layout::{
    align_offset,
    array_fits,
    array_size,
    elements_in,
    max_size_for_align,
    Layout,
};
use crate::storage::Storage;
use crate::storage_box::Box;
use crate::storage_vec::Vec;

verus! {

/// The encoding of two strings, one after the other, is the encoding of
/// the first followed by that of the second.
pub proof fn lemma_encode_concat(first: Seq<char>, second: Seq<char>)
    ensures
        encode_utf8(first + second) == encode_utf8(first) + encode_utf8(second),
    decreases first.len(),
{
    if first.len() == 0 {
        assert(first + second =~= second);
        assert(encode_utf8(first) + encode_utf8(second) =~= encode_utf8(second));
    } else {
        lemma_encode_concat(first.drop_first(), second);
        assert((first + second).drop_first() =~= first.drop_first() + second);
        assert(encode_utf8(first + second) =~= encode_utf8(first) + encode_utf8(second));
    }
}

/// Valid UTF-8 followed by valid UTF-8 is valid UTF-8, and it decodes to
/// what the first part decodes to followed by what the second does.
pub proof fn lemma_decode_concat(first: Seq<u8>, second: Seq<u8>)
    requires
        valid_utf8(first),
        valid_utf8(second),
    ensures
        valid_utf8(first + second),
        decode_utf8(first + second) == decode_utf8(first) + decode_utf8(second),
{
    vstd::utf8::valid_utf8_concat(first, second);
    vstd::utf8::decode_utf8_encode_utf8(first);
    vstd::utf8::decode_utf8_encode_utf8(second);
    lemma_encode_concat(decode_utf8(first), decode_utf8(second));
    vstd::utf8::encode_utf8_decode_utf8(decode_utf8(first) + decode_utf8(second));
}

/// A heap that holds nothing yet and ends where the address space ends
/// allocates `n` bytes exactly where `n` bytes have a layout, which is where
/// there are no more of them than `isize::MAX`.
pub proof fn lemma_fresh_heap_has_room(heap: &Global, n: nat)
    requires
        heap.next() == HEAP_BASE,
        heap.end() == usize::MAX,
    ensures
        array_fits::<u8>(n) <==> n <= isize::MAX,
        array_fits::<u8>(n) ==> {
            let issued = heap.allocate_spec(Layout::spec_array::<u8>(n));
            &&& issued is Some
            &&& issued.unwrap().1 == n
            &&& elements_in(n, vstd::layout::size_of::<u8>()) == n
        },
{
    broadcast use vstd::layout::layout_of_primitives, vstd::layout::align_of_u8;
    broadcast use Layout::lemma_of;

    assert(array_size::<u8>(n) == n) by (nonlinear_arith)
        requires
            array_size::<u8>(n) == n * vstd::layout::size_of::<u8>(),
            vstd::layout::size_of::<u8>() == 1,
    {
    }
    assert(max_size_for_align(1) == isize::MAX);
    if array_fits::<u8>(n) {
        assert(align_offset(HEAP_BASE as nat, 1) == 0);
    }
}

/// Encodes `c` as UTF-8 and lends it as a string.
///
/// This is `char::encode_utf8` of std, which writes the encoding into the
/// buffer and returns the part it has written as a string slice. That this
/// string is the one character `c` is stated here and not proved.
#[verifier::external_body]
fn encode_char(c: char, buffer: &mut [u8; 4]) -> (s: &str)
    ensures
        s@ == seq![c],
{
    c.encode_utf8(buffer)
}

/// Reads bytes as a string.
///
/// This is `core::str::from_utf8` of std, which checks that the bytes are
/// valid UTF-8 and returns them as a string slice if they are. That it
/// succeeds on valid UTF-8, and that the bytes of the string are the bytes
/// given, is stated here and not proved.
#[verifier::external_body]
fn str_from_utf8(bytes: &[u8]) -> (r: Option<&str>)
    ensures
        valid_utf8(bytes@) ==> r is Some,
        r matches Some(s) ==> s.spec_bytes() == bytes@,
{
    core::str::from_utf8(bytes).ok()
}

/// Reads bytes as a string that can be changed where it lies.
///
/// This is `core::str::from_utf8_mut` of std, which checks that the bytes
/// are valid UTF-8 and lends them as a string slice if they are: the slice is
/// the bytes themselves, so that what the borrower leaves in the slice is what
/// is left in the bytes, and as many of them. That it succeeds on valid
/// UTF-8, that the bytes of the string are the bytes given, and that they
/// stay as many, is stated here and not proved.
#[verifier::external_body]
fn str_from_utf8_mut(bytes: &mut [u8]) -> (r: Option<&mut str>)
    ensures
        valid_utf8(old(bytes)@) ==> r is Some,
        r matches Some(s) ==> {
            &&& s.spec_bytes() == old(bytes)@
            &&& final(s).spec_bytes() == final(bytes)@
            &&& final(s).spec_bytes().len() == s.spec_bytes().len()
        },
        r is None ==> final(bytes)@ == old(bytes)@,
{
    core::str::from_utf8_mut(bytes).ok()
}

/// Turns owned bytes into an owned string.
///
/// This is `String::from_utf8` of std, which checks that the bytes are
/// valid UTF-8 and takes them over as they are if that is so. That it
/// succeeds on valid UTF-8, and that the string is what the bytes decode to,
/// is stated here and not proved.
#[verifier::external_body]
fn string_from_utf8(bytes: std::vec::Vec<u8>) -> (r: Option<std::string::String>)
    ensures
        valid_utf8(bytes@) ==> r is Some,
        r matches Some(s) ==> s@ == decode_utf8(bytes@),
{
    std::string::String::from_utf8(bytes).ok()
}

/// A wrapper around a [`Vec`] of bytes that is guaranteed to be valid
/// UTF-8, so that it can be lent as a `str`.
pub struct String<S: Storage = Global> {
    vec: Vec<u8, S>,
}

impl<S: Storage> View for String<S> {
    type V = Seq<char>;

    /// The characters of the string.
    closed spec fn view(&self) -> Seq<char> {
        decode_utf8(self.vec@)
    }
}

impl<S: Storage> String<S> {
    /// The vec that holds the bytes of the string.
    pub closed spec fn vec(&self) -> Vec<u8, S> {
        self.vec
    }

    /// The bytes of the string.
    pub open spec fn bytes(&self) -> Seq<u8> {
        self.vec()@
    }

    /// The characters of a string are what its bytes decode to.
    pub broadcast proof fn lemma_view(&self)
        ensures
            #[trigger] self@ == decode_utf8(self.bytes()),
    {
    }

    /// The invariant: the vec is in order and its bytes are valid UTF-8.
    pub open spec fn wf(&self) -> bool {
        self.vec().wf() && valid_utf8(self.bytes())
    }

    /// What constructing a string with room for `capacity` bytes in
    /// `storage` comes to: what constructing the vec of its bytes comes to,
    /// and a string in order.
    pub open spec fn made(capacity: usize, storage: S, r: Result<Self, StorageAllocError>) -> bool {
        match r {
            Ok(s) => s.wf() && Vec::<u8, S>::made(capacity, storage, Ok(s.vec())),
            Err(error) => Vec::<u8, S>::made(capacity, storage, Err(error)),
        }
    }

    /// Constructs a new string allocated in `storage`.
    ///
    /// This is the same as `with_capacity_in(0, storage)`.
    pub fn new_in(storage: S) -> (r: Result<Self, StorageAllocError>)
        requires
            storage.wf(),
        ensures
            Self::made(0, storage, r),
            r matches Ok(s) ==> s@ == Seq::<char>::empty(),
    {
        Self::with_capacity_in(0, storage)
    }

    /// Constructs a string with room for at least `capacity` bytes
    /// allocated in `storage`.
    ///
    /// The capacity of the result may be greater than `capacity`, because
    /// the storage may provide more room than was asked for.
    pub fn with_capacity_in(capacity: usize, storage: S) -> (r: Result<Self, StorageAllocError>)
        requires
            storage.wf(),
        ensures
            Self::made(capacity, storage, r),
            r matches Ok(s) ==> s@ == Seq::<char>::empty(),
    {
        let vec = Vec::with_capacity_in(capacity, storage)?;
        proof {
            reveal_with_fuel(valid_utf8, 1);
            reveal_with_fuel(decode_utf8, 1);
        }
        Ok(String { vec })
    }

    /// Constructs a string with the contents of `s`.
    pub fn from_str_in(s: &str, storage: S) -> (r: Result<Self, StorageAllocError>)
        requires
            storage.wf(),
        ensures
            r is Ok <==> array_fits::<u8>(s.spec_bytes().len()) && storage.allocate_spec(
                Layout::spec_array::<u8>(s.spec_bytes().len()),
            ) is Some,
            r matches Ok(string) ==> {
                let layout = Layout::spec_array::<u8>(s.spec_bytes().len());
                &&& string.wf()
                &&& string@ == s@
                &&& string.bytes() == s.spec_bytes()
                &&& string.vec().storage() == storage.allocated(layout)
                &&& storage.allocate_spec(layout) == Some(
                    (string.vec().handle(), storage.allocate_spec(layout).unwrap().1),
                )
                &&& string.vec().spec_capacity() == elements_in(
                    storage.allocate_spec(layout).unwrap().1 as nat,
                    vstd::layout::size_of::<u8>(),
                )
            },
    {
        let mut string = Self::with_capacity_in(s.len(), storage)?;
        proof {
            assert(string.vec().reserve_spec(s.spec_bytes().len() as usize) is Some);
        }
        match string.push_str(s) {
            Ok(_) => {},
            Err(error) => {
                return Err(error);
            },
        }
        proof {
            assert(Seq::<u8>::empty() + s.spec_bytes() =~= s.spec_bytes());
            assert(Seq::<char>::empty() + s@ =~= s@);
        }
        Ok(string)
    }

    /// Returns the total number of bytes that this string can hold before
    /// it reallocates.
    pub fn capacity(&self) -> (r: usize)
        ensures
            r == self.vec().spec_capacity(),
    {
        self.vec.capacity()
    }

    /// Reconstructs a string from a storage, a handle, the bytes and the
    /// capacity.
    ///
    /// The opposite of [`String::into_raw_parts`]. The parts must be those
    /// of a vec of bytes, and the bytes must be valid UTF-8.
    pub fn from_raw_parts(
        storage: S,
        handle: S::Handle,
        bytes: std::vec::Vec<u8>,
        capacity: usize,
    ) -> (r: Self)
        requires
            storage.wf(),
            storage.is_valid(handle),
            storage.alignment(handle) == vstd::layout::align_of::<u8>(),
            crate::layout::array_size::<u8>(capacity as nat) <= storage.usable_size(handle)
                <= isize::MAX,
            bytes@.len() <= capacity,
            valid_utf8(bytes@),
        ensures
            r.wf(),
            r.vec() == Vec::<u8, S>::spec_from_raw_parts((storage, handle, bytes, capacity)),
            r.bytes() == bytes@,
    {
        broadcast use Vec::lemma_from_raw_parts;

        String { vec: Vec::from_raw_parts(storage, handle, bytes, capacity) }
    }

    /// Splits the string into its storage, its handle, its bytes and its
    /// capacity.
    ///
    /// The opposite of [`String::from_raw_parts`].
    pub fn into_raw_parts(self) -> (r: (S, S::Handle, std::vec::Vec<u8>, usize))
        ensures
            r == self.vec().spec_into_raw_parts(),
    {
        self.vec.into_raw_parts()
    }

    /// See [`Vec::reserve_exact`].
    pub fn reserve_exact(&mut self, extra_capacity: usize) -> (r: Result<(), StorageAllocError>)
        requires
            old(self).wf(),
        ensures
            r is Ok <==> old(self).vec().reserve_exact_spec(extra_capacity) is Some,
            r is Ok ==> {
                &&& final(self).wf()
                &&& final(self).bytes() == old(self).bytes()
                &&& final(self)@ == old(self)@
                &&& old(self).vec().reserve_exact_spec(extra_capacity) == Some(
                    (
                        final(self).vec().storage(),
                        final(self).vec().handle(),
                        final(self).vec().spec_capacity(),
                    ),
                )
                &&& final(self).vec().spec_capacity() >= old(self).bytes().len() + extra_capacity
            },
            r is Err ==> *final(self) == *old(self),
    {
        self.vec.reserve_exact(extra_capacity)
    }

    /// See [`Vec::reserve`].
    pub fn reserve(&mut self, extra_capacity: usize) -> (r: Result<(), StorageAllocError>)
        requires
            old(self).wf(),
        ensures
            r is Ok <==> old(self).vec().reserve_spec(extra_capacity) is Some,
            r is Ok ==> {
                &&& final(self).wf()
                &&& final(self).bytes() == old(self).bytes()
                &&& final(self)@ == old(self)@
                &&& old(self).vec().reserve_spec(extra_capacity) == Some(
                    (
                        final(self).vec().storage(),
                        final(self).vec().handle(),
                        final(self).vec().spec_capacity(),
                    ),
                )
                &&& final(self).vec().spec_capacity() >= old(self).bytes().len() + extra_capacity
            },
            r is Err ==> *final(self) == *old(self),
    {
        self.vec.reserve(extra_capacity)
    }

    /// See [`Vec::shrink_to_fit`].
    pub fn shrink_to_fit(&mut self) -> (r: Result<(), StorageAllocError>)
        requires
            old(self).wf(),
        ensures
            r is Ok <==> old(self).vec().shrink_to_fit_spec() is Some,
            r is Ok ==> {
                &&& final(self).wf()
                &&& final(self).bytes() == old(self).bytes()
                &&& final(self)@ == old(self)@
                &&& old(self).vec().shrink_to_fit_spec() == Some(
                    (
                        final(self).vec().storage(),
                        final(self).vec().handle(),
                        final(self).vec().spec_capacity(),
                    ),
                )
            },
            r is Err ==> *final(self) == *old(self),
    {
        self.vec.shrink_to_fit()
    }

    /// Converts the string to a box over its characters, discarding any
    /// extra capacity.
    pub fn into_boxed_str(self) -> (r: Result<Box<std::string::String, S>, StorageAllocError>)
        requires
            self.wf(),
        ensures
            r is Ok <==> self.vec().shrink_to_fit_spec() is Some,
            r matches Ok(b) ==> {
                &&& b.wf()
                &&& b@@ == self@
                &&& b.storage() == self.vec().shrink_to_fit_spec().unwrap().0
                &&& b.handle() == self.vec().shrink_to_fit_spec().unwrap().1
                &&& b.metadata() == Layout::spec_array::<u8>(self.bytes().len())
            },
    {
        broadcast use Box::lemma_raw_parts, Box::lemma_from_raw_parts;

        let (storage, handle, metadata, bytes) = Box::into_raw_parts(self.vec.into_boxed_slice()?);
        match string_from_utf8(bytes) {
            Some(string) => Ok(Box::from_raw_parts(storage, handle, metadata, string)),
            // not reached: the bytes of a string read as one
            None => Err(StorageAllocError),
        }
    }

    /// Encodes `c` as UTF-8 and pushes its bytes onto the end of the
    /// string. Returns the part of the string that was added.
    pub fn push(&mut self, c: char) -> (r: Result<&str, StorageAllocError>)
        requires
            old(self).wf(),
        ensures
            r is Ok <==> old(self).vec().reserve_spec(encode_utf8(seq![c]).len() as usize)
                is Some,
            match r {
                Ok(added) => {
                    &&& added@ == seq![c]
                    &&& final(self).wf()
                    &&& final(self).bytes() == old(self).bytes() + encode_utf8(seq![c])
                    &&& final(self)@ == old(self)@.push(c)
                    &&& old(self).vec().reserve_spec(encode_utf8(seq![c]).len() as usize) == Some(
                        (
                            final(self).vec().storage(),
                            final(self).vec().handle(),
                            final(self).vec().spec_capacity(),
                        ),
                    )
                },
                Err(_) => *final(self) == *old(self),
            },
    {
        let mut buffer: [u8; 4] = [0, 0, 0, 0];
        let encoded = encode_char(c, &mut buffer);
        proof {
            assert(old(self)@ + seq![c] =~= old(self)@.push(c));
        }
        self.push_str(encoded)
    }

    /// Pushes the bytes of `s` onto the end of the string. Returns the part
    /// of the string that was added.
    ///
    /// Either the string is extended by `s` and is valid UTF-8 as before,
    /// or the call fails and the string is, byte for byte, what it was.
    pub fn push_str(&mut self, s: &str) -> (r: Result<&str, StorageAllocError>)
        requires
            old(self).wf(),
        ensures
            r is Ok <==> old(self).vec().reserve_spec(s.spec_bytes().len() as usize) is Some,
            match r {
                Ok(added) => {
                    &&& added@ == s@
                    &&& final(self).wf()
                    &&& final(self).bytes() == old(self).bytes() + s.spec_bytes()
                    &&& final(self)@ == old(self)@ + s@
                    &&& old(self).vec().reserve_spec(s.spec_bytes().len() as usize) == Some(
                        (
                            final(self).vec().storage(),
                            final(self).vec().handle(),
                            final(self).vec().spec_capacity(),
                        ),
                    )
                },
                Err(_) => *final(self) == *old(self),
            },
    {
        broadcast use vstd::utf8::encode_utf8_valid_utf8, vstd::utf8::encode_utf8_decode_utf8;

        let index: usize = self.vec.as_slice().len();
        proof {
            lemma_decode_concat(old(self).bytes(), s.spec_bytes());
        }
        match self.vec.extend_from_slice(s.as_bytes()) {
            Ok(_) => {},
            Err(error) => {
                return Err(error);
            },
        }
        let all = self.vec.as_slice();
        let tail = vstd::slice::slice_subrange(all, index, all.len());
        proof {
            assert(tail@ =~= s.spec_bytes());
        }
        match str_from_utf8(tail) {
            Some(added) => {
                proof {
                    vstd::utf8::decode_utf8_encode_utf8(added.spec_bytes());
                    assert(encode_utf8(added@) == encode_utf8(s@));
                    vstd::utf8::encode_utf8_decode_utf8(added@);
                    vstd::utf8::encode_utf8_decode_utf8(s@);
                }
                Ok(added)
            },
            // not reached: the bytes of a string read as one
            None => Ok(""),
        }
    }

    /// Returns a mutable string slice referencing this string.
    ///
    /// Whatever the borrower leaves in the slice is a string of as many
    /// bytes, and is what the string holds from then on.
    pub fn as_mut_str(&mut self) -> (r: &mut str)
        requires
            old(self).wf(),
        ensures
            r@ == old(self)@,
            r.spec_bytes() == old(self).bytes(),
            final(self).bytes() == final(r).spec_bytes(),
            final(self)@ == final(r)@,
            final(self).wf(),
            final(self).vec().spec_capacity() == old(self).vec().spec_capacity(),
            final(self).vec().handle() == old(self).vec().handle(),
            final(self).vec().storage() == old(self).vec().storage(),
    {
        broadcast use vstd::utf8::encode_utf8_valid_utf8, vstd::utf8::encode_utf8_decode_utf8;

        match str_from_utf8_mut(self.vec.as_mut_slice()) {
            Some(s) => s,
            None => vstd::pervasive::unreached(),
        }
    }

    /// Returns a string slice referencing this string.
    pub fn as_str(&self) -> (r: &str)
        ensures
            self.wf() ==> r@ == self@ && r.spec_bytes() == self.bytes(),
    {
        match str_from_utf8(self.vec.as_slice()) {
            Some(s) => {
                proof {
                    vstd::utf8::encode_utf8_decode_utf8(s@);
                }
                s
            },
            None => "",
        }
    }
}

impl<S: Storage> core::ops::Deref for String<S> {
    type Target = str;

    fn deref(&self) -> (r: &str)
        ensures
            self.wf() ==> r@ == self@ && r.spec_bytes() == self.bytes(),
    {
        self.as_str()
    }
}

impl core::str::FromStr for String<Global> {
    type Err = StorageAllocError;

    /// [`String::from_str_in`] with a heap of its own.
    ///
    /// A heap that holds nothing yet and ends where the address space ends
    /// has room for every run of bytes that has a layout: the call succeeds
    /// exactly where `s` is no longer than an allocation may be, and the
    /// string then holds the bytes of `s`.
    fn from_str(s: &str) -> (r: Result<Self, StorageAllocError>)
        ensures
            r is Ok <==> s.spec_bytes().len() <= isize::MAX,
            r matches Ok(string) ==> {
                &&& string.wf()
                &&& string@ == s@
                &&& string.bytes() == s.spec_bytes()
                &&& string.vec().spec_capacity() == s.spec_bytes().len()
            },
    {
        let storage = Global::default();
        proof {
            lemma_fresh_heap_has_room(&storage, s.spec_bytes().len());
        }
        Self::from_str_in(s, storage)
    }
}

impl String<Global> {
    /// [`String::new_in`] with a heap of its own.
    ///
    /// This is the same as `with_capacity(0)`.
    pub fn new() -> (r: Result<Self, StorageAllocError>)
        ensures
            exists|storage: Global|
                call_ensures(Global::default, (), storage) && Self::made(0, storage, r),
            r matches Ok(s) ==> s@ == Seq::<char>::empty(),
    {
        Self::new_in(Global::default())
    }

    /// [`String::with_capacity_in`] with a heap of its own.
    pub fn with_capacity(capacity: usize) -> (r: Result<Self, StorageAllocError>)
        ensures
            exists|storage: Global|
                call_ensures(Global::default, (), storage) && Self::made(capacity, storage, r),
            r matches Ok(s) ==> s@ == Seq::<char>::empty(),
    {
        Self::with_capacity_in(capacity, Global::default())
    }
}

} // verus!
