use std::marker::PhantomData;
use vstd::prelude::*;
use vstd::slice::slice_subrange;

use crate::error::{ParseError, ReadEof};

verus! {

/// Big-endian unsigned 32-bit integer: four bytes, most significant first.
#[derive(Clone, Copy)]
pub struct U32Be;

/// The number of bytes of a `u32`.
pub const U32_SIZE: usize = 4;

/// The value of four bytes read most significant first.
pub open spec fn be_u32(b: Seq<u8>) -> u32 {
    (b[0] as int * 0x1000000 + b[1] as int * 0x10000 + b[2] as int * 0x100 + b[3] as int) as u32
}

/// An immutable view of a byte range, remembering where the range starts in
/// the buffer it was carved from.
#[derive(Clone, Copy, Debug, PartialEq)]
pub struct ReadScope<'a> {
    base: usize,
    data: &'a [u8],
}

impl<'a> ReadScope<'a> {
    /// The absolute position of the first byte of the scope.
    pub closed spec fn base_pos(&self) -> nat {
        self.base as nat
    }

    /// The bytes that the scope covers.
    pub closed spec fn bytes(&self) -> Seq<u8> {
        self.data@
    }

    /// The absolute range `base .. base + len` is always representable.
    #[verifier::type_invariant]
    closed spec fn inv(&self) -> bool {
        self.base + self.data@.len() <= usize::MAX
    }

    /// The outcome that `offset_length(offset, length)` has on a scope of
    /// `n` bytes, as an error, or `None` where it succeeds.
    pub open spec fn offset_length_error(n: nat, offset: nat, length: nat) -> Option<ParseError> {
        if offset > n || (offset == n && length > 0) {
            Some(ParseError::BadOffset)
        } else if offset + length > n {
            Some(ParseError::BadEof)
        } else {
            None
        }
    }

    /// A scope at absolute position 0 over the whole of `data`.
    pub fn new(data: &'a [u8]) -> (r: ReadScope<'a>)
        ensures
            r.base_pos() == 0,
            r.bytes() == data@,
    {
        let base: usize = 0;
        proof {
            assert(data@.len() == data.len());
        }
        ReadScope { base, data }
    }

    /// The sub-scope of `length` bytes that starts `offset` bytes into this
    /// one. An empty sub-scope may start at the very end.
    pub fn offset_length(&self, offset: usize, length: usize) -> (r: Result<ReadScope<'a>, ParseError>)
        ensures
            match Self::offset_length_error(self.bytes().len(), offset as nat, length as nat) {
                Some(e) => r == Err::<ReadScope<'a>, ParseError>(e),
                None => r is Ok,
            },
            r matches Ok(s) ==> {
                &&& s.base_pos() == self.base_pos() + offset
                &&& s.bytes() == self.bytes().subrange(offset as int, offset + length)
            },
    {
        proof {
            use_type_invariant(self);
        }
        if offset < self.data.len() || (length == 0 && offset == self.data.len()) {
            let rest = self.data.len() - offset;
            if length <= rest {
                let base = self.base + offset;
                let data = slice_subrange(self.data, offset, offset + length);
                Ok(ReadScope { base, data })
            } else {
                Err(ParseError::BadEof)
            }
        } else {
            Err(ParseError::BadOffset)
        }
    }

    /// The absolute position of the first byte, for diagnostics.
    pub fn base(&self) -> (r: usize)
        ensures
            r == self.base_pos(),
    {
        self.base
    }

    /// The bytes that the scope covers, without copying them.
    pub fn data(&self) -> (r: &'a [u8])
        ensures
            r@ == self.bytes(),
    {
        self.data
    }

    /// A cursor at the start of this scope.
    pub fn ctxt(&self) -> (r: ReadCtxt<'a>)
        ensures
            r.scope_spec() == *self,
            r.pos() == 0,
    {
        ReadCtxt::new(*self)
    }
}

/// The outcomes of `offset_length` on a scope of `n` bytes: a range that
/// starts inside the scope and runs past its end is truncated; a non-empty
/// range that starts at or past the end has a bad offset; an empty range at
/// the very end is an empty scope.
pub proof fn lemma_offset_length_outcomes(n: nat, offset: nat, length: nat)
    ensures
        offset < n && offset + length > n ==> ReadScope::offset_length_error(n, offset, length) == Some(ParseError::BadEof),
        offset >= n && length > 0 ==> ReadScope::offset_length_error(n, offset, length) == Some(ParseError::BadOffset),
        length == 0 && offset == n ==> ReadScope::offset_length_error(n, offset, length) is None,
        offset + length <= n ==> ReadScope::offset_length_error(n, offset, length) is None,
{
}

/// A read position within a scope, advanced by each successful read.
#[derive(Clone, Copy)]
pub struct ReadCtxt<'a> {
    scope: ReadScope<'a>,
    offset: usize,
}

impl<'a> ReadCtxt<'a> {
    /// The scope that the cursor walks.
    pub closed spec fn scope_spec(&self) -> ReadScope<'a> {
        self.scope
    }

    /// The cursor's offset within its scope.
    pub closed spec fn pos(&self) -> nat {
        self.offset as nat
    }

    #[verifier::type_invariant]
    closed spec fn inv(&self) -> bool {
        self.offset <= self.scope.data@.len()
    }

    /// The number of bytes between the cursor and the end of its scope.
    pub open spec fn remaining(&self) -> int {
        self.scope_spec().bytes().len() - self.pos()
    }

    /// The bytes between the cursor and the end of its scope.
    pub open spec fn ahead(&self) -> Seq<u8> {
        self.scope_spec().bytes().subrange(self.pos() as int, self.scope_spec().bytes().len() as int)
    }

    fn new(scope: ReadScope<'a>) -> (r: ReadCtxt<'a>)
        ensures
            r.scope_spec() == scope,
            r.pos() == 0,
    {
        ReadCtxt { scope, offset: 0 }
    }

    /// The cursor's offset within its scope.
    pub fn offset(&self) -> (r: usize)
        ensures
            r == self.pos(),
    {
        self.offset
    }

    fn check_avail(&self, length: usize) -> (r: Result<(), ReadEof>)
        ensures
            r is Ok <==> length <= self.remaining(),
    {
        proof {
            use_type_invariant(self);
            use_type_invariant(&self.scope);
        }
        match self.offset.checked_add(length) {
            Some(endpos) => {
                if endpos <= self.scope.data.len() {
                    Ok(())
                } else {
                    Err(ReadEof {})
                }
            },
            None => Err(ReadEof {}),
        }
    }

    /// Takes the next `length` bytes as a scope of their own.
    pub fn read_scope(&mut self, length: usize) -> (r: Result<ReadScope<'a>, ReadEof>)
        ensures
            r is Ok <==> length <= old(self).remaining(),
            final(self).scope_spec() == old(self).scope_spec(),
            r matches Ok(s) ==> {
                &&& final(self).pos() == old(self).pos() + length
                &&& s.base_pos() == old(self).scope_spec().base_pos() + old(self).pos()
                &&& s.bytes() == old(self).ahead().subrange(0, length as int)
            },
            r is Err ==> final(self).pos() == old(self).pos(),
    {
        proof {
            use_type_invariant(&*self);
            use_type_invariant(&self.scope);
        }
        if let Ok(scope) = self.scope.offset_length(self.offset, length) {
            self.offset = self.offset + length;
            proof {
                assert(scope.bytes() =~= old(self).ahead().subrange(0, length as int));
            }
            Ok(scope)
        } else {
            Err(ReadEof {})
        }
    }

    /// Takes the next `length` elements of type `T` as a lazy array view.
    pub fn read_array<T: ReadUnchecked<'a>>(&mut self, length: usize) -> (r: Result<ReadArray<'a, T>, ParseError>)
        ensures
            r is Ok <==> length * T::spec_size() <= old(self).remaining(),
            r is Err ==> r == Err::<ReadArray<'a, T>, ParseError>(ParseError::BadEof),
            final(self).scope_spec() == old(self).scope_spec(),
            r matches Ok(a) ==> {
                &&& final(self).pos() == old(self).pos() + length * T::spec_size()
                &&& a.len_spec() == length
                &&& a.scope_spec().bytes() == old(self).ahead().subrange(0, length * T::spec_size())
            },
            r is Err ==> final(self).pos() == old(self).pos(),
    {
        let size = T::fixed_size();
        match length.checked_mul(size) {
            Some(n) => match self.read_scope(n) {
                Ok(scope) => Ok(ReadArray { scope, length, _item: PhantomData }),
                Err(e) => Err(ParseError::from(e)),
            },
            None => {
                proof {
                    use_type_invariant(&*self);
                    use_type_invariant(&self.scope);
                }
                Err(ParseError::BadEof)
            },
        }
    }

    fn read_unchecked_u32be(&mut self) -> (r: u32)
        requires
            U32_SIZE <= old(self).remaining(),
        ensures
            final(self).scope_spec() == old(self).scope_spec(),
            final(self).pos() == old(self).pos() + U32_SIZE,
            r == be_u32(old(self).ahead().subrange(0, U32_SIZE as int)),
    {
        proof {
            use_type_invariant(&*self);
        }
        let b0 = self.scope.data[self.offset] as u32;
        let b1 = self.scope.data[self.offset + 1] as u32;
        let b2 = self.scope.data[self.offset + 2] as u32;
        let b3 = self.scope.data[self.offset + 3] as u32;
        self.offset = self.offset + 4;
        proof {
            assert(b0 * 0x1000000 + b1 * 0x10000 + b2 * 0x100 + b3 <= 0xffffffff) by (nonlinear_arith)
                requires b0 <= 255, b1 <= 255, b2 <= 255, b3 <= 255;
        }
        b0 * 0x1000000 + b1 * 0x10000 + b2 * 0x100 + b3
    }
}

/// A run of `len` fixed-size elements of type `T`, decoded on demand.
pub struct ReadArray<'a, T: ReadUnchecked<'a>> {
    scope: ReadScope<'a>,
    length: usize,
    _item: PhantomData<T>,
}

impl<'a, T: ReadUnchecked<'a>> Clone for ReadArray<'a, T> {
    fn clone(&self) -> (r: Self)
        ensures
            r == *self,
    {
        proof {
            use_type_invariant(self);
        }
        ReadArray { scope: self.scope, length: self.length, _item: PhantomData }
    }
}

impl<'a, T: ReadUnchecked<'a>> ReadArray<'a, T> {
    /// The scope that holds the elements.
    pub closed spec fn scope_spec(&self) -> ReadScope<'a> {
        self.scope
    }

    /// The number of elements.
    pub closed spec fn len_spec(&self) -> nat {
        self.length as nat
    }

    /// The scope holds exactly `len` elements.
    #[verifier::type_invariant]
    closed spec fn inv(&self) -> bool {
        self.scope.data@.len() == self.length * T::spec_size()
    }

    /// Element `i`: what the `spec_size()` bytes at `i * spec_size()` decode to.
    pub open spec fn element(&self, i: int) -> T::HostType {
        T::decode(self.scope_spec().bytes().subrange(i * T::spec_size(), i * T::spec_size() + T::spec_size()))
    }

    /// The number of elements.
    pub fn len(&self) -> (r: usize)
        ensures
            r == self.len_spec(),
    {
        self.length
    }

    /// Whether the array has no elements.
    pub fn is_empty(&self) -> (r: bool)
        ensures
            r == (self.len_spec() == 0),
    {
        self.length == 0
    }

    /// A fresh iterator at the first element.
    pub fn iter(&self) -> (r: ReadArrayIter<'a, T>)
        ensures
            r.starts_over(self),
    {
        proof {
            use_type_invariant(self);
            use_type_invariant(&self.scope);
        }
        ReadArrayIter { ctxt: self.scope.ctxt(), length: self.length, phantom: PhantomData }
    }

    /// All the elements, in order, decoded by walking a fresh iterator.
    pub fn to_vec(&self) -> (r: Vec<T::HostType>)
        ensures
            r@.len() == self.len_spec(),
            forall|i: int| 0 <= i < r@.len() ==> r@[i] == self.element(i),
    {
        proof {
            use_type_invariant(self);
        }
        let mut it = self.iter();
        let mut out: Vec<T::HostType> = Vec::new();
        while it.length > 0
            invariant
                it.ctxt.scope == self.scope,
                it.length + out@.len() == self.length,
                it.ctxt.offset == out@.len() * T::spec_size(),
                self.scope.data@.len() == self.length * T::spec_size(),
                forall|i: int| 0 <= i < out@.len() ==> out@[i] == self.element(i),
            decreases it.length,
        {
            let ghost k = out@.len();
            let ghost before = it;
            match it.next() {
                Some(x) => {
                    proof {
                        let sz = T::spec_size() as int;
                        let k = k as int;
                        let n = self.length as int;
                        assert(k < n);
                        assert(k * sz + sz <= n * sz) by (nonlinear_arith)
                            requires k < n, sz >= 0;
                        assert((k + 1) * sz == k * sz + sz) by (nonlinear_arith);
                        assert(before.ctxt.ahead().subrange(0, sz as int)
                            =~= self.scope.data@.subrange(k * sz, k * sz + sz));
                        assert(x == self.element(k));
                    }
                    out.push(x);
                },
                None => {},
            }
        }
        out
    }
}

/// Each element of an array is what a checked read at its offset within the
/// array's scope gives.
pub proof fn lemma_element_is_direct_read<'a, T: ReadUnchecked<'a>>(a: ReadArray<'a, T>, i: int)
    requires
        0 <= i < a.len_spec(),
        a.scope_spec().bytes().len() == a.len_spec() * T::spec_size(),
    ensures
        checked_read::<T>(a.scope_spec().bytes().subrange(i * T::spec_size(), a.scope_spec().bytes().len() as int))
            == Ok::<(T::HostType, nat), ParseError>((a.element(i), T::spec_size())),
{
    let sz = T::spec_size() as int;
    let n = a.len_spec() as int;
    let bytes = a.scope_spec().bytes();
    assert(i * sz + sz <= n * sz) by (nonlinear_arith)
        requires i < n, sz >= 0;
    assert(bytes.subrange(i * sz, bytes.len() as int).subrange(0, sz) =~= bytes.subrange(i * sz, i * sz + sz));
}

/// Two iterators made from one array stand at the same place.
pub proof fn lemma_iter_fresh<'a, T: ReadUnchecked<'a>>(a: ReadArray<'a, T>, first: ReadArrayIter<'a, T>, second: ReadArrayIter<'a, T>)
    requires
        first.starts_over(&a),
        second.starts_over(&a),
    ensures
        first.ctxt_spec() == second.ctxt_spec(),
        first.remaining_len() == second.remaining_len(),
{
}

/// A single pass over the elements of a `ReadArray`.
pub struct ReadArrayIter<'a, T: ReadUnchecked<'a>> {
    ctxt: ReadCtxt<'a>,
    length: usize,
    phantom: PhantomData<T>,
}

impl<'a, T: ReadUnchecked<'a>> ReadArrayIter<'a, T> {
    /// The cursor at the next element.
    pub closed spec fn ctxt_spec(&self) -> ReadCtxt<'a> {
        self.ctxt
    }

    /// The number of elements not yet produced.
    pub closed spec fn remaining_len(&self) -> nat {
        self.length as nat
    }

    /// The bytes ahead hold exactly the elements not yet produced.
    #[verifier::type_invariant]
    closed spec fn inv(&self) -> bool {
        self.ctxt.remaining() == self.length * T::spec_size()
    }

    /// Whether this iterator stands at the first element of `a`.
    pub open spec fn starts_over(&self, a: &ReadArray<'a, T>) -> bool {
        &&& self.ctxt_spec().scope_spec() == a.scope_spec()
        &&& self.ctxt_spec().pos() == 0
        &&& self.remaining_len() == a.len_spec()
    }

    /// The next element, or `None` once all have been produced.
    pub fn next(&mut self) -> (r: Option<T::HostType>)
        ensures
            old(self).remaining_len() == 0 ==> r is None && *final(self) == *old(self),
            old(self).remaining_len() > 0 ==> {
                &&& r == Some(T::decode(old(self).ctxt_spec().ahead().subrange(0, T::spec_size() as int)))
                &&& final(self).remaining_len() == old(self).remaining_len() - 1
                &&& final(self).ctxt_spec().scope_spec() == old(self).ctxt_spec().scope_spec()
                &&& final(self).ctxt_spec().pos() == old(self).ctxt_spec().pos() + T::spec_size()
            },
    {
        proof {
            use_type_invariant(&*self);
        }
        if self.length > 0 {
            proof {
                let sz = T::spec_size();
                let n = self.length as int;
                assert(sz <= n * sz) by (nonlinear_arith)
                    requires n > 0;
                assert(n * sz - sz == (n - 1) * sz) by (nonlinear_arith);
            }
            let mut ctxt = self.ctxt;
            let value = T::read_unchecked(&mut ctxt);
            *self = ReadArrayIter { ctxt, length: self.length - 1, phantom: PhantomData };
            Some(value)
        } else {
            None
        }
    }

    /// The exact number of elements left, as lower and upper bound.
    pub fn size_hint(&self) -> (r: (usize, Option<usize>))
        ensures
            r == (self.remaining_len() as usize, Some(self.remaining_len() as usize)),
    {
        (self.length, Some(self.length))
    }
}

/// A type that decodes from a fixed number of bytes, read without a bounds
/// check by a caller that has already checked them.
pub trait ReadUnchecked<'a> {
    type HostType: Sized;

    /// The number of bytes that one value takes.
    spec fn spec_size() -> nat;

    /// The value that `spec_size()` bytes decode to.
    spec fn decode(bytes: Seq<u8>) -> Self::HostType;

    /// The number of bytes consumed by `read_unchecked`.
    fn fixed_size() -> (r: usize)
        ensures
            r == Self::spec_size(),
    ;

    /// Decodes the next `spec_size()` bytes, which the caller has checked
    /// are there.
    fn read_unchecked(ctxt: &mut ReadCtxt<'a>) -> (r: Self::HostType)
        requires
            Self::spec_size() <= old(ctxt).remaining(),
        ensures
            final(ctxt).scope_spec() == old(ctxt).scope_spec(),
            final(ctxt).pos() == old(ctxt).pos() + Self::spec_size(),
            r == Self::decode(old(ctxt).ahead().subrange(0, Self::spec_size() as int)),
    ;
}

/// What a checked read of `T` does on the bytes ahead of the cursor: the
/// value and the number of bytes consumed, or the error.
pub open spec fn checked_read<'a, T: ReadUnchecked<'a>>(ahead: Seq<u8>) -> Result<(T::HostType, nat), ParseError> {
    if T::spec_size() <= ahead.len() {
        Ok((T::decode(ahead.subrange(0, T::spec_size() as int)), T::spec_size()))
    } else {
        Err(ParseError::BadEof)
    }
}

/// A type that decodes from the bytes ahead of a cursor, or fails.
pub trait ReadBinary<'a> {
    type HostType: Sized;

    /// The value and the number of bytes consumed, or the error, that a read
    /// gives on the bytes ahead of the cursor.
    spec fn spec_read(ahead: Seq<u8>) -> Result<(Self::HostType, nat), ParseError>;

    /// Reads one value. On success the cursor advances past the bytes
    /// consumed; on failure it stays where it was.
    fn read(ctxt: &mut ReadCtxt<'a>) -> (r: Result<Self::HostType, ParseError>)
        ensures
            final(ctxt).scope_spec() == old(ctxt).scope_spec(),
            match Self::spec_read(old(ctxt).ahead()) {
                Ok((v, n)) => r == Ok::<Self::HostType, ParseError>(v) && final(ctxt).pos() == old(ctxt).pos() + n,
                Err(e) => r == Err::<Self::HostType, ParseError>(e) && final(ctxt).pos() == old(ctxt).pos(),
            },
    ;
}

/// A type that decodes from the bytes ahead of a cursor given arguments
/// that describe its layout.
pub trait ReadBinaryDep<'a> {
    type Args;
    type HostType: Sized;

    /// The value and the number of bytes consumed, or the error, that a read
    /// with `args` gives on the bytes ahead of the cursor.
    spec fn spec_read_dep(ahead: Seq<u8>, args: Self::Args) -> Result<(Self::HostType, nat), ParseError>;

    /// Reads one value laid out as `args` says. On success the cursor
    /// advances past the bytes consumed; on failure it stays where it was.
    fn read_dep(ctxt: &mut ReadCtxt<'a>, args: Self::Args) -> (r: Result<Self::HostType, ParseError>)
        ensures
            final(ctxt).scope_spec() == old(ctxt).scope_spec(),
            match Self::spec_read_dep(old(ctxt).ahead(), args) {
                Ok((v, n)) => r == Ok::<Self::HostType, ParseError>(v) && final(ctxt).pos() == old(ctxt).pos() + n,
                Err(e) => r == Err::<Self::HostType, ParseError>(e) && final(ctxt).pos() == old(ctxt).pos(),
            },
    ;
}

/// A dependent-layout type whose size follows from its arguments alone.
pub trait ReadFixedSizeDep<'a>: ReadBinaryDep<'a> {
    /// The number of bytes that a read with `args` consumes.
    spec fn spec_size_dep(args: Self::Args) -> nat;

    /// The number of bytes consumed by `ReadBinaryDep::read_dep`.
    fn size(args: Self::Args) -> (r: usize)
        ensures
            r == Self::spec_size_dep(args),
    ;
}

/// A type built from the value that another, fixed-size type decodes.
pub trait ReadFrom<'a>: Sized {
    type ReadType: ReadUnchecked<'a>;

    /// The value built from `value`.
    spec fn spec_from(value: <Self::ReadType as ReadUnchecked<'a>>::HostType) -> Self;

    fn from(value: <Self::ReadType as ReadUnchecked<'a>>::HostType) -> (r: Self)
        ensures
            r == Self::spec_from(value),
    ;
}

impl<'a, T> ReadUnchecked<'a> for T where T: ReadFrom<'a> {
    type HostType = T;

    open spec fn spec_size() -> nat {
        T::ReadType::spec_size()
    }

    open spec fn decode(bytes: Seq<u8>) -> T {
        T::spec_from(T::ReadType::decode(bytes))
    }

    fn fixed_size() -> (r: usize) {
        T::ReadType::fixed_size()
    }

    fn read_unchecked(ctxt: &mut ReadCtxt<'a>) -> (r: T) {
        let t = T::ReadType::read_unchecked(ctxt);
        T::from(t)
    }
}

impl<'a, T> ReadBinary<'a> for T where T: ReadUnchecked<'a> {
    type HostType = T::HostType;

    open spec fn spec_read(ahead: Seq<u8>) -> Result<(T::HostType, nat), ParseError> {
        checked_read::<T>(ahead)
    }

    fn read(ctxt: &mut ReadCtxt<'a>) -> (r: Result<T::HostType, ParseError>) {
        proof {
            use_type_invariant(&*ctxt);
        }
        match ctxt.check_avail(T::fixed_size()) {
            Ok(()) => Ok(T::read_unchecked(ctxt)),
            Err(_) => Err(ParseError::BadEof),
        }
    }
}

impl<'a, T> ReadBinaryDep<'a> for T where T: ReadBinary<'a> {
    type Args = ();
    type HostType = <T as ReadBinary<'a>>::HostType;

    open spec fn spec_read_dep(ahead: Seq<u8>, args: ()) -> Result<(Self::HostType, nat), ParseError> {
        T::spec_read(ahead)
    }

    fn read_dep(ctxt: &mut ReadCtxt<'a>, args: ()) -> (r: Result<Self::HostType, ParseError>) {
        T::read(ctxt)
    }
}

impl<'a, T> ReadFixedSizeDep<'a> for T where T: ReadUnchecked<'a> {
    open spec fn spec_size_dep(args: ()) -> nat {
        T::spec_size()
    }

    fn size(args: ()) -> (r: usize) {
        T::fixed_size()
    }
}

/// A checked read with fewer bytes ahead than the type's size fails as
/// truncated and consumes nothing.
pub proof fn lemma_checked_read_past_end<'a, T: ReadUnchecked<'a>>(ahead: Seq<u8>)
    requires
        ahead.len() < T::spec_size(),
    ensures
        checked_read::<T>(ahead) == Err::<(T::HostType, nat), ParseError>(ParseError::BadEof),
        T::spec_read(ahead) == Err::<(T::HostType, nat), ParseError>(ParseError::BadEof),
{
}

/// `k` checked reads of `T` in a row from the bytes `ahead`: the values and
/// the number of bytes consumed, or the first error.
pub open spec fn read_run<'a, T: ReadUnchecked<'a>>(ahead: Seq<u8>, k: nat) -> Result<(Seq<T::HostType>, nat), ParseError>
    decreases k,
{
    if k == 0 {
        Ok((Seq::empty(), 0))
    } else {
        match checked_read::<T>(ahead) {
            Ok((v, n)) => match read_run::<T>(ahead.subrange(n as int, ahead.len() as int), (k - 1) as nat) {
                Ok((vs, m)) => Ok((seq![v] + vs, n + m)),
                Err(e) => Err(e),
            },
            Err(e) => Err(e),
        }
    }
}

/// The value that the `i`-th run of `T::spec_size()` bytes of `bytes` decodes to.
pub open spec fn decode_at<'a, T: ReadUnchecked<'a>>(bytes: Seq<u8>, i: int) -> T::HostType {
    T::decode(bytes.subrange(i * T::spec_size(), i * T::spec_size() + T::spec_size()))
}

/// Checked reads that stay within the bytes all succeed: `k` reads of `T`
/// consume exactly `k` times its size, and the `j`-th value is the unchecked
/// decode of the `j`-th run of bytes.
pub proof fn lemma_read_run<'a, T: ReadUnchecked<'a>>(ahead: Seq<u8>, k: nat)
    requires
        k * T::spec_size() <= ahead.len(),
    ensures
        read_run::<T>(ahead, k) == Ok::<(Seq<T::HostType>, nat), ParseError>(
            (Seq::new(k, |j: int| decode_at::<T>(ahead, j)), k * T::spec_size()),
        ),
    decreases k,
{
    let sz = T::spec_size() as int;
    if k > 0 {
        let km = (k - 1) as nat;
        assert(sz <= k * sz && km * sz == k * sz - sz) by (nonlinear_arith)
            requires k > 0, sz >= 0, km == k - 1;
        let rest = ahead.subrange(sz, ahead.len() as int);
        lemma_read_run::<T>(rest, km);
        let expect = Seq::new(k, |j: int| decode_at::<T>(ahead, j));
        let tail = Seq::new(km, |j: int| decode_at::<T>(rest, j));
        let head = T::decode(ahead.subrange(0, sz));
        assert forall|j: int| 0 <= j < km implies tail[j] == expect[j + 1] by {
            assert(j * sz + sz == (j + 1) * sz) by (nonlinear_arith);
            assert((j + 1) * sz + sz <= k * sz) by (nonlinear_arith)
                requires j < km, km == k - 1, sz >= 0;
            assert(rest.subrange(j * sz, j * sz + sz) =~= ahead.subrange((j + 1) * sz, (j + 1) * sz + sz));
        }
        assert(0 * sz == 0);
        assert(expect[0] == head);
        assert(seq![head] + tail =~= expect);
        assert(checked_read::<T>(ahead) == Ok::<(T::HostType, nat), ParseError>((head, T::spec_size())));
    } else {
        assert(Seq::new(k, |j: int| decode_at::<T>(ahead, j)) =~= Seq::<T::HostType>::empty());
    }
}

/// Advancing a cursor by `n` bytes drops the first `n` bytes ahead of it.
pub proof fn lemma_ahead_after_advance<'a>(before: ReadCtxt<'a>, after: ReadCtxt<'a>, n: nat)
    requires
        before.pos() + n <= before.scope_spec().bytes().len(),
        after.scope_spec() == before.scope_spec(),
        after.pos() == before.pos() + n,
    ensures
        after.ahead() == before.ahead().subrange(n as int, before.ahead().len() as int),
{
    assert(after.ahead() =~= before.ahead().subrange(n as int, before.ahead().len() as int));
}

impl<'a> ReadUnchecked<'a> for U32Be {
    type HostType = u32;

    open spec fn spec_size() -> nat {
        U32_SIZE as nat
    }

    open spec fn decode(bytes: Seq<u8>) -> u32 {
        be_u32(bytes)
    }

    fn fixed_size() -> (r: usize) {
        U32_SIZE
    }

    fn read_unchecked(ctxt: &mut ReadCtxt<'a>) -> (r: u32) {
        ctxt.read_unchecked_u32be()
    }
}

} // verus!
