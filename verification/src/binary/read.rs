//! Parse binary data
//!
//! A `ReadScope` is a bounded view into a byte buffer; a `ReadCtxt` adds a
//! read position that only moves forward. Multi-byte big-endian reads are
//! split into a checked entry point that validates availability once and an
//! internal fixed-size read whose precondition demands that proof.

use core::marker::PhantomData;
use vstd::prelude::*;
use vstd::math::min;
use vstd::slice::slice_subrange;
use vstd::slice::slice_index_get;
use crate::binary::{U8, I8, U16Be, I16Be, U24Be, U32Be, I32Be, I64Be};
use crate::error::ParseError;

verus! {

/// The big-endian 16-bit value at index `i` of `s`.
pub open spec fn be16_at(s: Seq<u8>, i: int) -> u16
    recommends
        0 <= i,
        i + 2 <= s.len(),
{
    (s[i] as int * 0x100 + s[i + 1] as int) as u16
}

/// The big-endian 24-bit value at index `i` of `s`.
pub open spec fn be24_at(s: Seq<u8>, i: int) -> u32
    recommends
        0 <= i,
        i + 3 <= s.len(),
{
    (s[i] as int * 0x10000 + s[i + 1] as int * 0x100 + s[i + 2] as int) as u32
}

/// The big-endian 32-bit value at index `i` of `s`.
pub open spec fn be32_at(s: Seq<u8>, i: int) -> u32
    recommends
        0 <= i,
        i + 4 <= s.len(),
{
    (s[i] as int * 0x1000000 + s[i + 1] as int * 0x10000 + s[i + 2] as int * 0x100 + s[i
        + 3] as int) as u32
}

/// The big-endian 64-bit value at index `i` of `s`.
pub open spec fn be64_at(s: Seq<u8>, i: int) -> u64
    recommends
        0 <= i,
        i + 8 <= s.len(),
{
    (be32_at(s, i) as int * 0x100000000 + be32_at(s, i + 4) as int) as u64
}

/// Error type for reads that can fail only for lack of bytes.
#[derive(Debug, Copy, Clone)]
pub struct ReadEof {}

/// An immutable, bounded view into a byte buffer.
///
/// `base` records the scope's offset in the original buffer; it gives
/// relative offsets a meaning across nested scopes and carries no other
/// semantics.
#[derive(Debug, Copy, Clone, PartialEq)]
pub struct ReadScope<'a> {
    base: usize,
    data: &'a [u8],
}

/// A read position within a scope. The position starts at zero and only
/// advances; it never exceeds the scope's length.
#[derive(Clone)]
pub struct ReadCtxt<'a> {
    scope: ReadScope<'a>,
    offset: usize,
}

impl<'a> View for ReadScope<'a> {
    type V = Seq<u8>;

    closed spec fn view(&self) -> Seq<u8> {
        self.data@
    }
}

impl<'a> ReadScope<'a> {
    /// The scope's offset in the original buffer.
    pub closed spec fn spec_base(&self) -> int {
        self.base as int
    }

    /// A slice's length always fits in `usize`.
    pub proof fn lemma_len_bound(&self)
        ensures
            self@.len() <= usize::MAX,
    {
        vstd::slice::axiom_spec_len::<u8>(self.data);
    }

    /// Creates a scope covering all of `data`.
    pub fn new(data: &'a [u8]) -> (r: ReadScope<'a>)
        ensures
            r@ == data@,
            r.spec_base() == 0,
    {
        let base: usize = 0;
        ReadScope { base, data }
    }

    /// The bytes of this scope.
    pub fn data(&self) -> (r: &'a [u8])
        ensures
            r@ == self@,
    {
        self.data
    }

    /// Shrinks the scope from the front by `offset` bytes, clamped to an
    /// empty scope when `offset` exceeds the length.
    pub fn offset(&self, offset: usize) -> (r: ReadScope<'a>)
        ensures
            r@ == self@.skip(min(offset as int, self@.len() as int)),
            r.spec_base() == min(self.spec_base() + offset, usize::MAX as int),
    {
        let base: usize = self.base.saturating_add(offset);
        let n: usize = if offset < self.data.len() {
            offset
        } else {
            self.data.len()
        };
        let data: &'a [u8] = slice_subrange(self.data, n, self.data.len());
        ReadScope { base, data }
    }

    /// Carves the exact sub-range `[offset, offset + length)` out of the
    /// scope. A zero-length range is always available, even past the end;
    /// otherwise the range must lie within the scope: a too-long range is
    /// `BadEof`, an out-of-range start is `BadOffset`.
    pub fn offset_length(&self, offset: usize, length: usize) -> (r: Result<
        ReadScope<'a>,
        ParseError,
    >)
        ensures
            match r {
                Ok(s) => {
                    &&& length == 0 || offset + length <= self@.len()
                    &&& s@.len() == length
                    &&& offset + length <= self@.len() ==> s@ == self@.subrange(
                        offset as int,
                        offset + length,
                    )
                    &&& s.spec_base() == min(self.spec_base() + offset, usize::MAX as int)
                },
                Err(e) => {
                    &&& length > 0
                    &&& offset + length > self@.len()
                    &&& e == (if offset < self@.len() {
                        ParseError::BadEof
                    } else {
                        ParseError::BadOffset
                    })
                },
            },
    {
        if offset < self.data.len() || length == 0 {
            let avail: usize = if offset < self.data.len() {
                self.data.len() - offset
            } else {
                0
            };
            if length <= avail {
                let base: usize = self.base.saturating_add(offset);
                let start: usize = if offset < self.data.len() {
                    offset
                } else {
                    self.data.len()
                };
                let data: &'a [u8] = slice_subrange(self.data, start, start + length);
                Ok(ReadScope { base, data })
            } else {
                Err(ParseError::BadEof)
            }
        } else {
            Err(ParseError::BadOffset)
        }
    }

    /// Decodes one fixed-size value from the start of the scope, or fails
    /// if the scope is too short.
    pub fn read<T: ReadUnchecked>(&self) -> (r: Result<T::Host, ParseError>)
        ensures
            match r {
                Ok(v) => T::spec_size() <= self@.len() && v == T::spec_read(self@),
                Err(e) => self@.len() < T::spec_size() && e == ParseError::BadEof,
            },
    {
        let mut ctxt = self.ctxt();
        let r = ctxt.read::<T>();
        proof {
            assert(self@.skip(0) =~= self@);
        }
        r
    }

    /// Offset composition is associative: shrinking a scope from the front
    /// by `i` bytes and then by `j - i` more reaches the same bytes as the
    /// sub-range from `j` to the end that `offset_length(j, len - j)`
    /// carves, for any valid `0 <= i <= j <= len`.
    pub proof fn lemma_offset_compose(s: ReadScope<'_>, i: int, j: int)
        requires
            0 <= i <= j <= s@.len(),
        ensures
            s@.skip(i).skip(j - i) == s@.skip(j),
    {
        assert(s@.skip(i).skip(j - i) =~= s@.skip(j));
    }

    /// A cursor positioned at the start of this scope.
    pub fn ctxt(&self) -> (r: ReadCtxt<'a>)
        ensures
            r.wf(),
            r.spec_data() == self@,
            r.spec_base() == self.spec_base(),
            r.spec_offset() == 0,
    {
        ReadCtxt::new(*self)
    }
}

impl<'a> ReadCtxt<'a> {
    /// The bytes of the underlying scope.
    pub closed spec fn spec_data(&self) -> Seq<u8> {
        self.scope@
    }

    /// The underlying scope's offset in the original buffer.
    pub closed spec fn spec_base(&self) -> int {
        self.scope.spec_base()
    }

    /// The current read position.
    pub closed spec fn spec_offset(&self) -> int {
        self.offset as int
    }

    /// The cursor invariant: the position stays within the scope.
    pub open spec fn wf(&self) -> bool {
        &&& 0 <= self.spec_offset() <= self.spec_data().len()
        &&& self.spec_data().len() <= usize::MAX
    }

    /// How many bytes remain to be read.
    pub open spec fn avail(&self) -> int {
        self.spec_data().len() - self.spec_offset()
    }

    /// The bytes that remain to be read.
    pub open spec fn remaining(&self) -> Seq<u8> {
        self.spec_data().skip(self.spec_offset())
    }

    /// ReadCtxt is constructed by calling `ReadScope::ctxt`.
    fn new(scope: ReadScope<'a>) -> (r: ReadCtxt<'a>)
        ensures
            r.wf(),
            r.spec_data() == scope@,
            r.spec_base() == scope.spec_base(),
            r.spec_offset() == 0,
    {
        proof {
            scope.lemma_len_bound();
        }
        ReadCtxt { scope, offset: 0 }
    }

    /// Checks a condition on decoded data, returning `ParseError::BadValue`
    /// if it does not hold.
    pub fn check(&self, cond: bool) -> (r: Result<(), ParseError>)
        ensures
            r == (if cond {
                Ok::<(), ParseError>(())
            } else {
                Err::<(), ParseError>(ParseError::BadValue)
            }),
    {
        match cond {
            true => Ok(()),
            false => Err(ParseError::BadValue),
        }
    }

    /// Checks a condition, returning `ParseError::BadVersion` if `false`.
    ///
    /// Intended for use in checking versions read from data.
    pub fn check_version(&self, cond: bool) -> (r: Result<(), ParseError>)
        ensures
            r == (if cond {
                Ok::<(), ParseError>(())
            } else {
                Err::<(), ParseError>(ParseError::BadVersion)
            }),
    {
        match cond {
            true => Ok(()),
            false => Err(ParseError::BadVersion),
        }
    }

    /// The scope of everything that remains to be read.
    pub fn scope(&self) -> (r: ReadScope<'a>)
        requires
            self.wf(),
        ensures
            r@ == self.remaining(),
            r.spec_base() == min(self.spec_base() + self.spec_offset(), usize::MAX as int),
    {
        self.scope.offset(self.offset)
    }

    /// Whether any bytes remain to be read.
    pub fn bytes_available(&self) -> (r: bool)
        ensures
            r <==> self.avail() > 0,
    {
        self.offset < self.scope.data.len()
    }

    /// Whether `length` more bytes are available. The addition is
    /// overflow-checked so a position near `usize::MAX` cannot wrap into a
    /// false positive.
    fn check_avail(&self, length: usize) -> (r: Result<(), ReadEof>)
        ensures
            r is Ok <==> self.spec_offset() + length <= self.spec_data().len(),
    {
        proof {
            self.scope.lemma_len_bound();
        }
        match self.offset.checked_add(length) {
            Some(endpos) => if endpos <= self.scope.data.len() {
                Ok(())
            } else {
                Err(ReadEof {})
            },
            None => Err(ReadEof {}),
        }
    }

    /// Fixed-size read of one byte; reachable only with the byte proven
    /// available.
    pub(crate) fn read_unchecked_u8(&mut self) -> (r: u8)
        requires
            old(self).wf(),
            old(self).avail() >= 1,
        ensures
            final(self).wf(),
            final(self).spec_data() == old(self).spec_data(),
            final(self).spec_base() == old(self).spec_base(),
            final(self).spec_offset() == old(self).spec_offset() + 1,
            r == old(self).spec_data()[old(self).spec_offset()],
    {
        let byte: u8 = *slice_index_get(self.scope.data, self.offset);
        self.offset = self.offset + 1;
        byte
    }

    /// Fixed-size read of one signed byte; reachable only with the byte
    /// proven available.
    pub(crate) fn read_unchecked_i8(&mut self) -> (r: i8)
        requires
            old(self).wf(),
            old(self).avail() >= 1,
        ensures
            final(self).wf(),
            final(self).spec_data() == old(self).spec_data(),
            final(self).spec_base() == old(self).spec_base(),
            final(self).spec_offset() == old(self).spec_offset() + 1,
            r == old(self).spec_data()[old(self).spec_offset()] as i8,
    {
        self.read_unchecked_u8() as i8
    }

    /// Fixed-size big-endian 16-bit read; reachable only with 2 bytes proven
    /// available.
    pub(crate) fn read_unchecked_u16be(&mut self) -> (r: u16)
        requires
            old(self).wf(),
            old(self).avail() >= 2,
        ensures
            final(self).wf(),
            final(self).spec_data() == old(self).spec_data(),
            final(self).spec_base() == old(self).spec_base(),
            final(self).spec_offset() == old(self).spec_offset() + 2,
            r == be16_at(old(self).spec_data(), old(self).spec_offset()),
    {
        let hi: u16 = *slice_index_get(self.scope.data, self.offset) as u16;
        let lo: u16 = *slice_index_get(self.scope.data, self.offset + 1) as u16;
        self.offset = self.offset + 2;
        hi * 0x100 + lo
    }

    /// Fixed-size big-endian signed 16-bit read; reachable only with 2 bytes
    /// proven available.
    pub(crate) fn read_unchecked_i16be(&mut self) -> (r: i16)
        requires
            old(self).wf(),
            old(self).avail() >= 2,
        ensures
            final(self).wf(),
            final(self).spec_data() == old(self).spec_data(),
            final(self).spec_base() == old(self).spec_base(),
            final(self).spec_offset() == old(self).spec_offset() + 2,
            r == be16_at(old(self).spec_data(), old(self).spec_offset()) as i16,
    {
        self.read_unchecked_u16be() as i16
    }

    /// Fixed-size big-endian 24-bit read; reachable only with 3 bytes proven
    /// available.
    pub(crate) fn read_unchecked_u24be(&mut self) -> (r: u32)
        requires
            old(self).wf(),
            old(self).avail() >= 3,
        ensures
            final(self).wf(),
            final(self).spec_data() == old(self).spec_data(),
            final(self).spec_base() == old(self).spec_base(),
            final(self).spec_offset() == old(self).spec_offset() + 3,
            r == be24_at(old(self).spec_data(), old(self).spec_offset()),
    {
        let b0: u32 = *slice_index_get(self.scope.data, self.offset) as u32;
        let b1: u32 = *slice_index_get(self.scope.data, self.offset + 1) as u32;
        let b2: u32 = *slice_index_get(self.scope.data, self.offset + 2) as u32;
        self.offset = self.offset + 3;
        b0 * 0x10000 + b1 * 0x100 + b2
    }

    /// Fixed-size big-endian 32-bit read; reachable only with 4 bytes proven
    /// available.
    pub(crate) fn read_unchecked_u32be(&mut self) -> (r: u32)
        requires
            old(self).wf(),
            old(self).avail() >= 4,
        ensures
            final(self).wf(),
            final(self).spec_data() == old(self).spec_data(),
            final(self).spec_base() == old(self).spec_base(),
            final(self).spec_offset() == old(self).spec_offset() + 4,
            r == be32_at(old(self).spec_data(), old(self).spec_offset()),
    {
        let b0: u32 = *slice_index_get(self.scope.data, self.offset) as u32;
        let b1: u32 = *slice_index_get(self.scope.data, self.offset + 1) as u32;
        let b2: u32 = *slice_index_get(self.scope.data, self.offset + 2) as u32;
        let b3: u32 = *slice_index_get(self.scope.data, self.offset + 3) as u32;
        self.offset = self.offset + 4;
        b0 * 0x1000000 + b1 * 0x10000 + b2 * 0x100 + b3
    }

    /// Fixed-size big-endian signed 32-bit read; reachable only with 4 bytes
    /// proven available.
    pub(crate) fn read_unchecked_i32be(&mut self) -> (r: i32)
        requires
            old(self).wf(),
            old(self).avail() >= 4,
        ensures
            final(self).wf(),
            final(self).spec_data() == old(self).spec_data(),
            final(self).spec_base() == old(self).spec_base(),
            final(self).spec_offset() == old(self).spec_offset() + 4,
            r == be32_at(old(self).spec_data(), old(self).spec_offset()) as i32,
    {
        self.read_unchecked_u32be() as i32
    }

    /// Fixed-size big-endian 64-bit read; reachable only with 8 bytes proven
    /// available.
    pub(crate) fn read_unchecked_u64be(&mut self) -> (r: u64)
        requires
            old(self).wf(),
            old(self).avail() >= 8,
        ensures
            final(self).wf(),
            final(self).spec_data() == old(self).spec_data(),
            final(self).spec_base() == old(self).spec_base(),
            final(self).spec_offset() == old(self).spec_offset() + 8,
            r == be64_at(old(self).spec_data(), old(self).spec_offset()),
    {
        let hi: u64 = self.read_unchecked_u32be() as u64;
        let lo: u64 = self.read_unchecked_u32be() as u64;
        hi * 0x100000000 + lo
    }

    /// Fixed-size big-endian signed 64-bit read; reachable only with 8 bytes
    /// proven available.
    pub(crate) fn read_unchecked_i64be(&mut self) -> (r: i64)
        requires
            old(self).wf(),
            old(self).avail() >= 8,
        ensures
            final(self).wf(),
            final(self).spec_data() == old(self).spec_data(),
            final(self).spec_base() == old(self).spec_base(),
            final(self).spec_offset() == old(self).spec_offset() + 8,
            r == be64_at(old(self).spec_data(), old(self).spec_offset()) as i64,
    {
        self.read_unchecked_u64be() as i64
    }

    /// Reads one byte, or fails if none is available.
    pub fn read_u8(&mut self) -> (r: Result<u8, ReadEof>)
        requires
            old(self).wf(),
        ensures
            final(self).wf(),
            final(self).spec_data() == old(self).spec_data(),
            final(self).spec_base() == old(self).spec_base(),
            match r {
                Ok(v) => old(self).avail() >= 1 && v == old(self).spec_data()[old(
                    self,
                ).spec_offset()] && final(self).spec_offset() == old(self).spec_offset() + 1,
                Err(_) => old(self).avail() < 1 && final(self).spec_offset() == old(
                    self,
                ).spec_offset(),
            },
    {
        match self.check_avail(1) {
            Ok(()) => Ok(self.read_unchecked_u8()),
            Err(e) => Err(e),
        }
    }

    /// Reads one signed byte, or fails if none is available.
    pub fn read_i8(&mut self) -> (r: Result<i8, ReadEof>)
        requires
            old(self).wf(),
        ensures
            final(self).wf(),
            final(self).spec_data() == old(self).spec_data(),
            final(self).spec_base() == old(self).spec_base(),
            match r {
                Ok(v) => old(self).avail() >= 1 && v == old(self).spec_data()[old(
                    self,
                ).spec_offset()] as i8 && final(self).spec_offset() == old(self).spec_offset() + 1,
                Err(_) => old(self).avail() < 1 && final(self).spec_offset() == old(
                    self,
                ).spec_offset(),
            },
    {
        match self.check_avail(1) {
            Ok(()) => Ok(self.read_unchecked_i8()),
            Err(e) => Err(e),
        }
    }

    /// Reads a big-endian 16-bit value, or fails for lack of bytes.
    pub fn read_u16be(&mut self) -> (r: Result<u16, ReadEof>)
        requires
            old(self).wf(),
        ensures
            final(self).wf(),
            final(self).spec_data() == old(self).spec_data(),
            final(self).spec_base() == old(self).spec_base(),
            match r {
                Ok(v) => old(self).avail() >= 2 && v == be16_at(
                    old(self).spec_data(),
                    old(self).spec_offset(),
                ) && final(self).spec_offset() == old(self).spec_offset() + 2,
                Err(_) => old(self).avail() < 2 && final(self).spec_offset() == old(
                    self,
                ).spec_offset(),
            },
    {
        match self.check_avail(2) {
            Ok(()) => Ok(self.read_unchecked_u16be()),
            Err(e) => Err(e),
        }
    }

    /// Reads a big-endian signed 16-bit value, or fails for lack of bytes.
    pub fn read_i16be(&mut self) -> (r: Result<i16, ReadEof>)
        requires
            old(self).wf(),
        ensures
            final(self).wf(),
            final(self).spec_data() == old(self).spec_data(),
            final(self).spec_base() == old(self).spec_base(),
            match r {
                Ok(v) => old(self).avail() >= 2 && v == be16_at(
                    old(self).spec_data(),
                    old(self).spec_offset(),
                ) as i16 && final(self).spec_offset() == old(self).spec_offset() + 2,
                Err(_) => old(self).avail() < 2 && final(self).spec_offset() == old(
                    self,
                ).spec_offset(),
            },
    {
        match self.check_avail(2) {
            Ok(()) => Ok(self.read_unchecked_i16be()),
            Err(e) => Err(e),
        }
    }

    /// Reads a big-endian 32-bit value, or fails for lack of bytes.
    pub fn read_u32be(&mut self) -> (r: Result<u32, ReadEof>)
        requires
            old(self).wf(),
        ensures
            final(self).wf(),
            final(self).spec_data() == old(self).spec_data(),
            final(self).spec_base() == old(self).spec_base(),
            match r {
                Ok(v) => old(self).avail() >= 4 && v == be32_at(
                    old(self).spec_data(),
                    old(self).spec_offset(),
                ) && final(self).spec_offset() == old(self).spec_offset() + 4,
                Err(_) => old(self).avail() < 4 && final(self).spec_offset() == old(
                    self,
                ).spec_offset(),
            },
    {
        match self.check_avail(4) {
            Ok(()) => Ok(self.read_unchecked_u32be()),
            Err(e) => Err(e),
        }
    }

    /// Reads a big-endian signed 32-bit value, or fails for lack of bytes.
    pub fn read_i32be(&mut self) -> (r: Result<i32, ReadEof>)
        requires
            old(self).wf(),
        ensures
            final(self).wf(),
            final(self).spec_data() == old(self).spec_data(),
            final(self).spec_base() == old(self).spec_base(),
            match r {
                Ok(v) => old(self).avail() >= 4 && v == be32_at(
                    old(self).spec_data(),
                    old(self).spec_offset(),
                ) as i32 && final(self).spec_offset() == old(self).spec_offset() + 4,
                Err(_) => old(self).avail() < 4 && final(self).spec_offset() == old(
                    self,
                ).spec_offset(),
            },
    {
        match self.check_avail(4) {
            Ok(()) => Ok(self.read_unchecked_i32be()),
            Err(e) => Err(e),
        }
    }

    /// Reads a big-endian 64-bit value, or fails for lack of bytes.
    pub fn read_u64be(&mut self) -> (r: Result<u64, ReadEof>)
        requires
            old(self).wf(),
        ensures
            final(self).wf(),
            final(self).spec_data() == old(self).spec_data(),
            final(self).spec_base() == old(self).spec_base(),
            match r {
                Ok(v) => old(self).avail() >= 8 && v == be64_at(
                    old(self).spec_data(),
                    old(self).spec_offset(),
                ) && final(self).spec_offset() == old(self).spec_offset() + 8,
                Err(_) => old(self).avail() < 8 && final(self).spec_offset() == old(
                    self,
                ).spec_offset(),
            },
    {
        match self.check_avail(8) {
            Ok(()) => Ok(self.read_unchecked_u64be()),
            Err(e) => Err(e),
        }
    }

    /// Reads a big-endian signed 64-bit value, or fails for lack of bytes.
    pub fn read_i64be(&mut self) -> (r: Result<i64, ReadEof>)
        requires
            old(self).wf(),
        ensures
            final(self).wf(),
            final(self).spec_data() == old(self).spec_data(),
            final(self).spec_base() == old(self).spec_base(),
            match r {
                Ok(v) => old(self).avail() >= 8 && v == be64_at(
                    old(self).spec_data(),
                    old(self).spec_offset(),
                ) as i64 && final(self).spec_offset() == old(self).spec_offset() + 8,
                Err(_) => old(self).avail() < 8 && final(self).spec_offset() == old(
                    self,
                ).spec_offset(),
            },
    {
        match self.check_avail(8) {
            Ok(()) => Ok(self.read_unchecked_i64be()),
            Err(e) => Err(e),
        }
    }

    /// Reads the next `length` bytes as a fresh scope and advances past
    /// them, or fails without moving if fewer are available.
    pub fn read_scope(&mut self, length: usize) -> (r: Result<ReadScope<'a>, ReadEof>)
        requires
            old(self).wf(),
        ensures
            final(self).wf(),
            final(self).spec_data() == old(self).spec_data(),
            final(self).spec_base() == old(self).spec_base(),
            match r {
                Ok(s) => {
                    &&& length <= old(self).avail()
                    &&& s@ == old(self).remaining().take(length as int)
                    &&& s.spec_base() == min(
                        old(self).spec_base() + old(self).spec_offset(),
                        usize::MAX as int,
                    )
                    &&& final(self).spec_offset() == old(self).spec_offset() + length
                },
                Err(_) => {
                    &&& length > old(self).avail()
                    &&& final(self).spec_offset() == old(self).spec_offset()
                },
            },
    {
        match self.scope.offset_length(self.offset, length) {
            Ok(scope) => {
                proof {
                    assert(scope@ =~= old(self).remaining().take(length as int));
                }
                self.offset = self.offset + length;
                Ok(scope)
            },
            Err(_) => Err(ReadEof {}),
        }
    }

    /// Reads one fixed-size value, or fails without moving if too few bytes
    /// are available.
    pub fn read<T: ReadUnchecked>(&mut self) -> (r: Result<T::Host, ParseError>)
        requires
            old(self).wf(),
        ensures
            final(self).wf(),
            final(self).spec_data() == old(self).spec_data(),
            final(self).spec_base() == old(self).spec_base(),
            match r {
                Ok(v) => {
                    &&& old(self).avail() >= T::spec_size()
                    &&& v == T::spec_read(old(self).remaining())
                    &&& final(self).spec_offset() == old(self).spec_offset() + T::spec_size()
                },
                Err(e) => {
                    &&& old(self).avail() < T::spec_size()
                    &&& e == ParseError::BadEof
                    &&& final(self).spec_offset() == old(self).spec_offset()
                },
            },
    {
        match self.check_avail(T::size()) {
            Ok(()) => Ok(T::read_unchecked(self)),
            Err(_) => Err(ParseError::BadEof),
        }
    }

    /// Reads `length` consecutive fixed-size values of `T` as a lazy array,
    /// or fails without moving if too few bytes are available.
    pub fn read_array<T: ReadUnchecked>(&mut self, length: usize) -> (r: Result<
        ReadArray<'a, T>,
        ParseError,
    >)
        requires
            old(self).wf(),
        ensures
            final(self).wf(),
            final(self).spec_data() == old(self).spec_data(),
            final(self).spec_base() == old(self).spec_base(),
            match r {
                Ok(arr) => {
                    &&& length * T::spec_size() <= old(self).avail()
                    &&& arr.wf()
                    &&& arr.spec_len() == length
                    &&& arr.spec_data() == old(self).remaining().take(length * T::spec_size())
                    &&& final(self).spec_offset() == old(self).spec_offset() + length
                        * T::spec_size()
                },
                Err(e) => {
                    &&& length * T::spec_size() > old(self).avail()
                    &&& e == ParseError::BadEof
                    &&& final(self).spec_offset() == old(self).spec_offset()
                },
            },
    {
        let size: usize = T::size();
        match length.checked_mul(size) {
            Some(total) => match self.read_scope(total) {
                Ok(scope) => Ok(ReadArray { scope, length, phantom: PhantomData }),
                Err(_) => Err(ParseError::BadEof),
            },
            None => {
                proof {
                    self.scope.lemma_len_bound();
                }
                Err(ParseError::BadEof)
            },
        }
    }

    /// Reads an array of at most `length` values of `T`, clamping the count
    /// to however many whole values the remaining bytes can hold.
    pub fn read_array_upto_hack<T: ReadUnchecked>(&mut self, length: usize) -> (r: Result<
        ReadArray<'a, T>,
        ParseError,
    >)
        requires
            old(self).wf(),
        ensures
            final(self).wf(),
            final(self).spec_data() == old(self).spec_data(),
            final(self).spec_base() == old(self).spec_base(),
            match r {
                Ok(arr) => {
                    &&& arr.wf()
                    &&& arr.spec_len() == min(length as int, old(self).avail() / T::spec_size())
                    &&& arr.spec_data() == old(self).remaining().take(
                        arr.spec_len() * T::spec_size(),
                    )
                    &&& final(self).spec_offset() == old(self).spec_offset() + arr.spec_len()
                        * T::spec_size()
                },
                Err(_) => false,
            },
    {
        let start_pos: usize = self.offset;
        let buf_size: usize = self.scope.data.len();
        let avail_bytes: usize = buf_size - start_pos;
        let size: usize = T::size();
        let max_length: usize = avail_bytes / size;
        let clamped: usize = if length < max_length {
            length
        } else {
            max_length
        };
        proof {
            vstd::arithmetic::div_mod::lemma_fundamental_div_mod(
                avail_bytes as int,
                size as int,
            );
            vstd::arithmetic::div_mod::lemma_mod_bound(avail_bytes as int, size as int);
            assert(clamped * size <= (avail_bytes / size) * size) by (nonlinear_arith)
                requires
                    0 <= clamped <= avail_bytes as int / size as int,
                    size >= 1,
            ;
        }
        self.read_array(clamped)
    }

    /// Reads up to and including the first byte either of whose nibbles
    /// equals `nibble`, or fails without moving if there is no such byte.
    pub fn read_until_nibble(&mut self, nibble: u8) -> (r: Result<&'a [u8], ReadEof>)
        requires
            old(self).wf(),
        ensures
            final(self).wf(),
            final(self).spec_data() == old(self).spec_data(),
            final(self).spec_base() == old(self).spec_base(),
            match r {
                Ok(s) => exists|i: int|
                    {
                        &&& 0 <= i < old(self).remaining().len()
                        &&& #[trigger] nibble_matches(old(self).remaining()[i], nibble)
                        &&& forall|j: int|
                            0 <= j < i ==> !nibble_matches(old(self).remaining()[j], nibble)
                        &&& s@ == old(self).remaining().take(i + 1)
                        &&& final(self).spec_offset() == old(self).spec_offset() + i + 1
                    },
                Err(_) => {
                    &&& forall|j: int|
                        0 <= j < old(self).remaining().len() ==> !nibble_matches(
                            old(self).remaining()[j],
                            nibble,
                        )
                    &&& final(self).spec_offset() == old(self).spec_offset()
                },
            },
    {
        let len: usize = self.scope.data.len();
        let mut k: usize = self.offset;
        while k < len
            invariant
                self.wf(),
                self.spec_data() == old(self).spec_data(),
                self.spec_base() == old(self).spec_base(),
                self.spec_offset() == old(self).spec_offset(),
                self.spec_offset() <= k <= len,
                len == self.spec_data().len(),
                forall|j: int|
                    self.spec_offset() <= j < k ==> !nibble_matches(
                        #[trigger] self.spec_data()[j],
                        nibble,
                    ),
            decreases len - k,
        {
            let b: u8 = *slice_index_get(self.scope.data, k);
            if (b >> 4u8) == nibble || (b & 0xFu8) == nibble {
                let ghost i = k - self.spec_offset();
                let ghost rem = self.remaining();
                match self.read_slice(k - self.offset + 1) {
                    Ok(s) => {
                        proof {
                            let rem0 = old(self).remaining();
                            assert(rem =~= rem0);
                            assert forall|j: int| 0 <= j < i implies !nibble_matches(
                                rem0[j],
                                nibble,
                            ) by {
                                assert(rem0[j] == self.spec_data()[old(self).spec_offset() + j]);
                            }
                            assert(rem0[i] == self.spec_data()[k as int]);
                            assert(nibble_matches(rem0[i], nibble));
                            assert(s@ == rem0.take(i + 1));
                            assert(self.spec_offset() == old(self).spec_offset() + i + 1);
                        }
                        return Ok(s);
                    },
                    Err(e) => {
                        proof {
                            assert(false);
                        }
                        return Err(e);
                    },
                }
            }
            k = k + 1;
        }
        proof {
            assert forall|j: int| 0 <= j < self.remaining().len() implies !nibble_matches(
                self.remaining()[j],
                nibble,
            ) by {
                assert(self.remaining()[j] == self.spec_data()[self.spec_offset() + j]);
            }
        }
        Err(ReadEof {})
    }

    /// Reads the next `length` bytes and advances past them, or fails
    /// without moving if fewer are available.
    pub fn read_slice(&mut self, length: usize) -> (r: Result<&'a [u8], ReadEof>)
        requires
            old(self).wf(),
        ensures
            final(self).wf(),
            final(self).spec_data() == old(self).spec_data(),
            final(self).spec_base() == old(self).spec_base(),
            match r {
                Ok(s) => {
                    &&& length <= old(self).avail()
                    &&& s@ == old(self).remaining().take(length as int)
                    &&& final(self).spec_offset() == old(self).spec_offset() + length
                },
                Err(_) => {
                    &&& length > old(self).avail()
                    &&& final(self).spec_offset() == old(self).spec_offset()
                },
            },
    {
        match self.read_scope(length) {
            Ok(scope) => Ok(scope.data()),
            Err(e) => Err(e),
        }
    }
}

/// Whether either nibble of `b` equals `nibble`.
pub open spec fn nibble_matches(b: u8, nibble: u8) -> bool {
    (b >> 4u8) == nibble || (b & 0xFu8) == nibble
}

/// A fixed-size decode capability: the type knows its exact encoded byte
/// size and decodes unconditionally once that many bytes are proven
/// available.
pub trait ReadUnchecked: Sized {
    /// The value produced by a read.
    type Host;

    /// The number of bytes consumed by `read_unchecked`.
    spec fn spec_size() -> int;

    /// The value encoded in the first `spec_size()` bytes of `bytes`.
    spec fn spec_read(bytes: Seq<u8>) -> Self::Host;

    /// An encoded value occupies at least one byte.
    proof fn lemma_size()
        ensures
            Self::spec_size() >= 1,
    ;

    /// `spec_read` depends only on the first `spec_size()` bytes.
    proof fn lemma_read_prefix(b1: Seq<u8>, b2: Seq<u8>)
        requires
            Self::spec_size() <= b1.len(),
            Self::spec_size() <= b2.len(),
            b1.take(Self::spec_size()) == b2.take(Self::spec_size()),
        ensures
            Self::spec_read(b1) == Self::spec_read(b2),
    ;

    /// The number of bytes consumed by `read_unchecked`.
    fn size() -> (r: usize)
        ensures
            r == Self::spec_size(),
            r >= 1,
    ;

    /// Must read exactly `spec_size()` bytes; reachable only with that many
    /// bytes proven available.
    fn read_unchecked(ctxt: &mut ReadCtxt<'_>) -> (r: Self::Host)
        requires
            old(ctxt).wf(),
            old(ctxt).avail() >= Self::spec_size(),
        ensures
            final(ctxt).wf(),
            final(ctxt).spec_data() == old(ctxt).spec_data(),
            final(ctxt).spec_base() == old(ctxt).spec_base(),
            final(ctxt).spec_offset() == old(ctxt).spec_offset() + Self::spec_size(),
            r == Self::spec_read(old(ctxt).remaining()),
    ;
}

/// A derived decode capability: the type is read by decoding `ReadType` and
/// mapping the value through a conversion.
pub trait ReadFrom: Sized {
    /// The underlying binary type.
    type ReadType: ReadUnchecked;

    /// The mathematical value of the conversion.
    spec fn spec_from(value: <Self::ReadType as ReadUnchecked>::Host) -> Self;

    /// Converts a decoded host value into `Self`.
    fn from(value: <Self::ReadType as ReadUnchecked>::Host) -> (r: Self)
        ensures
            r == Self::spec_from(value),
    ;
}

impl<T: ReadFrom> ReadUnchecked for T {
    type Host = T;

    open spec fn spec_size() -> int {
        <T::ReadType as ReadUnchecked>::spec_size()
    }

    open spec fn spec_read(bytes: Seq<u8>) -> T {
        T::spec_from(<T::ReadType as ReadUnchecked>::spec_read(bytes))
    }

    proof fn lemma_size() {
        <T::ReadType as ReadUnchecked>::lemma_size();
    }

    proof fn lemma_read_prefix(b1: Seq<u8>, b2: Seq<u8>) {
        <T::ReadType as ReadUnchecked>::lemma_read_prefix(b1, b2);
    }

    fn size() -> usize {
        <T::ReadType as ReadUnchecked>::size()
    }

    fn read_unchecked(ctxt: &mut ReadCtxt<'_>) -> T {
        let value = <T::ReadType as ReadUnchecked>::read_unchecked(ctxt);
        <T as ReadFrom>::from(value)
    }
}

impl ReadUnchecked for U8 {
    type Host = u8;

    open spec fn spec_size() -> int {
        1
    }

    open spec fn spec_read(bytes: Seq<u8>) -> u8 {
        bytes[0]
    }

    proof fn lemma_size() {
    }

    proof fn lemma_read_prefix(b1: Seq<u8>, b2: Seq<u8>) {
        assert(b1[0] == b1.take(1)[0]);
        assert(b2[0] == b2.take(1)[0]);
    }

    fn size() -> usize {
        1
    }

    fn read_unchecked(ctxt: &mut ReadCtxt<'_>) -> (r: u8) {
        let ghost rem = ctxt.remaining();
        let r = ctxt.read_unchecked_u8();
        proof {
            assert(rem[0] == old(ctxt).spec_data()[old(ctxt).spec_offset()]);
        }
        r
    }
}

impl ReadUnchecked for I8 {
    type Host = i8;

    open spec fn spec_size() -> int {
        1
    }

    open spec fn spec_read(bytes: Seq<u8>) -> i8 {
        bytes[0] as i8
    }

    proof fn lemma_size() {
    }

    proof fn lemma_read_prefix(b1: Seq<u8>, b2: Seq<u8>) {
        assert(b1[0] == b1.take(1)[0]);
        assert(b2[0] == b2.take(1)[0]);
    }

    fn size() -> usize {
        1
    }

    fn read_unchecked(ctxt: &mut ReadCtxt<'_>) -> (r: i8) {
        let ghost rem = ctxt.remaining();
        let r = ctxt.read_unchecked_i8();
        proof {
            assert(rem[0] == old(ctxt).spec_data()[old(ctxt).spec_offset()]);
        }
        r
    }
}

impl ReadUnchecked for U16Be {
    type Host = u16;

    open spec fn spec_size() -> int {
        2
    }

    open spec fn spec_read(bytes: Seq<u8>) -> u16 {
        be16_at(bytes, 0)
    }

    proof fn lemma_size() {
    }

    proof fn lemma_read_prefix(b1: Seq<u8>, b2: Seq<u8>) {
        assert forall|i: int| 0 <= i < 2 implies b1[i] == b2[i] by {
            assert(b1.take(2)[i] == b2.take(2)[i]);
        }
    }

    fn size() -> usize {
        2
    }

    fn read_unchecked(ctxt: &mut ReadCtxt<'_>) -> (r: u16) {
        let ghost rem = ctxt.remaining();
        let r = ctxt.read_unchecked_u16be();
        proof {
            assert(rem[0] == old(ctxt).spec_data()[old(ctxt).spec_offset()]);
            assert(rem[1] == old(ctxt).spec_data()[old(ctxt).spec_offset() + 1]);
        }
        r
    }
}

impl ReadUnchecked for I16Be {
    type Host = i16;

    open spec fn spec_size() -> int {
        2
    }

    open spec fn spec_read(bytes: Seq<u8>) -> i16 {
        be16_at(bytes, 0) as i16
    }

    proof fn lemma_size() {
    }

    proof fn lemma_read_prefix(b1: Seq<u8>, b2: Seq<u8>) {
        assert forall|i: int| 0 <= i < 2 implies b1[i] == b2[i] by {
            assert(b1.take(2)[i] == b2.take(2)[i]);
        }
    }

    fn size() -> usize {
        2
    }

    fn read_unchecked(ctxt: &mut ReadCtxt<'_>) -> (r: i16) {
        let ghost rem = ctxt.remaining();
        let r = ctxt.read_unchecked_i16be();
        proof {
            assert(rem[0] == old(ctxt).spec_data()[old(ctxt).spec_offset()]);
            assert(rem[1] == old(ctxt).spec_data()[old(ctxt).spec_offset() + 1]);
        }
        r
    }
}

impl ReadUnchecked for U24Be {
    type Host = u32;

    open spec fn spec_size() -> int {
        3
    }

    open spec fn spec_read(bytes: Seq<u8>) -> u32 {
        be24_at(bytes, 0)
    }

    proof fn lemma_size() {
    }

    proof fn lemma_read_prefix(b1: Seq<u8>, b2: Seq<u8>) {
        assert forall|i: int| 0 <= i < 3 implies b1[i] == b2[i] by {
            assert(b1.take(3)[i] == b2.take(3)[i]);
        }
    }

    fn size() -> usize {
        3
    }

    fn read_unchecked(ctxt: &mut ReadCtxt<'_>) -> (r: u32) {
        let ghost rem = ctxt.remaining();
        let r = ctxt.read_unchecked_u24be();
        proof {
            assert(rem[0] == old(ctxt).spec_data()[old(ctxt).spec_offset()]);
            assert(rem[1] == old(ctxt).spec_data()[old(ctxt).spec_offset() + 1]);
            assert(rem[2] == old(ctxt).spec_data()[old(ctxt).spec_offset() + 2]);
        }
        r
    }
}

impl ReadUnchecked for U32Be {
    type Host = u32;

    open spec fn spec_size() -> int {
        4
    }

    open spec fn spec_read(bytes: Seq<u8>) -> u32 {
        be32_at(bytes, 0)
    }

    proof fn lemma_size() {
    }

    proof fn lemma_read_prefix(b1: Seq<u8>, b2: Seq<u8>) {
        assert forall|i: int| 0 <= i < 4 implies b1[i] == b2[i] by {
            assert(b1.take(4)[i] == b2.take(4)[i]);
        }
    }

    fn size() -> usize {
        4
    }

    fn read_unchecked(ctxt: &mut ReadCtxt<'_>) -> (r: u32) {
        let ghost rem = ctxt.remaining();
        let r = ctxt.read_unchecked_u32be();
        proof {
            assert(rem[0] == old(ctxt).spec_data()[old(ctxt).spec_offset()]);
            assert(rem[1] == old(ctxt).spec_data()[old(ctxt).spec_offset() + 1]);
            assert(rem[2] == old(ctxt).spec_data()[old(ctxt).spec_offset() + 2]);
            assert(rem[3] == old(ctxt).spec_data()[old(ctxt).spec_offset() + 3]);
        }
        r
    }
}

impl ReadUnchecked for I32Be {
    type Host = i32;

    open spec fn spec_size() -> int {
        4
    }

    open spec fn spec_read(bytes: Seq<u8>) -> i32 {
        be32_at(bytes, 0) as i32
    }

    proof fn lemma_size() {
    }

    proof fn lemma_read_prefix(b1: Seq<u8>, b2: Seq<u8>) {
        assert forall|i: int| 0 <= i < 4 implies b1[i] == b2[i] by {
            assert(b1.take(4)[i] == b2.take(4)[i]);
        }
    }

    fn size() -> usize {
        4
    }

    fn read_unchecked(ctxt: &mut ReadCtxt<'_>) -> (r: i32) {
        let ghost rem = ctxt.remaining();
        let r = ctxt.read_unchecked_i32be();
        proof {
            assert(rem[0] == old(ctxt).spec_data()[old(ctxt).spec_offset()]);
            assert(rem[1] == old(ctxt).spec_data()[old(ctxt).spec_offset() + 1]);
            assert(rem[2] == old(ctxt).spec_data()[old(ctxt).spec_offset() + 2]);
            assert(rem[3] == old(ctxt).spec_data()[old(ctxt).spec_offset() + 3]);
        }
        r
    }
}

impl ReadUnchecked for I64Be {
    type Host = i64;

    open spec fn spec_size() -> int {
        8
    }

    open spec fn spec_read(bytes: Seq<u8>) -> i64 {
        be64_at(bytes, 0) as i64
    }

    proof fn lemma_size() {
    }

    proof fn lemma_read_prefix(b1: Seq<u8>, b2: Seq<u8>) {
        assert forall|i: int| 0 <= i < 8 implies b1[i] == b2[i] by {
            assert(b1.take(8)[i] == b2.take(8)[i]);
        }
    }

    fn size() -> usize {
        8
    }

    fn read_unchecked(ctxt: &mut ReadCtxt<'_>) -> (r: i64) {
        let ghost rem = ctxt.remaining();
        let r = ctxt.read_unchecked_i64be();
        proof {
            assert forall|i: int| 0 <= i < 8 implies rem[i] == old(ctxt).spec_data()[old(
                ctxt,
            ).spec_offset() + i] by {}
        }
        r
    }
}

/// The ability to test an index against a container's declared length.
pub trait CheckIndex {
    /// Whether `index` is within bounds.
    spec fn spec_in_bounds(&self, index: int) -> bool;

    /// Tests `index` against the declared length, returning
    /// `ParseError::BadIndex` when out of bounds.
    fn check_index(&self, index: usize) -> (r: Result<(), ParseError>)
        ensures
            r == (if self.spec_in_bounds(index as int) {
                Ok::<(), ParseError>(())
            } else {
                Err::<(), ParseError>(ParseError::BadIndex)
            }),
    ;
}

/// A lazy, randomly-indexable view over `length` consecutive fixed-stride
/// elements of type `T` inside a scope. No element is materialized until
/// indexed or iterated; each access re-decodes from the backing scope.
pub struct ReadArray<'a, T: ReadUnchecked> {
    scope: ReadScope<'a>,
    length: usize,
    phantom: PhantomData<T>,
}

impl<'a, T: ReadUnchecked> Clone for ReadArray<'a, T> {
    /// The clone is a view of the same bytes with the same declared length.
    fn clone(&self) -> (r: Self)
        ensures
            r.spec_data() == self.spec_data(),
            r.spec_len() == self.spec_len(),
    {
        ReadArray { scope: self.scope, length: self.length, phantom: PhantomData }
    }
}

/// An iterator over the elements of a `ReadArray`.
///
/// Typically created with [`ReadArray::iter`].
pub struct ReadArrayIter<'a, T: ReadUnchecked> {
    ctxt: ReadCtxt<'a>,
    length: usize,
    phantom: PhantomData<T>,
}

/// An iterator over the elements of a `ReadArray` that re-validates each
/// index and yields `Result` values.
///
/// Typically created with [`ReadArray::iter_res`].
pub struct ReadArrayDepIter<'a, 'b, T: ReadUnchecked> {
    array: &'b ReadArray<'a, T>,
    index: usize,
}

impl<'a, T: ReadUnchecked> ReadArray<'a, T> {
    /// The bytes of the backing scope.
    pub closed spec fn spec_data(&self) -> Seq<u8> {
        self.scope@
    }

    /// The declared element count.
    pub closed spec fn spec_len(&self) -> int {
        self.length as int
    }

    /// The array invariant: all declared elements lie within the scope.
    pub open spec fn wf(&self) -> bool {
        &&& T::spec_size() >= 1
        &&& 0 <= self.spec_len()
        &&& self.spec_len() * T::spec_size() <= self.spec_data().len()
        &&& self.spec_data().len() <= usize::MAX
    }

    /// The element decoded at index `i`.
    pub open spec fn spec_item(&self, i: int) -> T::Host {
        T::spec_read(self.spec_data().skip(i * T::spec_size()))
    }

    /// All declared elements, in order.
    pub open spec fn items(&self) -> Seq<T::Host> {
        Seq::new(self.spec_len() as nat, |i: int| self.spec_item(i))
    }

    /// An empty array.
    pub fn empty() -> (r: ReadArray<'a, T>)
        ensures
            r.wf(),
            r.spec_len() == 0,
    {
        proof {
            T::lemma_size();
        }
        ReadArray { scope: ReadScope::new(&[]), length: 0, phantom: PhantomData }
    }

    /// The declared element count.
    pub fn len(&self) -> (r: usize)
        ensures
            r == self.spec_len(),
    {
        self.length
    }

    /// Whether the array has no elements.
    pub fn is_empty(&self) -> (r: bool)
        ensures
            r <==> self.spec_len() == 0,
    {
        self.length == 0
    }

    /// Decodes the element at `index` from the backing scope. Indexing past
    /// the declared length is a caller contract violation, ruled out by the
    /// precondition.
    pub fn get_item(&self, index: usize) -> (r: T::Host)
        requires
            self.wf(),
            index < self.spec_len(),
        ensures
            r == self.spec_item(index as int),
            r == self.items()[index as int],
    {
        let size: usize = T::size();
        proof {
            assert((index + 1) * T::spec_size() <= self.spec_len() * T::spec_size())
                by (nonlinear_arith)
                requires
                    index + 1 <= self.spec_len(),
                    T::spec_size() >= 1,
            ;
            assert((index + 1) * T::spec_size() == index * T::spec_size() + T::spec_size())
                by (nonlinear_arith);
        }
        let offset: usize = index * size;
        let sub: ReadScope<'a> = self.scope.offset(offset);
        let mut ctxt: ReadCtxt<'a> = sub.ctxt();
        proof {
            assert(offset as int <= self.spec_data().len());
            assert(sub@ == self.spec_data().skip(index as int * T::spec_size()));
            assert(ctxt.remaining() =~= sub@);
        }
        let r = T::read_unchecked(&mut ctxt);
        proof {
            assert(r == self.spec_item(index as int));
        }
        r
    }

    /// Like [`ReadArray::get_item`], wrapped in `Result` for callers that
    /// propagate decode failures.
    pub fn read_item(&self, index: usize) -> (r: Result<T::Host, ParseError>)
        requires
            self.wf(),
            index < self.spec_len(),
        ensures
            r == Ok::<T::Host, ParseError>(self.spec_item(index as int)),
    {
        Ok(self.get_item(index))
    }

    /// The sub-array starting at `index`, sharing the same backing bytes.
    /// An out-of-range start index yields an empty, zero-length view rather
    /// than failing.
    pub fn subarray(&self, index: usize) -> (r: Self)
        requires
            self.wf(),
        ensures
            r.wf(),
            index < self.spec_len() ==> {
                &&& r.spec_len() == self.spec_len() - index
                &&& r.items() == self.items().skip(index as int)
            },
            index >= self.spec_len() ==> r.spec_len() == 0,
    {
        if index < self.length {
            let size: usize = T::size();
            proof {
                assert(index * T::spec_size() <= self.spec_len() * T::spec_size())
                    by (nonlinear_arith)
                    requires
                        0 <= index <= self.spec_len(),
                        T::spec_size() >= 1,
                ;
            }
            let offset: usize = index * size;
            let r = ReadArray {
                scope: self.scope.offset(offset),
                length: self.length - index,
                phantom: PhantomData,
            };
            proof {
                self.scope.lemma_len_bound();
                assert(r.spec_len() * T::spec_size() + index * T::spec_size() == self.spec_len()
                    * T::spec_size()) by (nonlinear_arith)
                    requires
                        r.spec_len() == self.spec_len() - index,
                ;
                assert forall|i: int| 0 <= i < r.spec_len() implies r.spec_item(i)
                    == self.spec_item(index + i) by {
                    assert(r.spec_data() == self.spec_data().skip(index * T::spec_size()));
                    assert(r.spec_data().skip(i * T::spec_size()) =~= self.spec_data().skip(
                        (index + i) * T::spec_size(),
                    )) by {
                        assert((index + i) * T::spec_size() == index * T::spec_size() + i
                            * T::spec_size()) by (nonlinear_arith);
                        assert(i * T::spec_size() >= 0) by (nonlinear_arith)
                            requires
                                i >= 0,
                                T::spec_size() >= 1,
                        ;
                        assert(i * T::spec_size() <= r.spec_len() * T::spec_size())
                            by (nonlinear_arith)
                            requires
                                i <= r.spec_len(),
                                T::spec_size() >= 1,
                        ;
                    }
                }
                assert(r.items() =~= self.items().skip(index as int));
            }
            r
        } else {
            proof {
                T::lemma_size();
            }
            ReadArray { scope: ReadScope::new(&[]), length: 0, phantom: PhantomData }
        }
    }

    /// When the array's bytes were carved from `parent` starting at
    /// `start`, each element also decodes directly from `parent` at its
    /// position there: `spec_read` looks only at one element's bytes.
    pub proof fn lemma_items_from_parent(&self, parent: Seq<u8>, start: int)
        requires
            self.wf(),
            0 <= start,
            start + self.spec_len() * T::spec_size() <= parent.len(),
            self.spec_data() == parent.subrange(start, start + self.spec_len() * T::spec_size()),
        ensures
            forall|i: int|
                0 <= i < self.spec_len() ==> #[trigger] self.spec_item(i) == T::spec_read(
                    parent.skip(start + i * T::spec_size()),
                ),
    {
        let sz = T::spec_size();
        let n = self.spec_len();
        assert forall|i: int| 0 <= i < n implies #[trigger] self.spec_item(i) == T::spec_read(
            parent.skip(start + i * sz),
        ) by {
            assert((i + 1) * sz <= n * sz) by (nonlinear_arith)
                requires
                    i + 1 <= n,
                    sz >= 1,
            ;
            assert((i + 1) * sz == i * sz + sz) by (nonlinear_arith);
            assert(i * sz >= 0) by (nonlinear_arith)
                requires
                    i >= 0,
                    sz >= 1,
            ;
            assert(self.spec_data().len() == n * sz);
            let a = self.spec_data().skip(i * sz);
            let b = parent.skip(start + i * sz);
            assert(a.len() >= sz);
            assert(b.len() >= sz);
            assert(a.take(sz) =~= b.take(sz)) by {
                assert forall|k: int| 0 <= k < sz implies a.take(sz)[k] == b.take(sz)[k] by {
                    assert(a[k] == self.spec_data()[i * sz + k]);
                    assert(self.spec_data()[i * sz + k] == parent[start + i * sz + k]);
                    assert(b[k] == parent[start + i * sz + k]);
                }
            }
            T::lemma_read_prefix(a, b);
        }
    }

    /// An iterator over the array's elements.
    pub fn iter(&self) -> (r: ReadArrayIter<'a, T>)
        requires
            self.wf(),
        ensures
            r.wf(),
            r.spec_len() == self.spec_len(),
            r.spec_rest() == self.spec_data(),
            forall|i: int| 0 <= i < self.spec_len() ==> #[trigger] r.spec_peek(i) == self.spec_item(
                i,
            ),
    {
        ReadArrayIter { ctxt: self.scope.ctxt(), length: self.length, phantom: PhantomData }
    }

    /// An iterator that re-validates each index and yields `Result` values.
    pub fn iter_res<'b>(&'b self) -> (r: ReadArrayDepIter<'a, 'b, T>)
        ensures
            r.spec_array() == *self,
            r.spec_index() == 0,
    {
        ReadArrayDepIter { array: self, index: 0 }
    }
}

impl<'a, T: ReadUnchecked> CheckIndex for ReadArray<'a, T> {
    open spec fn spec_in_bounds(&self, index: int) -> bool {
        0 <= index < self.spec_len()
    }

    fn check_index(&self, index: usize) -> (r: Result<(), ParseError>) {
        if index < self.length {
            Ok(())
        } else {
            Err(ParseError::BadIndex)
        }
    }
}

impl<'a, T: ReadUnchecked> ReadArrayIter<'a, T> {
    /// The bytes not yet consumed by the iterator.
    pub closed spec fn spec_rest(&self) -> Seq<u8> {
        self.ctxt.remaining()
    }

    /// How many elements remain.
    pub closed spec fn spec_len(&self) -> int {
        self.length as int
    }

    /// The element that `next` will yield after `i` more steps.
    pub open spec fn spec_peek(&self, i: int) -> T::Host {
        T::spec_read(self.spec_rest().skip(i * T::spec_size()))
    }

    /// The iterator invariant: all remaining elements lie within the
    /// remaining bytes.
    pub closed spec fn wf(&self) -> bool {
        &&& T::spec_size() >= 1
        &&& self.ctxt.wf()
        &&& self.spec_len() * T::spec_size() <= self.spec_rest().len()
    }

    /// Yields the next element, or `None` when the declared length is
    /// exhausted.
    pub fn next(&mut self) -> (r: Option<T::Host>)
        requires
            old(self).wf(),
        ensures
            final(self).wf(),
            old(self).spec_len() == 0 ==> {
                &&& r is None
                &&& final(self).spec_len() == 0
                &&& final(self).spec_rest() == old(self).spec_rest()
            },
            old(self).spec_len() > 0 ==> {
                &&& r == Some(T::spec_read(old(self).spec_rest()))
                &&& r == Some(old(self).spec_peek(0))
                &&& final(self).spec_len() == old(self).spec_len() - 1
                &&& final(self).spec_rest() == old(self).spec_rest().skip(T::spec_size())
            },
    {
        if self.length > 0 {
            proof {
                let n = old(self).spec_len();
                let sz = T::spec_size();
                assert(n * sz >= 1 * sz) by (nonlinear_arith)
                    requires
                        n >= 1,
                        sz >= 1,
                ;
                assert((n - 1) * sz == n * sz - sz) by (nonlinear_arith);
            }
            self.length = self.length - 1;
            let ghost pre = self.ctxt;
            let item = T::read_unchecked(&mut self.ctxt);
            proof {
                assert(self.ctxt.remaining() =~= pre.remaining().skip(T::spec_size()));
                assert(pre.remaining() == old(self).spec_rest());
                assert(old(self).spec_rest().skip(0 * T::spec_size()) == old(self).spec_rest());
            }
            Some(item)
        } else {
            None
        }
    }

    /// The exact number of elements that remain.
    pub fn size_hint(&self) -> (r: (usize, Option<usize>))
        ensures
            r.0 == self.spec_len(),
            r.1 == Some(self.spec_len() as usize),
    {
        (self.length, Some(self.length))
    }
}

impl<'a, 'b, T: ReadUnchecked> ReadArrayDepIter<'a, 'b, T> {
    /// The array being iterated.
    pub closed spec fn spec_array(&self) -> ReadArray<'a, T> {
        *self.array
    }

    /// The index of the next element to yield.
    pub closed spec fn spec_index(&self) -> int {
        self.index as int
    }

    /// Yields the next element, re-validating the index against the live
    /// array length, or `None` at exhaustion.
    pub fn next(&mut self) -> (r: Option<Result<T::Host, ParseError>>)
        requires
            old(self).spec_array().wf(),
        ensures
            final(self).spec_array() == old(self).spec_array(),
            old(self).spec_index() < old(self).spec_array().spec_len() ==> {
                &&& r == Some(Ok::<T::Host, ParseError>(
                    old(self).spec_array().spec_item(old(self).spec_index()),
                ))
                &&& final(self).spec_index() == old(self).spec_index() + 1
            },
            old(self).spec_index() >= old(self).spec_array().spec_len() ==> {
                &&& r is None
                &&& final(self).spec_index() == old(self).spec_index()
            },
    {
        if self.index < self.array.len() {
            let result = self.array.read_item(self.index);
            self.index = self.index + 1;
            Some(result)
        } else {
            None
        }
    }

    /// The exact number of elements that remain, derived from the live
    /// array length.
    pub fn size_hint(&self) -> (r: (usize, Option<usize>))
        ensures
            self.spec_index() < self.spec_array().spec_len() ==> r == (
                (self.spec_array().spec_len() - self.spec_index()) as usize,
                Some((self.spec_array().spec_len() - self.spec_index()) as usize),
            ),
            self.spec_index() >= self.spec_array().spec_len() ==> r == (
                0usize,
                Some(0usize),
            ),
    {
        if self.index < self.array.len() {
            let length: usize = self.array.len() - self.index;
            (length, Some(length))
        } else {
            (0, Some(0))
        }
    }
}

} // verus!
