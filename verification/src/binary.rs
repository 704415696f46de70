//! Reading of binary data.

use vstd::prelude::*;

pub mod read;

verus! {

/// Unsigned 8-bit binary type.
#[derive(Copy, Clone)]
pub struct U8;

/// Signed 8-bit binary type.
#[derive(Copy, Clone)]
pub struct I8;

/// Unsigned 16-bit big endian binary type.
#[derive(Copy, Clone)]
pub struct U16Be;

/// Signed 16-bit big endian binary type.
#[derive(Copy, Clone)]
pub struct I16Be;

/// Unsigned 24-bit (3 bytes) big endian binary type.
#[derive(Copy, Clone)]
pub struct U24Be;

/// Unsigned 32-bit big endian binary type.
#[derive(Copy, Clone)]
pub struct U32Be;

/// Signed 32-bit big endian binary type.
#[derive(Copy, Clone)]
pub struct I32Be;

/// Signed 64-bit binary type.
#[derive(Copy, Clone)]
pub struct I64Be;

/// A safe u32 to usize casting.
///
/// Rust doesn't implement `From<u32> for usize`,
/// because it has to support 16 bit targets.
/// We don't, so we can allow this.
pub trait NumFrom<T>: Sized {
    /// The mathematical value of the conversion.
    spec fn spec_num_from(v: T) -> Self;

    /// Converts `v` into `Self` without loss.
    fn num_from(v: T) -> (r: Self)
        ensures
            r == Self::spec_num_from(v),
    ;
}

impl NumFrom<u32> for usize {
    open spec fn spec_num_from(v: u32) -> usize {
        v as usize
    }

    #[inline]
    fn num_from(v: u32) -> usize {
        v as usize
    }
}

} // verus!
