//! Fixed-width unsigned integer decoding: a declared number of raw
//! big-endian bytes, widened into the narrowest container that covers
//! that many bytes.

use vstd::prelude::*;

use crate::byte_source::ByteSource;
use crate::encoding::be_bytes_value;
use crate::encoding::read_be_value;
use crate::encoding::Error;
use crate::encoding::IntegerKind;

verus! {

/// Unsigned integer containers that `read_unsigned_integer` can
/// produce; the container is chosen by the declared byte count alone.
#[derive(Clone, Copy, Debug, PartialEq, Eq, Structural)]
pub enum UnsignedInteger {
    U8(u8),
    U16(u16),
    U32(u32),
    U64(u64),
    U128(u128),
}

/// What decoding `length` raw bytes at `pos` of `d` as an unsigned
/// integer yields: the big-endian value in the narrowest container of
/// at least `length` bytes. A declared length of zero or of more than
/// 16 bytes is a decoding error; too few remaining bytes exhaust the
/// source.
pub open spec fn spec_read_unsigned_integer(d: Seq<u8>, pos: int, length: u8) -> Result<
    UnsignedInteger,
    Error,
> {
    if length == 0 || length > 16 {
        Err(Error::DecodingError(IntegerKind::Unsigned))
    } else if pos + length > d.len() {
        Err(Error::UnexpectedEof)
    } else {
        let v = be_bytes_value(d.subrange(pos, pos + length));
        if length == 1 {
            Ok(UnsignedInteger::U8(v as u8))
        } else if length == 2 {
            Ok(UnsignedInteger::U16(v as u16))
        } else if length <= 4 {
            Ok(UnsignedInteger::U32(v as u32))
        } else if length <= 8 {
            Ok(UnsignedInteger::U64(v as u64))
        } else {
            Ok(UnsignedInteger::U128(v as u128))
        }
    }
}

/// Reads a variable-length unsigned integer of `length` big-endian
/// bytes from the source.
///
/// An invalid `length` consumes nothing; a successful read, exactly
/// `length` bytes; a read past the end stops at the end of the source.
pub fn read_unsigned_integer(src: &mut ByteSource, length: u8) -> (r: Result<
    UnsignedInteger,
    Error,
>)
    requires
        old(src).wf(),
    ensures
        final(src).wf(),
        final(src).bytes() == old(src).bytes(),
        r == spec_read_unsigned_integer(old(src).bytes(), old(src).pos(), length),
        r is Ok ==> final(src).pos() == old(src).pos() + length,
        length == 0 || length > 16 ==> final(src).pos() == old(src).pos(),
        r == Err::<UnsignedInteger, Error>(Error::UnexpectedEof) ==> final(src).pos() == old(
            src,
        ).bytes().len(),
{
    if length == 0 || length > 16 {
        return Err(Error::DecodingError(IntegerKind::Unsigned));
    }
    let value = match read_be_value(src, length) {
        Some(v) => v,
        None => {
            return Err(Error::UnexpectedEof);
        },
    };
    proof {
        crate::encoding::lemma_be_bytes_value_bound(
            old(src).bytes().subrange(old(src).pos(), old(src).pos() + length),
        );
        crate::encoding::lemma_pow2_bytes();
        if 8 * length < 128 {
            vstd::arithmetic::power2::lemma_pow2_strictly_increases((8 * length) as nat, 128);
        }
        if length < 4 {
            vstd::arithmetic::power2::lemma_pow2_strictly_increases((8 * length) as nat, 32);
        }
        if length < 8 {
            vstd::arithmetic::power2::lemma_pow2_strictly_increases((8 * length) as nat, 64);
        }
    }
    if length == 1 {
        Ok(UnsignedInteger::U8(value as u8))
    } else if length == 2 {
        Ok(UnsignedInteger::U16(value as u16))
    } else if length <= 4 {
        Ok(UnsignedInteger::U32(value as u32))
    } else if length <= 8 {
        Ok(UnsignedInteger::U64(value as u64))
    } else {
        Ok(UnsignedInteger::U128(value))
    }
}

/// Reads one byte as a `u8`.
pub fn read_u8(src: &mut ByteSource) -> (r: Result<u8, Error>)
    requires
        old(src).wf(),
    ensures
        final(src).wf(),
        final(src).bytes() == old(src).bytes(),
        old(src).pos() + 1 <= old(src).bytes().len() ==> (r matches Ok(v) && v == old(
            src,
        ).bytes()[old(src).pos()] && final(src).pos() == old(src).pos() + 1),
        old(src).pos() + 1 > old(src).bytes().len() ==> r == Err::<u8, Error>(
            Error::UnexpectedEof,
        ) && final(src).pos() == old(src).bytes().len(),
{
    match src.read_byte() {
        Some(b) => Ok(b),
        None => Err(Error::UnexpectedEof),
    }
}

/// Reads two big-endian bytes as a `u16`.
pub fn read_u16(src: &mut ByteSource) -> (r: Result<u16, Error>)
    requires
        old(src).wf(),
    ensures
        final(src).wf(),
        final(src).bytes() == old(src).bytes(),
        old(src).pos() + 2 <= old(src).bytes().len() ==> (r matches Ok(v) && v == be_bytes_value(
            old(src).bytes().subrange(old(src).pos(), old(src).pos() + 2),
        ) && final(src).pos() == old(src).pos() + 2),
        old(src).pos() + 2 > old(src).bytes().len() ==> r == Err::<u16, Error>(
            Error::UnexpectedEof,
        ) && final(src).pos() == old(src).bytes().len(),
{
    match read_be_value(src, 2) {
        Some(v) => {
            proof {
                lemma_narrow(old(src).bytes(), old(src).pos(), 2);
                crate::encoding::lemma_pow2_bytes();
            }
            Ok(v as u16)
        },
        None => Err(Error::UnexpectedEof),
    }
}

/// Reads four big-endian bytes as a `u32`.
pub fn read_u32(src: &mut ByteSource) -> (r: Result<u32, Error>)
    requires
        old(src).wf(),
    ensures
        final(src).wf(),
        final(src).bytes() == old(src).bytes(),
        old(src).pos() + 4 <= old(src).bytes().len() ==> (r matches Ok(v) && v == be_bytes_value(
            old(src).bytes().subrange(old(src).pos(), old(src).pos() + 4),
        ) && final(src).pos() == old(src).pos() + 4),
        old(src).pos() + 4 > old(src).bytes().len() ==> r == Err::<u32, Error>(
            Error::UnexpectedEof,
        ) && final(src).pos() == old(src).bytes().len(),
{
    match read_be_value(src, 4) {
        Some(v) => {
            proof {
                lemma_narrow(old(src).bytes(), old(src).pos(), 4);
                crate::encoding::lemma_pow2_bytes();
            }
            Ok(v as u32)
        },
        None => Err(Error::UnexpectedEof),
    }
}

/// Reads eight big-endian bytes as a `u64`.
pub fn read_u64(src: &mut ByteSource) -> (r: Result<u64, Error>)
    requires
        old(src).wf(),
    ensures
        final(src).wf(),
        final(src).bytes() == old(src).bytes(),
        old(src).pos() + 8 <= old(src).bytes().len() ==> (r matches Ok(v) && v == be_bytes_value(
            old(src).bytes().subrange(old(src).pos(), old(src).pos() + 8),
        ) && final(src).pos() == old(src).pos() + 8),
        old(src).pos() + 8 > old(src).bytes().len() ==> r == Err::<u64, Error>(
            Error::UnexpectedEof,
        ) && final(src).pos() == old(src).bytes().len(),
{
    match read_be_value(src, 8) {
        Some(v) => {
            proof {
                lemma_narrow(old(src).bytes(), old(src).pos(), 8);
                crate::encoding::lemma_pow2_bytes();
            }
            Ok(v as u64)
        },
        None => Err(Error::UnexpectedEof),
    }
}

/// Reads sixteen big-endian bytes as a `u128`.
pub fn read_u128(src: &mut ByteSource) -> (r: Result<u128, Error>)
    requires
        old(src).wf(),
    ensures
        final(src).wf(),
        final(src).bytes() == old(src).bytes(),
        old(src).pos() + 16 <= old(src).bytes().len() ==> (r matches Ok(v) && v == be_bytes_value(
            old(src).bytes().subrange(old(src).pos(), old(src).pos() + 16),
        ) && final(src).pos() == old(src).pos() + 16),
        old(src).pos() + 16 > old(src).bytes().len() ==> r == Err::<u128, Error>(
            Error::UnexpectedEof,
        ) && final(src).pos() == old(src).bytes().len(),
{
    match read_be_value(src, 16) {
        Some(v) => Ok(v),
        None => Err(Error::UnexpectedEof),
    }
}

/// The big-endian value of a short run of bytes stays under the bound
/// of the matching container.
proof fn lemma_narrow(d: Seq<u8>, pos: int, length: u8)
    requires
        1 <= length <= 16,
        0 <= pos,
        pos + length <= d.len(),
    ensures
        be_bytes_value(d.subrange(pos, pos + length)) < vstd::arithmetic::power2::pow2(
            (8 * length) as nat,
        ),
{
    crate::encoding::lemma_be_bytes_value_bound(d.subrange(pos, pos + length));
    crate::encoding::lemma_pow2_bytes();
}

} // verus!
