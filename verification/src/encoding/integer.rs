//! Fixed-width signed integer decoding: a declared number of raw
//! big-endian two's-complement bytes, widened into the narrowest
//! container that covers that many bytes. Widening relocates the sign
//! bit to the container's most significant position.

use vstd::prelude::*;

use crate::byte_source::ByteSource;
use crate::encoding::be_bytes_value;
use crate::encoding::read_be_value;
use crate::encoding::Error;
use crate::encoding::IntegerKind;
use vstd::arithmetic::power2::pow2;

verus! {

/// Signed integer containers that `read_integer` can produce; the
/// container is chosen by the declared byte count alone.
#[derive(Clone, Copy, Debug, PartialEq, Eq, Structural)]
pub enum Integer {
    I8(i8),
    I16(i16),
    I32(i32),
    I64(i64),
    I128(i128),
}

/// The two's-complement reading of an unsigned value `v` of `length`
/// bytes: values with the top bit set wrap below zero.
pub open spec fn spec_sign_extend(v: nat, length: nat) -> int {
    if length == 0 {
        0
    } else if v >= pow2((8 * length - 1) as nat) {
        v - pow2(8 * length)
    } else {
        v as int
    }
}

/// The signed integer that `bytes` spell in big-endian two's-complement
/// form.
pub open spec fn twos_complement_value(bytes: Seq<u8>) -> int {
    spec_sign_extend(be_bytes_value(bytes), bytes.len())
}

/// What decoding `length` raw bytes at `pos` of `d` as a signed integer
/// yields: the big-endian two's-complement value in the narrowest
/// container of at least `length` bytes. A declared length of zero or
/// of more than 16 bytes is a decoding error; too few remaining bytes
/// exhaust the source.
pub open spec fn spec_read_integer(d: Seq<u8>, pos: int, length: u8) -> Result<Integer, Error> {
    if length == 0 || length > 16 {
        Err(Error::DecodingError(IntegerKind::Signed))
    } else if pos + length > d.len() {
        Err(Error::UnexpectedEof)
    } else {
        let sv = twos_complement_value(d.subrange(pos, pos + length));
        if length == 1 {
            Ok(Integer::I8(sv as i8))
        } else if length == 2 {
            Ok(Integer::I16(sv as i16))
        } else if length <= 4 {
            Ok(Integer::I32(sv as i32))
        } else if length <= 8 {
            Ok(Integer::I64(sv as i64))
        } else {
            Ok(Integer::I128(sv as i128))
        }
    }
}

/// A declared width of zero bytes, or of more than 16, is always a
/// decoding error naming the integer kind, for either signedness, on
/// any data and at any position; no other outcome is reachable.
pub proof fn lemma_integer_width_boundary(d: Seq<u8>, pos: int, length: u8)
    requires
        length == 0 || length > 16,
    ensures
        spec_read_integer(d, pos, length) == Err::<Integer, Error>(
            Error::DecodingError(IntegerKind::Signed),
        ),
        crate::encoding::unsigned_integer::spec_read_unsigned_integer(d, pos, length) == Err::<
            crate::encoding::unsigned_integer::UnsignedInteger,
            Error,
        >(Error::DecodingError(IntegerKind::Unsigned)),
{
}

/// An all-ones run of bytes spells, big-endian, one less than the
/// power of two just past its width.
proof fn lemma_be_all_ones(s: Seq<u8>)
    requires
        forall|j: int| 0 <= j < s.len() ==> s[j] == 0xFF,
    ensures
        be_bytes_value(s) == pow2(8 * s.len()) - 1,
    decreases s.len(),
{
    vstd::arithmetic::power2::lemma2_to64();
    if s.len() > 0 {
        lemma_be_all_ones(s.drop_last());
        vstd::arithmetic::power2::lemma_pow2_adds(8 * (s.len() - 1) as nat, 8);
    }
}

/// Signed decoding of an all-ones pattern of 9 to 16 bytes yields
/// minus one in the 128-bit container: the widening relocates the sign
/// bit to the container's most significant position, so the value does
/// not change.
pub proof fn lemma_all_ones_signed_is_minus_one(d: Seq<u8>, pos: int, length: u8)
    requires
        9 <= length <= 16,
        0 <= pos,
        pos + length <= d.len(),
        forall|j: int| pos <= j < pos + length ==> d[j] == 0xFF,
    ensures
        spec_read_integer(d, pos, length) == Ok::<Integer, Error>(Integer::I128(-1i128)),
{
    let s = d.subrange(pos, pos + length);
    assert(forall|j: int| 0 <= j < s.len() ==> s[j] == 0xFF);
    lemma_be_all_ones(s);
    crate::encoding::lemma_pow2_bytes();
    vstd::arithmetic::power2::lemma_pow2_adds((8 * length - 1) as nat, 1);
    vstd::arithmetic::power2::lemma2_to64();
    assert(twos_complement_value(s) == -1);
}

/// The value `pow2(8 * length - 1)`: the smallest `length`-byte value
/// whose two's-complement reading is negative.
fn half_bound(length: u8) -> (r: u128)
    requires
        1 <= length <= 15,
    ensures
        r == pow2((8 * length - 1) as nat),
{
    proof {
        crate::encoding::lemma_pow2_bytes();
    }
    match length {
        1 => 0x80,
        2 => 0x8000,
        3 => 0x80_0000,
        4 => 0x8000_0000,
        5 => 0x80_0000_0000,
        6 => 0x8000_0000_0000,
        7 => 0x80_0000_0000_0000,
        8 => 0x8000_0000_0000_0000,
        9 => 0x80_0000_0000_0000_0000,
        10 => 0x8000_0000_0000_0000_0000,
        11 => 0x80_0000_0000_0000_0000_0000,
        12 => 0x8000_0000_0000_0000_0000_0000,
        13 => 0x80_0000_0000_0000_0000_0000_0000,
        14 => 0x8000_0000_0000_0000_0000_0000_0000,
        _ => 0x80_0000_0000_0000_0000_0000_0000_0000,
    }
}

/// The value `pow2(8 * length)`: one past the largest `length`-byte
/// unsigned value.
fn full_bound(length: u8) -> (r: i128)
    requires
        1 <= length <= 15,
    ensures
        r == pow2((8 * length) as nat),
{
    proof {
        crate::encoding::lemma_pow2_bytes();
    }
    match length {
        1 => 0x100,
        2 => 0x1_0000,
        3 => 0x100_0000,
        4 => 0x1_0000_0000,
        5 => 0x100_0000_0000,
        6 => 0x1_0000_0000_0000,
        7 => 0x100_0000_0000_0000,
        8 => 0x1_0000_0000_0000_0000,
        9 => 0x100_0000_0000_0000_0000,
        10 => 0x1_0000_0000_0000_0000_0000,
        11 => 0x100_0000_0000_0000_0000_0000,
        12 => 0x1_0000_0000_0000_0000_0000_0000,
        13 => 0x100_0000_0000_0000_0000_0000_0000,
        14 => 0x1_0000_0000_0000_0000_0000_0000_0000,
        _ => 0x100_0000_0000_0000_0000_0000_0000_0000,
    }
}

/// Reinterprets the unsigned value of `length` big-endian bytes as the
/// two's-complement value of the same bit pattern, widened to 128 bits.
fn sign_extend(value: u128, length: u8) -> (r: i128)
    requires
        1 <= length <= 16,
        value < pow2((8 * length) as nat),
    ensures
        r == spec_sign_extend(value as nat, length as nat),
        -pow2((8 * length - 1) as nat) <= r < pow2((8 * length - 1) as nat),
{
    proof {
        crate::encoding::lemma_pow2_bytes();
    }
    if length == 16 {
        if value >= 0x8000_0000_0000_0000_0000_0000_0000_0000u128 {
            let diff = u128::MAX - value;
            -(diff as i128) - 1
        } else {
            value as i128
        }
    } else {
        let half = half_bound(length);
        if value >= half {
            value as i128 - full_bound(length)
        } else {
            value as i128
        }
    }
}

/// Reads a variable-length signed integer of `length` big-endian
/// two's-complement bytes from the source.
///
/// An invalid `length` consumes nothing; a successful read, exactly
/// `length` bytes; a read past the end stops at the end of the source.
pub fn read_integer(src: &mut ByteSource, length: u8) -> (r: Result<Integer, Error>)
    requires
        old(src).wf(),
    ensures
        final(src).wf(),
        final(src).bytes() == old(src).bytes(),
        r == spec_read_integer(old(src).bytes(), old(src).pos(), length),
        r is Ok ==> final(src).pos() == old(src).pos() + length,
        length == 0 || length > 16 ==> final(src).pos() == old(src).pos(),
        r == Err::<Integer, Error>(Error::UnexpectedEof) ==> final(src).pos() == old(
            src,
        ).bytes().len(),
{
    if length == 0 || length > 16 {
        return Err(Error::DecodingError(IntegerKind::Signed));
    }
    let value = match read_be_value(src, length) {
        Some(v) => v,
        None => {
            return Err(Error::UnexpectedEof);
        },
    };
    proof {
        crate::encoding::lemma_be_bytes_value_bound(
            old(src).bytes().subrange(old(src).pos(), old(src).pos() + length),
        );
        crate::encoding::lemma_pow2_bytes();
    }
    let sv = sign_extend(value, length);
    proof {
        if 8 * length - 1 < 31 {
            vstd::arithmetic::power2::lemma_pow2_strictly_increases((8 * length - 1) as nat, 31);
        }
        if 8 * length - 1 < 63 {
            vstd::arithmetic::power2::lemma_pow2_strictly_increases((8 * length - 1) as nat, 63);
        }
    }
    if length == 1 {
        Ok(Integer::I8(sv as i8))
    } else if length == 2 {
        Ok(Integer::I16(sv as i16))
    } else if length <= 4 {
        Ok(Integer::I32(sv as i32))
    } else if length <= 8 {
        Ok(Integer::I64(sv as i64))
    } else {
        Ok(Integer::I128(sv))
    }
}

/// Reads one byte as an `i8`.
pub fn read_i8(src: &mut ByteSource) -> (r: Result<i8, Error>)
    requires
        old(src).wf(),
    ensures
        final(src).wf(),
        final(src).bytes() == old(src).bytes(),
        old(src).pos() + 1 <= old(src).bytes().len() ==> (r matches Ok(v) && v
            == twos_complement_value(
            old(src).bytes().subrange(old(src).pos(), old(src).pos() + 1),
        ) && final(src).pos() == old(src).pos() + 1),
        old(src).pos() + 1 > old(src).bytes().len() ==> r == Err::<i8, Error>(
            Error::UnexpectedEof,
        ) && final(src).pos() == old(src).bytes().len(),
{
    match read_be_value(src, 1) {
        Some(v) => {
            proof {
                lemma_signed_narrow(old(src).bytes(), old(src).pos(), 1);
            }
            Ok(sign_extend(v, 1) as i8)
        },
        None => Err(Error::UnexpectedEof),
    }
}

/// Reads two big-endian two's-complement bytes as an `i16`.
pub fn read_i16(src: &mut ByteSource) -> (r: Result<i16, Error>)
    requires
        old(src).wf(),
    ensures
        final(src).wf(),
        final(src).bytes() == old(src).bytes(),
        old(src).pos() + 2 <= old(src).bytes().len() ==> (r matches Ok(v) && v
            == twos_complement_value(
            old(src).bytes().subrange(old(src).pos(), old(src).pos() + 2),
        ) && final(src).pos() == old(src).pos() + 2),
        old(src).pos() + 2 > old(src).bytes().len() ==> r == Err::<i16, Error>(
            Error::UnexpectedEof,
        ) && final(src).pos() == old(src).bytes().len(),
{
    match read_be_value(src, 2) {
        Some(v) => {
            proof {
                lemma_signed_narrow(old(src).bytes(), old(src).pos(), 2);
            }
            Ok(sign_extend(v, 2) as i16)
        },
        None => Err(Error::UnexpectedEof),
    }
}

/// Reads four big-endian two's-complement bytes as an `i32`.
pub fn read_i32(src: &mut ByteSource) -> (r: Result<i32, Error>)
    requires
        old(src).wf(),
    ensures
        final(src).wf(),
        final(src).bytes() == old(src).bytes(),
        old(src).pos() + 4 <= old(src).bytes().len() ==> (r matches Ok(v) && v
            == twos_complement_value(
            old(src).bytes().subrange(old(src).pos(), old(src).pos() + 4),
        ) && final(src).pos() == old(src).pos() + 4),
        old(src).pos() + 4 > old(src).bytes().len() ==> r == Err::<i32, Error>(
            Error::UnexpectedEof,
        ) && final(src).pos() == old(src).bytes().len(),
{
    match read_be_value(src, 4) {
        Some(v) => {
            proof {
                lemma_signed_narrow(old(src).bytes(), old(src).pos(), 4);
            }
            Ok(sign_extend(v, 4) as i32)
        },
        None => Err(Error::UnexpectedEof),
    }
}

/// Reads eight big-endian two's-complement bytes as an `i64`.
pub fn read_i64(src: &mut ByteSource) -> (r: Result<i64, Error>)
    requires
        old(src).wf(),
    ensures
        final(src).wf(),
        final(src).bytes() == old(src).bytes(),
        old(src).pos() + 8 <= old(src).bytes().len() ==> (r matches Ok(v) && v
            == twos_complement_value(
            old(src).bytes().subrange(old(src).pos(), old(src).pos() + 8),
        ) && final(src).pos() == old(src).pos() + 8),
        old(src).pos() + 8 > old(src).bytes().len() ==> r == Err::<i64, Error>(
            Error::UnexpectedEof,
        ) && final(src).pos() == old(src).bytes().len(),
{
    match read_be_value(src, 8) {
        Some(v) => {
            proof {
                lemma_signed_narrow(old(src).bytes(), old(src).pos(), 8);
            }
            Ok(sign_extend(v, 8) as i64)
        },
        None => Err(Error::UnexpectedEof),
    }
}

/// Reads sixteen big-endian two's-complement bytes as an `i128`.
pub fn read_i128(src: &mut ByteSource) -> (r: Result<i128, Error>)
    requires
        old(src).wf(),
    ensures
        final(src).wf(),
        final(src).bytes() == old(src).bytes(),
        old(src).pos() + 16 <= old(src).bytes().len() ==> (r matches Ok(v) && v
            == twos_complement_value(
            old(src).bytes().subrange(old(src).pos(), old(src).pos() + 16),
        ) && final(src).pos() == old(src).pos() + 16),
        old(src).pos() + 16 > old(src).bytes().len() ==> r == Err::<i128, Error>(
            Error::UnexpectedEof,
        ) && final(src).pos() == old(src).bytes().len(),
{
    match read_be_value(src, 16) {
        Some(v) => {
            proof {
                lemma_signed_narrow(old(src).bytes(), old(src).pos(), 16);
            }
            Ok(sign_extend(v, 16))
        },
        None => Err(Error::UnexpectedEof),
    }
}

/// The big-endian value of a short run of bytes stays under the bound
/// of the matching container, and the powers of two at byte positions
/// have their concrete values.
proof fn lemma_signed_narrow(d: Seq<u8>, pos: int, length: u8)
    requires
        1 <= length <= 16,
        0 <= pos,
        pos + length <= d.len(),
    ensures
        be_bytes_value(d.subrange(pos, pos + length)) < pow2((8 * length) as nat),
        pow2(7) == 0x80,
        pow2(15) == 0x8000,
        pow2(31) == 0x8000_0000,
        pow2(63) == 0x8000_0000_0000_0000,
        pow2(127) == 0x8000_0000_0000_0000_0000_0000_0000_0000,
{
    crate::encoding::lemma_be_bytes_value_bound(d.subrange(pos, pos + length));
    crate::encoding::lemma_pow2_bytes();
}

} // verus!
