//! Binary encodings used by KLV metadata: BER lengths, BER-OID tag
//! numbers, and fixed-width big-endian integers.

use vstd::prelude::*;

pub mod ber;
pub mod ber_oid;
pub mod integer;
pub mod unsigned_integer;

verus! {

/// The integer kind a decoder was asked to produce, used to name the
/// offender when a declared byte length is structurally invalid.
#[derive(Clone, Copy, Debug, PartialEq, Eq, Structural)]
pub enum IntegerKind {
    Signed,
    Unsigned,
}

/// Everything that can go wrong while decoding KLV fields.
#[derive(Clone, Copy, Debug, PartialEq, Eq, Structural)]
pub enum Error {
    /// Fewer bytes were available than a field declared.
    UnexpectedEof,
    /// A declared byte length was structurally invalid (zero, or wider
    /// than the widest supported container) for the named integer kind.
    DecodingError(IntegerKind),
    /// A decoded value needs more bits than the widest supported
    /// container offers.
    Overflow,
    /// A BER long-form header whose count of following bytes is zero.
    MalformedLongForm,
    /// A triplet ran past the end of its local set's declared span.
    MalformedSpan,
}

/// The wire-level data types a KLV value can carry, each holding the
/// decoded form of its value.
#[derive(Clone, Debug)]
pub enum SimpleDataType {
    /// A BER short/long-form unsigned integer.
    Ber(u128),
    /// A BER-OID continuation-encoded unsigned integer.
    BerOid(u128),
    /// Raw bytes carrying flags, small enumerations or other
    /// bit-specified controls; the governing standard says how to read
    /// each bit.
    Binary(Vec<u8>),
    /// One byte: zero is false, one is true, anything else invalid.
    Boolean(bool),
    /// Characters drawn from the 7-bit ISO 646 set, kept for older
    /// standards; newer ones use UTF-8.
    Iso7(String),
    /// A UTF-8 character string.
    Utf8(String),
    /// A UTF-16 character string, kept only for older standards.
    Utf16,
    /// An unsigned integer whose value maps to a predefined table of
    /// choices.
    Enumeration(u128),
    FloatingPoint,
    /// An unsigned integer mapped onto a floating-point range by known
    /// parameters, using fewer bytes than the value itself would.
    IMAP,
    SignedInteger(integer::Integer),
    UnsignedInteger(unsigned_integer::UnsignedInteger),
}

/// The unsigned integer that `bytes` spell in big-endian order.
pub open spec fn be_bytes_value(bytes: Seq<u8>) -> nat
    decreases bytes.len(),
{
    if bytes.len() == 0 {
        0
    } else {
        be_bytes_value(bytes.drop_last()) * 256 + (bytes.last() as nat)
    }
}

/// The unsigned integer spelt by the low 7 bits of each byte of `bytes`,
/// most significant group first, as BER-OID continuation bytes carry it.
pub open spec fn oid_groups_value(bytes: Seq<u8>) -> nat
    decreases bytes.len(),
{
    if bytes.len() == 0 {
        0
    } else {
        oid_groups_value(bytes.drop_last()) * 128 + (bytes.last() as nat) % 128
    }
}

/// Appending one byte multiplies the big-endian value by 256 and adds
/// the byte.
pub proof fn lemma_be_bytes_value_push(bytes: Seq<u8>, b: u8)
    ensures
        be_bytes_value(bytes.push(b)) == be_bytes_value(bytes) * 256 + b,
{
    assert(bytes.push(b).drop_last() =~= bytes);
    assert(bytes.push(b).last() == b);
}

/// Appending one byte multiplies the 7-bit-group value by 128 and adds
/// the byte's low 7 bits.
pub proof fn lemma_oid_groups_value_push(bytes: Seq<u8>, b: u8)
    ensures
        oid_groups_value(bytes.push(b)) == oid_groups_value(bytes) * 128 + (b as nat) % 128,
{
    assert(bytes.push(b).drop_last() =~= bytes);
    assert(bytes.push(b).last() == b);
}

/// Concrete values of the powers of two at whole-byte and sign-bit
/// positions, for containers of up to 16 bytes.
pub proof fn lemma_pow2_bytes()
    ensures
        vstd::arithmetic::power2::pow2(7) == 0x80,
        vstd::arithmetic::power2::pow2(8) == 0x100,
        vstd::arithmetic::power2::pow2(15) == 0x8000,
        vstd::arithmetic::power2::pow2(16) == 0x1_0000,
        vstd::arithmetic::power2::pow2(23) == 0x80_0000,
        vstd::arithmetic::power2::pow2(24) == 0x100_0000,
        vstd::arithmetic::power2::pow2(31) == 0x8000_0000,
        vstd::arithmetic::power2::pow2(32) == 0x1_0000_0000,
        vstd::arithmetic::power2::pow2(39) == 0x80_0000_0000,
        vstd::arithmetic::power2::pow2(40) == 0x100_0000_0000,
        vstd::arithmetic::power2::pow2(47) == 0x8000_0000_0000,
        vstd::arithmetic::power2::pow2(48) == 0x1_0000_0000_0000,
        vstd::arithmetic::power2::pow2(55) == 0x80_0000_0000_0000,
        vstd::arithmetic::power2::pow2(56) == 0x100_0000_0000_0000,
        vstd::arithmetic::power2::pow2(63) == 0x8000_0000_0000_0000,
        vstd::arithmetic::power2::pow2(64) == 0x1_0000_0000_0000_0000,
        vstd::arithmetic::power2::pow2(71) == 0x80_0000_0000_0000_0000,
        vstd::arithmetic::power2::pow2(72) == 0x100_0000_0000_0000_0000,
        vstd::arithmetic::power2::pow2(79) == 0x8000_0000_0000_0000_0000,
        vstd::arithmetic::power2::pow2(80) == 0x1_0000_0000_0000_0000_0000,
        vstd::arithmetic::power2::pow2(87) == 0x80_0000_0000_0000_0000_0000,
        vstd::arithmetic::power2::pow2(88) == 0x100_0000_0000_0000_0000_0000,
        vstd::arithmetic::power2::pow2(95) == 0x8000_0000_0000_0000_0000_0000,
        vstd::arithmetic::power2::pow2(96) == 0x1_0000_0000_0000_0000_0000_0000,
        vstd::arithmetic::power2::pow2(103) == 0x80_0000_0000_0000_0000_0000_0000,
        vstd::arithmetic::power2::pow2(104) == 0x100_0000_0000_0000_0000_0000_0000,
        vstd::arithmetic::power2::pow2(111) == 0x8000_0000_0000_0000_0000_0000_0000,
        vstd::arithmetic::power2::pow2(112) == 0x1_0000_0000_0000_0000_0000_0000_0000,
        vstd::arithmetic::power2::pow2(119) == 0x80_0000_0000_0000_0000_0000_0000_0000,
        vstd::arithmetic::power2::pow2(120) == 0x100_0000_0000_0000_0000_0000_0000_0000,
        vstd::arithmetic::power2::pow2(127) == 0x8000_0000_0000_0000_0000_0000_0000_0000,
        vstd::arithmetic::power2::pow2(128) == 0x1_0000_0000_0000_0000_0000_0000_0000_0000,
{
    vstd::arithmetic::power2::lemma2_to64();
    vstd::arithmetic::power2::lemma2_to64_rest();
    vstd::arithmetic::power2::lemma_pow2_adds(64, 7);
    vstd::arithmetic::power2::lemma_pow2_adds(64, 8);
    vstd::arithmetic::power2::lemma_pow2_adds(64, 15);
    vstd::arithmetic::power2::lemma_pow2_adds(64, 16);
    vstd::arithmetic::power2::lemma_pow2_adds(64, 23);
    vstd::arithmetic::power2::lemma_pow2_adds(64, 24);
    vstd::arithmetic::power2::lemma_pow2_adds(64, 31);
    vstd::arithmetic::power2::lemma_pow2_adds(64, 32);
    vstd::arithmetic::power2::lemma_pow2_adds(64, 39);
    vstd::arithmetic::power2::lemma_pow2_adds(64, 40);
    vstd::arithmetic::power2::lemma_pow2_adds(64, 47);
    vstd::arithmetic::power2::lemma_pow2_adds(64, 48);
    vstd::arithmetic::power2::lemma_pow2_adds(64, 55);
    vstd::arithmetic::power2::lemma_pow2_adds(64, 56);
    vstd::arithmetic::power2::lemma_pow2_adds(64, 63);
    vstd::arithmetic::power2::lemma_pow2_adds(64, 64);
}

/// A big-endian value fits in 8 bits per byte.
pub proof fn lemma_be_bytes_value_bound(bytes: Seq<u8>)
    ensures
        be_bytes_value(bytes) < vstd::arithmetic::power2::pow2(8 * bytes.len()),
    decreases bytes.len(),
{
    vstd::arithmetic::power2::lemma_pow2_pos(8 * bytes.len());
    if bytes.len() == 0 {
    } else {
        lemma_be_bytes_value_bound(bytes.drop_last());
        vstd::arithmetic::power2::lemma_pow2_adds(8 * (bytes.len() - 1) as nat, 8);
        vstd::arithmetic::power2::lemma2_to64();
        let p = vstd::arithmetic::power2::pow2(8 * (bytes.len() - 1) as nat);
        assert(be_bytes_value(bytes.drop_last()) * 256 <= (p - 1) * 256) by (nonlinear_arith)
            requires
                be_bytes_value(bytes.drop_last()) <= p - 1,
        ;
    }
}

/// Reads `length` bytes from the source and assembles them, big-endian,
/// into one unsigned number. Returns `None` when fewer than `length`
/// bytes remain, stopping at the end of the source.
#[verifier::loop_isolation(false)]
pub(crate) fn read_be_value(src: &mut crate::byte_source::ByteSource, length: u8) -> (r: Option<
    u128,
>)
    requires
        old(src).wf(),
        1 <= length <= 16,
    ensures
        final(src).wf(),
        final(src).bytes() == old(src).bytes(),
        old(src).pos() + length <= old(src).bytes().len() ==> (r matches Some(v) && v
            == be_bytes_value(
            old(src).bytes().subrange(old(src).pos(), old(src).pos() + length),
        ) && final(src).pos() == old(src).pos() + length),
        old(src).pos() + length > old(src).bytes().len() ==> r is None && final(src).pos() == old(
            src,
        ).bytes().len(),
{
    let ghost d = old(src).bytes();
    let ghost p0 = old(src).pos();
    let mut value: u128 = 0;
    let mut i: u8 = 0;
    while i < length
        invariant
            src.wf(),
            src.bytes() == d,
            0 <= i <= length,
            src.pos() == p0 + i,
            p0 + i <= d.len(),
            value == be_bytes_value(d.subrange(p0, p0 + i)),
        decreases length - i,
    {
        let b = match src.read_byte() {
            Some(b) => b,
            None => {
                return None;
            },
        };
        proof {
            lemma_be_bytes_value_bound(d.subrange(p0, p0 + i));
            lemma_pow2_bytes();
            if 8 * i < 120 {
                vstd::arithmetic::power2::lemma_pow2_strictly_increases((8 * i) as nat, 120);
            }
            assert(d.subrange(p0, p0 + i + 1) =~= d.subrange(p0, p0 + i).push(d[p0 + i]));
            lemma_be_bytes_value_push(d.subrange(p0, p0 + i), d[p0 + i]);
        }
        value = value * 256 + (b as u128);
        i = i + 1;
    }
    Some(value)
}

} // verus!
