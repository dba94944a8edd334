//! BER length decoding: one short-form byte, or a header byte followed
//! by a big-endian run of value bytes.

use vstd::prelude::*;

use crate::byte_source::ByteSource;
use crate::encoding::be_bytes_value;
use crate::encoding::Error;

verus! {

/// Number of bytes a BER encoding starting at `pos` occupies: one for
/// short form, one header plus the declared count for long form.
/// Meaningful only when `pos` holds a byte.
pub open spec fn spec_ber_len(d: Seq<u8>, pos: int) -> int {
    if d[pos] < 128 {
        1
    } else {
        1 + (d[pos] - 128)
    }
}

/// Position just after the BER encoding that starts at `pos`.
pub open spec fn spec_ber_end(d: Seq<u8>, pos: int) -> int {
    pos + spec_ber_len(d, pos)
}

/// What decoding a BER value at `pos` of `d` yields.
///
/// A first byte below 128 is the value itself. Otherwise its low 7 bits
/// count the following big-endian value bytes; a count of zero is
/// malformed, and a value over 128 significant bits cannot be
/// represented.
pub open spec fn spec_read_ber(d: Seq<u8>, pos: int) -> Result<u128, Error> {
    if !(0 <= pos < d.len()) {
        Err(Error::UnexpectedEof)
    } else if d[pos] < 128 {
        Ok(d[pos] as u128)
    } else if d[pos] == 128 {
        Err(Error::MalformedLongForm)
    } else if spec_ber_end(d, pos) > d.len() {
        Err(Error::UnexpectedEof)
    } else if be_bytes_value(d.subrange(pos + 1, spec_ber_end(d, pos))) > u128::MAX {
        Err(Error::Overflow)
    } else {
        Ok(be_bytes_value(d.subrange(pos + 1, spec_ber_end(d, pos))) as u128)
    }
}

/// BER short-form round-trip: a single byte with a clear high bit
/// decodes to exactly its own value, so encoding any value up to 127
/// as one byte and decoding it returns that value.
pub proof fn lemma_ber_short_form_round_trip(v: u8)
    requires
        v < 128,
    ensures
        spec_read_ber(seq![v], 0) == Ok::<u128, Error>(v as u128),
{
}

/// Reads a BER long-form value of `num_bytes_to_read` big-endian bytes
/// from the source. The header byte that carried the count has already
/// been consumed.
///
/// Moves the position past the bytes it consumes; when the source runs
/// out it stops at the end. A value of more than 128 significant bits
/// is reported as an overflow after its bytes are consumed.
#[verifier::loop_isolation(false)]
pub fn read_ber_long_form(src: &mut ByteSource, num_bytes_to_read: u8) -> (r: Result<u128, Error>)
    requires
        old(src).wf(),
        num_bytes_to_read >= 1,
    ensures
        final(src).wf(),
        final(src).bytes() == old(src).bytes(),
        old(src).pos() + num_bytes_to_read <= old(src).bytes().len() ==> ({
            let v = be_bytes_value(
                old(src).bytes().subrange(
                    old(src).pos(),
                    old(src).pos() + num_bytes_to_read,
                ),
            );
            final(src).pos() == old(src).pos() + num_bytes_to_read && r == if v > u128::MAX {
                Err::<u128, Error>(Error::Overflow)
            } else {
                Ok::<u128, Error>(v as u128)
            }
        }),
        old(src).pos() + num_bytes_to_read > old(src).bytes().len() ==> r == Err::<u128, Error>(
            Error::UnexpectedEof,
        ) && final(src).pos() == old(src).bytes().len(),
{
    let ghost d = old(src).bytes();
    let ghost p0 = old(src).pos();
    let mut value: u128 = 0;
    let mut overflowed: bool = false;
    let mut i: u8 = 0;
    while i < num_bytes_to_read
        invariant
            src.wf(),
            src.bytes() == d,
            0 <= i <= num_bytes_to_read,
            src.pos() == p0 + i,
            p0 + i <= d.len(),
            !overflowed ==> value == be_bytes_value(d.subrange(p0, p0 + i)),
            overflowed ==> be_bytes_value(d.subrange(p0, p0 + i)) > u128::MAX,
        decreases num_bytes_to_read - i,
    {
        let b = match src.read_byte() {
            Some(b) => b,
            None => {
                return Err(Error::UnexpectedEof);
            },
        };
        proof {
            assert(d.subrange(p0, p0 + i + 1) =~= d.subrange(p0, p0 + i).push(d[p0 + i]));
            crate::encoding::lemma_be_bytes_value_push(d.subrange(p0, p0 + i), d[p0 + i]);
        }
        if !overflowed {
            if value < 0x100_0000_0000_0000_0000_0000_0000_0000u128 {
                value = value * 256 + (b as u128);
            } else {
                overflowed = true;
            }
        }
        i = i + 1;
    }
    if overflowed {
        Err(Error::Overflow)
    } else {
        Ok(value)
    }
}

/// Reads a BER value from the source, choosing short or long form by
/// the first byte's most significant bit.
///
/// Moves the position just past the encoding on success and on
/// overflow; a malformed long-form header consumes only the header
/// byte; running out of bytes stops at the end of the source.
pub fn read_ber(src: &mut ByteSource) -> (r: Result<u128, Error>)
    requires
        old(src).wf(),
    ensures
        final(src).wf(),
        final(src).bytes() == old(src).bytes(),
        r == spec_read_ber(old(src).bytes(), old(src).pos()),
        r is Ok || r == Err::<u128, Error>(Error::Overflow) ==> final(src).pos() == spec_ber_end(
            old(src).bytes(),
            old(src).pos(),
        ),
        r == Err::<u128, Error>(Error::UnexpectedEof) ==> final(src).pos() == old(
            src,
        ).bytes().len(),
        r == Err::<u128, Error>(Error::MalformedLongForm) ==> final(src).pos() == old(src).pos()
            + 1,
{
    let first_byte = match src.read_byte() {
        Some(b) => b,
        None => {
            return Err(Error::UnexpectedEof);
        },
    };
    if first_byte < 128 {
        Ok(first_byte as u128)
    } else if first_byte == 128 {
        Err(Error::MalformedLongForm)
    } else {
        read_ber_long_form(src, first_byte - 128)
    }
}

} // verus!
