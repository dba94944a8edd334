//! BER-OID tag decoding: base-128 continuation bytes, most significant
//! 7-bit group first, terminated by a byte whose high bit is clear.

use vstd::prelude::*;

use crate::byte_source::ByteSource;
use crate::encoding::oid_groups_value;
use crate::encoding::Error;

verus! {

/// Position just after the BER-OID encoding that starts at `pos`: one
/// past the first byte with a clear high bit. `-1` when every byte to
/// the end of the data keeps the high bit set, so the encoding never
/// terminates.
pub open spec fn spec_oid_end(d: Seq<u8>, pos: int) -> int
    decreases d.len() - pos,
{
    if !(0 <= pos < d.len()) {
        -1
    } else if d[pos] < 128 {
        pos + 1
    } else {
        spec_oid_end(d, pos + 1)
    }
}

/// What decoding a BER-OID value at `pos` of `d` yields: the low 7 bits
/// of each byte up to and including the terminator, read as one
/// big-endian number. A value of more than 128 significant bits cannot
/// be represented.
pub open spec fn spec_read_ber_oid(d: Seq<u8>, pos: int) -> Result<u128, Error> {
    if spec_oid_end(d, pos) == -1 {
        Err(Error::UnexpectedEof)
    } else if oid_groups_value(d.subrange(pos, spec_oid_end(d, pos))) > u128::MAX {
        Err(Error::Overflow)
    } else {
        Ok(oid_groups_value(d.subrange(pos, spec_oid_end(d, pos))) as u128)
    }
}

/// Continuation bytes do not move the end of an encoding: skipping a
/// run of bytes with the high bit set leads to the same terminator.
proof fn lemma_oid_end_skip(d: Seq<u8>, p0: int, p: int)
    requires
        0 <= p0 <= p <= d.len(),
        forall|j: int| p0 <= j < p ==> d[j] >= 128,
    ensures
        spec_oid_end(d, p0) == spec_oid_end(d, p),
    decreases p - p0,
{
    if p0 < p {
        lemma_oid_end_skip(d, p0 + 1, p);
    }
}

/// A terminated BER-OID encoding occupies at least one byte and ends
/// within the data.
pub proof fn lemma_oid_end_bounds(d: Seq<u8>, pos: int)
    requires
        0 <= pos,
        spec_oid_end(d, pos) != -1,
    ensures
        pos + 1 <= spec_oid_end(d, pos) <= d.len(),
    decreases d.len() - pos,
{
    if pos < d.len() && d[pos] >= 128 {
        lemma_oid_end_bounds(d, pos + 1);
    }
}

/// Every terminated BER-OID byte sequence decodes deterministically to
/// the big-endian concatenation of its bytes' 7-bit groups, whenever
/// that value is representable in 128 bits.
pub proof fn lemma_ber_oid_decodes_groups(d: Seq<u8>, pos: int)
    requires
        spec_oid_end(d, pos) != -1,
        oid_groups_value(d.subrange(pos, spec_oid_end(d, pos))) <= u128::MAX,
    ensures
        spec_read_ber_oid(d, pos) == Ok::<u128, Error>(
            oid_groups_value(d.subrange(pos, spec_oid_end(d, pos))) as u128,
        ),
{
}

/// Reads a BER-OID value from the source.
///
/// Moves the position past the terminator on success and on overflow;
/// when every remaining byte is a continuation byte it stops at the end
/// of the source. A value of more than 128 significant bits is reported
/// as an overflow after the whole encoding is consumed. Redundant
/// leading zero groups are accepted and do not change the value.
#[verifier::loop_isolation(false)]
pub fn read_ber_oid(src: &mut ByteSource) -> (r: Result<u128, Error>)
    requires
        old(src).wf(),
    ensures
        final(src).wf(),
        final(src).bytes() == old(src).bytes(),
        r == spec_read_ber_oid(old(src).bytes(), old(src).pos()),
        r is Ok || r == Err::<u128, Error>(Error::Overflow) ==> final(src).pos() == spec_oid_end(
            old(src).bytes(),
            old(src).pos(),
        ),
        r == Err::<u128, Error>(Error::UnexpectedEof) ==> final(src).pos() == old(
            src,
        ).bytes().len(),
{
    let ghost d = old(src).bytes();
    let ghost p0 = old(src).pos();
    let mut value: u128 = 0;
    let mut overflowed: bool = false;
    loop
        invariant
            src.wf(),
            src.bytes() == d,
            p0 <= src.pos() <= d.len(),
            forall|j: int| p0 <= j < src.pos() ==> d[j] >= 128,
            !overflowed ==> value == oid_groups_value(d.subrange(p0, src.pos())),
            overflowed ==> oid_groups_value(d.subrange(p0, src.pos())) > u128::MAX,
        decreases d.len() - src.pos(),
    {
        let ghost p = src.pos();
        let b = match src.read_byte() {
            Some(b) => b,
            None => {
                proof {
                    lemma_oid_end_skip(d, p0, p);
                }
                return Err(Error::UnexpectedEof);
            },
        };
        let low7 = if b >= 128 {
            b - 128
        } else {
            b
        };
        proof {
            assert(d.subrange(p0, p + 1) =~= d.subrange(p0, p).push(d[p]));
            crate::encoding::lemma_oid_groups_value_push(d.subrange(p0, p), d[p]);
        }
        if !overflowed {
            if value < 0x200_0000_0000_0000_0000_0000_0000_0000u128 {
                value = value * 128 + (low7 as u128);
            } else {
                overflowed = true;
            }
        }
        if b < 128 {
            proof {
                lemma_oid_end_skip(d, p0, p);
            }
            if overflowed {
                return Err(Error::Overflow);
            } else {
                return Ok(value);
            }
        }
    }
}

} // verus!
