//! The tag/length/value triplet: one KLV unit, read lazily. Reading a
//! triplet consumes only its tag and length fields and skips the value;
//! the value bytes can be re-read any number of times afterwards.

use vstd::prelude::*;

use crate::byte_source::ByteSource;
use crate::encoding::ber::read_ber;
use crate::encoding::ber::spec_ber_end;
use crate::encoding::ber::spec_read_ber;
use crate::encoding::ber_oid::read_ber_oid;
use crate::encoding::ber_oid::spec_oid_end;
use crate::encoding::ber_oid::spec_read_ber_oid;
use crate::encoding::Error;

verus! {

/// One tag/length/value unit. It owns no value bytes: only the tag, the
/// value's byte count, and the absolute offset of the first value byte.
#[derive(Clone, Copy, Debug, PartialEq, Eq, Structural)]
pub struct Klv {
    /// Number that identifies this triplet within a local set, decoded
    /// from BER-OID form.
    pub tag: u128,
    /// Number of bytes that make up this triplet's value, decoded from
    /// BER form. Positions are 64-bit, so wider lengths are rejected.
    pub length: u64,
    /// Absolute offset of the first value byte: always immediately
    /// after the length field's last byte.
    pub value_offset: u64,
}

/// What decoding a triplet's length field at `pos` of `d` yields: a BER
/// value narrow enough to use as a byte count.
pub open spec fn spec_read_length(d: Seq<u8>, pos: int) -> Result<u64, Error> {
    match spec_read_ber(d, pos) {
        Err(e) => Err(e),
        Ok(v) => if v > u64::MAX {
            Err(Error::Overflow)
        } else {
            Ok(v as u64)
        },
    }
}

/// What reading one triplet at `pos` of `d` yields: the BER-OID tag,
/// the BER length, and the offset of the first value byte. The value
/// span must lie within the bounds of the data.
pub open spec fn spec_read_klv(d: Seq<u8>, pos: int) -> Result<Klv, Error> {
    match spec_read_ber_oid(d, pos) {
        Err(e) => Err(e),
        Ok(tag) => {
            let p1 = spec_oid_end(d, pos);
            match spec_read_length(d, p1) {
                Err(e) => Err(e),
                Ok(length) => {
                    let p2 = spec_ber_end(d, p1);
                    if p2 + length > d.len() {
                        Err(Error::UnexpectedEof)
                    } else {
                        Ok(Klv { tag, length, value_offset: p2 as u64 })
                    }
                },
            }
        },
    }
}

impl Klv {
    /// The triplet's value span lies within the bounds of data `d`.
    pub open spec fn valid_for(self, d: Seq<u8>) -> bool {
        self.value_offset + self.length <= d.len()
    }

    /// The bytes of the triplet's value within data `d`.
    pub open spec fn value_bytes(self, d: Seq<u8>) -> Seq<u8> {
        d.subrange(self.value_offset as int, self.value_offset + self.length)
    }

    /// Number that identifies this triplet within a local set.
    pub fn tag(&self) -> (r: u128)
        ensures
            r == self.tag,
    {
        self.tag
    }

    /// Number of bytes that make up this triplet's value.
    pub fn length(&self) -> (r: u64)
        ensures
            r == self.length,
    {
        self.length
    }

    /// Reads one triplet at the source's current position: the tag, the
    /// length, and the offset where the value starts. On success the
    /// position moves to the first byte after the (unread) value; a
    /// value span that would run past the end of the source is refused
    /// without moving past the length field.
    pub fn new(src: &mut ByteSource) -> (r: Result<Klv, Error>)
        requires
            old(src).wf(),
        ensures
            final(src).wf(),
            final(src).bytes() == old(src).bytes(),
            r == spec_read_klv(old(src).bytes(), old(src).pos()),
            r matches Ok(k) ==> k.valid_for(old(src).bytes()) && final(src).pos()
                == k.value_offset + k.length,
    {
        let tag = match Self::read_tag(src) {
            Ok(t) => t,
            Err(e) => {
                return Err(e);
            },
        };
        let length = match Self::read_length(src) {
            Ok(l) => l,
            Err(e) => {
                return Err(e);
            },
        };
        let value_offset = src.position();
        let rem = src.remaining();
        if length > rem {
            return Err(Error::UnexpectedEof);
        }
        src.skip(length);
        Ok(Klv { tag, length, value_offset })
    }

    /// Reads the tag number at the source's current position. Tag
    /// numbers are always stored in BER-OID form.
    pub fn read_tag(src: &mut ByteSource) -> (r: Result<u128, Error>)
        requires
            old(src).wf(),
        ensures
            final(src).wf(),
            final(src).bytes() == old(src).bytes(),
            r == spec_read_ber_oid(old(src).bytes(), old(src).pos()),
            r is Ok ==> final(src).pos() == spec_oid_end(old(src).bytes(), old(src).pos()),
            r == Err::<u128, Error>(Error::UnexpectedEof) ==> final(src).pos() == old(
                src,
            ).bytes().len(),
    {
        read_ber_oid(src)
    }

    /// Reads the length of a triplet's value at the source's current
    /// position. Lengths are always stored in BER form; one that does
    /// not fit a 64-bit position is an overflow.
    pub fn read_length(src: &mut ByteSource) -> (r: Result<u64, Error>)
        requires
            old(src).wf(),
        ensures
            final(src).wf(),
            final(src).bytes() == old(src).bytes(),
            r == spec_read_length(old(src).bytes(), old(src).pos()),
            r is Ok ==> final(src).pos() == spec_ber_end(old(src).bytes(), old(src).pos()),
            r == Err::<u64, Error>(Error::UnexpectedEof) ==> final(src).pos() == old(
                src,
            ).bytes().len(),
    {
        match read_ber(src) {
            Ok(v) => {
                if v > u64::MAX as u128 {
                    Err(Error::Overflow)
                } else {
                    Ok(v as u64)
                }
            },
            Err(e) => Err(e),
        }
    }

    /// Value reads are idempotent. `read_value` promises that the
    /// source's bytes and position after a read equal those before it,
    /// and that the bytes it returns are the value span of the
    /// source's (unchanged) bytes. A second read therefore starts from
    /// the very state the first one saw: it returns byte-identical
    /// results, and the shared cursor stands where it stood before
    /// either read.
    pub proof fn lemma_read_value_idempotent(
        self,
        d_before: Seq<u8>,
        d_between: Seq<u8>,
    )
        requires
            d_between == d_before,
        ensures
            self.value_bytes(d_between) == self.value_bytes(d_before),
    {
    }

    /// Returns a copy of the bytes making up the value.
    ///
    /// The read is non-destructive: the source's position is saved,
    /// moved to the value, and restored on every path, so an outer
    /// parse sharing the source never sees the value read happen.
    /// Repeated calls return identical bytes while the source's data is
    /// unchanged.
    pub fn read_value(&self, src: &mut ByteSource) -> (r: Result<Vec<u8>, Error>)
        requires
            old(src).wf(),
        ensures
            final(src).wf(),
            final(src).bytes() == old(src).bytes(),
            final(src).pos() == old(src).pos(),
            self.valid_for(old(src).bytes()) ==> (r matches Ok(v) && v@ == self.value_bytes(
                old(src).bytes(),
            )),
            !self.valid_for(old(src).bytes()) ==> r == Err::<Vec<u8>, Error>(
                Error::UnexpectedEof,
            ),
    {
        let current_position = src.position();
        let total = src.len() as u64;
        if self.value_offset > total || self.length > total - self.value_offset {
            return Err(Error::UnexpectedEof);
        }
        src.seek(self.value_offset);
        let out = match src.read_bytes(self.length as usize) {
            Some(v) => v,
            None => {
                src.seek(current_position);
                return Err(Error::UnexpectedEof);
            },
        };
        src.seek(current_position);
        Ok(out)
    }
}

} // verus!
