//! Decoder for KLV (Key-Length-Value) encoded binary metadata streams.
//!
//! The crate decodes the binary building blocks of KLV metadata: BER
//! short/long-form lengths, BER-OID tag numbers, fixed-width signed and
//! unsigned integers, tag/length/value triplets, bounded collections of
//! triplets (local sets), and the stream-wide search for the 16-byte
//! universal key that marks each collection (universal sets).

use vstd::prelude::*;

pub mod byte_source;
pub mod encoding;
pub mod format;
pub mod klv;
pub mod local_set;
pub mod universal_set;

verus! {

/// Reads a tag number from the source at its current position.
///
/// Tag numbers are always stored in BER-OID form; this is the BER-OID
/// decoder under the name that tag-dictionary layers use.
pub fn read_tag_number(src: &mut byte_source::ByteSource) -> (r: Result<u128, encoding::Error>)
    requires
        old(src).wf(),
    ensures
        final(src).wf(),
        final(src).bytes() == old(src).bytes(),
        r == encoding::ber_oid::spec_read_ber_oid(old(src).bytes(), old(src).pos()),
        r is Ok || r == Err::<u128, encoding::Error>(encoding::Error::Overflow)
            ==> final(src).pos() == encoding::ber_oid::spec_oid_end(
            old(src).bytes(),
            old(src).pos(),
        ),
        r == Err::<u128, encoding::Error>(encoding::Error::UnexpectedEof) ==> final(src).pos()
            == old(src).bytes().len(),
{
    encoding::ber_oid::read_ber_oid(src)
}

} // verus!
