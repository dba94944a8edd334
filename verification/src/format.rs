//! Names for the data formats that tag dictionaries speak of: how a
//! value is laid out on the wire, and how software represents it.

use vstd::prelude::*;

verus! {

/// The wire-side data format of an item's value.
#[derive(Clone, Copy, Debug, PartialEq, Eq, Structural)]
pub enum KlvFormat {
    Int,
    Int8,
    Int16,
    Int32,
    Uint,
    Uint8,
    Uint16,
    Uint32,
    Uint64,
    IMAPB,
    Byte,
    DLP,
    VLP,
    FLP,
    KlvSet,
    UTF8,
}

/// The data format used within a software application to represent the
/// value of an item.
#[derive(Clone, Copy, Debug, PartialEq, Eq, Structural)]
pub enum SoftwareFormat {
    Byte,
    Int8,
    Int16,
    Int32,
    Int64,
    Uint8,
    Uint16,
    Uint32,
    Uint64,
    Float32,
    Float64,
    String,
    Record,
    List,
}

} // verus!
