//! The closed set of failures the codec reports.

use vstd::prelude::*;

verus! {

/// Every failure a read or write can end in. Errors are ordinary return
/// values; the core never swallows one.
#[derive(Debug, Clone, PartialEq, Eq)]
pub enum Error {
    /// A read or write demanded more bytes than remain.
    UnexpectedEndOfBuffer,
    /// A varint ran past its maximum byte count, or a length field
    /// overflowed the native size type.
    Varint,
    /// A string payload was not valid UTF-8.
    Utf8,
    /// A deprecated construct was encountered; the payload names it.
    Deprecated(&'static str),
    /// The low three bits of a tag were not one of the defined wire types.
    UnknownWireType(u8),
    /// A map entry held a field number other than 1 (key) or 2 (value).
    MapField(u8),
    /// A streaming backend failed; the payload describes the failure.
    Io(String),
}

} // verus!
