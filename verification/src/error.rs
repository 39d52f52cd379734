//! The ways in which encoding and decoding fail.

use vstd::prelude::*;

verus! {

/// Why a name could not be encoded or decoded.
#[derive(Clone, Copy, Debug, PartialEq, Eq, Structural)]
pub enum NameError {
    /// A label is longer than 63 octets.
    LabelTooLong,
    /// A label other than the closing root label is empty.
    EmptyLabel,
    /// The encoded name is longer than 255 octets.
    NameTooLong,
    /// The buffer ends inside a label or inside a compression pointer.
    TruncatedName,
    /// A chain of compression pointers comes back to an offset it started
    /// from, or is longer than the hop limit.
    CompressionLoop,
}

/// A structural fault in one piece of a message.
#[derive(Clone, Copy, Debug, PartialEq, Eq, Structural)]
pub enum DecodeError {
    /// A name in the piece could not be decoded.
    Name(NameError),
    /// The buffer ends before the piece does: a header of fewer than 12
    /// octets, a record whose fixed fields or data run past the end, or an
    /// option that runs past the end of its record's data.
    Truncated,
}

/// Why a datagram is not a message.
#[derive(Clone, Copy, Debug, PartialEq, Eq, Structural)]
pub enum MessageError {
    /// The first structural fault met while decoding.
    Malformed(DecodeError),
    /// The buffer ends before a section holds the number of entries that the
    /// header announces, or goes on after the last section.
    SectionCountMismatch,
    /// The additional section holds more than one OPT record.
    MultipleOptRecords,
}

} // verus!
