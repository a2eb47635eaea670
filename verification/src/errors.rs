//! Error taxonomy shared by the schema model, the field codec and the
//! streaming parser.

use vstd::prelude::*;

verus! {

/// A schema whose field layout does not tile its declared length, or whose
/// enum mappings are malformed, is rejected at construction time.
#[derive(Clone, Copy, Debug, PartialEq, Eq, Structural)]
pub enum SchemaError {
    SchemaInvalid,
}

/// Why decoding one payload against a schema failed.
#[derive(Clone, Copy, Debug, PartialEq, Eq, Structural)]
pub enum DecodeError {
    /// The payload holds fewer bytes than the schema's fields need.
    PayloadTooShort,
    /// The payload size disagrees with the schema's declared length.
    PayloadLengthMismatch,
    /// A strict enum-mapped field holds a raw value outside its valid set;
    /// carries the offending raw value.
    InvalidEnumValue(u64),
}

/// One failed item in the decoded-message stream.  Every variant drives
/// resynchronization; none aborts the parser.
#[derive(Clone, Copy, Debug, PartialEq, Eq, Structural)]
pub enum ParseError {
    /// The frame's checksum bytes disagree with the recomputed checksum.
    ChecksumMismatch,
    /// No schema is registered for the frame's class and id.
    UnknownMessage(u8, u8),
    /// The frame was well formed but its payload failed to decode against
    /// the registered schema.
    Payload(DecodeError),
}

/// Appending to a parser whose fixed-capacity buffer is full fails rather
/// than silently truncating.
#[derive(Clone, Copy, Debug, PartialEq, Eq, Structural)]
pub enum FeedError {
    BufferOverflow,
}

} // verus!
