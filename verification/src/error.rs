use vstd::prelude::*;

verus! {

/// Everything that can go wrong while decoding or encoding a recording.
#[derive(Debug, Clone, Copy, PartialEq, Eq, Structural)]
pub enum Error {
    /// The input held no line at all.
    EmptyInput,
    /// The document decoded structurally, but its `version` field is not
    /// the one the detected format generation requires.
    UnsupportedVersion,
    /// A numeric time value could not be decomposed into whole seconds
    /// and a fractional part.
    InvalidTimeFormat,
    /// An event's code field was the empty string.
    MissingEventCode,
    /// Malformed JSON, a malformed record, or a number out of range.
    Decode,
}

} // verus!
