use vstd::prelude::*;

verus! {

/// Every failure the record decoder can report.  Malformed binary input is
/// never absorbed or zero-filled: each stage surfaces one of these values
/// to the caller.
#[derive(Clone, Copy, Debug, PartialEq, Eq, Structural)]
pub enum DecodeError {
    /// Too few bytes remain to finish a variable-length integer, a
    /// fixed-width integer, or a declared blob/text payload.
    Truncated,
    /// A serial-type tag decoded to one of the two reserved code values.
    InvalidColumnType,
    /// The bytes consumed while decoding the header (the header-size field
    /// itself plus one tag per column) differ from the declared header size.
    SizeMismatch,
    /// Text or blob payload bytes are not valid UTF-8.
    InvalidText,
    /// The column uses a width this decoder does not implement: 6-byte and
    /// 8-byte integers and 8-byte floats.
    UnsupportedWidth,
}

} // verus!
