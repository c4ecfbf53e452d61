//! Error taxonomy for the TinyVG decoder.
//!
//! Every failure is fatal to the current parse and carries the stream
//! offset at which the offending datum began. The decoder works on a
//! byte vector it owns, so failures of an underlying file or socket
//! never reach it: whoever supplies the bytes deals with those first,
//! and running out of bytes mid-item surfaces here as `UnexpectedEof`.

use vstd::prelude::*;

verus! {

/// The kind of a parse failure.
#[derive(Debug, Clone, Copy, PartialEq, Eq, Structural)]
pub enum ErrorKind {
    /// The byte source ran out while a reader demanded more bytes.
    UnexpectedEof,
    /// The first two bytes were not `0x72 0x56`.
    BadMagic,
    /// A custom color encoding, an unknown coordinate range, or an
    /// unknown style variant.
    UnsupportedEncoding,
    /// A command index above 10, or a path segment instruction above 7.
    BadInstruction,
    /// A color index in a style is not below the color count.
    IndexOutOfRange,
    /// A variable-length integer would not fit in 32 bits.
    VarintOverflow,
    /// A count prefix exceeds what the remaining input could supply.
    ResourceExhausted,
}

/// A fatal parse failure: its kind, and the stream position at which
/// the offending datum began.
#[derive(Debug, Clone, Copy, PartialEq, Eq, Structural)]
pub struct ParseError {
    /// What went wrong.
    pub kind: ErrorKind,
    /// Offset of the start of the item whose decoding failed.
    pub offset: usize,
}

} // verus!
