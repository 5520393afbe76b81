//! The reasons for which parsing or decoding stops.

use vstd::prelude::*;

verus! {

/// Why a file could not be decoded. Decoding is all-or-nothing: the first
/// failure ends it, and no partial result is handed out.
#[derive(Debug, Clone, Copy, PartialEq, Eq, Structural)]
pub enum Error {
    /// The bytes of the file could not be obtained.
    Io,
    /// A header is not one of the supported signatures, or the directories
    /// link back into themselves or nest too deeply.
    BadMagic,
    /// An offset, a length, an index or a derived value lies outside of what
    /// it refers to.
    OutOfRange,
    /// A required tag is absent from the directory that should hold it.
    MissingTag(u16),
    /// The decoder parameters carry a version pair that is not handled.
    UnsupportedVersion(u8, u8),
    /// The code lengths of a Huffman table do not form a complete prefix code.
    HuffmanIncomplete,
    /// More bits were consumed than the compressed strip holds.
    BitPumpUnderrun,
}

impl Error {
    /// A short description of the failure.
    pub fn message(&self) -> (r: &'static str)
        ensures
            r@ == error_text(*self),
    {
        match self {
            Error::Io => "input could not be read",
            Error::BadMagic => "unsupported header or malformed directory graph",
            Error::OutOfRange => "value out of range",
            Error::MissingTag(_) => "required tag is missing",
            Error::UnsupportedVersion(_, _) => "unsupported decoder version",
            Error::HuffmanIncomplete => "incomplete Huffman table",
            Error::BitPumpUnderrun => "compressed data ended early",
        }
    }
}

/// The text that `Error::message` gives for each failure.
pub open spec fn error_text(e: Error) -> Seq<char> {
    match e {
        Error::Io => "input could not be read"@,
        Error::BadMagic => "unsupported header or malformed directory graph"@,
        Error::OutOfRange => "value out of range"@,
        Error::MissingTag(_) => "required tag is missing"@,
        Error::UnsupportedVersion(_, _) => "unsupported decoder version"@,
        Error::HuffmanIncomplete => "incomplete Huffman table"@,
        Error::BitPumpUnderrun => "compressed data ended early"@,
    }
}

} // verus!
