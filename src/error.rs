use vstd::prelude::*;

verus! {

/// Every way in which an operation of this library can fail.
#[derive(Debug, Clone, Copy, PartialEq, Eq, Structural)]
pub enum PngError {
    /// A length does not match: a chunk type given as text is not four
    /// characters long, or bytes follow the CRC field of a chunk.
    InvalidLength,
    /// A chunk type given as text holds a character that is not an ASCII letter.
    InvalidCharacter,
    /// A chunk type given as bytes holds a byte outside ASCII.
    InvalidByte,
    /// The input ends before a fixed-size field could be read.
    TooShort,
    /// The type bytes of a chunk are not a valid chunk type.
    InvalidType,
    /// The CRC stored in a chunk differs from the one computed over its type and data.
    ChecksumMismatch { expected: u32, actual: u32 },
    /// The first eight bytes of a file are not the PNG signature.
    BadMagic,
    /// No chunk of the requested type exists.
    NotFound,
    /// The data of a chunk is not valid UTF-8.
    NotUtf8,
}

} // verus!
