//! The error taxonomy: every way a request can be rejected.
//!
//! Validation stops at the first failing field, so a single error
//! names exactly which field failed and why.

use vstd::prelude::*;

verus! {

/// Failures of the numeric fields (format version, author brand,
/// burdens).
#[derive(Clone, Copy, Debug, PartialEq, Eq, Structural)]
pub enum NumberError {
    /// The field is not an unsigned integer that fits the field's
    /// machine type.
    NotANumber,
    /// The field is a number, but above the field's maximum.
    TooBig {
        /// The field's highest allowed value.
        max: u64,
        /// The value the input carried.
        found: u64,
    },
}

/// Failures of the transport-encoded text fields (name, description,
/// music, author).
#[derive(Clone, Copy, Debug, PartialEq, Eq, Structural)]
pub enum StringError {
    /// The field is not canonical padded base64.
    Base64,
    /// The field decoded, but the bytes are not valid UTF-8.
    FromUtf8,
    /// The decoded text is longer than the field allows.
    TooLong {
        /// The field's highest allowed length.
        max: u64,
        /// The length the input carried.
        found: u64,
    },
    /// The decoded text is empty where at least one character is
    /// required.
    TooShort,
}

/// Every fail-state a request can be rejected with.
#[derive(Clone, Copy, Debug, PartialEq, Eq, Structural)]
pub enum Error {
    /// The input does not have the expected delimiter-separated
    /// shape: too few fields, or no key field where one is required.
    InvalidStructure,
    /// The format version field is bad; only version 1 is supported.
    InvalidVersion(NumberError),
    /// The name field is bad.
    InvalidName(StringError),
    /// The description field is bad.
    InvalidDescription(StringError),
    /// The music field did not decode.
    InvalidMusic(StringError),
    /// The music field decoded, but is not one of the known songs.
    NotASong,
    /// The author field is bad.
    InvalidAuthor(StringError),
    /// The author brand field is bad; a brand is a 36-bit number.
    InvalidBrand(NumberError),
    /// The burdens field is bad; burdens are a 4-bit number.
    InvalidBurdens(NumberError),
    /// The tiles field uses a byte outside the black hole alphabet.
    InvalidTiles,
    /// The objects field uses a byte outside the black hole alphabet.
    InvalidObjects,
    /// A key field could not be read as a 128-bit key.
    InvalidKey,
    /// The key is well-formed, but the addressed collection has no
    /// record under it.
    LevelNotFound,
    /// The request came from a banned address.
    Banned,
    /// A stored snapshot exists but cannot be decoded.
    InvalidSnapshot,
}

} // verus!
