//! The ways a KTX byte source can fail to decode.

use vstd::prelude::*;

verus! {

/// A decoding failure.  Every variant identifies the structural
/// expectation that the input violated.
#[derive(Debug, Clone)]
pub enum Error {
    /// The first 12 bytes were not the KTX magic sequence; carries the
    /// 12 bytes actually observed.
    InvalidFormat(Vec<u8>),
    /// The endianness sentinel read from the header was not the value this
    /// decoder expects, or the declared metadata length was not a multiple
    /// of 4; carries the expected and the observed sentinel.
    MismatchedEndianness(u32, u32),
    /// The header declared zero mipmap levels, which would ask the loader
    /// to generate mipmaps itself; this decoder rejects that mode.
    InvalidNumberOfMipmapLevels(u32),
    /// A per-level size field broke one of the divisibility rules of the
    /// format; carries the offending size field.
    MalformedFrameLayout(u32),
    /// The source ended in the middle of a required read.
    Truncated,
    /// A key/value metadata record was malformed: its length prefix did not
    /// fit in the block, the key had no NUL terminator, or the key bytes
    /// were not valid UTF-8.
    InvalidKeyValueEntry,
}

} // verus!
