use vstd::prelude::*;

verus! {

/// Why a decode attempt failed. A failure at any point aborts the whole
/// file's decode; no partial result is returned.
#[derive(Clone, Copy, Debug, PartialEq, Eq, Structural)]
pub enum DecodeError {
    /// A magic string or required structure was wrong, or a required list
    /// (frame images, animation frames) was empty.
    MalformedHeader,
    /// A chunk with a different tag stood where a specific one was required.
    UnexpectedChunk,
    /// An unrecognized bit depth, version or compression code.
    UnsupportedVariant,
    /// A read or seek would pass the end of the byte buffer.
    TruncatedData,
    /// A colour palette was absent or had the wrong size where one was
    /// required.
    PaletteMissing,
}

impl DecodeError {
    /// A short description for reporting by callers.
    pub fn describe(&self) -> &'static str {
        match self {
            DecodeError::MalformedHeader => "malformed header",
            DecodeError::UnexpectedChunk => "unexpected chunk",
            DecodeError::UnsupportedVariant => "unsupported variant",
            DecodeError::TruncatedData => "truncated data",
            DecodeError::PaletteMissing => "palette missing",
        }
    }
}

} // verus!
