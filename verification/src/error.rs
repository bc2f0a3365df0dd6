use vstd::prelude::*;

verus! {

/// The ways a conversion can fail.  Every failure is terminal for the call:
/// no partial output buffer is ever handed back.
#[derive(Debug)]
pub enum IcoError {
    /// The input bytes could not be decoded as any supported image format.
    DecodeError { message: String },
    /// A requested size is zero or too large to allocate a canvas for.
    InvalidSize { size: u32 },
    /// The payload encoder rejected a composited canvas, or produced a
    /// payload that cannot be addressed by the container's 32-bit fields.
    EncodingFailure { message: String },
    /// The entry count exceeds the range of the 2-byte count field.
    TooManyEntries { count: usize },
}

} // verus!
