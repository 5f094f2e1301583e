//! The error taxonomy of the conversion pipeline.
//!
//! Every error is terminal: nothing is retried and no partial result is
//! returned.  Callers can tell usage errors (the user must correct the
//! invocation) from environment errors (a missing directory, a failing
//! stream) by the variant.

use vstd::prelude::*;

verus! {

/// One value for each way a run can fail.
#[derive(Clone, Copy, Debug, PartialEq, Eq, Structural)]
pub enum GifError {
    /// The wrong number of arguments was given.
    UsageError,
    /// A delay argument is not a valid non-negative integer.
    InvalidDelayValue,
    /// The input path is missing, not listable, or holds no files.
    InvalidDirectory,
    /// A directory entry could not be decoded as an image, or its
    /// dimensions do not fit the container's 16-bit limit.
    UnsupportedOrCorruptImage,
    /// The output path could not be opened for writing.
    OutputCreateFailed,
    /// The container rejected its header or the loop directive.
    EncoderInitFailed,
    /// A write of an individual frame failed mid-sequence.
    FrameWriteFailed,
}

impl GifError {
    /// A human-readable description of the error.
    pub fn message(&self) -> (r: &'static str)
        ensures
            r@ == match *self {
                GifError::UsageError => "not enough arguments"@,
                GifError::InvalidDelayValue => "invalid delay value"@,
                GifError::InvalidDirectory => "invalid directory"@,
                GifError::UnsupportedOrCorruptImage => "unsupported or corrupt image"@,
                GifError::OutputCreateFailed => "could not create output file"@,
                GifError::EncoderInitFailed => "could not initialize encoder"@,
                GifError::FrameWriteFailed => "could not write frame"@,
            },
    {
        match *self {
            GifError::UsageError => "not enough arguments",
            GifError::InvalidDelayValue => "invalid delay value",
            GifError::InvalidDirectory => "invalid directory",
            GifError::UnsupportedOrCorruptImage => "unsupported or corrupt image",
            GifError::OutputCreateFailed => "could not create output file",
            GifError::EncoderInitFailed => "could not initialize encoder",
            GifError::FrameWriteFailed => "could not write frame",
        }
    }
}

} // verus!
