//! Error values produced by the size-limit enforcers.

use vstd::prelude::*;

verus! {

/// A size-limit violation, or a transport-level failure observed while
/// enforcing a limit.
#[derive(Debug, Clone, PartialEq, Eq)]
pub enum SizeLimitError {
    /// The cumulative body size exceeded the resolved limit.
    BodyTooLarge { max_size: usize, actual_size: usize },
    /// A transport-level failure unrelated to sizing.
    Other(String),
    /// Adding a chunk size to the running total would overflow the counter.
    SizeOverflow,
    /// A single chunk exceeded the fixed individual-chunk ceiling.
    ChunkTooLarge { max_chunk_size: usize, actual_chunk_size: usize },
}

impl SizeLimitError {
    /// The HTTP status that a response for this error carries: 413 for a
    /// size violation, 400 for an overflow or a transport-level failure.
    pub open spec fn spec_status_code(&self) -> u16 {
        match self {
            SizeLimitError::BodyTooLarge { .. } => 413,
            SizeLimitError::ChunkTooLarge { .. } => 413,
            SizeLimitError::SizeOverflow => 400,
            SizeLimitError::Other(_) => 400,
        }
    }

    /// The HTTP status code for this error.
    pub fn status_code(&self) -> (c: u16)
        ensures
            c == self.spec_status_code(),
    {
        match self {
            SizeLimitError::BodyTooLarge { .. } => 413,
            SizeLimitError::ChunkTooLarge { .. } => 413,
            SizeLimitError::SizeOverflow => 400,
            SizeLimitError::Other(_) => 400,
        }
    }
}

/// A structured error payload, ready for an error-formatting layer to render.
#[derive(Debug)]
pub struct ErrorResponse {
    pub error: String,
    pub message: String,
    pub details: Option<String>,
    pub status_code: u16,
}

} // verus!
