//! The early-reject gate: checking a declared content length against the
//! resolved limit before any body byte is read.
//!
//! The declared length is untrusted text; a value that does not parse is
//! treated as absent, and the request then falls through to full
//! enforcement by the body enforcers.

use vstd::prelude::*;
use vstd::string::StringSliceAdditionalSpecFns;

use crate::digits::{parse_usize_bytes, parse_usize_spec};
use crate::error::SizeLimitError;

verus! {

/// Parse a content-length header value as a byte count; `None` when the
/// text is not a plain non-negative decimal number in range.
pub fn parse_content_length(value: &str) -> (r: Option<usize>)
    ensures
        r == parse_usize_spec(value.spec_bytes()),
{
    parse_usize_bytes(value.as_bytes())
}

/// The early-reject decision: a declared length that exceeds the limit is
/// rejected at once; an absent (or unparsable, hence absent) length passes.
pub open spec fn early_reject_spec(declared: Option<usize>, limit: usize) -> Option<
    SizeLimitError,
> {
    match declared {
        Some(n) => if n > limit {
            Some(SizeLimitError::BodyTooLarge { max_size: limit, actual_size: n })
        } else {
            None
        },
        None => None,
    }
}

/// Check a parsed declared length against the resolved limit, before
/// reading any body bytes.  This is an optimization, not a substitute for
/// enforcement: the enforcers re-check the actual bytes.
pub fn check_declared_length(declared: Option<usize>, limit: usize) -> (r: Option<SizeLimitError>)
    ensures
        r == early_reject_spec(declared, limit),
{
    match declared {
        Some(n) => if n > limit {
            Some(SizeLimitError::BodyTooLarge { max_size: limit, actual_size: n })
        } else {
            None
        },
        None => None,
    }
}

} // verus!
