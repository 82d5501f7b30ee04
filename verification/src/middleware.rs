//! The middleware decision core: one function from request headers to a
//! plan — reject at once, buffer the body, or stream it.
//!
//! The surrounding HTTP layer reads the headers, calls `plan_request`, and
//! then either sends the rejection, buffers the body through
//! `enforce_buffered`, or wraps the body stream around a `StreamEnforcer`.

use vstd::prelude::*;
use vstd::string::StringSliceAdditionalSpecFns;

use crate::config::SizeLimitConfig;
use crate::digits::parse_usize_spec;
use crate::error::SizeLimitError;
use crate::gate::{check_declared_length, early_reject_spec, parse_content_length};
use crate::strategy::{strs_bytes, BufferStrategy};

verus! {

/// Combined middleware configuration: the size limits and the
/// buffer-or-stream strategy.
#[derive(Clone, Debug)]
pub struct SizeLimitMiddlewareConfig {
    /// Size limits per content type.
    pub size_limits: SizeLimitConfig,
    /// Which content types are buffered and which are streamed.
    pub buffer_strategy: BufferStrategy,
}

impl SizeLimitMiddlewareConfig {
    /// A configuration with the given limits and an empty strategy.
    pub fn new(size_limits: SizeLimitConfig) -> (r: Self)
        ensures
            r.size_limits == size_limits,
            r.buffer_strategy.buffered_view() == Seq::<Seq<u8>>::empty(),
            r.buffer_strategy.streamed_view() == Seq::<Seq<u8>>::empty(),
            r.buffer_strategy.default_is_buffered == false,
    {
        SizeLimitMiddlewareConfig { size_limits, buffer_strategy: BufferStrategy::new() }
    }

    /// A configuration with the given limits and the default strategy.
    pub fn with_default_buffer_strategy(size_limits: SizeLimitConfig) -> (r: Self)
        ensures
            r.size_limits == size_limits,
            r.buffer_strategy.buffered_view() == seq![
                "application/json".spec_bytes(),
                "multipart/form-data".spec_bytes(),
                "text/*".spec_bytes(),
                "application/xml".spec_bytes(),
                "application/x-www-form-urlencoded".spec_bytes(),
            ],
            r.buffer_strategy.streamed_view() == seq![
                "video/*".spec_bytes(),
                "image/*".spec_bytes(),
                "audio/*".spec_bytes(),
                "application/octet-stream".spec_bytes(),
            ],
            r.buffer_strategy.default_is_buffered == false,
    {
        SizeLimitMiddlewareConfig { size_limits, buffer_strategy: BufferStrategy::with_defaults() }
    }

    /// Replace the buffer strategy.
    pub fn with_buffer_strategy(self, strategy: BufferStrategy) -> (r: Self)
        ensures
            r.size_limits == self.size_limits,
            r.buffer_strategy == strategy,
    {
        let mut this = self;
        this.buffer_strategy = strategy;
        this
    }

    /// Append patterns to the strategy's buffered list.
    pub fn with_buffered_types(self, types: &[&str]) -> (r: Self)
        ensures
            r.size_limits == self.size_limits,
            r.buffer_strategy.streamed_types == self.buffer_strategy.streamed_types,
            r.buffer_strategy.default_is_buffered == self.buffer_strategy.default_is_buffered,
            r.buffer_strategy.buffered_view() == self.buffer_strategy.buffered_view()
                + strs_bytes(types@),
    {
        let mut this = self;
        this.buffer_strategy = this.buffer_strategy.with_buffered_types(types);
        this
    }

    /// Append patterns to the strategy's streamed list.
    pub fn with_streamed_types(self, types: &[&str]) -> (r: Self)
        ensures
            r.size_limits == self.size_limits,
            r.buffer_strategy.buffered_types == self.buffer_strategy.buffered_types,
            r.buffer_strategy.default_is_buffered == self.buffer_strategy.default_is_buffered,
            r.buffer_strategy.streamed_view() == self.buffer_strategy.streamed_view()
                + strs_bytes(types@),
    {
        let mut this = self;
        this.buffer_strategy = this.buffer_strategy.with_streamed_types(types);
        this
    }

    /// Set the strategy's default for unmatched content types.
    pub fn with_default_buffered(self, is_buffered: bool) -> (r: Self)
        ensures
            r.size_limits == self.size_limits,
            r.buffer_strategy.buffered_types == self.buffer_strategy.buffered_types,
            r.buffer_strategy.streamed_types == self.buffer_strategy.streamed_types,
            r.buffer_strategy.default_is_buffered == is_buffered,
    {
        let mut this = self;
        this.buffer_strategy = this.buffer_strategy.with_default_buffered(is_buffered);
        this
    }
}

impl Default for SizeLimitMiddlewareConfig {
    /// Default limits with the default buffer strategy.
    fn default() -> (r: Self)
        ensures
            r.size_limits.default_limit == crate::config::DEFAULT_SIZE_LIMIT,
            r.size_limits.specific_map() == Map::<Seq<u8>, usize>::empty(),
            r.size_limits.wildcard_map() == Map::<Seq<u8>, usize>::empty(),
            r.buffer_strategy.default_is_buffered == false,
    {
        SizeLimitMiddlewareConfig {
            size_limits: SizeLimitConfig::new(),
            buffer_strategy: BufferStrategy::with_defaults(),
        }
    }
}

/// How one request is to be handled.
#[derive(Debug, Clone, PartialEq, Eq)]
pub enum RequestPlan {
    /// Reject at once, before reading any body bytes.
    Reject(SizeLimitError),
    /// Read the whole body, up to this limit, before the handler runs.
    Buffered(usize),
    /// Stream the body through an enforcer with this limit.
    Streamed(usize),
}

/// The bytes of an optional header value.
pub open spec fn opt_str_bytes(o: Option<&str>) -> Option<Seq<u8>> {
    match o {
        Some(s) => Some(s.spec_bytes()),
        None => None,
    }
}

/// The plan for a request: resolve the limit for the content type (absent
/// means `application/octet-stream`), reject at once when the declared
/// length exceeds it, otherwise buffer or stream by the strategy.
pub open spec fn plan_spec(
    config: SizeLimitConfig,
    strategy: BufferStrategy,
    ct: Option<Seq<u8>>,
    cl: Option<Seq<u8>>,
) -> RequestPlan {
    let ctb = match ct {
        Some(b) => b,
        None => "application/octet-stream".spec_bytes(),
    };
    let limit = config.resolved_limit(ctb);
    let declared = match cl {
        Some(h) => parse_usize_spec(h),
        None => None,
    };
    match early_reject_spec(declared, limit) {
        Some(e) => RequestPlan::Reject(e),
        None => if strategy.decides_buffer(ctb) {
            RequestPlan::Buffered(limit)
        } else {
            RequestPlan::Streamed(limit)
        },
    }
}

/// Decide how to handle a request from its content-type and content-length
/// header values.
pub fn plan_request(
    config: &SizeLimitConfig,
    strategy: &BufferStrategy,
    content_type: Option<&str>,
    content_length: Option<&str>,
) -> (r: RequestPlan)
    ensures
        r == plan_spec(
            *config,
            *strategy,
            opt_str_bytes(content_type),
            opt_str_bytes(content_length),
        ),
{
    let ct: &str = match content_type {
        Some(s) => s,
        None => "application/octet-stream",
    };
    let limit = config.get_limit_for_content_type(ct);
    let declared = match content_length {
        Some(h) => parse_content_length(h),
        None => None,
    };
    match check_declared_length(declared, limit) {
        Some(e) => RequestPlan::Reject(e),
        None => if strategy.should_buffer(ct) {
            RequestPlan::Buffered(limit)
        } else {
            RequestPlan::Streamed(limit)
        },
    }
}

} // verus!
