//! Content-type aware request body size limiting.
//!
//! The crate decides, for each incoming request, which byte limit applies
//! (exact content-type match, then wildcard, then default), whether the body
//! should be buffered or streamed, whether the declared content length already
//! exceeds the limit, and it enforces the limit chunk by chunk against a live
//! byte stream without ever admitting more than the permitted bytes.

pub mod config;
pub mod digits;
pub mod enforce;
pub mod error;
pub mod gate;
pub mod middleware;
pub mod normalize;
pub mod service;
pub mod size;
pub mod strategy;

pub use config::SizeLimitConfig;
pub use enforce::{StreamAction, StreamEnforcer, StreamEvent, MAX_INDIVIDUAL_CHUNK_SIZE};
pub use error::{ErrorResponse, SizeLimitError};
pub use middleware::{plan_request, RequestPlan, SizeLimitMiddlewareConfig};
pub use normalize::normalize_content_type;
pub use service::{SizeLimitLayer, SizeLimitService};
pub use size::{parse_human_size, SizeLimit, SizeUnit};
pub use strategy::BufferStrategy;
