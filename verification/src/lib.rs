//! Resiliency layer for a streaming chat-completion proxy: detection of
//! rate-limit signals embedded in event-stream text, and a bounded
//! exponential-backoff retry policy.

pub mod backoff;
pub mod sse;

pub use backoff::RetryConfig;
pub use backoff::RetryState;
pub use sse::PayloadFields;
pub use sse::detect_rate_limit_in_sse;
pub use sse::extract_error_text;
pub use sse::is_rate_limit_error;

use vstd::prelude::*;

verus! {

/// Request identifier carried through response extensions by the caller.
#[derive(Clone)]
pub struct LogRequestId(pub String);

} // verus!
