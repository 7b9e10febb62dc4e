//! Request data kept for logging and metrics.

use vstd::prelude::*;

verus! {

/// Request-specific data, kept for later logging and metrics.
#[derive(Clone, Copy, Debug, Default, PartialEq, Eq, Structural)]
pub struct RequestContext {
    pub request_size: u64,
    pub streaming_request: bool,
}

} // verus!
