//! A request to copy rows, with access checked by the request.
use crate::trace::{process, TraceRequest, TraceStage, Tracing};
use vstd::prelude::*;

verus! {

/// A request that has not begun.
pub fn process_trace_request(request: TraceRequest) -> (r: Tracing)
    requires
        !request.classic,
    ensures
        r.request == request,
        r.stage == TraceStage::Start,
{
    process(request)
}

} // verus!
