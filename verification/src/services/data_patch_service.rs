//! A request to call a stored procedure, with access checked by the request.
use crate::patch::{process_sp, CallMemoV, CallRequest, CallStage, Calling};
use vstd::prelude::*;

verus! {

/// A request that has not begun.
pub fn process_patch_request(request: CallRequest) -> (r: Calling)
    requires
        !request.classic,
    ensures
        r.request == request,
        r.stage == CallStage::Start,
        r.memo() == (CallMemoV { actor: Seq::empty(), rows: Seq::empty() }),
{
    process_sp(request)
}

} // verus!
