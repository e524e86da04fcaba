//! A request to export rows, with access checked by the request.
use crate::export::{export, ExportRequest, ExportStage, Exporting};
use crate::json::JsonV;
use vstd::prelude::*;
use vstd::string::*;

verus! {

/// A request that has not begun.
pub fn process_export_request(request: ExportRequest) -> (r: Exporting)
    requires
        !request.classic,
    ensures
        r.request == request,
        r.stage == ExportStage::Start,
        r.actor@ == Seq::<char>::empty(),
        r.body.deep_view() == Seq::<(Seq<char>, JsonV)>::empty(),
{
    export(request)
}

} // verus!
