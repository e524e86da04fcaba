//! A request to import rows, whose status follows from its message.
use crate::import::{blank_import, import, ImportRequest, ImportStage, Importing};
use crate::number::{parse_usize, usize_value};
use vstd::prelude::*;
use vstd::string::*;

verus! {

/// How many rows are inserted with one statement, by what is configured.
pub open spec fn batch_size(configured: Option<Seq<char>>) -> usize {
    match configured {
        Some(s) => match usize_value(s) {
            Some(n) => n,
            None => 500,
        },
        None => 500,
    }
}

/// How many rows are inserted with one statement, by what is configured.
pub fn get_import_batch_size(configured: &Option<String>) -> (r: usize)
    ensures
        r == batch_size(configured.deep_view()),
{
    match configured {
        Some(s) => match parse_usize(s.as_str()) {
            Some(n) => n,
            None => 500,
        },
        None => 500,
    }
}

/// A request that has not begun.
pub fn process_import_request(request: ImportRequest) -> (r: Importing)
    requires
        !request.classic,
    ensures
        r.wf(),
        r.request == request,
        r.stage == ImportStage::Start,
        r.memo.deep_view() == blank_import(),
{
    import(request)
}

} // verus!
