//! The answer to a trace.
use crate::flow::{refuse, refused, Reply, ReplyV, WebResponse};
use crate::handlers::post_handler::lemma_no_refusal;
use crate::text::{contains, has_text, law_parts_are_contained, same};
use vstd::prelude::*;

verus! {

/// The status of a trace that failed, by its message.
pub open spec fn failed_status(message: Seq<char>) -> u16 {
    if message == "Unauthorized"@ || message == "Invalid token"@ {
        401
    } else if contains(message, "not found"@) {
        424
    } else {
        400
    }
}

/// The status of a trace that failed, by its message.
pub fn status_of_failure(message: &str) -> (r: u16)
    ensures
        r == failed_status(message@),
{
    if same(message, "Unauthorized") || same(message, "Invalid token") {
        401
    } else if has_text(message, "not found") {
        424
    } else {
        400
    }
}

/// The answer to a trace.
pub fn process(result: Result<WebResponse, String>) -> (r: Reply)
    ensures
        match result {
            Ok(res) => r.deep_view() == (ReplyV { status: 200, body: res.deep_view() }),
            Err(err) => r.deep_view() == refused(failed_status(err@), err@),
        },
{
    match result {
        Ok(res) => Reply { status: 200, body: res },
        Err(err) => {
            let status: u16 = status_of_failure(err.as_str());
            refuse(status, err)
        },
    }
}

/// A trace that was not allowed is answered so, and so is one that did not find what it
/// needs, whatever else the message says.
pub proof fn law_failures_are_told_by_their_status(before: Seq<char>, after: Seq<char>)
    ensures
        failed_status("Unauthorized"@) == 401,
        failed_status("Invalid token"@) == 401,
        failed_status(before + "not found"@ + after) == 424,
{
    law_parts_are_contained(before, "not found"@, after);
    lemma_no_refusal(before, after);
}

} // verus!
