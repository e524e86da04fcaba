//! The answer to an import.
use crate::flow::{Reply, ReplyV, WebResponse};
use crate::handlers::post_handler::lemma_no_refusal;
use crate::text::{contains, has_text, law_parts_are_contained, same};
use vstd::prelude::*;

verus! {

/// The status of an import that failed, by its message.
pub open spec fn failed_status(message: Seq<char>) -> u16 {
    if message == "Unauthorized"@ || message == "Invalid token"@ {
        401
    } else if contains(message, "not found"@) {
        424
    } else if contains(message, "too large"@) {
        413
    } else if message == "No content"@ {
        204
    } else {
        400
    }
}

/// The status of an import that failed, by its message.
pub fn status_of_failure(message: &str) -> (r: u16)
    ensures
        r == failed_status(message@),
{
    if same(message, "Unauthorized") || same(message, "Invalid token") {
        401
    } else if has_text(message, "not found") {
        424
    } else if has_text(message, "too large") {
        413
    } else if same(message, "No content") {
        204
    } else {
        400
    }
}

/// The answer to an import.
pub fn import(result: Result<WebResponse, WebResponse>) -> (r: Reply)
    ensures
        match result {
            Ok(res) => r.deep_view() == (ReplyV { status: 200, body: res.deep_view() }),
            Err(res) => r.deep_view() == (ReplyV {
                status: failed_status(res.message@),
                body: res.deep_view(),
            }),
        },
{
    match result {
        Ok(res) => Reply { status: 200, body: res },
        Err(res) => Reply { status: status_of_failure(res.message.as_str()), body: res },
    }
}

/// An import that was not allowed is answered so, and so is one that did not find what it
/// needs, whatever else the message says.
pub proof fn law_failures_are_told_by_their_status(before: Seq<char>, after: Seq<char>)
    ensures
        failed_status("Unauthorized"@) == 401,
        failed_status("Invalid token"@) == 401,
        failed_status(before + "not found"@ + after) == 424,
{
    law_parts_are_contained(before, "not found"@, after);
    lemma_no_refusal(before, after);
}

} // verus!
