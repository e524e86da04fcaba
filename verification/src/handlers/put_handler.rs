//! The answer to an update.
use crate::flow::{refused, Reply};
use crate::handlers::post_handler::unreadable;
use vstd::prelude::*;

verus! {

/// The answer to an update: that of the update itself, or, where the body of the
/// request could not be read, a refusal.
pub fn update(result: Result<Reply, String>) -> (r: Reply)
    ensures
        match result {
            Ok(reply) => r == reply,
            Err(e) => r.deep_view() == refused(400, "Failed to parse request payload: "@ + e@),
        },
{
    match result {
        Ok(reply) => reply,
        Err(e) => unreadable(e.as_str()),
    }
}

} // verus!
