//! The answer to an insertion.
use crate::flow::{refuse, refused, told, Reply, ReplyV, WebResponse};
use crate::text::{contains, has_text, law_parts_are_contained, same};
use vstd::prelude::*;

verus! {

/// The status of an insertion that failed, by its message.
pub open spec fn failed_status(message: Seq<char>) -> u16 {
    if message == "Unauthorized"@ || message == "Invalid token"@ {
        401
    } else if contains(message, "not found"@) {
        404
    } else if contains(message, "Missing required field"@) || contains(message, "Invalid"@)
        || contains(message, "must be an array"@) {
        400
    } else {
        500
    }
}

/// The status of an insertion that failed, by its message.
pub fn status_of_failure(message: &str) -> (r: u16)
    ensures
        r == failed_status(message@),
{
    if same(message, "Unauthorized") || same(message, "Invalid token") {
        401
    } else if has_text(message, "not found") {
        404
    } else if has_text(message, "Missing required field") || has_text(message, "Invalid")
        || has_text(message, "must be an array") {
        400
    } else {
        500
    }
}

/// The answer to an insertion.
pub fn insert(result: Result<WebResponse, WebResponse>) -> (r: Reply)
    ensures
        match result {
            Ok(res) => r.deep_view() == (ReplyV { status: 200, body: res.deep_view() }),
            Err(res) => r.deep_view() == (ReplyV {
                status: failed_status(res.message@),
                body: res.deep_view(),
            }),
        },
{
    match result {
        Ok(res) => Reply { status: 200, body: res },
        Err(res) => Reply { status: status_of_failure(res.message.as_str()), body: res },
    }
}

/// The answer to a request whose body could not be read.
pub fn unreadable(e: &str) -> (r: Reply)
    ensures
        r.deep_view() == refused(400, "Failed to parse request payload: "@ + e@),
{
    refuse(400, told("Failed to parse request payload: ", e))
}

/// A message that says that something was not found is neither of those of a request that
/// was not allowed.
pub proof fn lemma_no_refusal(before: Seq<char>, after: Seq<char>)
    ensures
        before + "not found"@ + after != "Unauthorized"@,
        before + "not found"@ + after != "Invalid token"@,
{
    let m = before + "not found"@ + after;
    let at = before.len() as int;
    reveal_strlit("not found");
    assert("not found"@.len() == 9);
    assert(m[at] == "not found"@[0] && m[at + 3] == "not found"@[3]);
    assert(m[at] == 'n' && m[at + 3] == ' ' && at + 9 <= m.len());
    if m == "Unauthorized"@ {
        reveal_strlit("Unauthorized");
        let u = "Unauthorized"@;
        assert(u.len() == 12 && u[3] == 'u' && u[4] == 't' && u[5] == 'h' && u[6] == 'o');
        assert(at == 0 || at == 1 || at == 2 || at == 3);
        assert(u[at + 3] == ' ');
        assert(false);
    }
    if m == "Invalid token"@ {
        reveal_strlit("Invalid token");
        let t = "Invalid token"@;
        assert(t.len() == 13 && t[3] == 'a' && t[4] == 'l' && t[5] == 'i' && t[6] == 'd');
        assert(at == 0 || at == 1 || at == 2 || at == 3 || at == 4);
        assert(t[at + 3] == ' ' && t[at] == 'n');
        assert(false);
    }
}

/// An insertion that was not allowed is answered so, and so is one that did not find
/// what it needs, whatever else the message says.
pub proof fn law_failures_are_told_by_their_status(before: Seq<char>, after: Seq<char>)
    ensures
        failed_status("Unauthorized"@) == 401,
        failed_status("Invalid token"@) == 401,
        failed_status(before + "not found"@ + after) == 404,
{
    law_parts_are_contained(before, "not found"@, after);
    lemma_no_refusal(before, after);
}

} // verus!
