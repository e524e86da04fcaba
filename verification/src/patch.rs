//! A request to call a stored procedure.
use crate::ast::{DbParam, Scalar};
use crate::filters::{infer_param, number_or_text};
use crate::flow::{
    answers, answers_success, checks_access, failure, failure_in, missing_entity, refuse, refused,
    rows_in, say_missing_entity, succeed, succeeded, told, touches_data, Action, ActionV, Audit,
    AuditV, Outcome, Reply, ReplyV,
};
use crate::giving::{
    carries, gives, is_typed, law_typing_tells_the_text, lemma_bare,
};
use crate::json::{field, json_text, lemma_array_view, Json, JsonV};
use crate::model::{column_named, find_column, TableSchema};
use crate::pk_utils::{typed, typed_param};
use crate::post::take_rows;
use crate::text::{
    ascii_lower, contains, has_text, lowercase, push_item, same, strip_both, stripped,
    to_ascii_lower, to_lowercase,
};
use vstd::prelude::*;
use vstd::string::*;

verus! {

/// A request to call a stored procedure.
#[derive(Debug)]
pub struct CallRequest {
    pub route: String,
    /// The address of the client.
    pub ip: String,
    /// Whether the route is open to everyone.
    pub is_public: bool,
    /// Whether routes that are not open ask for a token; they always do where
    /// the request is classic.
    pub require_auth: bool,
    /// How many classic requests a client may make in a second; none is counted
    /// where it is not positive.
    pub limit_per_second: i64,
    pub schema: TableSchema,
    pub parameters: Json,
    /// Whether the store is one without procedures.
    pub mongodb: bool,
    /// Whether access is checked by the route, requests are counted, and
    /// parameters may be missing.
    pub classic: bool,
}

// ---------------------------------------------------------------------------
// The values
// ---------------------------------------------------------------------------

/// The text of a value, without quotes around it.
pub open spec fn bare_text(v: JsonV) -> Seq<char> {
    strip_both(json_text(v), '"')
}

/// The value of a parameter: by the type of the column with its name, where there
/// is one and types count; else a number where it is a numeral.
pub open spec fn call_value(schema: TableSchema, name: Seq<char>, v: JsonV, types: bool) -> Scalar {
    match column_named(schema.columns@, name) {
        Some(c) => if types {
            typed(bare_text(v), lowercase(c.type_data@))
        } else {
            number_or_text(bare_text(v))
        },
        None => number_or_text(bare_text(v)),
    }
}

fn build_call_value(schema: &TableSchema, name: &str, v: &Json, types: bool) -> (r: DbParam)
    ensures
        r.deep_view() == call_value(*schema, name@, v.deep_view(), types),
{
    let text = v.text();
    let s = stripped(text.as_str(), '"');
    match find_column(&schema.columns, name) {
        Some(c) => if types {
            let t = to_lowercase(c.type_data.as_str());
            typed_param(s.as_str(), t.as_str())
        } else {
            infer_param(s.as_str())
        },
        None => infer_param(s.as_str()),
    }
}

/// The values of the first `n` configured parameters, in their order, or the one
/// that is missing; one that is missing is passed over where types do not count.
pub open spec fn call_values(schema: TableSchema, params: JsonV, types: bool, n: int) -> Result<
    Seq<Scalar>,
    Seq<char>,
>
    decreases n,
{
    if n <= 0 {
        Ok(Seq::empty())
    } else {
        match call_values(schema, params, types, n - 1) {
            Err(m) => Err(m),
            Ok(before) => {
                let name = schema.patch.parameters.deep_view()[n - 1];
                match field(params, name) {
                    Some(v) => Ok(before.push(call_value(schema, name, v, types))),
                    None => if types {
                        Err("Missing required parameter: "@ + name)
                    } else {
                        Ok(before)
                    },
                }
            },
        }
    }
}

proof fn lemma_call_values_fail(schema: TableSchema, params: JsonV, types: bool, k: int, n: int)
    requires
        k <= n,
        call_values(schema, params, types, k) is Err,
    ensures
        call_values(schema, params, types, n) == call_values(schema, params, types, k),
    decreases n - k,
{
    if k < n {
        lemma_call_values_fail(schema, params, types, k, n - 1);
    }
}

/// What a result with a message is.
pub open spec fn values_result(r: Result<Vec<DbParam>, String>) -> Result<Seq<Scalar>, Seq<char>> {
    match r {
        Ok(v) => Ok(v.deep_view()),
        Err(m) => Err(m@),
    }
}

/// The values of the configured parameters, or the one that is missing.
pub fn build_call_values(schema: &TableSchema, params: &Json, types: bool) -> (r: Result<
    Vec<DbParam>,
    String,
>)
    ensures
        values_result(r) == call_values(
            *schema,
            params.deep_view(),
            types,
            schema.patch.parameters@.len() as int,
        ),
{
    let ghost pv = params.deep_view();
    let mut out: Vec<DbParam> = Vec::new();
    assert(out.deep_view() =~= Seq::empty());
    let mut i: usize = 0;
    while i < schema.patch.parameters.len()
        invariant
            i <= schema.patch.parameters@.len(),
            pv == params.deep_view(),
            call_values(*schema, pv, types, i as int) == Ok::<Seq<Scalar>, Seq<char>>(
                out.deep_view(),
            ),
        decreases schema.patch.parameters.len() - i,
    {
        assert(schema.patch.parameters.deep_view()[i as int]
            == schema.patch.parameters@[i as int]@);
        let name = schema.patch.parameters[i].as_str();
        match params.get(name) {
            Some(v) => {
                push_item(&mut out, build_call_value(schema, name, v, types));
            },
            None => {
                if types {
                    proof {
                        lemma_call_values_fail(
                            *schema,
                            pv,
                            types,
                            i + 1,
                            schema.patch.parameters@.len() as int,
                        );
                    }
                    return Err(told("Missing required parameter: ", name));
                }
            },
        }
        i += 1;
    }
    Ok(out)
}

/// Where every configured parameter is given, the procedure gets one value for
/// each, in the configured order.
pub proof fn law_every_parameter_is_passed(schema: TableSchema, params: JsonV, types: bool, n: int)
    requires
        0 <= n <= schema.patch.parameters.deep_view().len(),
        forall|i: int|
            0 <= i < n ==> field(params, #[trigger] schema.patch.parameters.deep_view()[i])
                is Some,
    ensures
        call_values(schema, params, types, n) is Ok,
        call_values(schema, params, types, n)->Ok_0 =~= Seq::new(
            n as nat,
            |i: int|
                call_value(
                    schema,
                    schema.patch.parameters.deep_view()[i],
                    field(params, schema.patch.parameters.deep_view()[i])->0,
                    types,
                ),
        ),
    decreases n,
{
    if n > 0 {
        law_every_parameter_is_passed(schema, params, types, n - 1);
        assert(field(params, schema.patch.parameters.deep_view()[n - 1]) is Some);
    }
}

// ---------------------------------------------------------------------------
// The answer
// ---------------------------------------------------------------------------

/// A number of rows, in 32 bits.
pub open spec fn row_count(n: nat) -> i32 {
    let low = (n % 0x1_0000_0000) as int;
    if low < 0x8000_0000 {
        low as i32
    } else {
        (low - 0x1_0000_0000) as i32
    }
}

/// A number of rows, in 32 bits.
pub fn wrap_count(count: usize) -> (r: i32)
    ensures
        r == row_count(count as nat),
{
    let n: u64 = count as u64;
    let low: i64 = (n % 0x1_0000_0000) as i64;
    if low < 0x8000_0000 {
        low as i32
    } else {
        (low - 0x1_0000_0000) as i32
    }
}

/// The answer to a call: with the rows that came back, with their number, or
/// with neither, by what is configured.
pub open spec fn call_answer(mode: Seq<char>, rows: Seq<JsonV>) -> ReplyV {
    let m = ascii_lower(mode);
    if m == "rows"@ {
        succeeded("Processes executed"@, row_count(rows.len()), JsonV::Array(rows))
    } else if m == "affected"@ {
        succeeded("Processes executed"@, row_count(rows.len()), JsonV::Null)
    } else {
        succeeded("Processes executed"@, 1, JsonV::Null)
    }
}

/// The answer to a call.
pub fn say_called(mode: &str, rows: Vec<Json>) -> (r: Reply)
    ensures
        r.deep_view() == call_answer(mode@, rows.deep_view()),
{
    broadcast use lemma_array_view;

    let m = to_ascii_lower(mode);
    assert(rows.deep_view().len() == rows@.len());
    let count: i32 = wrap_count(rows.len());
    if same(m.as_str(), "rows") {
        succeed("Processes executed", count, Json::Array(rows))
    } else if same(m.as_str(), "affected") {
        succeed("Processes executed", count, Json::Null)
    } else {
        succeed("Processes executed", 1, Json::Null)
    }
}

// ---------------------------------------------------------------------------
// The steps
// ---------------------------------------------------------------------------

/// Where the request stands.
#[derive(Debug, PartialEq, Eq, Clone, Copy, Structural)]
pub enum CallStage {
    Start,
    Token,
    Access,
    Limiting,
    Compiling,
    Beginning,
    Running,
    Committing,
    Ended,
}

/// A request under way: the actor is the bearer of the token, the rows are those
/// that the procedure gave.
#[derive(Debug)]
pub struct Calling {
    pub request: CallRequest,
    pub stage: CallStage,
    pub actor: String,
    pub rows: Vec<Json>,
}

/// What a request remembers.
pub struct CallMemoV {
    pub actor: Seq<char>,
    pub rows: Seq<JsonV>,
}

/// What follows from a step: where the request stands, what it remembers and
/// what it asks for.
pub type CallTurn = (CallStage, CallMemoV, ActionV);

/// The status of a failure: that of a request where the operation is not
/// supported.
pub open spec fn call_status(q: CallRequest, status: u16, message: Seq<char>) -> u16 {
    if q.classic {
        status
    } else if contains(message, "Unsupported"@) || contains(message, "not supported"@) {
        400
    } else {
        500
    }
}

/// The request is refused.
pub open spec fn call_refused(m: CallMemoV, status: u16, message: Seq<char>) -> CallTurn {
    (CallStage::Ended, m, ActionV::Answer(refused(status, message)))
}

/// The call failed.
pub open spec fn call_fails(q: CallRequest, m: CallMemoV, status: u16, message: Seq<char>) -> CallTurn {
    call_refused(m, call_status(q, status, message), message)
}

/// Whether the request needs a token.
pub open spec fn call_guarded(q: CallRequest) -> bool {
    !q.is_public && (q.classic || q.require_auth)
}

/// A limit in 32 bits.
pub open spec fn capped(n: i64) -> u32 {
    if n > 0xffff_ffff {
        0xffff_ffff
    } else {
        n as u32
    }
}

/// The requests of the client are counted, where they are to be.
pub open spec fn call_admitted(q: CallRequest, m: CallMemoV) -> CallTurn {
    if q.classic && q.limit_per_second > 0 {
        (
            CallStage::Limiting,
            m,
            ActionV::RateLimit(
                "patch:"@ + q.route@ + ":"@ + q.ip@,
                capped(q.limit_per_second),
            ),
        )
    } else {
        call_counted(q, m)
    }
}

/// What is said of an entity that is not configured.
pub open spec fn call_unknown(q: CallRequest) -> Seq<char> {
    if q.classic {
        missing_entity(q.route@)
    } else {
        "Entity "@ + q.route@ + " not found"@
    }
}

/// The call is compiled.
pub open spec fn call_counted(q: CallRequest, m: CallMemoV) -> CallTurn {
    if q.schema.table@.len() == 0 {
        call_refused(m, 424, call_unknown(q))
    } else {
        match call_values(
            q.schema,
            q.parameters.deep_view(),
            !q.classic,
            q.schema.patch.parameters@.len() as int,
        ) {
            Err(e) => call_refused(m, 400, e),
            Ok(values) => if !q.classic && q.mongodb {
                call_fails(
                    q,
                    m,
                    400,
                    "PATCH procedure execution is not supported for MongoDB"@,
                )
            } else {
                (
                    CallStage::Compiling,
                    m,
                    ActionV::CompileCall(q.schema.patch.pre_process_sp@, values),
                )
            },
        }
    }
}

/// The entry of the audit log for a call.
pub open spec fn call_audit(m: CallMemoV) -> AuditV {
    AuditV { action: "PATCH"@, actor_id: m.actor, id: None }
}

/// The next step of a request.
pub open spec fn call_next(q: CallRequest, stage: CallStage, m: CallMemoV, o: Outcome) -> CallTurn {
    match stage {
        CallStage::Start => if call_guarded(q) {
            (CallStage::Token, m, ActionV::VerifyToken)
        } else {
            call_admitted(q, m)
        },
        CallStage::Token => match o {
            Outcome::Identified(id) => (
                CallStage::Access,
                CallMemoV { actor: id@, ..m },
                if q.classic {
                    ActionV::CheckAccess("execute"@)
                } else {
                    ActionV::CheckRequest
                },
            ),
            _ => call_refused(m, 401, "Invalid token"@),
        },
        CallStage::Access => match failure_in(o) {
            Some(e) => call_refused(
                m,
                401,
                if q.classic {
                    "Unauthorized"@
                } else {
                    "Unauthorized: "@ + e
                },
            ),
            None => call_admitted(q, m),
        },
        CallStage::Limiting => match failure_in(o) {
            Some(_) => call_refused(m, 429, "Too many requests"@),
            None => call_counted(q, m),
        },
        CallStage::Compiling => match failure_in(o) {
            Some(e) => call_fails(q, m, 400, "Unsupported or invalid procedure call: "@ + e),
            None => (CallStage::Beginning, m, ActionV::Begin),
        },
        CallStage::Beginning => match failure_in(o) {
            Some(e) => call_fails(q, m, 500, "Error starting transaction: "@ + e),
            None => (CallStage::Running, m, ActionV::RunCompiled),
        },
        CallStage::Running => match failure_in(o) {
            Some(e) => {
                let message = "Error NCO-PATCH: "@ + e;
                (
                    CallStage::Ended,
                    m,
                    ActionV::Abort(refused(call_status(q, 500, message), message)),
                )
            },
            None => if q.classic {
                (
                    CallStage::Ended,
                    m,
                    ActionV::CommitAndConclude(
                        call_audit(m),
                        call_answer(q.schema.patch.return_mode@, rows_in(o)),
                    ),
                )
            } else {
                (
                    CallStage::Committing,
                    CallMemoV { rows: rows_in(o), ..m },
                    ActionV::Commit,
                )
            },
        },
        CallStage::Committing => match failure_in(o) {
            Some(e) => call_fails(q, m, 500, "Error committing transaction: "@ + e),
            None => (
                CallStage::Ended,
                m,
                ActionV::Conclude(
                    call_audit(m),
                    call_answer(q.schema.patch.return_mode@, m.rows),
                ),
            ),
        },
        CallStage::Ended => (CallStage::Ended, m, ActionV::Nothing),
    }
}

/// A request that has not begun.
pub fn process_sp(request: CallRequest) -> (r: Calling)
    ensures
        r.request == request,
        r.stage == CallStage::Start,
        r.memo() == (CallMemoV { actor: Seq::empty(), rows: Seq::empty() }),
{
    let rows: Vec<Json> = Vec::new();
    assert(rows.deep_view() =~= Seq::empty());
    Calling { request, stage: CallStage::Start, actor: String::new(), rows }
}

impl Calling {
    /// What the request remembers.
    pub open spec fn memo(&self) -> CallMemoV {
        CallMemoV { actor: self.actor@, rows: self.rows.deep_view() }
    }

    /// Where the request stands, what it remembers, and what it asks for.
    pub open spec fn turn(&self, a: Action) -> CallTurn {
        (self.stage, self.memo(), a.deep_view())
    }

    fn status(&self, status: u16, message: &str) -> (r: u16)
        ensures
            r == call_status(self.request, status, message@),
    {
        if self.request.classic {
            status
        } else if has_text(message, "Unsupported") || has_text(message, "not supported") {
            400
        } else {
            500
        }
    }

    fn refuse(&mut self, status: u16, message: String) -> (r: Action)
        ensures
            final(self).request == old(self).request,
            final(self).turn(r) == call_refused(old(self).memo(), status, message@),
    {
        self.stage = CallStage::Ended;
        Action::Answer(refuse(status, message))
    }

    fn fail(&mut self, status: u16, message: String) -> (r: Action)
        ensures
            final(self).request == old(self).request,
            final(self).turn(r) == call_fails(
                old(self).request,
                old(self).memo(),
                status,
                message@,
            ),
    {
        let code: u16 = self.status(status, message.as_str());
        self.refuse(code, message)
    }

    fn admitted(&mut self) -> (r: Action)
        ensures
            final(self).request == old(self).request,
            final(self).turn(r) == call_admitted(old(self).request, old(self).memo()),
    {
        let n: i64 = self.request.limit_per_second;
        if self.request.classic && n > 0 {
            let mut key = told("patch:", self.request.route.as_str());
            key.append(":");
            key.append(self.request.ip.as_str());
            let limit: u32 = if n > 0xffff_ffff {
                0xffff_ffff
            } else {
                n as u32
            };
            self.stage = CallStage::Limiting;
            Action::RateLimit(key, limit)
        } else {
            self.counted()
        }
    }

    fn counted(&mut self) -> (r: Action)
        ensures
            final(self).request == old(self).request,
            final(self).turn(r) == call_counted(old(self).request, old(self).memo()),
    {
        if self.request.schema.table.as_str().is_empty() {
            let m = if self.request.classic {
                say_missing_entity(self.request.route.as_str())
            } else {
                let mut m = told("Entity ", self.request.route.as_str());
                m.append(" not found");
                m
            };
            return self.refuse(424, m);
        }
        match build_call_values(
            &self.request.schema,
            &self.request.parameters,
            !self.request.classic,
        ) {
            Err(e) => self.refuse(400, e),
            Ok(values) => if !self.request.classic && self.request.mongodb {
                self.fail(
                    400,
                    "PATCH procedure execution is not supported for MongoDB".to_owned(),
                )
            } else {
                let name = self.request.schema.patch.pre_process_sp.clone();
                self.stage = CallStage::Compiling;
                Action::CompileCall(name, values)
            },
        }
    }

    fn audit(&self) -> (r: Audit)
        ensures
            r.deep_view() == call_audit(self.memo()),
    {
        Audit { action: "PATCH".to_owned(), actor_id: self.actor.clone(), id: None }
    }

    /// Takes the next step of the request, with what came of the last one.
    pub fn step(&mut self, outcome: Outcome) -> (r: Action)
        ensures
            final(self).request == old(self).request,
            (final(self).stage, final(self).memo(), r.deep_view()) == call_next(
                old(self).request,
                old(self).stage,
                old(self).memo(),
                outcome,
            ),
    {
        match self.stage {
            CallStage::Start => {
                if !self.request.is_public && (self.request.classic || self.request.require_auth) {
                    self.stage = CallStage::Token;
                    Action::VerifyToken
                } else {
                    self.admitted()
                }
            },
            CallStage::Token => match outcome {
                Outcome::Identified(id) => {
                    self.actor = id;
                    self.stage = CallStage::Access;
                    if self.request.classic {
                        Action::CheckAccess("execute".to_owned())
                    } else {
                        Action::CheckRequest
                    }
                },
                _ => self.refuse(401, "Invalid token".to_owned()),
            },
            CallStage::Access => match failure(&outcome) {
                Some(e) => {
                    let m = if self.request.classic {
                        "Unauthorized".to_owned()
                    } else {
                        told("Unauthorized: ", e)
                    };
                    self.refuse(401, m)
                },
                None => self.admitted(),
            },
            CallStage::Limiting => match failure(&outcome) {
                Some(_) => self.refuse(429, "Too many requests".to_owned()),
                None => self.counted(),
            },
            CallStage::Compiling => match failure(&outcome) {
                Some(e) => self.fail(400, told("Unsupported or invalid procedure call: ", e)),
                None => {
                    self.stage = CallStage::Beginning;
                    Action::Begin
                },
            },
            CallStage::Beginning => match failure(&outcome) {
                Some(e) => self.fail(500, told("Error starting transaction: ", e)),
                None => {
                    self.stage = CallStage::Running;
                    Action::RunCompiled
                },
            },
            CallStage::Running => match failure(&outcome) {
                Some(e) => {
                    let m = told("Error NCO-PATCH: ", e);
                    let status: u16 = self.status(500, m.as_str());
                    self.stage = CallStage::Ended;
                    Action::Abort(refuse(status, m))
                },
                None => {
                    let rows = take_rows(outcome);
                    if self.request.classic {
                        self.stage = CallStage::Ended;
                        Action::CommitAndConclude(
                            self.audit(),
                            say_called(self.request.schema.patch.return_mode.as_str(), rows),
                        )
                    } else {
                        self.rows = rows;
                        self.stage = CallStage::Committing;
                        Action::Commit
                    }
                },
            },
            CallStage::Committing => match failure(&outcome) {
                Some(e) => self.fail(500, told("Error committing transaction: ", e)),
                None => {
                    self.stage = CallStage::Ended;
                    let rows = copy_items(&self.rows);
                    Action::Conclude(
                        self.audit(),
                        say_called(self.request.schema.patch.return_mode.as_str(), rows),
                    )
                },
            },
            CallStage::Ended => Action::Nothing,
        }
    }
}

fn copy_items(items: &Vec<Json>) -> (r: Vec<Json>)
    ensures
        r.deep_view() == items.deep_view(),
{
    let ghost all = items.deep_view();
    let mut out: Vec<Json> = Vec::new();
    let mut i: usize = 0;
    assert(out.deep_view() =~= all.take(0));
    while i < items.len()
        invariant
            i <= items@.len(),
            all == items.deep_view(),
            out.deep_view() == all.take(i as int),
        decreases items.len() - i,
    {
        assert(all[i as int] == items@[i as int].deep_view());
        push_item(&mut out, items[i].copy());
        i += 1;
        assert(all.take(i as int) =~= all.take(i - 1).push(all[i - 1]));
    }
    assert(all.take(all.len() as int) =~= all);
    out
}

// ---------------------------------------------------------------------------
// Laws
// ---------------------------------------------------------------------------

/// Where a request stands, and what it remembers, after some outcomes.
pub open spec fn call_after(q: CallRequest, outcomes: Seq<Outcome>) -> (CallStage, CallMemoV)
    decreases outcomes.len(),
{
    if outcomes.len() == 0 {
        (CallStage::Start, CallMemoV { actor: Seq::empty(), rows: Seq::empty() })
    } else {
        let (stage, before) = call_after(q, outcomes.drop_last());
        let (s, after, _) = call_next(q, stage, before, outcomes.last());
        (s, after)
    }
}

/// What a request asks for after some outcomes.
pub open spec fn call_asks(q: CallRequest, outcomes: Seq<Outcome>) -> ActionV {
    let (stage, before) = call_after(q, outcomes.drop_last());
    call_next(q, stage, before, outcomes.last()).2
}

/// Whether the outcome at `k` answered a check of access, and granted it.
pub open spec fn call_granted_at(q: CallRequest, outcomes: Seq<Outcome>, k: int) -> bool {
    &&& 0 < k < outcomes.len()
    &&& checks_access(call_asks(q, outcomes.take(k)))
    &&& failure_in(outcomes[k]) is None
}

/// The stages that come before access is granted.
pub open spec fn call_before_access(stage: CallStage) -> bool {
    stage == CallStage::Start || stage == CallStage::Token || stage == CallStage::Access || stage
        == CallStage::Ended
}

proof fn lemma_call_granted(q: CallRequest, outcomes: Seq<Outcome>)
    requires
        call_guarded(q),
    ensures
        !call_before_access(call_after(q, outcomes).0) ==> exists|k: int|
            call_granted_at(q, outcomes, k),
        call_after(q, outcomes).0 == CallStage::Access ==> outcomes.len() > 0 && checks_access(
            call_asks(q, outcomes),
        ),
    decreases outcomes.len(),
{
    if outcomes.len() > 0 {
        let before = outcomes.drop_last();
        lemma_call_granted(q, before);
        let stage = call_after(q, before).0;
        if !call_before_access(call_after(q, outcomes).0) {
            if call_before_access(stage) {
                let k = outcomes.len() - 1;
                assert(outcomes.take(k) =~= before);
                assert(call_granted_at(q, outcomes, k));
            } else {
                let k = choose|k: int| call_granted_at(q, before, k);
                assert(before.take(k) =~= outcomes.take(k));
                assert(before[k] == outcomes[k]);
                assert(call_granted_at(q, outcomes, k));
            }
        }
    }
}

/// Where a request needs a token, no procedure is called unless access was
/// checked and granted before.
pub proof fn law_call_is_guarded(q: CallRequest, outcomes: Seq<Outcome>)
    requires
        call_guarded(q),
        outcomes.len() > 0,
        touches_data(call_asks(q, outcomes)),
    ensures
        exists|k: int| call_granted_at(q, outcomes, k),
{
    let before = outcomes.drop_last();
    lemma_call_granted(q, before);
    let stage = call_after(q, before).0;
    if call_before_access(stage) {
        assert(stage == CallStage::Access);
        let k = outcomes.len() - 1;
        assert(outcomes.take(k) =~= before);
        assert(call_granted_at(q, outcomes, k));
    } else {
        let k = choose|k: int| call_granted_at(q, before, k);
        assert(before.take(k) =~= outcomes.take(k));
        assert(before[k] == outcomes[k]);
        assert(call_granted_at(q, outcomes, k));
    }
}

/// What is answered while the transaction is open ends it, and a success is
/// answered only once the procedure has run.
pub proof fn law_call_closes_its_transaction(
    q: CallRequest,
    stage: CallStage,
    m: CallMemoV,
    o: Outcome,
)
    ensures
        ({
            let (s, _, a) = call_next(q, stage, m, o);
            &&& answers(a) ==> s == CallStage::Ended
            &&& stage == CallStage::Running ==> a is Abort || a is CommitAndConclude || a is Commit
            &&& (a is Abort || a is CommitAndConclude || a is Commit) ==> stage
                == CallStage::Running
            &&& answers_success(a) ==> (stage == CallStage::Running || stage
                == CallStage::Committing) && failure_in(o) is None
            &&& s == CallStage::Running ==> stage == CallStage::Beginning && failure_in(o) is None
        }),
{
}

/// A procedure is called with what the request gives: whenever a call is compiled, it
/// is that of the configured procedure, and, where every configured parameter is
/// given, it has one value for each, in the configured order, which is what the
/// request gives for it, typed by the column of its name where there is one.
pub proof fn law_calls_pass_what_is_given(
    q: CallRequest,
    stage: CallStage,
    m: CallMemoV,
    o: Outcome,
    k: int,
)
    requires
        call_next(q, stage, m, o).2 is CompileCall,
        0 <= k < q.schema.patch.parameters@.len(),
        forall|i: int|
            0 <= i < q.schema.patch.parameters@.len() ==> field(
                q.parameters.deep_view(),
                #[trigger] q.schema.patch.parameters.deep_view()[i],
            ) is Some,
        gives(field(q.parameters.deep_view(), q.schema.patch.parameters@[k]@)->0) is Some,
    ensures
        ({
            let a = call_next(q, stage, m, o).2;
            let name = q.schema.patch.parameters@[k]@;
            let text = gives(field(q.parameters.deep_view(), name)->0)->0;
            let values = a->CompileCall_1;
            &&& a->CompileCall_0 == q.schema.patch.pre_process_sp@
            &&& values.len() == q.schema.patch.parameters@.len()
            &&& if !q.classic && column_named(q.schema.columns@, name) is Some {
                is_typed(
                    values[k],
                    text,
                    lowercase(column_named(q.schema.columns@, name)->0.type_data@),
                )
            } else {
                carries(values[k], text, true)
            }
        }),
{
    let names = q.schema.patch.parameters.deep_view();
    let params = q.parameters.deep_view();
    let name = q.schema.patch.parameters@[k]@;
    let v = field(params, name)->0;
    let text = gives(v)->0;
    let n = q.schema.patch.parameters@.len() as int;
    assert(names[k] == name);
    law_every_parameter_is_passed(q.schema, params, !q.classic, n);
    lemma_bare(v);
    if let Some(c) = column_named(q.schema.columns@, name) {
        law_typing_tells_the_text(text, lowercase(c.type_data@));
    }
    let values = call_values(q.schema, params, !q.classic, n)->Ok_0;
    assert(values[k] == call_value(q.schema, name, v, !q.classic));
}

/// The answer to a call shows the rows that came back where they are asked for, and
/// how many they were where that is asked for.
pub proof fn law_calls_answer_what_came_back(mode: Seq<char>, rows: Seq<JsonV>)
    requires
        rows.len() <= i32::MAX,
    ensures
        ({
            let r = call_answer(mode, rows);
            let m = ascii_lower(mode);
            &&& r.status == 200
            &&& r.body.success
            &&& m == "rows"@ ==> r.body.data == JsonV::Array(rows) && r.body.total_data
                == rows.len()
            &&& m == "affected"@ ==> r.body.total_data == rows.len() && r.body.data == JsonV::Null
        }),
{
    reveal_strlit("rows");
    reveal_strlit("affected");
    assert("rows"@.len() != "affected"@.len());
}

/// A call runs what was compiled, and what it answers came of the run.
pub proof fn law_calls_run_before_they_are_answered(
    q: CallRequest,
    stage: CallStage,
    m: CallMemoV,
    o: Outcome,
)
    ensures
        ({
            let (s, n, a) = call_next(q, stage, m, o);
            &&& s == CallStage::Running ==> a is RunCompiled && stage == CallStage::Beginning
                && failure_in(o) is None
            &&& s == CallStage::Committing ==> a is Commit && stage == CallStage::Running
                && failure_in(o) is None && n.rows == rows_in(o)
            &&& a is CommitAndConclude ==> a->CommitAndConclude_1 == call_answer(
                q.schema.patch.return_mode@,
                rows_in(o),
            ) && stage == CallStage::Running
            &&& a is Conclude ==> a->Conclude_1 == call_answer(
                q.schema.patch.return_mode@,
                m.rows,
            ) && stage == CallStage::Committing && failure_in(o) is None
        }),
{
}

} // verus!
