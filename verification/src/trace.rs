//! A request to copy rows of a query into a table.
use crate::filters::Split;
use crate::flow::{
    answers, answers_success, checks_access, failure, failure_in, missing_entity, refuse, refused,
    say_missing_entity, succeed, succeeded, told, touches_data, Action, ActionV, Outcome,
    UpsertV,
};
use crate::handlers::trace_handler::{failed_status, status_of_failure};
use crate::json::{copy_fields, fields_of, lemma_object_view, Json, JsonV};
use crate::model::{DbType, TableSchema};
use crate::reading::{do_splits_fit, splits_fit};
use crate::repositories::data_trace_repo::{perform_trace_execution, trace_plan};
use vstd::prelude::*;
use vstd::string::*;

verus! {

/// A request to copy rows.
#[derive(Debug)]
pub struct TraceRequest {
    pub route: String,
    /// Whether the route is open to everyone.
    pub is_public: bool,
    /// Whether routes that are not open ask for a token.
    pub require_auth: bool,
    pub schema: TableSchema,
    pub parameters: Json,
    /// What the configured parameters were taken apart into.
    pub splits: Vec<Vec<Split>>,
    /// The database's expression for the present time.
    pub now_expr: String,
    pub db: DbType,
    /// Whether access is checked by the route, and each failure has a status of
    /// its own.
    pub classic: bool,
}

/// Where the request stands.
#[derive(Debug, PartialEq, Eq, Clone, Copy, Structural)]
pub enum TraceStage {
    Start,
    Token,
    Access,
    Compiling,
    Beginning,
    Running,
    Ended,
}

/// What follows from a step: where the request stands, and what it asks for.
pub type TraceTurn = (TraceStage, ActionV);

/// The status of a failure.
pub open spec fn trace_status(q: TraceRequest, status: u16, message: Seq<char>) -> u16 {
    if q.classic {
        status
    } else {
        failed_status(message)
    }
}

/// The request is refused.
pub open spec fn trace_fails(q: TraceRequest, status: u16, message: Seq<char>) -> TraceTurn {
    (TraceStage::Ended, ActionV::Answer(refused(trace_status(q, status, message), message)))
}

/// Whether the request needs a token.
pub open spec fn trace_guarded(q: TraceRequest) -> bool {
    q.require_auth && !q.is_public
}

/// What is said where rows cannot be copied by one statement.
pub open spec fn not_supported() -> Seq<char> {
    "TRACE insert-select upsert is not supported for MongoDB yet"@
}

/// The statement that copies the rows is compiled.
pub open spec fn trace_admitted(q: TraceRequest) -> TraceTurn {
    if q.schema.table@.len() == 0 {
        trace_fails(q, 424, missing_entity(q.route@))
    } else if !q.classic && q.db == DbType::Mongodb {
        trace_fails(q, 400, not_supported())
    } else if splits_fit(q.schema.trace.parameters.deep_view(), q.splits.deep_view()) {
        match trace_plan(
            q.schema,
            q.route@,
            fields_of(q.parameters.deep_view()),
            q.splits.deep_view(),
            q.now_expr@,
            q.db,
        ) {
            Err(m) => trace_fails(q, 400, m),
            Ok(u) => (TraceStage::Compiling, ActionV::CompileUpsert(u)),
        }
    } else {
        (TraceStage::Ended, ActionV::Fault)
    }
}

/// The next step of a request.
pub open spec fn trace_next(q: TraceRequest, stage: TraceStage, o: Outcome) -> TraceTurn {
    match stage {
        TraceStage::Start => if trace_guarded(q) {
            (TraceStage::Token, ActionV::VerifyToken)
        } else {
            trace_admitted(q)
        },
        TraceStage::Token => match o {
            Outcome::Identified(_) => (
                TraceStage::Access,
                if q.classic {
                    ActionV::CheckAccess("execute"@)
                } else {
                    ActionV::CheckRequest
                },
            ),
            _ => trace_fails(q, 401, "Invalid token"@),
        },
        TraceStage::Access => match failure_in(o) {
            Some(e) => trace_fails(
                q,
                401,
                if q.classic {
                    "Unauthorized"@
                } else {
                    "Unauthorized: "@ + e
                },
            ),
            None => trace_admitted(q),
        },
        TraceStage::Compiling => match failure_in(o) {
            Some(e) => trace_fails(q, 400, "Unsupported TRACE operation for backend: "@ + e),
            None => if q.db == DbType::Mongodb {
                trace_fails(q, 400, not_supported())
            } else {
                (TraceStage::Beginning, ActionV::Begin)
            },
        },
        TraceStage::Beginning => match failure_in(o) {
            Some(e) => trace_fails(q, 500, "Error starting transaction: "@ + e),
            None => (TraceStage::Running, ActionV::RunCompiled),
        },
        TraceStage::Running => match failure_in(o) {
            Some(e) => {
                let m = "Error NCO-TRACE: "@ + e;
                (TraceStage::Ended, ActionV::Abort(refused(trace_status(q, 500, m), m)))
            },
            None => (
                TraceStage::Ended,
                ActionV::CommitAndAnswer(succeeded("Data inserted"@, 1, JsonV::Null)),
            ),
        },
        TraceStage::Ended => (TraceStage::Ended, ActionV::Nothing),
    }
}

/// A request under way.
#[derive(Debug)]
pub struct Tracing {
    pub request: TraceRequest,
    pub stage: TraceStage,
}

/// A request that has not begun.
pub fn process(request: TraceRequest) -> (r: Tracing)
    ensures
        r.request == request,
        r.stage == TraceStage::Start,
{
    Tracing { request, stage: TraceStage::Start }
}

fn parameters_of(v: &Json) -> (r: Vec<(String, Json)>)
    ensures
        r.deep_view() == fields_of(v.deep_view()),
{
    broadcast use lemma_object_view;

    match v {
        Json::Object(fields) => copy_fields(fields),
        _ => {
            let none: Vec<(String, Json)> = Vec::new();
            assert(none.deep_view() =~= Seq::empty());
            none
        },
    }
}

impl Tracing {
    fn status(&self, status: u16, message: &str) -> (r: u16)
        ensures
            r == trace_status(self.request, status, message@),
    {
        if self.request.classic {
            status
        } else {
            status_of_failure(message)
        }
    }

    fn fail(&mut self, status: u16, message: String) -> (r: Action)
        ensures
            final(self).request == old(self).request,
            (final(self).stage, r.deep_view()) == trace_fails(
                old(self).request,
                status,
                message@,
            ),
    {
        let code: u16 = self.status(status, message.as_str());
        self.stage = TraceStage::Ended;
        Action::Answer(refuse(code, message))
    }

    fn admitted(&mut self) -> (r: Action)
        ensures
            final(self).request == old(self).request,
            (final(self).stage, r.deep_view()) == trace_admitted(old(self).request),
    {
        if self.request.schema.table.as_str().is_empty() {
            let m = say_missing_entity(self.request.route.as_str());
            return self.fail(424, m);
        }
        if !self.request.classic && self.request.db == DbType::Mongodb {
            return self.fail(
                400,
                "TRACE insert-select upsert is not supported for MongoDB yet".to_owned(),
            );
        }
        if do_splits_fit(&self.request.schema.trace.parameters, &self.request.splits) {
            let params = parameters_of(&self.request.parameters);
            match perform_trace_execution(
                &self.request.schema,
                self.request.route.as_str(),
                &params,
                &self.request.splits,
                self.request.now_expr.as_str(),
                self.request.db,
            ) {
                Err(m) => self.fail(400, m),
                Ok(u) => {
                    self.stage = TraceStage::Compiling;
                    Action::CompileUpsert(u)
                },
            }
        } else {
            self.stage = TraceStage::Ended;
            Action::Fault
        }
    }

    /// Takes the next step of the request, with what came of the last one.
    pub fn step(&mut self, outcome: Outcome) -> (r: Action)
        ensures
            final(self).request == old(self).request,
            (final(self).stage, r.deep_view()) == trace_next(
                old(self).request,
                old(self).stage,
                outcome,
            ),
    {
        match self.stage {
            TraceStage::Start => {
                if self.request.require_auth && !self.request.is_public {
                    self.stage = TraceStage::Token;
                    Action::VerifyToken
                } else {
                    self.admitted()
                }
            },
            TraceStage::Token => match outcome {
                Outcome::Identified(_) => {
                    self.stage = TraceStage::Access;
                    if self.request.classic {
                        Action::CheckAccess("execute".to_owned())
                    } else {
                        Action::CheckRequest
                    }
                },
                _ => self.fail(401, "Invalid token".to_owned()),
            },
            TraceStage::Access => match failure(&outcome) {
                Some(e) => {
                    let m = if self.request.classic {
                        "Unauthorized".to_owned()
                    } else {
                        told("Unauthorized: ", e)
                    };
                    self.fail(401, m)
                },
                None => self.admitted(),
            },
            TraceStage::Compiling => match failure(&outcome) {
                Some(e) => self.fail(400, told("Unsupported TRACE operation for backend: ", e)),
                None => if self.request.db == DbType::Mongodb {
                    self.fail(
                        400,
                        "TRACE insert-select upsert is not supported for MongoDB yet".to_owned(),
                    )
                } else {
                    self.stage = TraceStage::Beginning;
                    Action::Begin
                },
            },
            TraceStage::Beginning => match failure(&outcome) {
                Some(e) => self.fail(500, told("Error starting transaction: ", e)),
                None => {
                    self.stage = TraceStage::Running;
                    Action::RunCompiled
                },
            },
            TraceStage::Running => match failure(&outcome) {
                Some(e) => {
                    let m = told("Error NCO-TRACE: ", e);
                    let status: u16 = self.status(500, m.as_str());
                    self.stage = TraceStage::Ended;
                    Action::Abort(refuse(status, m))
                },
                None => {
                    self.stage = TraceStage::Ended;
                    Action::CommitAndAnswer(succeed("Data inserted", 1, Json::Null))
                },
            },
            TraceStage::Ended => Action::Nothing,
        }
    }
}

// ---------------------------------------------------------------------------
// Laws
// ---------------------------------------------------------------------------

/// Where a request stands after some outcomes.
pub open spec fn trace_after(q: TraceRequest, outcomes: Seq<Outcome>) -> TraceStage
    decreases outcomes.len(),
{
    if outcomes.len() == 0 {
        TraceStage::Start
    } else {
        trace_next(q, trace_after(q, outcomes.drop_last()), outcomes.last()).0
    }
}

/// What a request asks for after some outcomes.
pub open spec fn trace_asks(q: TraceRequest, outcomes: Seq<Outcome>) -> ActionV {
    trace_next(q, trace_after(q, outcomes.drop_last()), outcomes.last()).1
}

/// Whether the outcome at `k` answered a check of access, and granted it.
pub open spec fn trace_granted_at(q: TraceRequest, outcomes: Seq<Outcome>, k: int) -> bool {
    &&& 0 < k < outcomes.len()
    &&& checks_access(trace_asks(q, outcomes.take(k)))
    &&& failure_in(outcomes[k]) is None
}

/// The stages that come before access is granted.
pub open spec fn trace_before_access(stage: TraceStage) -> bool {
    stage == TraceStage::Start || stage == TraceStage::Token || stage == TraceStage::Access
        || stage == TraceStage::Ended
}

proof fn lemma_trace_granted(q: TraceRequest, outcomes: Seq<Outcome>)
    requires
        trace_guarded(q),
    ensures
        !trace_before_access(trace_after(q, outcomes)) ==> exists|k: int|
            trace_granted_at(q, outcomes, k),
        trace_after(q, outcomes) == TraceStage::Access ==> outcomes.len() > 0 && checks_access(
            trace_asks(q, outcomes),
        ),
    decreases outcomes.len(),
{
    if outcomes.len() > 0 {
        let before = outcomes.drop_last();
        lemma_trace_granted(q, before);
        let stage = trace_after(q, before);
        if !trace_before_access(trace_after(q, outcomes)) {
            if trace_before_access(stage) {
                let k = outcomes.len() - 1;
                assert(outcomes.take(k) =~= before);
                assert(trace_granted_at(q, outcomes, k));
            } else {
                let k = choose|k: int| trace_granted_at(q, before, k);
                assert(before.take(k) =~= outcomes.take(k));
                assert(before[k] == outcomes[k]);
                assert(trace_granted_at(q, outcomes, k));
            }
        }
    }
}

/// Where a request needs a token, no row is copied unless access was checked and
/// granted before.
pub proof fn law_trace_is_guarded(q: TraceRequest, outcomes: Seq<Outcome>)
    requires
        trace_guarded(q),
        outcomes.len() > 0,
        touches_data(trace_asks(q, outcomes)),
    ensures
        exists|k: int| trace_granted_at(q, outcomes, k),
{
    let before = outcomes.drop_last();
    lemma_trace_granted(q, before);
    let stage = trace_after(q, before);
    if trace_before_access(stage) {
        assert(stage == TraceStage::Access);
        let k = outcomes.len() - 1;
        assert(outcomes.take(k) =~= before);
        assert(trace_granted_at(q, outcomes, k));
    } else {
        let k = choose|k: int| trace_granted_at(q, before, k);
        assert(before.take(k) =~= outcomes.take(k));
        assert(before[k] == outcomes[k]);
        assert(trace_granted_at(q, outcomes, k));
    }
}

/// What is answered while the transaction is open ends it, and a success is
/// answered only once the rows were copied.
pub proof fn law_trace_closes_its_transaction(q: TraceRequest, stage: TraceStage, o: Outcome)
    ensures
        ({
            let (s, a) = trace_next(q, stage, o);
            &&& answers(a) ==> s == TraceStage::Ended
            &&& stage == TraceStage::Running ==> a is Abort || a is CommitAndAnswer
            &&& (a is Abort || a is CommitAndAnswer) ==> stage == TraceStage::Running
            &&& answers_success(a) ==> stage == TraceStage::Running && failure_in(o) is None
            &&& s == TraceStage::Running ==> stage == TraceStage::Beginning && failure_in(o) is None
        }),
{
}

/// What is compiled is what is run, and it is the copy that was planned.
pub proof fn law_trace_runs_its_plan(q: TraceRequest, stage: TraceStage, o: Outcome)
    ensures
        ({
            let (s, a) = trace_next(q, stage, o);
            &&& a is CompileUpsert ==> trace_plan(
                q.schema,
                q.route@,
                fields_of(q.parameters.deep_view()),
                q.splits.deep_view(),
                q.now_expr@,
                q.db,
            ) == Ok::<UpsertV, Seq<char>>(a->CompileUpsert_0)
            &&& s == TraceStage::Compiling ==> a is CompileUpsert
            &&& s == TraceStage::Beginning ==> a is Begin && stage == TraceStage::Compiling
                && failure_in(o) is None
            &&& s == TraceStage::Running ==> a is RunCompiled
        }),
{
}

} // verus!
