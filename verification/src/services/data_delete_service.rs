//! A request to delete a row.
use crate::consumer::{job_of, make_job, WriteOpKind, WriteOpKindV};
use crate::flow::{
    answers_success, checks_access, enqueued, failure, failure_in, missing_entity, queue_wanted,
    refuse, refused, say_enqueued, say_missing_entity, succeed, succeeded, told, touches_data,
    wants_queue, Action, ActionV, Audit, AuditV, Outcome, Work, WorkV,
};
use crate::handlers::delete_handler::{failed_status, status_of_failure};
use crate::json::{Json, JsonV};
use crate::model::TableSchema;
use crate::repositories::data_delete_repo::{
    erase_next, law_erasures_close_their_transaction, perform_delete_mongo, perform_delete_sql,
    EraseMemoV, EraseStage, EraseTarget, RowErasure,
};
use crate::text::same;
use vstd::prelude::*;
use vstd::string::*;

verus! {

/// A request to delete a row: who may make it, and how it is carried out.
#[derive(Debug)]
pub struct EraseRequest {
    pub route: String,
    /// Whether the route is open to everyone.
    pub is_public: bool,
    /// Whether routes that are not open ask for a token.
    pub require_auth: bool,
    pub queue_enabled: bool,
    /// Whether a queued write is acknowledged before it is in the queue.
    pub fast_ack: bool,
    pub parameters: Json,
    pub id_raw: String,
    /// The present time.
    pub now: String,
}

/// Whether an entity's rows are only marked as deleted.
pub open spec fn marks_only(schema: TableSchema) -> bool {
    schema.del.type_delete@ == "soft"@
}

/// Whether an entity's rows are only marked as deleted.
pub fn only_marks(schema: &TableSchema) -> (r: bool)
    ensures
        r == marks_only(*schema),
{
    same(schema.del.type_delete.as_str(), "soft")
}

/// Where the request stands.
#[derive(Debug, PartialEq, Eq, Clone, Copy, Structural)]
pub enum RemovalStage {
    Start,
    Token,
    Access,
    Queueing,
    Working,
    Ended,
}

/// A request to delete a row under way.
#[derive(Debug)]
pub struct Removal {
    pub request: EraseRequest,
    pub stage: RemovalStage,
    pub work: RowErasure,
}

/// What such a request remembers: where the deletion stands, who makes it, and
/// the row as it was.
pub struct RemovalMemoV {
    pub row: EraseStage,
    pub memo: EraseMemoV,
}

/// What follows from a step: where the request stands, what it remembers and
/// what it asks for.
pub type RemovalTurn = (RemovalStage, RemovalMemoV, ActionV);

/// The request is refused.
pub open spec fn removal_fails(m: RemovalMemoV, message: Seq<char>) -> RemovalTurn {
    (RemovalStage::Ended, m, ActionV::Answer(refused(failed_status(message), message)))
}

/// Whether the request needs a token.
pub open spec fn removal_guarded(q: EraseRequest) -> bool {
    q.require_auth && !q.is_public
}

/// The write is queued, or made.
pub open spec fn removal_admitted(
    q: EraseRequest,
    t: EraseTarget,
    m: RemovalMemoV,
    o: Outcome,
) -> RemovalTurn {
    if q.queue_enabled && wants_queue(q.parameters.deep_view()) {
        let job = job_of(
            q.route@,
            WriteOpKindV::Delete { id: q.id_raw@ },
            JsonV::Null,
            q.now@,
            if removal_guarded(q) {
                Some(m.memo.actor)
            } else {
                None
            },
        );
        if q.fast_ack {
            (RemovalStage::Ended, m, ActionV::EnqueueInBackground(job, enqueued()))
        } else {
            (RemovalStage::Queueing, m, ActionV::Enqueue(job))
        }
    } else if t.schema.table@.len() == 0 {
        removal_fails(m, missing_entity(q.route@))
    } else {
        removal_steps(q, t, m, o)
    }
}

/// What follows from a step of the deletion.
pub open spec fn removal_works(q: EraseRequest, t: EraseTarget, m: RemovalMemoV, w: WorkV) -> RemovalTurn {
    match w {
        WorkV::Ask(a) => (
            if m.row == EraseStage::Ended {
                RemovalStage::Ended
            } else {
                RemovalStage::Working
            },
            m,
            a,
        ),
        WorkV::Fail(e) => removal_fails(m, e),
        WorkV::Abort(e) => (
            RemovalStage::Ended,
            m,
            ActionV::Abort(refused(failed_status(e), e)),
        ),
        WorkV::Abandon(e) => (
            RemovalStage::Ended,
            m,
            ActionV::Abandon(refused(failed_status(e), e)),
        ),
        WorkV::Finish(_, n, _) => (
            RemovalStage::Ended,
            m,
            ActionV::Conclude(
                AuditV { action: "DELETE"@, actor_id: m.memo.actor, id: Some(q.id_raw@) },
                succeeded(
                    if t.is_soft {
                        "Data soft-deleted"@
                    } else {
                        "Data deleted"@
                    },
                    1,
                    JsonV::Null,
                ),
            ),
        ),
    }
}

/// A step of the deletion is taken.
pub open spec fn removal_steps(q: EraseRequest, t: EraseTarget, m: RemovalMemoV, o: Outcome) -> RemovalTurn {
    let (row, memo, w) = erase_next(t, m.row, m.memo, o);
    removal_works(q, t, RemovalMemoV { row, memo }, w)
}

/// The next step of a request.
pub open spec fn removal_next(
    q: EraseRequest,
    t: EraseTarget,
    stage: RemovalStage,
    m: RemovalMemoV,
    o: Outcome,
) -> RemovalTurn {
    match stage {
        RemovalStage::Start => if removal_guarded(q) {
            (RemovalStage::Token, m, ActionV::VerifyToken)
        } else {
            removal_admitted(q, t, m, o)
        },
        RemovalStage::Token => match o {
            Outcome::Identified(id) => (
                RemovalStage::Access,
                RemovalMemoV { memo: EraseMemoV { actor: id@, ..m.memo }, ..m },
                ActionV::CheckRequest,
            ),
            _ => removal_fails(m, "Invalid token"@),
        },
        RemovalStage::Access => match failure_in(o) {
            Some(e) => removal_fails(m, "Unauthorized: "@ + e),
            None => removal_admitted(q, t, m, o),
        },
        RemovalStage::Queueing => match failure_in(o) {
            Some(e) => removal_fails(m, "Queue error: "@ + e),
            None => (RemovalStage::Ended, m, ActionV::Answer(enqueued())),
        },
        RemovalStage::Working => removal_steps(q, t, m, o),
        RemovalStage::Ended => (RemovalStage::Ended, m, ActionV::Nothing),
    }
}

/// A request that has not begun. Whether the row is only marked as deleted is
/// what its entity says.
pub fn process_delete_request(
    request: EraseRequest,
    schema: TableSchema,
    mongodb: bool,
    now_expr: String,
) -> (r: Removal)
    ensures
        r.request == request,
        r.stage == RemovalStage::Start,
        r.work.stage == EraseStage::Start,
        r.work.memo() == (EraseMemoV { actor: Seq::empty(), old_record: Seq::empty() }),
        r.work.target.schema == schema,
        r.work.target.mongodb == mongodb,
        r.work.target.is_soft == marks_only(schema),
        r.work.target.route@ == request.route@,
        r.work.target.id_raw@ == request.id_raw@,
        r.work.target.now@ == request.now@,
        r.work.target.now_expr == now_expr,
{
    let is_soft = only_marks(&schema);
    let target = EraseTarget {
        route: request.route.clone(),
        schema,
        id_raw: request.id_raw.clone(),
        is_soft,
        mongodb,
        now_expr,
        now: request.now.clone(),
    };
    let work = if mongodb {
        perform_delete_mongo(target, String::new())
    } else {
        perform_delete_sql(target, String::new())
    };
    Removal { request, stage: RemovalStage::Start, work }
}

impl Removal {
    /// What the request remembers.
    pub open spec fn memo(&self) -> RemovalMemoV {
        RemovalMemoV { row: self.work.stage, memo: self.work.memo() }
    }

    /// Where the request stands, what it remembers, and what it asks for.
    pub open spec fn turn(&self, a: Action) -> RemovalTurn {
        (self.stage, self.memo(), a.deep_view())
    }

    fn guarded(&self) -> (r: bool)
        ensures
            r == removal_guarded(self.request),
    {
        self.request.require_auth && !self.request.is_public
    }

    fn fail(&mut self, message: String) -> (r: Action)
        ensures
            final(self).request == old(self).request,
            final(self).work.target == old(self).work.target,
            final(self).turn(r) == removal_fails(old(self).memo(), message@),
    {
        self.stage = RemovalStage::Ended;
        let status: u16 = status_of_failure(message.as_str());
        Action::Answer(refuse(status, message))
    }

    fn admitted(&mut self, outcome: Outcome) -> (r: Action)
        ensures
            final(self).request == old(self).request,
            final(self).work.target == old(self).work.target,
            final(self).turn(r) == removal_admitted(
                old(self).request,
                old(self).work.target,
                old(self).memo(),
                outcome,
            ),
    {
        if self.request.queue_enabled && queue_wanted(&self.request.parameters) {
            let actor: Option<String> = if self.guarded() {
                Some(self.work.actor.clone())
            } else {
                None
            };
            let job = make_job(
                self.request.route.as_str(),
                WriteOpKind::Delete { id: self.request.id_raw.clone() },
                Json::Null,
                self.request.now.as_str(),
                actor,
            );
            if self.request.fast_ack {
                self.stage = RemovalStage::Ended;
                Action::EnqueueInBackground(job, say_enqueued())
            } else {
                self.stage = RemovalStage::Queueing;
                Action::Enqueue(job)
            }
        } else if self.work.target.schema.table.as_str().is_empty() {
            let m = say_missing_entity(self.request.route.as_str());
            self.fail(m)
        } else {
            self.steps(outcome)
        }
    }

    fn works(&mut self, w: Work) -> (r: Action)
        ensures
            final(self).request == old(self).request,
            final(self).work.target == old(self).work.target,
            final(self).turn(r) == removal_works(
                old(self).request,
                old(self).work.target,
                old(self).memo(),
                w.deep_view(),
            ),
    {
        match w {
            Work::Ask(a) => {
                self.stage = if self.work.ended() {
                    RemovalStage::Ended
                } else {
                    RemovalStage::Working
                };
                a
            },
            Work::Fail(e) => self.fail(e),
            Work::Abort(e) => {
                self.stage = RemovalStage::Ended;
                let status: u16 = status_of_failure(e.as_str());
                Action::Abort(refuse(status, e))
            },
            Work::Abandon(e) => {
                self.stage = RemovalStage::Ended;
                let status: u16 = status_of_failure(e.as_str());
                Action::Abandon(refuse(status, e))
            },
            Work::Finish(_, _, _) => {
                self.stage = RemovalStage::Ended;
                let message = if self.work.target.is_soft {
                    "Data soft-deleted"
                } else {
                    "Data deleted"
                };
                Action::Conclude(
                    Audit {
                        action: "DELETE".to_owned(),
                        actor_id: self.work.actor.clone(),
                        id: Some(self.request.id_raw.clone()),
                    },
                    succeed(message, 1, Json::Null),
                )
            },
        }
    }

    fn steps(&mut self, outcome: Outcome) -> (r: Action)
        ensures
            final(self).request == old(self).request,
            final(self).work.target == old(self).work.target,
            final(self).turn(r) == removal_steps(
                old(self).request,
                old(self).work.target,
                old(self).memo(),
                outcome,
            ),
    {
        let w = self.work.step(outcome);
        self.works(w)
    }

    /// Takes the next step of the request, with what came of the last one.
    pub fn step(&mut self, outcome: Outcome) -> (r: Action)
        ensures
            final(self).request == old(self).request,
            final(self).work.target == old(self).work.target,
            (final(self).stage, final(self).memo(), r.deep_view()) == removal_next(
                old(self).request,
                old(self).work.target,
                old(self).stage,
                old(self).memo(),
                outcome,
            ),
    {
        match self.stage {
            RemovalStage::Start => {
                if self.guarded() {
                    self.stage = RemovalStage::Token;
                    Action::VerifyToken
                } else {
                    self.admitted(outcome)
                }
            },
            RemovalStage::Token => match outcome {
                Outcome::Identified(id) => {
                    self.work.actor = id;
                    self.stage = RemovalStage::Access;
                    Action::CheckRequest
                },
                _ => self.fail("Invalid token".to_owned()),
            },
            RemovalStage::Access => {
                let e: Option<String> = match failure(&outcome) {
                    Some(e) => Some(e.to_owned()),
                    None => None,
                };
                match e {
                    Some(e) => self.fail(told("Unauthorized: ", e.as_str())),
                    None => self.admitted(outcome),
                }
            },
            RemovalStage::Queueing => match failure(&outcome) {
                Some(e) => self.fail(told("Queue error: ", e)),
                None => {
                    self.stage = RemovalStage::Ended;
                    Action::Answer(say_enqueued())
                },
            },
            RemovalStage::Working => self.steps(outcome),
            RemovalStage::Ended => Action::Nothing,
        }
    }
}

// ---------------------------------------------------------------------------
// Laws
// ---------------------------------------------------------------------------

/// Where a request stands, and what it remembers, after some outcomes.
pub open spec fn removal_after(
    q: EraseRequest,
    t: EraseTarget,
    m: RemovalMemoV,
    outcomes: Seq<Outcome>,
) -> (RemovalStage, RemovalMemoV)
    decreases outcomes.len(),
{
    if outcomes.len() == 0 {
        (RemovalStage::Start, m)
    } else {
        let (stage, before) = removal_after(q, t, m, outcomes.drop_last());
        let (s, after, _) = removal_next(q, t, stage, before, outcomes.last());
        (s, after)
    }
}

/// What a request asks for after some outcomes.
pub open spec fn removal_asks(
    q: EraseRequest,
    t: EraseTarget,
    m: RemovalMemoV,
    outcomes: Seq<Outcome>,
) -> ActionV {
    let (stage, before) = removal_after(q, t, m, outcomes.drop_last());
    removal_next(q, t, stage, before, outcomes.last()).2
}

/// Whether the outcome at `k` answered a check of access, and granted it.
pub open spec fn removal_granted_at(
    q: EraseRequest,
    t: EraseTarget,
    m: RemovalMemoV,
    outcomes: Seq<Outcome>,
    k: int,
) -> bool {
    &&& 0 < k < outcomes.len()
    &&& checks_access(removal_asks(q, t, m, outcomes.take(k)))
    &&& failure_in(outcomes[k]) is None
}

/// The stages that come before access is granted.
pub open spec fn removal_before_access(stage: RemovalStage) -> bool {
    stage == RemovalStage::Start || stage == RemovalStage::Token || stage == RemovalStage::Access
        || stage == RemovalStage::Ended
}

proof fn lemma_removal_granted(
    q: EraseRequest,
    t: EraseTarget,
    m: RemovalMemoV,
    outcomes: Seq<Outcome>,
)
    requires
        removal_guarded(q),
    ensures
        !removal_before_access(removal_after(q, t, m, outcomes).0) ==> exists|k: int|
            removal_granted_at(q, t, m, outcomes, k),
        removal_after(q, t, m, outcomes).0 == RemovalStage::Access ==> outcomes.len() > 0
            && checks_access(removal_asks(q, t, m, outcomes)),
    decreases outcomes.len(),
{
    if outcomes.len() > 0 {
        let before = outcomes.drop_last();
        lemma_removal_granted(q, t, m, before);
        let stage = removal_after(q, t, m, before).0;
        if !removal_before_access(removal_after(q, t, m, outcomes).0) {
            if removal_before_access(stage) {
                let k = outcomes.len() - 1;
                assert(outcomes.take(k) =~= before);
                assert(removal_granted_at(q, t, m, outcomes, k));
            } else {
                let k = choose|k: int| removal_granted_at(q, t, m, before, k);
                assert(before.take(k) =~= outcomes.take(k));
                assert(before[k] == outcomes[k]);
                assert(removal_granted_at(q, t, m, outcomes, k));
            }
        }
    }
}

/// Where a request needs a token, nothing is deleted, queued or read unless
/// access was checked and granted before.
pub proof fn law_removal_is_guarded(
    q: EraseRequest,
    t: EraseTarget,
    m: RemovalMemoV,
    outcomes: Seq<Outcome>,
)
    requires
        removal_guarded(q),
        outcomes.len() > 0,
        touches_data(removal_asks(q, t, m, outcomes)),
    ensures
        exists|k: int| removal_granted_at(q, t, m, outcomes, k),
{
    let before = outcomes.drop_last();
    lemma_removal_granted(q, t, m, before);
    let stage = removal_after(q, t, m, before).0;
    if removal_before_access(stage) {
        assert(stage == RemovalStage::Access);
        let k = outcomes.len() - 1;
        assert(outcomes.take(k) =~= before);
        assert(removal_granted_at(q, t, m, outcomes, k));
    } else {
        let k = choose|k: int| removal_granted_at(q, t, m, before, k);
        assert(before.take(k) =~= outcomes.take(k));
        assert(before[k] == outcomes[k]);
        assert(removal_granted_at(q, t, m, outcomes, k));
    }
}

/// A success is answered only once the deletion is finished, or the write was
/// queued.
pub proof fn law_removal_success_is_real(
    q: EraseRequest,
    t: EraseTarget,
    stage: RemovalStage,
    m: RemovalMemoV,
    o: Outcome,
)
    requires
        answers_success(removal_next(q, t, stage, m, o).2),
    ensures
        ({
            ||| removal_next(q, t, stage, m, o).2 is EnqueueInBackground
            ||| stage == RemovalStage::Queueing && failure_in(o) is None
            ||| erase_next(t, m.row, m.memo, o).2 is Finish
        }),
{
    law_erasures_close_their_transaction(t, m.row, m.memo, o);
}

/// A request hands on what its deletion asks for, and answers what came of it; what is
/// queued is the deletion of the same row.
pub proof fn law_removals_hand_their_deletion_on(
    q: EraseRequest,
    t: EraseTarget,
    stage: RemovalStage,
    m: RemovalMemoV,
    o: Outcome,
)
    ensures
        stage == RemovalStage::Working ==> {
            let (row, memo, w) = erase_next(t, m.row, m.memo, o);
            let (s, n, a) = removal_next(q, t, stage, m, o);
            &&& n.row == row
            &&& n.memo == memo
            &&& match w {
                WorkV::Ask(x) => a == x,
                WorkV::Finish(_, _, _) => match a {
                    ActionV::Conclude(audit, r) => r.status == 200 && r.body.success && audit.id
                        == Some(q.id_raw@) && audit.action == "DELETE"@ && audit.actor_id
                        == memo.actor,
                    _ => false,
                },
                WorkV::Fail(_) => a is Answer && !a->Answer_0.body.success,
                WorkV::Abort(_) => a is Abort && !a->Abort_0.body.success,
                WorkV::Abandon(_) => a is Abandon && !a->Abandon_0.body.success,
            }
        },
        ({
            let a = removal_next(q, t, stage, m, o).2;
            stage != RemovalStage::Working ==> match a {
                ActionV::Enqueue(job) => job.route == q.route@ && job.op == (
                WriteOpKindV::Delete { id: q.id_raw@ }),
                ActionV::EnqueueInBackground(job, _) => job.route == q.route@ && job.op == (
                WriteOpKindV::Delete { id: q.id_raw@ }),
                _ => true,
            }
        }),
{
    let (row, memo, w) = erase_next(t, m.row, m.memo, o);
    assert(w is Ask ==> !(w->Ask_0 is Enqueue) && !(w->Ask_0 is EnqueueInBackground));
}

} // verus!
