//! Deleting a row.
use crate::ast::{
    satisfies, Collation, DbParam, Filter, FilterV, InsertValue, InsertValueV, RowV, Scalar,
};
use crate::consumer::{job_of, make_job, WriteOpKind, WriteOpKindV};
use crate::filters::{id_param, integer_or_text};
use crate::flow::{
    answers, answers_success, delete_key, enqueued, failure, failure_in, key_deleted,
    missing_entity, queue_wanted, refuse, refused, say_enqueued, say_missing_entity, succeed,
    succeeded, told, touches_data, wants_queue, Action, ActionV, Audit, AuditV, Outcome,
};
use crate::giving::tells;
use crate::json::{field, fields_of, key_at, lemma_object_view, Json, JsonV};
use crate::model::{column_type, type_or_int, TableSchema};
use crate::number::i64_value;
use crate::pk_utils::{as_json, to_json, typed, typed_param};
use crate::text::{push_item, same};
use vstd::prelude::*;
use vstd::string::*;

verus! {

/// A request to delete a row.
#[derive(Debug)]
pub struct DeleteRequest {
    pub route: String,
    /// Whether the route is open to everyone.
    pub is_public: bool,
    pub queue_enabled: bool,
    /// Whether a queued write is acknowledged before it is in the queue.
    pub fast_ack: bool,
    pub parameters: Json,
    pub schema: TableSchema,
    pub id_raw: String,
    /// Whether the store is one without transactions.
    pub mongodb: bool,
    /// The database's expression for the present time.
    pub now_expr: String,
    /// The present time, local and in UTC.
    pub now: String,
    pub now_utc: String,
}

/// Where a deletion stands.
#[derive(Debug, PartialEq, Eq, Clone, Copy, Structural)]
pub enum DeleteStage {
    Start,
    Token,
    Access,
    QueueToken,
    QueueAccess,
    Queueing,
    Compiling,
    Storing,
    Beginning,
    Running,
    Following,
    Committing,
    Ended,
}

/// A deletion under way: the actor is the bearer of the token.
#[derive(Debug)]
pub struct Deletion {
    pub request: DeleteRequest,
    pub stage: DeleteStage,
    pub actor: String,
}

// ---------------------------------------------------------------------------
// What is deleted, and how
// ---------------------------------------------------------------------------

/// The column that picks the row.
pub open spec fn delete_column(schema: TableSchema) -> Seq<char> {
    if schema.del.columns@.len() > 0 {
        schema.del.columns@[0]@
    } else {
        "id"@
    }
}

/// The condition that picks the row.
pub open spec fn delete_filter(schema: TableSchema, id_raw: Seq<char>) -> FilterV {
    FilterV::Eq(delete_column(schema), integer_or_text(id_raw))
}

/// Whether rows are only marked as deleted.
pub open spec fn is_soft(schema: TableSchema) -> bool {
    schema.del.type_delete@ == "soft"@
}

/// Whether rows are removed.
pub open spec fn is_hard(schema: TableSchema) -> bool {
    schema.del.type_delete@ == "hard"@
}

/// The actor as a value of the column that names who deleted a row.
pub open spec fn deleter(schema: TableSchema, actor: Seq<char>) -> crate::ast::Scalar {
    typed(actor, type_or_int(schema.columns@, "deleted_by_id"@))
}

/// What marks a row as deleted.
pub open spec fn delete_marks(
    schema: TableSchema,
    actor: Seq<char>,
    now_expr: Seq<char>,
) -> Seq<(Seq<char>, InsertValueV)> {
    seq![
        ("deleted_at"@, InsertValueV::Raw(now_expr)),
        ("deleted_by_id"@, InsertValueV::Param(deleter(schema, actor))),
    ]
}

/// What marks a document as deleted.
pub open spec fn delete_patch(schema: TableSchema, actor: Seq<char>, now: Seq<char>) -> JsonV {
    JsonV::Object(
        seq![
            ("deleted_at"@, JsonV::Str(now)),
            ("deleted_by_id"@, as_json(deleter(schema, actor))),
        ],
    )
}

/// The condition that picks the row.
pub fn build_delete_filter(schema: &TableSchema, id_raw: &str) -> (r: Filter)
    ensures
        r.deep_view() == delete_filter(*schema, id_raw@),
{
    let column = if schema.del.columns.len() > 0 {
        schema.del.columns[0].clone()
    } else {
        "id".to_owned()
    };
    Filter::Eq(column, id_param(id_raw).to_val())
}

fn build_deleter(schema: &TableSchema, actor: &str) -> (r: DbParam)
    ensures
        r.deep_view() == deleter(*schema, actor@),
{
    let t = column_type(&schema.columns, "deleted_by_id");
    typed_param(actor, t.as_str())
}

fn build_delete_marks(schema: &TableSchema, actor: &str, now_expr: &str) -> (r: Vec<
    (String, InsertValue),
>)
    ensures
        r.deep_view() == delete_marks(*schema, actor@, now_expr@),
{
    let mut out: Vec<(String, InsertValue)> = Vec::new();
    push_item(&mut out, ("deleted_at".to_owned(), InsertValue::Raw(now_expr.to_owned())));
    push_item(
        &mut out,
        ("deleted_by_id".to_owned(), InsertValue::Param(build_deleter(schema, actor))),
    );
    assert(out.deep_view() =~= delete_marks(*schema, actor@, now_expr@));
    out
}

fn build_delete_patch(schema: &TableSchema, actor: &str, now: &str) -> (r: Json)
    ensures
        r.deep_view() == delete_patch(*schema, actor@, now@),
{
    broadcast use lemma_object_view;

    let mut out: Vec<(String, Json)> = Vec::new();
    push_item(&mut out, ("deleted_at".to_owned(), Json::Str(now.to_owned())));
    push_item(&mut out, ("deleted_by_id".to_owned(), to_json(build_deleter(schema, actor))));
    assert(out.deep_view() =~= delete_patch(*schema, actor@, now@)->Object_0);
    Json::Object(out)
}

// ---------------------------------------------------------------------------
// The steps
// ---------------------------------------------------------------------------

/// The entry of the audit log for a deletion.
pub open spec fn delete_audit(actor: Seq<char>, id: Seq<char>) -> AuditV {
    AuditV { action: "DELETE"@, actor_id: actor, id: Some(id) }
}

/// What follows once the row is to be deleted: statements are compiled where the
/// kind of deletion is known.
pub open spec fn start_deleting(q: DeleteRequest, actor: Seq<char>) -> (DeleteStage, ActionV) {
    if q.schema.table@.len() == 0 {
        (DeleteStage::Ended, ActionV::Answer(refused(424, missing_entity(q.route@))))
    } else if is_soft(q.schema) {
        (
            DeleteStage::Compiling,
            ActionV::CompileUpdate(
                q.schema.table@,
                delete_filter(q.schema, q.id_raw@),
                delete_marks(q.schema, actor, q.now_expr@),
            ),
        )
    } else if is_hard(q.schema) {
        (
            DeleteStage::Compiling,
            ActionV::CompileDelete(q.schema.table@, delete_filter(q.schema, q.id_raw@)),
        )
    } else {
        start_storing(q, actor)
    }
}

/// What follows once the statement is compiled.
pub open spec fn start_storing(q: DeleteRequest, actor: Seq<char>) -> (DeleteStage, ActionV) {
    if q.mongodb {
        (
            DeleteStage::Storing,
            if is_soft(q.schema) {
                ActionV::StoreUpdate(
                    q.schema.table@,
                    delete_filter(q.schema, q.id_raw@),
                    delete_patch(q.schema, actor, q.now@),
                )
            } else {
                ActionV::StoreDelete(q.schema.table@, delete_filter(q.schema, q.id_raw@))
            },
        )
    } else {
        (DeleteStage::Beginning, ActionV::Begin)
    }
}

/// What follows once the actor may delete: the write is queued or made.
pub open spec fn admitted(q: DeleteRequest, actor: Seq<char>) -> (DeleteStage, ActionV) {
    if q.queue_enabled && wants_queue(q.parameters.deep_view()) {
        if q.is_public {
            queue_write(q, None)
        } else {
            (DeleteStage::QueueToken, ActionV::VerifyToken)
        }
    } else {
        start_deleting(q, actor)
    }
}

/// How the write is queued.
pub open spec fn queue_write(q: DeleteRequest, actor: Option<Seq<char>>) -> (DeleteStage, ActionV) {
    let job = job_of(
        q.route@,
        WriteOpKindV::Delete { id: q.id_raw@ },
        JsonV::Null,
        q.now_utc@,
        actor,
    );
    if q.fast_ack {
        (DeleteStage::Ended, ActionV::EnqueueInBackground(job, enqueued()))
    } else {
        (DeleteStage::Queueing, ActionV::Enqueue(job))
    }
}

/// The next step of a deletion.
pub open spec fn delete_next(
    q: DeleteRequest,
    stage: DeleteStage,
    actor: Seq<char>,
    outcome: Outcome,
) -> (DeleteStage, Seq<char>, ActionV) {
    let ended = |a: ActionV| (DeleteStage::Ended, actor, a);
    match stage {
        DeleteStage::Start => if q.is_public {
            let (s, a) = admitted(q, actor);
            (s, actor, a)
        } else {
            (DeleteStage::Token, actor, ActionV::VerifyToken)
        },
        DeleteStage::Token => match outcome {
            Outcome::Identified(id) => (
                DeleteStage::Access,
                id@,
                ActionV::CheckAccess("delete"@),
            ),
            _ => ended(ActionV::Answer(refused(401, "Invalid token"@))),
        },
        DeleteStage::Access => match failure_in(outcome) {
            Some(_) => ended(ActionV::Answer(refused(401, "Unauthorized"@))),
            None => {
                let (s, a) = admitted(q, actor);
                (s, actor, a)
            },
        },
        DeleteStage::QueueToken => match outcome {
            Outcome::Identified(id) => (
                DeleteStage::QueueAccess,
                id@,
                ActionV::CheckAccess("delete"@),
            ),
            _ => ended(ActionV::Answer(refused(401, "Invalid token"@))),
        },
        DeleteStage::QueueAccess => match failure_in(outcome) {
            Some(_) => ended(ActionV::Answer(refused(401, "Unauthorized"@))),
            None => {
                let (s, a) = queue_write(q, Some(actor));
                (s, actor, a)
            },
        },
        DeleteStage::Queueing => match failure_in(outcome) {
            Some(e) => ended(ActionV::Answer(refused(500, "Queue error: "@ + e))),
            None => ended(ActionV::Answer(enqueued())),
        },
        DeleteStage::Compiling => match failure_in(outcome) {
            Some(e) => ended(
                ActionV::Answer(
                    refused(
                        500,
                        if is_soft(q.schema) {
                            "Error compiling AST soft delete: "@ + e
                        } else {
                            "Error compiling AST hard delete: "@ + e
                        },
                    ),
                ),
            ),
            None => {
                let (s, a) = start_storing(q, actor);
                (s, actor, a)
            },
        },
        DeleteStage::Storing => match failure_in(outcome) {
            Some(e) => ended(ActionV::Answer(refused(500, "Error NCO-DELETE (mongo): "@ + e))),
            None => ended(
                ActionV::Conclude(
                    delete_audit(actor, q.id_raw@),
                    succeeded(
                        if is_soft(q.schema) {
                            "Data soft-deleted"@
                        } else {
                            "Data deleted"@
                        },
                        1,
                        JsonV::Null,
                    ),
                ),
            ),
        },
        DeleteStage::Beginning => match failure_in(outcome) {
            Some(e) => ended(ActionV::Answer(refused(500, "Error starting transaction: "@ + e))),
            None => (DeleteStage::Running, actor, ActionV::RunCompiled),
        },
        DeleteStage::Running => match failure_in(outcome) {
            Some(e) => ended(ActionV::Abort(refused(500, "Error NCO-DELETE: "@ + e))),
            None => (
                DeleteStage::Following,
                actor,
                ActionV::FollowKeys(key_deleted(q.route@, actor, q.id_raw@)),
            ),
        },
        DeleteStage::Following => match failure_in(outcome) {
            Some(e) => ended(
                ActionV::Abort(
                    refused(500, "Transaction rolled back due to foreign key failures: "@ + e),
                ),
            ),
            None => (DeleteStage::Committing, actor, ActionV::Commit),
        },
        DeleteStage::Committing => match failure_in(outcome) {
            Some(e) => ended(
                ActionV::Answer(refused(500, "Error committing transaction: "@ + e)),
            ),
            None => ended(
                ActionV::Conclude(
                    delete_audit(actor, q.id_raw@),
                    succeeded("Data deleted successfully"@, 1, JsonV::Null),
                ),
            ),
        },
        DeleteStage::Ended => ended(ActionV::Nothing),
    }
}

/// A deletion that has not begun.
pub fn delete(request: DeleteRequest) -> (r: Deletion)
    ensures
        r.request == request,
        r.stage == DeleteStage::Start,
        r.actor@ == Seq::<char>::empty(),
{
    Deletion { request, stage: DeleteStage::Start, actor: String::new() }
}

impl Deletion {
    fn start_storing(&mut self) -> (r: Action)
        ensures
            final(self).request == old(self).request,
            final(self).actor == old(self).actor,
            (final(self).stage, r.deep_view()) == start_storing(
                old(self).request,
                old(self).actor@,
            ),
    {
        if self.request.mongodb {
            self.stage = DeleteStage::Storing;
            let table = self.request.schema.table.clone();
            let filter = build_delete_filter(&self.request.schema, self.request.id_raw.as_str());
            if same(self.request.schema.del.type_delete.as_str(), "soft") {
                let patch = build_delete_patch(
                    &self.request.schema,
                    self.actor.as_str(),
                    self.request.now.as_str(),
                );
                Action::StoreUpdate(table, filter, patch)
            } else {
                Action::StoreDelete(table, filter)
            }
        } else {
            self.stage = DeleteStage::Beginning;
            Action::Begin
        }
    }

    fn start_deleting(&mut self) -> (r: Action)
        ensures
            final(self).request == old(self).request,
            final(self).actor == old(self).actor,
            (final(self).stage, r.deep_view()) == start_deleting(
                old(self).request,
                old(self).actor@,
            ),
    {
        if self.request.schema.table.as_str().is_empty() {
            self.stage = DeleteStage::Ended;
            return Action::Answer(refuse(424, say_missing_entity(self.request.route.as_str())));
        }
        let soft = same(self.request.schema.del.type_delete.as_str(), "soft");
        let hard = same(self.request.schema.del.type_delete.as_str(), "hard");
        if soft {
            self.stage = DeleteStage::Compiling;
            Action::CompileUpdate(
                self.request.schema.table.clone(),
                build_delete_filter(&self.request.schema, self.request.id_raw.as_str()),
                build_delete_marks(
                    &self.request.schema,
                    self.actor.as_str(),
                    self.request.now_expr.as_str(),
                ),
            )
        } else if hard {
            self.stage = DeleteStage::Compiling;
            Action::CompileDelete(
                self.request.schema.table.clone(),
                build_delete_filter(&self.request.schema, self.request.id_raw.as_str()),
            )
        } else {
            self.start_storing()
        }
    }

    fn queue_write(&mut self, actor: Option<String>) -> (r: Action)
        ensures
            final(self).request == old(self).request,
            final(self).actor == old(self).actor,
            (final(self).stage, r.deep_view()) == queue_write(
                old(self).request,
                actor.deep_view(),
            ),
    {
        let job = make_job(
            self.request.route.as_str(),
            WriteOpKind::Delete { id: self.request.id_raw.clone() },
            Json::Null,
            self.request.now_utc.as_str(),
            actor,
        );
        if self.request.fast_ack {
            self.stage = DeleteStage::Ended;
            Action::EnqueueInBackground(job, say_enqueued())
        } else {
            self.stage = DeleteStage::Queueing;
            Action::Enqueue(job)
        }
    }

    fn admitted(&mut self) -> (r: Action)
        ensures
            final(self).request == old(self).request,
            final(self).actor == old(self).actor,
            (final(self).stage, r.deep_view()) == admitted(old(self).request, old(self).actor@),
    {
        if self.request.queue_enabled && queue_wanted(&self.request.parameters) {
            if self.request.is_public {
                self.queue_write(None)
            } else {
                self.stage = DeleteStage::QueueToken;
                Action::VerifyToken
            }
        } else {
            self.start_deleting()
        }
    }

    fn answer(&mut self, status: u16, message: String) -> (r: Action)
        ensures
            final(self).request == old(self).request,
            final(self).actor == old(self).actor,
            final(self).stage == DeleteStage::Ended,
            r.deep_view() == ActionV::Answer(refused(status, message@)),
    {
        self.stage = DeleteStage::Ended;
        Action::Answer(refuse(status, message))
    }

    fn abort(&mut self, message: String) -> (r: Action)
        ensures
            final(self).request == old(self).request,
            final(self).actor == old(self).actor,
            final(self).stage == DeleteStage::Ended,
            r.deep_view() == ActionV::Abort(refused(500, message@)),
    {
        self.stage = DeleteStage::Ended;
        Action::Abort(refuse(500, message))
    }

    fn conclude(&mut self, message: &str) -> (r: Action)
        ensures
            final(self).request == old(self).request,
            final(self).actor == old(self).actor,
            final(self).stage == DeleteStage::Ended,
            r.deep_view() == ActionV::Conclude(
                delete_audit(old(self).actor@, old(self).request.id_raw@),
                succeeded(message@, 1, JsonV::Null),
            ),
    {
        self.stage = DeleteStage::Ended;
        Action::Conclude(
            Audit {
                action: "DELETE".to_owned(),
                actor_id: self.actor.clone(),
                id: Some(self.request.id_raw.clone()),
            },
            succeed(message, 1, Json::Null),
        )
    }

    /// Takes the next step of the deletion, with what came of the last one.
    pub fn step(&mut self, outcome: Outcome) -> (r: Action)
        ensures
            final(self).request == old(self).request,
            (final(self).stage, final(self).actor@, r.deep_view()) == delete_next(
                old(self).request,
                old(self).stage,
                old(self).actor@,
                outcome,
            ),
    {
        let soft = same(self.request.schema.del.type_delete.as_str(), "soft");
        let failed = failure(&outcome);
        match self.stage {
            DeleteStage::Start => {
                if self.request.is_public {
                    self.admitted()
                } else {
                    self.stage = DeleteStage::Token;
                    Action::VerifyToken
                }
            },
            DeleteStage::Token => match outcome {
                Outcome::Identified(id) => {
                    self.actor = id;
                    self.stage = DeleteStage::Access;
                    Action::CheckAccess("delete".to_owned())
                },
                _ => self.answer(401, "Invalid token".to_owned()),
            },
            DeleteStage::Access => match failed {
                Some(_) => self.answer(401, "Unauthorized".to_owned()),
                None => self.admitted(),
            },
            DeleteStage::QueueToken => match outcome {
                Outcome::Identified(id) => {
                    self.actor = id;
                    self.stage = DeleteStage::QueueAccess;
                    Action::CheckAccess("delete".to_owned())
                },
                _ => self.answer(401, "Invalid token".to_owned()),
            },
            DeleteStage::QueueAccess => match failed {
                Some(_) => self.answer(401, "Unauthorized".to_owned()),
                None => {
                    let actor = self.actor.clone();
                    self.queue_write(Some(actor))
                },
            },
            DeleteStage::Queueing => match failed {
                Some(e) => self.answer(500, told("Queue error: ", e)),
                None => {
                    self.stage = DeleteStage::Ended;
                    Action::Answer(say_enqueued())
                },
            },
            DeleteStage::Compiling => match failed {
                Some(e) => if soft {
                    self.answer(500, told("Error compiling AST soft delete: ", e))
                } else {
                    self.answer(500, told("Error compiling AST hard delete: ", e))
                },
                None => self.start_storing(),
            },
            DeleteStage::Storing => match failed {
                Some(e) => self.answer(500, told("Error NCO-DELETE (mongo): ", e)),
                None => if soft {
                    self.conclude("Data soft-deleted")
                } else {
                    self.conclude("Data deleted")
                },
            },
            DeleteStage::Beginning => match failed {
                Some(e) => self.answer(500, told("Error starting transaction: ", e)),
                None => {
                    self.stage = DeleteStage::Running;
                    Action::RunCompiled
                },
            },
            DeleteStage::Running => match failed {
                Some(e) => self.abort(told("Error NCO-DELETE: ", e)),
                None => {
                    self.stage = DeleteStage::Following;
                    Action::FollowKeys(
                        delete_key(
                            self.request.route.as_str(),
                            self.actor.as_str(),
                            self.request.id_raw.as_str(),
                        ),
                    )
                },
            },
            DeleteStage::Following => match failed {
                Some(e) => self.abort(
                    told("Transaction rolled back due to foreign key failures: ", e),
                ),
                None => {
                    self.stage = DeleteStage::Committing;
                    Action::Commit
                },
            },
            DeleteStage::Committing => match failed {
                Some(e) => self.answer(500, told("Error committing transaction: ", e)),
                None => self.conclude("Data deleted successfully"),
            },
            DeleteStage::Ended => Action::Nothing,
        }
    }
}

// ---------------------------------------------------------------------------
// Laws
// ---------------------------------------------------------------------------

/// The stage and actor that a deletion reaches with some outcomes, one after the
/// other.
pub open spec fn delete_after(q: DeleteRequest, outcomes: Seq<Outcome>) -> (DeleteStage, Seq<char>)
    decreases outcomes.len(),
{
    if outcomes.len() == 0 {
        (DeleteStage::Start, Seq::empty())
    } else {
        let (stage, actor) = delete_after(q, outcomes.drop_last());
        let (s, a, _) = delete_next(q, stage, actor, outcomes.last());
        (s, a)
    }
}

/// What a deletion asks for after some outcomes.
pub open spec fn delete_asks(q: DeleteRequest, outcomes: Seq<Outcome>) -> ActionV {
    let (stage, actor) = delete_after(q, outcomes.drop_last());
    delete_next(q, stage, actor, outcomes.last()).2
}

/// Whether the outcome at `k` answered a check of access, and granted it.
pub open spec fn delete_granted_at(q: DeleteRequest, outcomes: Seq<Outcome>, k: int) -> bool {
    &&& 0 < k < outcomes.len()
    &&& delete_asks(q, outcomes.take(k)) is CheckAccess
    &&& failure_in(outcomes[k]) is None
}

/// The stages that come before access is granted.
pub open spec fn before_access(stage: DeleteStage) -> bool {
    stage == DeleteStage::Start || stage == DeleteStage::Token || stage == DeleteStage::Access
        || stage == DeleteStage::Ended
}

proof fn lemma_delete_granted(q: DeleteRequest, outcomes: Seq<Outcome>)
    requires
        !q.is_public,
    ensures
        !before_access(delete_after(q, outcomes).0) ==> exists|k: int|
            delete_granted_at(q, outcomes, k),
        delete_after(q, outcomes).0 == DeleteStage::Access ==> outcomes.len() > 0 && delete_asks(
            q,
            outcomes,
        ) is CheckAccess,
    decreases outcomes.len(),
{
    if outcomes.len() > 0 {
        let before = outcomes.drop_last();
        lemma_delete_granted(q, before);
        let (stage, actor) = delete_after(q, before);
        if !before_access(delete_after(q, outcomes).0) {
            if before_access(stage) {
                let k = outcomes.len() - 1;
                assert(outcomes.take(k) =~= before);
                assert(delete_granted_at(q, outcomes, k));
            } else {
                let k = choose|k: int| delete_granted_at(q, before, k);
                assert(before.take(k) =~= outcomes.take(k));
                assert(before[k] == outcomes[k]);
                assert(delete_granted_at(q, outcomes, k));
            }
        }
    }
}

/// On a route that is not open, no stored data and no queue is touched unless
/// access was checked and granted before.
pub proof fn law_delete_is_guarded(q: DeleteRequest, outcomes: Seq<Outcome>)
    requires
        !q.is_public,
        outcomes.len() > 0,
        touches_data(delete_asks(q, outcomes)),
    ensures
        exists|k: int| delete_granted_at(q, outcomes, k),
{
    lemma_delete_granted(q, outcomes);
    let before = outcomes.drop_last();
    lemma_delete_granted(q, before);
    let (stage, actor) = delete_after(q, before);
    if before_access(stage) {
        assert(stage == DeleteStage::Access);
        let k = outcomes.len() - 1;
        assert(outcomes.take(k) =~= before);
        assert(delete_granted_at(q, outcomes, k));
    } else {
        let k = choose|k: int| delete_granted_at(q, before, k);
        assert(before.take(k) =~= outcomes.take(k));
        assert(before[k] == outcomes[k]);
        assert(delete_granted_at(q, outcomes, k));
    }
}

/// Whether a transaction is open in a stage.
pub open spec fn delete_in_transaction(stage: DeleteStage) -> bool {
    stage == DeleteStage::Running || stage == DeleteStage::Following || stage
        == DeleteStage::Committing
}

/// A transaction is begun before anything runs in it, and none stays open: a
/// request is answered inside one only by rolling it back, or once the commit
/// was tried. After the answer nothing more is asked for.
pub proof fn law_delete_closes_its_transaction(
    q: DeleteRequest,
    stage: DeleteStage,
    actor: Seq<char>,
    outcome: Outcome,
)
    ensures
        ({
            let (s, _, a) = delete_next(q, stage, actor, outcome);
            &&& (a is RunCompiled || a is FollowKeys || a is Commit) ==> delete_in_transaction(s)
            &&& delete_in_transaction(s) && !delete_in_transaction(stage) ==> stage
                == DeleteStage::Beginning && failure_in(outcome) is None
            &&& a is Abort ==> delete_in_transaction(stage)
            &&& answers(a) && delete_in_transaction(stage) ==> a is Abort || stage
                == DeleteStage::Committing
            &&& answers(a) ==> s == DeleteStage::Ended
            &&& stage == DeleteStage::Ended ==> a is Nothing && s == DeleteStage::Ended
        }),
{
}

/// A deletion is reported as done only when the store deleted the row, the
/// transaction was committed, or the write was queued.
pub proof fn law_delete_success_is_real(
    q: DeleteRequest,
    stage: DeleteStage,
    actor: Seq<char>,
    outcome: Outcome,
)
    requires
        answers_success(delete_next(q, stage, actor, outcome).2),
    ensures
        ({
            ||| delete_next(q, stage, actor, outcome).2 is EnqueueInBackground
            ||| failure_in(outcome) is None && (stage == DeleteStage::Queueing || stage
                == DeleteStage::Storing || stage == DeleteStage::Committing)
        }),
{
}


/// Whether a row is the one that a deletion is for: its delete column, the first
/// that is configured, else `id`, has the identifier in the path, as a number
/// where it is a numeral.
pub open spec fn is_deleted_row(q: DeleteRequest, row: RowV) -> bool {
    let column = if q.schema.del.columns@.len() > 0 {
        q.schema.del.columns@[0]@
    } else {
        "id"@
    };
    match i64_value(q.id_raw@) {
        Some(n) => row(column) == Scalar::I64(n),
        None => row(column) == Scalar::Str(q.id_raw@),
    }
}

/// A deletion touches its row and no other: whatever a deletion writes, at whatever
/// step, is written to the table of the entity, and a row is removed or marked
/// exactly if it is the one in the path. It is removed only where deletions are
/// not soft, and else marked with who deleted it, and when. What is queued, and
/// the keys that are followed, are those of the same row.
pub proof fn law_deletion_touches_its_row(
    q: DeleteRequest,
    stage: DeleteStage,
    actor: Seq<char>,
    outcome: Outcome,
    row: RowV,
    by: Collation,
)
    ensures
        match delete_next(q, stage, actor, outcome).2 {
            ActionV::CompileDelete(t, f) => {
                &&& t == q.schema.table@
                &&& satisfies(row, f, by) <==> is_deleted_row(q, row)
                &&& q.schema.del.type_delete@ == "hard"@
            },
            ActionV::StoreDelete(t, f) => {
                &&& t == q.schema.table@
                &&& satisfies(row, f, by) <==> is_deleted_row(q, row)
                &&& q.schema.del.type_delete@ != "soft"@
                &&& q.mongodb
            },
            ActionV::CompileUpdate(t, f, fields) => {
                &&& t == q.schema.table@
                &&& satisfies(row, f, by) <==> is_deleted_row(q, row)
                &&& q.schema.del.type_delete@ == "soft"@
                &&& fields.len() == 2
                &&& fields[0] == ("deleted_at"@, InsertValueV::Raw(q.now_expr@))
                &&& fields[1].0 == "deleted_by_id"@
                &&& fields[1].1 is Param
                &&& tells(fields[1].1->Param_0, actor)
            },
            ActionV::StoreUpdate(t, f, doc) => {
                &&& t == q.schema.table@
                &&& satisfies(row, f, by) <==> is_deleted_row(q, row)
                &&& q.schema.del.type_delete@ == "soft"@
                &&& q.mongodb
                &&& field(doc, "deleted_at"@) == Some(JsonV::Str(q.now@))
                &&& field(doc, "deleted_by_id"@) is Some
            },
            ActionV::Enqueue(job) => {
                &&& job.route == q.route@
                &&& job.op == (WriteOpKindV::Delete { id: q.id_raw@ })
            },
            ActionV::EnqueueInBackground(job, _) => {
                &&& job.route == q.route@
                &&& job.op == (WriteOpKindV::Delete { id: q.id_raw@ })
            },
            ActionV::FollowKeys(k) => {
                &&& k.process == "DELETE"@
                &&& k.route == q.route@
                &&& k.id == q.id_raw@
            },
            ActionV::CompileInsert(_, _, _) => false,
            ActionV::CompileBulk(_, _, _) => false,
            ActionV::StoreInsert(_, _) => false,
            ActionV::UpdateRows(_, _, _) => false,
            ActionV::RunSql(_, _) => false,
            _ => true,
        },
{
    reveal_strlit("soft");
    reveal_strlit("hard");
    assert("soft"@[0] != "hard"@[0]);
    reveal_strlit("deleted_at");
    reveal_strlit("deleted_by_id");
    assert("deleted_at"@.len() != "deleted_by_id"@.len());
    let patch = fields_of(delete_patch(q.schema, actor, q.now@));
    assert(key_at(patch, "deleted_at"@, 0) == Some(0int));
    assert(key_at(patch, "deleted_by_id"@, 1) == Some(1int));
}

/// A deletion goes through all of its steps: it is committed only once the keys that
/// refer to the row were followed, these only once the statement has run, and it
/// runs only once a transaction was begun.
pub proof fn law_deletion_runs_before_it_is_committed(
    q: DeleteRequest,
    stage: DeleteStage,
    actor: Seq<char>,
    outcome: Outcome,
)
    ensures
        ({
            let (s, _, a) = delete_next(q, stage, actor, outcome);
            &&& s == DeleteStage::Beginning ==> a is Begin && !q.mongodb
            &&& s == DeleteStage::Running ==> a is RunCompiled && stage == DeleteStage::Beginning
                && failure_in(outcome) is None
            &&& s == DeleteStage::Following ==> a is FollowKeys && stage == DeleteStage::Running
                && failure_in(outcome) is None
            &&& s == DeleteStage::Committing ==> a is Commit && stage == DeleteStage::Following
                && failure_in(outcome) is None
            &&& s == DeleteStage::Storing ==> a is StoreDelete || a is StoreUpdate
            &&& s == DeleteStage::Queueing ==> a is Enqueue
        }),
{
}


/// A deletion that is allowed and not queued is made: as soon as access is granted,
/// or on a route that is open, a statement is compiled for it.
pub proof fn law_allowed_deletions_are_made(
    q: DeleteRequest,
    stage: DeleteStage,
    actor: Seq<char>,
    outcome: Outcome,
)
    requires
        q.schema.table@.len() > 0,
        !q.queue_enabled,
        stage == DeleteStage::Start && q.is_public || stage == DeleteStage::Access && failure_in(
            outcome,
        ) is None,
    ensures
        ({
            let a = delete_next(q, stage, actor, outcome).2;
            &&& q.schema.del.type_delete@ == "soft"@ ==> a is CompileUpdate
            &&& q.schema.del.type_delete@ == "hard"@ ==> a is CompileDelete
            &&& q.schema.del.type_delete@ != "soft"@ && q.schema.del.type_delete@ != "hard"@
                && q.mongodb ==> a is StoreDelete
        }),
{
    reveal_strlit("soft");
    reveal_strlit("hard");
    assert("soft"@[0] != "hard"@[0]);
}

} // verus!
