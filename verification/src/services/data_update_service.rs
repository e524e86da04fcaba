//! A request to update a row.
use crate::ast::{InsertValue, InsertValueV, Scalar};
use crate::consumer::{job_of, make_job, WriteOpKind, WriteOpKindV};
use crate::flow::{
    answers_success, checks_access, failure, failure_in, queue_wanted, refuse, refused, success,
    succeeded, told, touches_data, wants_queue, Action, ActionV, Audit, AuditV, Outcome, Reply,
    ReplyV, WebResponse, Work, WorkV,
};
use crate::giving::{
    gives, is_typed, law_typing_tells_the_text, law_values_are_read_as_given, tells,
};
use crate::json::{
    field, get_in, law_set_then_get, lemma_object_view, lookup, set_in, with_field, with_key, Json, JsonV,
};
use crate::model::{column_named, column_type, find_column, type_or_int};
use crate::number::i64_value;
use crate::pk_utils::{as_json, dbparam_from_str_and_type, to_json, typed};
use crate::post::Fields;
use crate::put::{say_unknown_column, unknown_column};
use crate::repositories::data_update_repo::{
    change_next, law_changes_close_their_transaction, perform_update, ChangePlan, ChangePlanV,
    ChangeStage, ChangeTarget, RowChange,
};
use crate::services::data_create_service::{
    all_secret, filled, is_filled, mark_secret, stored_secret,
};
use crate::text::{
    ascii_lower, contains, ends_with, finishes_with, push_item, split, strip_back, stripped_back,
};
use crate::validation::{FkCheck, FkCheckV};
use crate::writing::{given_text, key_checks, push_key_checks, read_given_text};
use vstd::prelude::*;
use vstd::string::*;

verus! {

/// A request to update a row: who may make it, and how it is carried out.
#[derive(Debug)]
pub struct ChangeRequest {
    /// Whether the route is open to everyone.
    pub is_public: bool,
    /// Whether routes that are not open ask for a token.
    pub require_auth: bool,
    pub queue_enabled: bool,
    /// Whether a queued write is acknowledged before it is in the queue.
    pub fast_ack: bool,
    pub parameters: Json,
    /// What is wrong with the key in the path, where anything is.
    pub path_fault: Option<String>,
    /// The database's expression for the present time.
    pub now_expr: String,
    /// The present time, local and in UTC.
    pub now: String,
    pub now_utc: String,
}

// ---------------------------------------------------------------------------
// What is updated
// ---------------------------------------------------------------------------

/// What is updated so far: the values that are to be encrypted, the values of
/// the columns, the values that are shown, and the checks of foreign keys.
#[derive(Debug)]
pub struct Changes {
    pub secrets: Vec<String>,
    pub fields: Vec<(String, InsertValue)>,
    pub patch: Vec<(String, Json)>,
    pub checks: Vec<FkCheck>,
}

/// What is updated so far.
pub struct ChangesV {
    pub secrets: Seq<Seq<char>>,
    pub fields: Seq<(Seq<char>, InsertValueV)>,
    pub patch: Fields,
    pub checks: Seq<FkCheckV>,
}

impl DeepView for Changes {
    type V = ChangesV;

    open spec fn deep_view(&self) -> ChangesV {
        ChangesV {
            secrets: self.secrets.deep_view(),
            fields: self.fields.deep_view(),
            patch: self.patch.deep_view(),
            checks: self.checks.deep_view(),
        }
    }
}

/// What a result with a message is.
pub open spec fn changes_result(r: Result<Changes, String>) -> Result<ChangesV, Seq<char>> {
    match r {
        Ok(w) => Ok(w.deep_view()),
        Err(m) => Err(m@),
    }
}

/// What is updated with one configured column more, or what is wrong with it. A
/// column that has no value in the request is left as it is. A value that is to
/// be encrypted is the next of those in `stored`.
pub open spec fn with_change(
    w: ChangesV,
    t: ChangeTarget,
    entry: Seq<char>,
    body: Fields,
    stored: Seq<Seq<char>>,
) -> Result<ChangesV, Seq<char>> {
    let name = strip_back(entry, '*');
    let given = lookup(body, name);
    let text = given_text(given);
    if ends_with(entry, "*"@) && !is_filled(given) {
        Err("Missing required field: "@ + name)
    } else if text.len() == 0 {
        Ok(w)
    } else {
        match column_named(t.schema.columns@, name) {
            None => Err(unknown_column(name, t.route@)),
            Some(c) => {
                let value = if c.encrypt {
                    stored_secret(stored, w.secrets.len() as int)
                } else {
                    text
                };
                let bound = typed(value, ascii_lower(c.type_data@));
                Ok(
                    ChangesV {
                        secrets: if c.encrypt {
                            w.secrets.push(text)
                        } else {
                            w.secrets
                        },
                        fields: w.fields.push((name, InsertValueV::Param(bound))),
                        patch: with_field(w.patch, name, as_json(bound)),
                        checks: w.checks + key_checks(
                            t.schema.foreign_keys@,
                            name,
                            text,
                            c.type_data@,
                        ),
                    },
                )
            },
        }
    }
}

/// What is updated by the first `n` configured columns, or what is wrong with
/// one.
pub open spec fn changes_of(
    t: ChangeTarget,
    body: Fields,
    stored: Seq<Seq<char>>,
    n: int,
) -> Result<ChangesV, Seq<char>>
    decreases n,
{
    if n <= 0 {
        Ok(
            ChangesV {
                secrets: Seq::empty(),
                fields: Seq::empty(),
                patch: Seq::empty(),
                checks: Seq::empty(),
            },
        )
    } else {
        match changes_of(t, body, stored, n - 1) {
            Err(m) => Err(m),
            Ok(w) => with_change(w, t, t.schema.put.columns.deep_view()[n - 1], body, stored),
        }
    }
}

proof fn lemma_changes_fail(
    t: ChangeTarget,
    body: Fields,
    stored: Seq<Seq<char>>,
    k: int,
    n: int,
)
    requires
        k <= n,
        changes_of(t, body, stored, k) is Err,
    ensures
        changes_of(t, body, stored, n) == changes_of(t, body, stored, k),
    decreases n - k,
{
    if k < n {
        lemma_changes_fail(t, body, stored, k, n - 1);
    }
}

fn plan_change(
    w: &mut Changes,
    t: &ChangeTarget,
    entry: &str,
    body: &Vec<(String, Json)>,
    stored: &Vec<String>,
) -> (r: Option<String>)
    ensures
        match r {
            Some(m) => with_change(
                old(w).deep_view(),
                *t,
                entry@,
                body.deep_view(),
                stored.deep_view(),
            ) == Err::<ChangesV, Seq<char>>(m@),
            None => with_change(
                old(w).deep_view(),
                *t,
                entry@,
                body.deep_view(),
                stored.deep_view(),
            ) == Ok::<ChangesV, Seq<char>>(final(w).deep_view()),
        },
{
    let name = stripped_back(entry, '*');
    let given = get_in(body, name.as_str());
    let text = read_given_text(given);
    if finishes_with(entry, "*") && !filled(given) {
        return Some(told("Missing required field: ", name.as_str()));
    }
    if text.as_str().is_empty() {
        return None;
    }
    match find_column(&t.schema.columns, name.as_str()) {
        None => Some(say_unknown_column(name.as_str(), t.route.as_str())),
        Some(c) => {
            push_key_checks(
                &mut w.checks,
                &t.schema.foreign_keys,
                name.as_str(),
                text.as_str(),
                c.type_data.as_str(),
            );
            let value = if c.encrypt {
                assert(w.secrets.deep_view().len() == w.secrets@.len());
                let k: usize = w.secrets.len();
                let value = if k < stored.len() {
                    assert(stored.deep_view()[k as int] == stored@[k as int]@);
                    stored[k].clone()
                } else {
                    String::new()
                };
                push_item(&mut w.secrets, text);
                value
            } else {
                text
            };
            let bound = dbparam_from_str_and_type(value.as_str(), c.type_data.as_str());
            set_in(&mut w.patch, name.as_str(), to_json(bound.copy()));
            push_item(&mut w.fields, (name, InsertValue::Param(bound)));
            None
        },
    }
}

/// What is updated by the configured columns, or what is wrong with one.
pub fn plan_changes(t: &ChangeTarget, body: &Vec<(String, Json)>, stored: &Vec<String>) -> (r: Result<
    Changes,
    String,
>)
    ensures
        changes_result(r) == changes_of(
            *t,
            body.deep_view(),
            stored.deep_view(),
            t.schema.put.columns@.len() as int,
        ),
{
    let ghost bv = body.deep_view();
    let ghost sv = stored.deep_view();
    let mut w = Changes {
        secrets: Vec::new(),
        fields: Vec::new(),
        patch: Vec::new(),
        checks: Vec::new(),
    };
    assert(w.secrets.deep_view() =~= Seq::empty());
    assert(w.fields.deep_view() =~= Seq::empty());
    assert(w.patch.deep_view() =~= Seq::empty());
    assert(w.checks.deep_view() =~= Seq::empty());
    let mut i: usize = 0;
    while i < t.schema.put.columns.len()
        invariant
            i <= t.schema.put.columns@.len(),
            bv == body.deep_view(),
            sv == stored.deep_view(),
            changes_of(*t, bv, sv, i as int) == Ok::<ChangesV, Seq<char>>(w.deep_view()),
        decreases t.schema.put.columns.len() - i,
    {
        assert(t.schema.put.columns.deep_view()[i as int] == t.schema.put.columns@[i as int]@);
        match plan_change(&mut w, t, t.schema.put.columns[i].as_str(), body, stored) {
            Some(m) => {
                proof {
                    lemma_changes_fail(*t, bv, sv, i + 1, t.schema.put.columns@.len() as int);
                }
                return Err(m);
            },
            None => {},
        }
        i += 1;
    }
    Ok(w)
}

proof fn lemma_changes_secrets(
    t: ChangeTarget,
    body: Fields,
    sa: Seq<Seq<char>>,
    sb: Seq<Seq<char>>,
    n: int,
)
    ensures
        ({
            let ra = changes_of(t, body, sa, n);
            let rb = changes_of(t, body, sb, n);
            &&& ra is Ok <==> rb is Ok
            &&& ra is Ok ==> ra->Ok_0.secrets == rb->Ok_0.secrets
            &&& ra is Err ==> ra->Err_0 == rb->Err_0
        }),
    decreases n,
{
    if n > 0 {
        lemma_changes_secrets(t, body, sa, sb, n - 1);
    }
}

/// Which values are to be encrypted, and whether the request is accepted, does
/// not depend on what they are encrypted to.
pub proof fn law_changes_do_not_depend_on_secrets(
    t: ChangeTarget,
    body: Fields,
    sa: Seq<Seq<char>>,
    sb: Seq<Seq<char>>,
    n: int,
)
    ensures
        changes_of(t, body, sa, n) is Ok <==> changes_of(t, body, sb, n) is Ok,
        changes_of(t, body, sa, n) is Ok ==> changes_of(t, body, sa, n)->Ok_0.secrets == changes_of(
            t,
            body,
            sb,
            n,
        )->Ok_0.secrets,
        changes_of(t, body, sa, n) is Err ==> changes_of(t, body, sa, n)->Err_0 == changes_of(
            t,
            body,
            sb,
            n,
        )->Err_0,
{
    lemma_changes_secrets(t, body, sa, sb, n);
}

/// The changes of a request: none where its body is no object.
pub open spec fn body_changes(t: ChangeTarget, body: JsonV, stored: Seq<Seq<char>>) -> Result<
    ChangesV,
    Seq<char>,
> {
    match body {
        JsonV::Object(fields) => changes_of(
            t,
            fields,
            stored,
            t.schema.put.columns.deep_view().len() as int,
        ),
        _ => changes_of(t, Seq::empty(), stored, 0),
    }
}

/// The changes of a request.
pub fn plan_body_changes(t: &ChangeTarget, body: &Json, stored: &Vec<String>) -> (r: Result<
    Changes,
    String,
>)
    ensures
        changes_result(r) == body_changes(*t, body.deep_view(), stored.deep_view()),
{
    broadcast use lemma_object_view;

    assert(t.schema.put.columns.deep_view().len() == t.schema.put.columns@.len());
    match body {
        Json::Object(fields) => plan_changes(t, fields, stored),
        _ => {
            let w = Changes {
                secrets: Vec::new(),
                fields: Vec::new(),
                patch: Vec::new(),
                checks: Vec::new(),
            };
            assert(w.secrets.deep_view() =~= Seq::empty());
            assert(w.fields.deep_view() =~= Seq::empty());
            assert(w.patch.deep_view() =~= Seq::empty());
            assert(w.checks.deep_view() =~= Seq::empty());
            Ok(w)
        },
    }
}

/// The changes with who made them, and when.
pub open spec fn with_editor(q: ChangeRequest, t: ChangeTarget, w: ChangesV, actor: Seq<char>) -> ChangesV {
    let by = typed(actor, ascii_lower(type_or_int(t.schema.columns@, "updated_by_id"@)));
    let patch = if t.mongodb {
        with_field(w.patch, "updated_at"@, JsonV::Str(q.now@))
    } else {
        w.patch
    };
    ChangesV {
        fields: w.fields.push(("updated_at"@, InsertValueV::Raw(q.now_expr@))).push(
            ("updated_by_id"@, InsertValueV::Param(by)),
        ),
        patch: with_field(patch, "updated_by_id"@, as_json(by)),
        ..w
    }
}

fn add_editor(q: &ChangeRequest, t: &ChangeTarget, w: &mut Changes, actor: &str)
    ensures
        final(w).deep_view() == with_editor(*q, *t, old(w).deep_view(), actor@),
{
    push_item(&mut w.fields, ("updated_at".to_owned(), InsertValue::Raw(q.now_expr.clone())));
    if t.mongodb {
        set_in(&mut w.patch, "updated_at", Json::Str(q.now.clone()));
    }
    let type_data = column_type(&t.schema.columns, "updated_by_id");
    let by = dbparam_from_str_and_type(actor, type_data.as_str());
    set_in(&mut w.patch, "updated_by_id", to_json(by.copy()));
    push_item(&mut w.fields, ("updated_by_id".to_owned(), InsertValue::Param(by)));
}

// ---------------------------------------------------------------------------
// The steps
// ---------------------------------------------------------------------------

/// Where the request stands.
#[derive(Debug, PartialEq, Eq, Clone, Copy, Structural)]
pub enum EditStage {
    Start,
    Token,
    Access,
    Body,
    Queueing,
    Encrypting,
    Working,
    Ended,
}

/// A request to update a row under way: who makes it, and the update.
#[derive(Debug)]
pub struct Edit {
    pub request: ChangeRequest,
    pub stage: EditStage,
    pub actor: String,
    pub work: RowChange,
}

/// What such a request remembers.
pub struct EditMemoV {
    pub actor: Seq<char>,
    pub row: ChangeStage,
    pub plan: ChangePlanV,
}

/// What follows from a step: where the request stands, what it remembers and
/// what it asks for.
pub type EditTurn = (EditStage, EditMemoV, ActionV);

/// The request is refused.
pub open spec fn edit_fails(m: EditMemoV, status: u16, message: Seq<char>) -> EditTurn {
    (EditStage::Ended, m, ActionV::Answer(refused(status, message)))
}

/// The request cannot be carried out.
pub open spec fn edit_faults(m: EditMemoV) -> EditTurn {
    (EditStage::Ended, m, ActionV::Fault)
}

/// Whether the request needs a token.
pub open spec fn edit_guarded(q: ChangeRequest) -> bool {
    q.require_auth && !q.is_public
}

/// The answer that the write was accepted.
pub open spec fn accepted(message: Seq<char>) -> ReplyV {
    ReplyV { status: 202, body: success(message, 0, JsonV::Null) }
}

/// The answer that the write was accepted.
pub fn say_accepted(message: &str) -> (r: Reply)
    ensures
        r.deep_view() == accepted(message@),
{
    Reply {
        status: 202,
        body: WebResponse {
            success: true,
            message: message.to_owned(),
            total_data: 0,
            data: Json::Null,
        },
    }
}

/// The write is queued, or what is updated is found out.
pub open spec fn edit_body_read(q: ChangeRequest, t: ChangeTarget, m: EditMemoV) -> EditTurn {
    if q.queue_enabled && wants_queue(q.parameters.deep_view()) {
        let job = job_of(
            t.route@,
            WriteOpKindV::Put { id: t.id_raw@ },
            if edit_guarded(q) {
                with_key(m.plan.body, "__actor_id__"@, JsonV::Str(m.actor))
            } else {
                m.plan.body
            },
            q.now_utc@,
            Some(m.actor),
        );
        if q.fast_ack {
            (
                EditStage::Ended,
                m,
                ActionV::EnqueueInBackground(job, accepted("Enqueued (async)"@)),
            )
        } else {
            (EditStage::Queueing, m, ActionV::Enqueue(job))
        }
    } else if t.schema.table@.len() == 0 {
        edit_fails(m, 424, "Entity "@ + t.route@ + " not found"@)
    } else if t.schema.primary_key@.len() > 0 && q.path_fault is Some {
        edit_fails(m, 400, q.path_fault->0@)
    } else {
        match body_changes(t, m.plan.body, Seq::empty()) {
            Err(e) => edit_fails(m, 400, e),
            Ok(w) => (EditStage::Encrypting, m, ActionV::Encrypt(all_secret(w.secrets))),
        }
    }
}

/// The data of the answer: with the key of the row, unless it has one.
pub open spec fn with_row_key(data: JsonV, id_raw: Seq<char>) -> JsonV {
    if field(data, "id"@) is None {
        with_key(data, "id"@, JsonV::Str(id_raw))
    } else {
        data
    }
}

/// What follows from a step of the update.
pub open spec fn edit_works(q: ChangeRequest, t: ChangeTarget, m: EditMemoV, w: WorkV) -> EditTurn {
    match w {
        WorkV::Ask(a) => (
            if m.row == ChangeStage::Ended {
                EditStage::Ended
            } else {
                EditStage::Working
            },
            m,
            a,
        ),
        WorkV::Fail(e) => edit_fails(m, 500, e),
        WorkV::Abort(e) => (EditStage::Ended, m, ActionV::Abort(refused(500, e))),
        WorkV::Abandon(e) => (EditStage::Ended, m, ActionV::Abandon(refused(500, e))),
        WorkV::Finish(message, n, data) => {
            let reply = succeeded(message, n, with_row_key(data, t.id_raw@));
            (
                EditStage::Ended,
                m,
                if edit_guarded(q) {
                    ActionV::Conclude(
                        AuditV { action: "PUT"@, actor_id: m.actor, id: Some(t.id_raw@) },
                        reply,
                    )
                } else {
                    ActionV::Answer(reply)
                },
            )
        },
    }
}

/// A step of the update is taken.
pub open spec fn edit_steps(q: ChangeRequest, t: ChangeTarget, m: EditMemoV, o: Outcome) -> EditTurn {
    let (row, plan, w) = change_next(t, m.row, m.plan, o);
    edit_works(q, t, EditMemoV { row, plan, ..m }, w)
}

/// The plan of an update with its changes.
pub open spec fn edited_plan(p: ChangePlanV, w: ChangesV) -> ChangePlanV {
    ChangePlanV { fields: w.fields, patch: w.patch, checks: w.checks, ..p }
}

/// The next step of a request.
pub open spec fn edit_next(
    q: ChangeRequest,
    t: ChangeTarget,
    stage: EditStage,
    m: EditMemoV,
    o: Outcome,
) -> EditTurn {
    match stage {
        EditStage::Start => if edit_guarded(q) {
            (EditStage::Token, m, ActionV::VerifyToken)
        } else {
            (EditStage::Body, m, ActionV::ReadBody)
        },
        EditStage::Token => match o {
            Outcome::Identified(id) => (
                EditStage::Access,
                EditMemoV { actor: id@, ..m },
                ActionV::CheckRequest,
            ),
            _ => edit_fails(m, 401, "Invalid token"@),
        },
        EditStage::Access => match failure_in(o) {
            Some(e) => edit_fails(m, 401, "Unauthorized: "@ + e),
            None => (EditStage::Body, m, ActionV::ReadBody),
        },
        EditStage::Body => match o {
            Outcome::Value(body) => edit_body_read(
                q,
                t,
                EditMemoV { plan: ChangePlanV { body: body.deep_view(), ..m.plan }, ..m },
            ),
            Outcome::Failed(e) => edit_fails(m, 400, "Failed to parse multipart data: "@ + e@),
            _ => edit_faults(m),
        },
        EditStage::Queueing => match failure_in(o) {
            Some(e) => edit_fails(m, 500, "Queue error: "@ + e),
            None => (EditStage::Ended, m, ActionV::Answer(accepted("Enqueued"@))),
        },
        EditStage::Encrypting => match o {
            Outcome::Texts(stored) => match body_changes(t, m.plan.body, stored.deep_view()) {
                Err(e) => edit_fails(m, 400, e),
                Ok(w) => edit_steps(
                    q,
                    t,
                    EditMemoV {
                        row: ChangeStage::Start,
                        plan: edited_plan(m.plan, with_editor(q, t, w, m.actor)),
                        ..m
                    },
                    o,
                ),
            },
            _ => edit_faults(m),
        },
        EditStage::Working => edit_steps(q, t, m, o),
        EditStage::Ended => (EditStage::Ended, m, ActionV::Nothing),
    }
}

/// The plan of an update before anything of it is known.
pub open spec fn bare_change() -> ChangePlanV {
    ChangePlanV {
        body: JsonV::Null,
        fields: Seq::empty(),
        patch: Seq::empty(),
        checks: Seq::empty(),
        details: Seq::empty(),
        old_record: Seq::empty(),
        values: Seq::empty(),
        count: 0,
    }
}

/// A request that has not begun. Without a token, the actor is `0`.
pub fn process_update_request(request: ChangeRequest, target: ChangeTarget) -> (r: Edit)
    ensures
        r.request == request,
        r.stage == EditStage::Start,
        r.actor@ == "0"@,
        r.work.target == target,
        r.work.stage == ChangeStage::Start,
        r.work.plan.deep_view() == bare_change(),
{
    let plan = ChangePlan {
        body: Json::Null,
        fields: Vec::new(),
        patch: Vec::new(),
        checks: Vec::new(),
        details: Vec::new(),
        old_record: Vec::new(),
        values: Vec::new(),
        count: 0,
    };
    assert(plan.fields.deep_view() =~= Seq::empty());
    assert(plan.patch.deep_view() =~= Seq::empty());
    assert(plan.checks.deep_view() =~= Seq::empty());
    assert(plan.details.deep_view() =~= Seq::empty());
    assert(plan.old_record.deep_view() =~= Seq::empty());
    assert(plan.values.deep_view() =~= Seq::empty());
    Edit {
        request,
        stage: EditStage::Start,
        actor: "0".to_owned(),
        work: perform_update(target, plan),
    }
}

impl Edit {
    /// What the request remembers.
    pub open spec fn memo(&self) -> EditMemoV {
        EditMemoV {
            actor: self.actor@,
            row: self.work.stage,
            plan: self.work.plan.deep_view(),
        }
    }

    /// Where the request stands, what it remembers, and what it asks for.
    pub open spec fn turn(&self, a: Action) -> EditTurn {
        (self.stage, self.memo(), a.deep_view())
    }

    fn guarded(&self) -> (r: bool)
        ensures
            r == edit_guarded(self.request),
    {
        self.request.require_auth && !self.request.is_public
    }

    fn fail(&mut self, status: u16, message: String) -> (r: Action)
        ensures
            final(self).request == old(self).request,
            final(self).work.target == old(self).work.target,
            final(self).turn(r) == edit_fails(old(self).memo(), status, message@),
    {
        self.stage = EditStage::Ended;
        Action::Answer(refuse(status, message))
    }

    fn fault(&mut self) -> (r: Action)
        ensures
            final(self).request == old(self).request,
            final(self).work.target == old(self).work.target,
            final(self).turn(r) == edit_faults(old(self).memo()),
    {
        self.stage = EditStage::Ended;
        Action::Fault
    }

    fn body_read(&mut self) -> (r: Action)
        ensures
            final(self).request == old(self).request,
            final(self).work.target == old(self).work.target,
            final(self).turn(r) == edit_body_read(
                old(self).request,
                old(self).work.target,
                old(self).memo(),
            ),
    {
        if self.request.queue_enabled && queue_wanted(&self.request.parameters) {
            let mut body = self.work.plan.body.copy();
            if self.guarded() {
                body.set("__actor_id__", Json::Str(self.actor.clone()));
            }
            let job = make_job(
                self.work.target.route.as_str(),
                WriteOpKind::Put { id: self.work.target.id_raw.clone() },
                body,
                self.request.now_utc.as_str(),
                Some(self.actor.clone()),
            );
            if self.request.fast_ack {
                self.stage = EditStage::Ended;
                return Action::EnqueueInBackground(job, say_accepted("Enqueued (async)"));
            } else {
                self.stage = EditStage::Queueing;
                return Action::Enqueue(job);
            }
        }
        if self.work.target.schema.table.as_str().is_empty() {
            let mut m = told("Entity ", self.work.target.route.as_str());
            m.append(" not found");
            return self.fail(424, m);
        }
        if self.work.target.schema.primary_key.len() > 0 {
            let fault: Option<String> = match &self.request.path_fault {
                Some(f) => Some(f.clone()),
                None => None,
            };
            match fault {
                Some(f) => {
                    return self.fail(400, f);
                },
                None => {},
            }
        }
        let none: Vec<String> = Vec::new();
        assert(none.deep_view() =~= Seq::<Seq<char>>::empty());
        match plan_body_changes(&self.work.target, &self.work.plan.body, &none) {
            Err(e) => self.fail(400, e),
            Ok(w) => {
                self.stage = EditStage::Encrypting;
                Action::Encrypt(mark_secret(w.secrets))
            },
        }
    }

    fn works(&mut self, w: Work) -> (r: Action)
        ensures
            final(self).request == old(self).request,
            final(self).work.target == old(self).work.target,
            final(self).turn(r) == edit_works(
                old(self).request,
                old(self).work.target,
                old(self).memo(),
                w.deep_view(),
            ),
    {
        match w {
            Work::Ask(a) => {
                self.stage = if self.work.ended() {
                    EditStage::Ended
                } else {
                    EditStage::Working
                };
                a
            },
            Work::Fail(e) => self.fail(500, e),
            Work::Abort(e) => {
                self.stage = EditStage::Ended;
                Action::Abort(refuse(500, e))
            },
            Work::Abandon(e) => {
                self.stage = EditStage::Ended;
                Action::Abandon(refuse(500, e))
            },
            Work::Finish(message, n, data) => {
                self.stage = EditStage::Ended;
                let mut data = data;
                if data.get("id").is_none() {
                    data.set("id", Json::Str(self.work.target.id_raw.clone()));
                }
                let reply = Reply {
                    status: 200,
                    body: WebResponse { success: true, message, total_data: n, data },
                };
                if self.guarded() {
                    Action::Conclude(
                        Audit {
                            action: "PUT".to_owned(),
                            actor_id: self.actor.clone(),
                            id: Some(self.work.target.id_raw.clone()),
                        },
                        reply,
                    )
                } else {
                    Action::Answer(reply)
                }
            },
        }
    }

    fn steps(&mut self, outcome: Outcome) -> (r: Action)
        ensures
            final(self).request == old(self).request,
            final(self).work.target == old(self).work.target,
            final(self).turn(r) == edit_steps(
                old(self).request,
                old(self).work.target,
                old(self).memo(),
                outcome,
            ),
    {
        let w = self.work.step(outcome);
        self.works(w)
    }

    /// Takes the next step of the request, with what came of the last one.
    pub fn step(&mut self, outcome: Outcome) -> (r: Action)
        ensures
            final(self).request == old(self).request,
            final(self).work.target == old(self).work.target,
            (final(self).stage, final(self).memo(), r.deep_view()) == edit_next(
                old(self).request,
                old(self).work.target,
                old(self).stage,
                old(self).memo(),
                outcome,
            ),
    {
        match self.stage {
            EditStage::Start => {
                if self.guarded() {
                    self.stage = EditStage::Token;
                    Action::VerifyToken
                } else {
                    self.stage = EditStage::Body;
                    Action::ReadBody
                }
            },
            EditStage::Token => match outcome {
                Outcome::Identified(id) => {
                    self.actor = id;
                    self.stage = EditStage::Access;
                    Action::CheckRequest
                },
                _ => self.fail(401, "Invalid token".to_owned()),
            },
            EditStage::Access => match failure(&outcome) {
                Some(e) => self.fail(401, told("Unauthorized: ", e)),
                None => {
                    self.stage = EditStage::Body;
                    Action::ReadBody
                },
            },
            EditStage::Body => match outcome {
                Outcome::Value(body) => {
                    self.work.plan.body = body;
                    self.body_read()
                },
                Outcome::Failed(e) => self.fail(
                    400,
                    told("Failed to parse multipart data: ", e.as_str()),
                ),
                _ => self.fault(),
            },
            EditStage::Queueing => match failure(&outcome) {
                Some(e) => self.fail(500, told("Queue error: ", e)),
                None => {
                    self.stage = EditStage::Ended;
                    Action::Answer(say_accepted("Enqueued"))
                },
            },
            EditStage::Encrypting => match outcome {
                Outcome::Texts(stored) => match plan_body_changes(
                    &self.work.target,
                    &self.work.plan.body,
                    &stored,
                ) {
                    Err(e) => self.fail(400, e),
                    Ok(w) => {
                        let mut w = w;
                        add_editor(
                            &self.request,
                            &self.work.target,
                            &mut w,
                            self.actor.as_str(),
                        );
                        self.work.plan.fields = w.fields;
                        self.work.plan.patch = w.patch;
                        self.work.plan.checks = w.checks;
                        self.work.stage = ChangeStage::Start;
                        self.steps(Outcome::Texts(stored))
                    },
                },
                _ => self.fault(),
            },
            EditStage::Working => self.steps(outcome),
            EditStage::Ended => Action::Nothing,
        }
    }
}

// ---------------------------------------------------------------------------
// Laws
// ---------------------------------------------------------------------------

/// Where a request stands, and what it remembers, after some outcomes.
pub open spec fn edit_after(
    q: ChangeRequest,
    t: ChangeTarget,
    m: EditMemoV,
    outcomes: Seq<Outcome>,
) -> (EditStage, EditMemoV)
    decreases outcomes.len(),
{
    if outcomes.len() == 0 {
        (EditStage::Start, m)
    } else {
        let (stage, before) = edit_after(q, t, m, outcomes.drop_last());
        let (s, after, _) = edit_next(q, t, stage, before, outcomes.last());
        (s, after)
    }
}

/// What a request asks for after some outcomes.
pub open spec fn edit_asks(
    q: ChangeRequest,
    t: ChangeTarget,
    m: EditMemoV,
    outcomes: Seq<Outcome>,
) -> ActionV {
    let (stage, before) = edit_after(q, t, m, outcomes.drop_last());
    edit_next(q, t, stage, before, outcomes.last()).2
}

/// Whether the outcome at `k` answered a check of access, and granted it.
pub open spec fn edit_granted_at(
    q: ChangeRequest,
    t: ChangeTarget,
    m: EditMemoV,
    outcomes: Seq<Outcome>,
    k: int,
) -> bool {
    &&& 0 < k < outcomes.len()
    &&& checks_access(edit_asks(q, t, m, outcomes.take(k)))
    &&& failure_in(outcomes[k]) is None
}

/// The stages that come before access is granted.
pub open spec fn edit_before_access(stage: EditStage) -> bool {
    stage == EditStage::Start || stage == EditStage::Token || stage == EditStage::Access || stage
        == EditStage::Ended
}

proof fn lemma_edit_granted(
    q: ChangeRequest,
    t: ChangeTarget,
    m: EditMemoV,
    outcomes: Seq<Outcome>,
)
    requires
        edit_guarded(q),
    ensures
        !edit_before_access(edit_after(q, t, m, outcomes).0) ==> exists|k: int|
            edit_granted_at(q, t, m, outcomes, k),
        edit_after(q, t, m, outcomes).0 == EditStage::Access ==> outcomes.len() > 0
            && checks_access(edit_asks(q, t, m, outcomes)),
    decreases outcomes.len(),
{
    if outcomes.len() > 0 {
        let before = outcomes.drop_last();
        lemma_edit_granted(q, t, m, before);
        let stage = edit_after(q, t, m, before).0;
        if !edit_before_access(edit_after(q, t, m, outcomes).0) {
            if edit_before_access(stage) {
                let k = outcomes.len() - 1;
                assert(outcomes.take(k) =~= before);
                assert(edit_granted_at(q, t, m, outcomes, k));
            } else {
                let k = choose|k: int| edit_granted_at(q, t, m, before, k);
                assert(before.take(k) =~= outcomes.take(k));
                assert(before[k] == outcomes[k]);
                assert(edit_granted_at(q, t, m, outcomes, k));
            }
        }
    }
}

/// Where a request needs a token, nothing is stored, queued or read unless access
/// was checked and granted before.
pub proof fn law_edit_is_guarded(
    q: ChangeRequest,
    t: ChangeTarget,
    m: EditMemoV,
    outcomes: Seq<Outcome>,
)
    requires
        edit_guarded(q),
        outcomes.len() > 0,
        touches_data(edit_asks(q, t, m, outcomes)),
    ensures
        exists|k: int| edit_granted_at(q, t, m, outcomes, k),
{
    let before = outcomes.drop_last();
    lemma_edit_granted(q, t, m, before);
    let stage = edit_after(q, t, m, before).0;
    assert(!edit_before_access(stage));
    let k = choose|k: int| edit_granted_at(q, t, m, before, k);
    assert(before.take(k) =~= outcomes.take(k));
    assert(before[k] == outcomes[k]);
    assert(edit_granted_at(q, t, m, outcomes, k));
}

/// A success is answered only once the update is finished, or the write was
/// queued.
pub proof fn law_edit_success_is_real(
    q: ChangeRequest,
    t: ChangeTarget,
    stage: EditStage,
    m: EditMemoV,
    o: Outcome,
)
    requires
        answers_success(edit_next(q, t, stage, m, o).2),
    ensures
        ({
            ||| edit_next(q, t, stage, m, o).2 is EnqueueInBackground
            ||| stage == EditStage::Queueing && failure_in(o) is None
            ||| stage == EditStage::Working && change_next(t, m.row, m.plan, o).2 is Finish
        }),
{
    if stage == EditStage::Working {
        law_changes_close_their_transaction(t, m.row, m.plan, o);
    } else if stage == EditStage::Encrypting && o is Texts {
        let changes = body_changes(t, m.plan.body, o->Texts_0.deep_view());
        if changes is Ok {
            let plan = edited_plan(m.plan, with_editor(q, t, changes->Ok_0, m.actor));
            law_changes_close_their_transaction(t, ChangeStage::Start, plan, o);
        }
    }
}

/// A change holds what the request gives: for each configured column that the body
/// gives a value, and that is not encrypted, the row is set to it, typed by the
/// column, both in the statement and in the document.
pub proof fn law_changes_hold_what_is_given(
    t: ChangeTarget,
    body: Fields,
    stored: Seq<Seq<char>>,
    n: int,
    k: int,
)
    requires
        0 <= k < n <= t.schema.put.columns@.len(),
        changes_of(t, body, stored, n) is Ok,
        ({
            let name = strip_back(t.schema.put.columns@[k]@, '*');
            &&& lookup(body, name) is Some
            &&& gives(lookup(body, name)->0) is Some
            &&& column_named(t.schema.columns@, name) is Some
            &&& !column_named(t.schema.columns@, name)->0.encrypt
        }),
    ensures
        ({
            let name = strip_back(t.schema.put.columns@[k]@, '*');
            let c = column_named(t.schema.columns@, name)->0;
            let text = gives(lookup(body, name)->0)->0;
            let w = changes_of(t, body, stored, n)->Ok_0;
            &&& exists|j: int|
                0 <= j < w.fields.len() && (#[trigger] w.fields[j]).0 == name && w.fields[j].1
                    is Param && is_typed(w.fields[j].1->Param_0, text, ascii_lower(c.type_data@))
            &&& lookup(w.patch, name) is Some
            &&& contains(ascii_lower(c.type_data@), "int"@) && i64_value(text) is Some ==> lookup(
                w.patch,
                name,
            ) == Some(JsonV::Int(i64_value(text)->0))
            &&& is_typed(Scalar::Str(text), text, ascii_lower(c.type_data@)) ==> lookup(
                w.patch,
                name,
            ) == Some(JsonV::Str(text))
        }),
    decreases n,
{
    let entry = t.schema.put.columns@[k]@;
    let name = strip_back(entry, '*');
    let c = column_named(t.schema.columns@, name)->0;
    let given = lookup(body, name)->0;
    let text = gives(given)->0;
    let td = ascii_lower(c.type_data@);
    law_values_are_read_as_given(given);
    law_typing_tells_the_text(text, td);
    assert(t.schema.put.columns.deep_view()[k] == entry);
    let before = changes_of(t, body, stored, n - 1)->Ok_0;
    let w = changes_of(t, body, stored, n)->Ok_0;
    let last = strip_back(t.schema.put.columns.deep_view()[n - 1], '*');
    if last == name {
        law_set_then_get(before.patch, name, as_json(typed(text, td)), name);
        assert(w.fields == before.fields.push((name, InsertValueV::Param(typed(text, td)))));
        assert(w.fields[w.fields.len() - 1].0 == name);
    } else {
        law_changes_hold_what_is_given(t, body, stored, n - 1, k);
        let j = choose|j: int|
            0 <= j < before.fields.len() && (#[trigger] before.fields[j]).0 == name
                && before.fields[j].1 is Param && is_typed(before.fields[j].1->Param_0, text, td);
        assert(w.fields[j] == before.fields[j]);
        if w != before {
            let d = column_named(t.schema.columns@, last)->0;
            let value = if d.encrypt {
                stored_secret(stored, before.secrets.len() as int)
            } else {
                given_text(lookup(body, last))
            };
            law_set_then_get(
                before.patch,
                last,
                as_json(typed(value, ascii_lower(d.type_data@))),
                name,
            );
        }
    }
}

/// A change that is prepared is what is written: the statement that is compiled, or
/// the document that is stored, is that of the changes of the body, with who
/// changed the row, and when.
pub proof fn law_edits_write_their_changes(
    q: ChangeRequest,
    t: ChangeTarget,
    m: EditMemoV,
    o: Outcome,
    i: int,
)
    requires
        o is Texts,
        body_changes(t, m.plan.body, o->Texts_0.deep_view()) is Ok,
        !t.mongodb,
        t.schema.primary_key@.len() > 0,
        t.schema.primary_key@.len() == split(t.id_raw@, '~').len(),
    ensures
        ({
            let w = body_changes(t, m.plan.body, o->Texts_0.deep_view())->Ok_0;
            let n = w.fields.len() as int;
            match edit_next(q, t, EditStage::Encrypting, m, o).2 {
                ActionV::CompileUpdate(table, _, fields) => {
                    &&& table == t.schema.table@
                    &&& fields.len() == n + 2
                    &&& 0 <= i < n ==> fields[i] == w.fields[i]
                    &&& fields[n] == ("updated_at"@, InsertValueV::Raw(q.now_expr@))
                    &&& fields[n + 1].0 == "updated_by_id"@
                    &&& fields[n + 1].1 is Param
                    &&& tells(fields[n + 1].1->Param_0, m.actor)
                },
                _ => false,
            }
        }),
{
    assert(t.schema.primary_key.deep_view().len() == t.schema.primary_key@.len());
    law_typing_tells_the_text(
        m.actor,
        ascii_lower(type_or_int(t.schema.columns@, "updated_by_id"@)),
    );
}

/// A request hands on what its change asks for, and answers what came of it.
pub proof fn law_edits_hand_their_change_on(
    q: ChangeRequest,
    t: ChangeTarget,
    m: EditMemoV,
    o: Outcome,
)
    ensures
        ({
            let (row, plan, w) = change_next(t, m.row, m.plan, o);
            let (s, n, a) = edit_next(q, t, EditStage::Working, m, o);
            &&& n.row == row
            &&& n.plan == plan
            &&& n.actor == m.actor
            &&& match w {
                WorkV::Ask(x) => a == x,
                WorkV::Finish(_, total, _) => match a {
                    ActionV::Conclude(audit, r) => r.status == 200 && r.body.success
                        && r.body.total_data == total && audit.id == Some(t.id_raw@)
                        && audit.actor_id == m.actor,
                    ActionV::Answer(r) => r.status == 200 && r.body.success && r.body.total_data
                        == total,
                    _ => false,
                },
                WorkV::Fail(_) => a is Answer && !a->Answer_0.body.success,
                WorkV::Abort(_) => a is Abort && !a->Abort_0.body.success,
                WorkV::Abandon(_) => a is Abandon && !a->Abandon_0.body.success,
            }
        }),
{
}

/// What a change asks to be encrypted is each given value of a column that asks for it:
/// a change that sets one more such column asks for one more text.
pub proof fn law_changes_encrypt_what_is_given(
    w: ChangesV,
    t: ChangeTarget,
    entry: Seq<char>,
    body: Fields,
    stored: Seq<Seq<char>>,
)
    requires
        with_change(w, t, entry, body, stored) is Ok,
        ({
            let name = strip_back(entry, '*');
            &&& lookup(body, name) is Some
            &&& gives(lookup(body, name)->0) is Some
            &&& column_named(t.schema.columns@, name) is Some
        }),
    ensures
        ({
            let name = strip_back(entry, '*');
            let c = column_named(t.schema.columns@, name)->0;
            let text = gives(lookup(body, name)->0)->0;
            let n = with_change(w, t, entry, body, stored)->Ok_0;
            &&& n.secrets == if c.encrypt {
                w.secrets.push(text)
            } else {
                w.secrets
            }
            &&& n.fields.len() == w.fields.len() + 1
            &&& n.fields.last().0 == name
            &&& n.fields.last().1 is Param
            &&& c.encrypt && w.secrets.len() < stored.len() ==> is_typed(
                n.fields.last().1->Param_0,
                stored[w.secrets.len() as int],
                ascii_lower(c.type_data@),
            )
        }),
{
    let name = strip_back(entry, '*');
    let c = column_named(t.schema.columns@, name)->0;
    law_values_are_read_as_given(lookup(body, name)->0);
    if c.encrypt && w.secrets.len() < stored.len() {
        law_typing_tells_the_text(stored[w.secrets.len() as int], ascii_lower(c.type_data@));
    }
}

/// A queued change is that of the request: on its route, for its row, by its actor, and
/// with its body, but that its actor is put in.
pub proof fn law_queued_edits_carry_the_body(
    q: ChangeRequest,
    t: ChangeTarget,
    m: EditMemoV,
    name: Seq<char>,
)
    requires
        q.queue_enabled,
        wants_queue(q.parameters.deep_view()),
        name != "__actor_id__"@,
    ensures
        ({
            let job = match edit_body_read(q, t, m).2 {
                ActionV::Enqueue(job) => Some(job),
                ActionV::EnqueueInBackground(job, _) => Some(job),
                _ => None,
            };
            &&& job is Some
            &&& job->0.route == t.route@
            &&& job->0.op == (WriteOpKindV::Put { id: t.id_raw@ })
            &&& job->0.actor_id == Some(m.actor)
            &&& field(job->0.body, name) == field(m.plan.body, name)
        }),
{
    if let JsonV::Object(fields) = m.plan.body {
        law_set_then_get(fields, "__actor_id__"@, JsonV::Str(m.actor), name);
    }
}

} // verus!
