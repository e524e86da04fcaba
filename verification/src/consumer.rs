//! The queue of writes.
use crate::ast::{satisfies, Collation, Filter, FilterV, RowV, Scalar};
use crate::filters::{id_param, integer_or_text};
use crate::flow::{failure, failure_in, told, Action, ActionV, Outcome, Preparation, Work, WorkV};
use crate::giving::{gives, is_typed, law_typing_tells_the_text, law_values_are_read_as_given};
use crate::json::{
    field, get_in, key_at, law_set_then_get, lookup, set_in, with_field, Json, JsonV,
};
use crate::model::{column_named, find_column, Column, TableSchema};
use crate::number::{i64_value, int_text, u64_text};
use crate::pk_utils::{as_json, json_value_from_str_and_type, typed};
use crate::post::{
    build_insert_columns, entry_at, insert_columns, lemma_insert_column_not_audit, read_entry,
    stored_at, Fields,
};
use crate::retry::{TryStage, TryV, Trying};
use crate::text::{ascii_lower, contains, has_char, listed, push_item, same};
use crate::writing::{
    ask_columns, asked_columns, audit_column, given_text, is_audit_column, read_given_text,
};
use vstd::prelude::*;
use vstd::string::*;

verus! {

/// What a queued write does.
#[derive(Debug, PartialEq)]
pub enum WriteOpKind {
    Post,
    Put { id: String },
    Delete { id: String },
}

/// What a queued write does.
pub enum WriteOpKindV {
    Post,
    Put { id: Seq<char> },
    Delete { id: Seq<char> },
}

impl DeepView for WriteOpKind {
    type V = WriteOpKindV;

    open spec fn deep_view(&self) -> WriteOpKindV {
        match self {
            WriteOpKind::Post => WriteOpKindV::Post,
            WriteOpKind::Put { id } => WriteOpKindV::Put { id: id@ },
            WriteOpKind::Delete { id } => WriteOpKindV::Delete { id: id@ },
        }
    }
}

/// A queued write.
#[derive(Debug, PartialEq)]
pub struct WriteJob {
    pub route: String,
    pub op: WriteOpKind,
    pub body: Json,
    pub headers: Vec<(String, String)>,
    pub enqueued_at: String,
    pub actor_id: Option<String>,
}

/// What a queued write is.
pub struct WriteJobV {
    pub route: Seq<char>,
    pub op: WriteOpKindV,
    pub body: JsonV,
    pub headers: Seq<(Seq<char>, Seq<char>)>,
    pub enqueued_at: Seq<char>,
    pub actor_id: Option<Seq<char>>,
}

impl DeepView for WriteJob {
    type V = WriteJobV;

    open spec fn deep_view(&self) -> WriteJobV {
        WriteJobV {
            route: self.route@,
            op: self.op.deep_view(),
            body: self.body.deep_view(),
            headers: self.headers.deep_view(),
            enqueued_at: self.enqueued_at@,
            actor_id: match self.actor_id {
                Some(a) => Some(a@),
                None => None,
            },
        }
    }
}

/// A write that is to be queued.
pub open spec fn job_of(
    route: Seq<char>,
    op: WriteOpKindV,
    body: JsonV,
    at: Seq<char>,
    actor: Option<Seq<char>>,
) -> WriteJobV {
    WriteJobV { route, op, body, headers: Seq::empty(), enqueued_at: at, actor_id: actor }
}

/// A write that is to be queued.
pub fn make_job(
    route: &str,
    op: WriteOpKind,
    body: Json,
    at: &str,
    actor: Option<String>,
) -> (r: WriteJob)
    ensures
        r.deep_view() == job_of(
            route@,
            op.deep_view(),
            body.deep_view(),
            at@,
            actor.deep_view(),
        ),
{
    let headers: Vec<(String, String)> = Vec::new();
    assert(headers.deep_view() =~= Seq::empty());
    WriteJob {
        route: route.to_owned(),
        op,
        body,
        headers,
        enqueued_at: at.to_owned(),
        actor_id: actor,
    }
}

impl WriteJob {
    /// The list that holds queued writes.
    pub fn queue_key() -> (r: String)
        ensures
            r@ == "flx:wq:default"@,
    {
        "flx:wq:default".to_owned()
    }

    /// The list that holds writes that failed.
    pub fn dlq_key() -> (r: String)
        ensures
            r@ == "flx:wq:dlq"@,
    {
        "flx:wq:dlq".to_owned()
    }
}

/// The name of what a queued write does.
pub open spec fn name_of_op(op: WriteOpKindV) -> Seq<char> {
    match op {
        WriteOpKindV::Post => "POST"@,
        WriteOpKindV::Put { .. } => "PUT"@,
        WriteOpKindV::Delete { .. } => "DELETE"@,
    }
}

/// The name of what a queued write does.
pub fn op_name(op: &WriteOpKind) -> (r: &'static str)
    ensures
        r@ == name_of_op(op.deep_view()),
{
    match op {
        WriteOpKind::Post => "POST",
        WriteOpKind::Put { .. } => "PUT",
        WriteOpKind::Delete { .. } => "DELETE",
    }
}

/// How a write is put into the queue: it is tried again so often, unless the
/// queue is full.
pub fn enqueue_job(max_len: i64, retry_count: usize) -> (r: Trying)
    ensures
        r.plan() == (TryV { retries: retry_count, unit: 120, max_len, label: "Queue"@ }),
        r.spread == 60,
        r.stage == TryStage::Start,
{
    Trying::new(retry_count, 120, 60, max_len, "Queue")
}

/// How a queued write is carried out: it is tried again so often.
pub fn execute_with_retry(retry_max: usize) -> (r: Trying)
    ensures
        r.plan() == (TryV { retries: retry_max, unit: 200, max_len: 0, label: Seq::empty() }),
        r.spread == 80,
        r.stage == TryStage::Start,
{
    proof {
        reveal_strlit("");
        assert(""@ =~= Seq::<char>::empty());
    }
    Trying::new(retry_max, 200, 80, 0, "")
}

/// What is told of several writes that were queued at once: whether all were, and
/// a message.
pub open spec fn batch_report(queued: int, failed: int) -> (bool, Seq<char>) {
    if failed == 0 {
        (true, "queued "@ + int_text(queued) + " jobs"@)
    } else {
        (
            false,
            "queued="@ + int_text(queued) + ", failed="@ + int_text(failed) + ", total="@
                + int_text(queued + failed),
        )
    }
}

/// How many of some attempts succeeded.
pub open spec fn successes(results: Seq<bool>) -> nat
    decreases results.len(),
{
    if results.len() == 0 {
        0
    } else {
        successes(results.drop_last()) + if results.last() {
            1nat
        } else {
            0nat
        }
    }
}

/// What is told of several writes that were queued at once, by whether each was.
pub fn enqueue_jobs_background(results: &Vec<bool>) -> (r: (bool, String))
    ensures
        (r.0, r.1@) == batch_report(
            successes(results@) as int,
            results@.len() - successes(results@),
        ),
{
    let mut ok: usize = 0;
    let mut i: usize = 0;
    while i < results.len()
        invariant
            i <= results@.len(),
            ok <= i,
            ok == successes(results@.take(i as int)),
        decreases results.len() - i,
    {
        assert(results@.take(i + 1).drop_last() =~= results@.take(i as int));
        if results[i] {
            ok += 1;
        }
        i += 1;
    }
    assert(results@.take(results@.len() as int) =~= results@);
    let failed: usize = results.len() - ok;
    if failed == 0 {
        let mut m = told("queued ", u64_text(ok as u64).as_str());
        m.append(" jobs");
        (true, m)
    } else {
        let mut m = told("queued=", u64_text(ok as u64).as_str());
        m.append(", failed=");
        m.append(u64_text(failed as u64).as_str());
        m.append(", total=");
        m.append(u64_text(results.len() as u64).as_str());
        (false, m)
    }
}

// ---------------------------------------------------------------------------
// Writes that failed
// ---------------------------------------------------------------------------

/// A queued write that failed for good, and why.
#[derive(Debug)]
pub struct FailedJobRecord {
    pub failed_at: String,
    pub worker: String,
    pub error: String,
    pub route: String,
    pub op: String,
    pub job: WriteJob,
}

/// What is kept of a queued write that failed for good.
pub fn push_dlq(job: WriteJob, worker: &str, error: &str, at: &str) -> (r: FailedJobRecord)
    ensures
        r.job == job,
        r.failed_at@ == at@,
        r.worker@ == worker@,
        r.error@ == error@,
        r.route@ == job.route@,
        r.op@ == name_of_op(job.op.deep_view()),
{
    FailedJobRecord {
        failed_at: at.to_owned(),
        worker: worker.to_owned(),
        error: error.to_owned(),
        route: job.route.clone(),
        op: op_name(&job.op).to_owned(),
        job,
    }
}

// ---------------------------------------------------------------------------
// Carrying out a queued write
// ---------------------------------------------------------------------------

/// The text of a field, trimmed; the empty one where there is no value.
pub fn body_value_as_str(body: &Json, col: &str) -> (r: String)
    ensures
        r@ == given_text(field(body.deep_view(), col@)),
{
    read_given_text(body.get(col))
}

/// Whether the entry that a column matches holds a formula.
pub open spec fn is_formula(entry: Option<Seq<char>>) -> bool {
    match entry {
        Some(e) => e.contains('='),
        None => false,
    }
}

fn formula_in(entry: Option<&str>) -> (r: bool)
    ensures
        r == is_formula(entry.deep_view()),
{
    match entry {
        Some(e) => has_char(e, '='),
        None => false,
    }
}

/// A document with the value of one column, where the request gives one.
pub open spec fn with_queued(doc: Fields, c: Column, body: JsonV, prep: Preparation, k: int) -> Fields {
    let text = given_text(field(body, c.name@));
    if text.len() == 0 {
        doc
    } else {
        let value = if c.encrypt {
            stored_at(prep, k)
        } else {
            text
        };
        with_field(doc, c.name@, as_json(typed(value, ascii_lower(c.type_data@))))
    }
}

fn add_queued(doc: &mut Vec<(String, Json)>, c: &Column, body: &Json, prep: &Preparation, k: usize)
    ensures
        final(doc).deep_view() == with_queued(
            old(doc).deep_view(),
            *c,
            body.deep_view(),
            *prep,
            k as int,
        ),
{
    let text = body_value_as_str(body, c.name.as_str());
    if text.as_str().is_empty() {
        return ;
    }
    let value = if c.encrypt {
        if k < prep.stored.len() {
            prep.stored[k].clone()
        } else {
            String::new()
        }
    } else {
        text
    };
    let v = json_value_from_str_and_type(value.as_str(), c.type_data.as_str());
    set_in(doc, c.name.as_str(), v);
}

/// Whether a column of a queued insertion is passed over: the database sets it,
/// or its value is computed or generated.
pub open spec fn is_passed_over(c: Column, entry: Option<Seq<char>>) -> bool {
    c.auto_increment || (c.name@ != "id"@ && is_formula(entry)) || (c.name@ == "id"@
        && c.function@.len() > 0)
}

/// The document of a queued insertion, by its first `n` columns.
pub open spec fn queued_row(schema: TableSchema, body: JsonV, prep: Preparation, n: int) -> Fields
    decreases n,
{
    if n <= 0 {
        Seq::empty()
    } else {
        let before = queued_row(schema, body, prep, n - 1);
        let c = schema.columns@[insert_columns(schema)[n - 1] as int];
        if is_passed_over(c, entry_at(prep, n - 1)) {
            before
        } else {
            with_queued(before, c, body, prep, n - 1)
        }
    }
}

/// Who made a queued write: who is named with it, or in its body.
pub open spec fn queued_by(actor: Option<Seq<char>>, body: JsonV) -> Option<Seq<char>> {
    match actor {
        Some(a) => Some(a),
        None => match field(body, "__actor_id__"@) {
            Some(JsonV::Str(s)) => Some(s),
            _ => None,
        },
    }
}

/// A document with who made the write, where the entity has a column for that and
/// the document does not say.
pub open spec fn with_maker(
    doc: Fields,
    schema: TableSchema,
    column: Seq<char>,
    actor: Option<Seq<char>>,
) -> Fields {
    match column_named(schema.columns@, column) {
        None => doc,
        Some(c) => match actor {
            None => doc,
            Some(a) => with_field(doc, column, as_json(typed(a, ascii_lower(c.type_data@)))),
        },
    }
}

/// The document of a queued insertion.
pub open spec fn queued_insert(
    schema: TableSchema,
    body: JsonV,
    prep: Preparation,
    actor: Option<Seq<char>>,
    now: Seq<char>,
) -> Fields {
    let doc = with_field(
        queued_row(schema, body, prep, insert_columns(schema).len() as int),
        "created_at"@,
        JsonV::Str(now),
    );
    if lookup(doc, "created_by_id"@) is Some {
        doc
    } else {
        with_maker(doc, schema, "created_by_id"@, queued_by(actor, body))
    }
}

fn add_maker(
    doc: &mut Vec<(String, Json)>,
    schema: &TableSchema,
    column: &str,
    actor: &Option<String>,
)
    ensures
        final(doc).deep_view() == with_maker(
            old(doc).deep_view(),
            *schema,
            column@,
            actor.deep_view(),
        ),
{
    match find_column(&schema.columns, column) {
        None => {},
        Some(c) => match actor {
            None => {},
            Some(a) => {
                let v = json_value_from_str_and_type(a.as_str(), c.type_data.as_str());
                set_in(doc, column, v);
            },
        },
    }
}

fn read_maker(actor: &Option<String>, body: &Json) -> (r: Option<String>)
    ensures
        r.deep_view() == queued_by(actor.deep_view(), body.deep_view()),
{
    match actor {
        Some(a) => Some(a.clone()),
        None => match body.get("__actor_id__") {
            Some(v) => match v {
                Json::Str(s) => Some(s.clone()),
                _ => None,
            },
            None => None,
        },
    }
}

/// The document of a queued insertion.
pub fn exec_post(
    schema: &TableSchema,
    body: &Json,
    prep: &Preparation,
    actor: &Option<String>,
    now: &str,
) -> (r: Vec<(String, Json)>)
    ensures
        r.deep_view() == queued_insert(
            *schema,
            body.deep_view(),
            *prep,
            actor.deep_view(),
            now@,
        ),
{
    let cols = build_insert_columns(schema);
    let mut doc: Vec<(String, Json)> = Vec::new();
    assert(doc.deep_view() =~= Seq::empty());
    let mut i: usize = 0;
    while i < cols.len()
        invariant
            i <= cols@.len(),
            cols@ == insert_columns(*schema),
            forall|k: int| 0 <= k < cols@.len() ==> cols@[k] < schema.columns@.len(),
            doc.deep_view() == queued_row(*schema, body.deep_view(), *prep, i as int),
        decreases cols.len() - i,
    {
        let c = &schema.columns[cols[i]];
        let is_id = same(c.name.as_str(), "id");
        let over = c.auto_increment || (!is_id && formula_in(read_entry(prep, i))) || (is_id
            && !c.function.as_str().is_empty());
        if !over {
            add_queued(&mut doc, c, body, prep, i);
        }
        i += 1;
    }
    set_in(&mut doc, "created_at", Json::Str(now.to_owned()));
    if get_in(&doc, "created_by_id").is_none() {
        let maker = read_maker(actor, body);
        add_maker(&mut doc, schema, "created_by_id", &maker);
    }
    doc
}

/// The positions of the first `n` columns that a queued update may set.
pub open spec fn update_columns(columns: Seq<Column>, names: Seq<Seq<char>>, n: int) -> Seq<usize>
    decreases n,
{
    if n <= 0 {
        Seq::empty()
    } else {
        let before = update_columns(columns, names, n - 1);
        let c = columns[n - 1];
        if !is_audit_column(c.name@) && names.contains(c.name@) {
            before.push((n - 1) as usize)
        } else {
            before
        }
    }
}

/// The positions of the columns that a queued update may set.
pub fn build_update_columns(columns: &Vec<Column>, names: &Vec<String>) -> (r: Vec<usize>)
    ensures
        r@ == update_columns(columns@, names.deep_view(), columns@.len() as int),
        forall|k: int| 0 <= k < r@.len() ==> r@[k] < columns@.len(),
{
    let mut out: Vec<usize> = Vec::new();
    let mut i: usize = 0;
    while i < columns.len()
        invariant
            i <= columns@.len(),
            out@ == update_columns(columns@, names.deep_view(), i as int),
            forall|k: int| 0 <= k < out@.len() ==> out@[k] < columns@.len(),
        decreases columns.len() - i,
    {
        let c = &columns[i];
        if !audit_column(c.name.as_str()) && listed(names, c.name.as_str()) {
            out.push(i);
        }
        i += 1;
    }
    out
}

/// The columns of an entity that a queued update may set.
pub open spec fn put_columns(schema: TableSchema) -> Seq<usize> {
    update_columns(
        schema.columns@,
        schema.put.columns.deep_view(),
        schema.columns@.len() as int,
    )
}

/// The document of a queued update, by its first `n` columns.
pub open spec fn queued_changes(schema: TableSchema, body: JsonV, prep: Preparation, n: int) -> Fields
    decreases n,
{
    if n <= 0 {
        Seq::empty()
    } else {
        let before = queued_changes(schema, body, prep, n - 1);
        let c = schema.columns@[put_columns(schema)[n - 1] as int];
        if is_formula(entry_at(prep, n - 1)) {
            before
        } else {
            with_queued(before, c, body, prep, n - 1)
        }
    }
}

/// The document of a queued update.
pub open spec fn queued_update(
    schema: TableSchema,
    body: JsonV,
    prep: Preparation,
    now: Seq<char>,
) -> Fields {
    with_maker(
        with_field(
            queued_changes(schema, body, prep, put_columns(schema).len() as int),
            "updated_at"@,
            JsonV::Str(now),
        ),
        schema,
        "updated_by_id"@,
        queued_by(None, body),
    )
}

/// The document of a queued update.
pub fn exec_put(schema: &TableSchema, body: &Json, prep: &Preparation, now: &str) -> (r: Vec<
    (String, Json),
>)
    ensures
        r.deep_view() == queued_update(*schema, body.deep_view(), *prep, now@),
{
    let cols = build_update_columns(&schema.columns, &schema.put.columns);
    let mut doc: Vec<(String, Json)> = Vec::new();
    assert(doc.deep_view() =~= Seq::empty());
    let mut i: usize = 0;
    while i < cols.len()
        invariant
            i <= cols@.len(),
            cols@ == put_columns(*schema),
            forall|k: int| 0 <= k < cols@.len() ==> cols@[k] < schema.columns@.len(),
            doc.deep_view() == queued_changes(*schema, body.deep_view(), *prep, i as int),
        decreases cols.len() - i,
    {
        if !formula_in(read_entry(prep, i)) {
            add_queued(&mut doc, &schema.columns[cols[i]], body, prep, i);
        }
        i += 1;
    }
    set_in(&mut doc, "updated_at", Json::Str(now.to_owned()));
    let none: Option<String> = None;
    let maker = read_maker(&none, body);
    add_maker(&mut doc, schema, "updated_by_id", &maker);
    doc
}

/// The filter that picks the row of a queued write.
pub open spec fn queued_filter(id: Seq<char>) -> FilterV {
    FilterV::Eq("id"@, integer_or_text(id))
}

/// How a queued deletion is stored: the row is marked, or removed.
pub open spec fn queued_delete(schema: TableSchema, id: Seq<char>, now: Seq<char>) -> ActionV {
    if schema.del.type_delete@ == "soft"@ {
        ActionV::StoreUpdate(
            schema.table@,
            queued_filter(id),
            JsonV::Object(seq![("deleted_at"@, JsonV::Str(now))]),
        )
    } else {
        ActionV::StoreDelete(schema.table@, queued_filter(id))
    }
}

/// How a queued deletion is stored.
pub fn exec_delete(schema: &TableSchema, id: &str, now: &str) -> (r: Action)
    ensures
        r.deep_view() == queued_delete(*schema, id@, now@),
{
    broadcast use crate::json::lemma_object_view;

    let filter = Filter::Eq("id".to_owned(), id_param(id).to_val());
    if same(schema.del.type_delete.as_str(), "soft") {
        let mut patch: Vec<(String, Json)> = Vec::new();
        push_item(&mut patch, ("deleted_at".to_owned(), Json::Str(now.to_owned())));
        assert(patch.deep_view() =~= seq![("deleted_at"@, JsonV::Str(now@))]);
        Action::StoreUpdate(schema.table.clone(), filter, Json::Object(patch))
    } else {
        Action::StoreDelete(schema.table.clone(), filter)
    }
}

/// Where the carrying out of a queued write stands.
#[derive(Debug, PartialEq, Eq, Clone, Copy, Structural)]
pub enum JobStage {
    Start,
    Preparing,
    Storing,
    Ended,
}

/// A queued write that is carried out, with the entity of its route where there
/// is one.
#[derive(Debug)]
pub struct JobRun {
    pub job: WriteJob,
    pub schema: Option<TableSchema>,
    pub now: String,
    pub stage: JobStage,
}

/// What follows from a step: where the write stands, and what it asks for. Once
/// it is finished, the answers that are kept on its route are to be dropped.
pub type JobTurn = (JobStage, WorkV);

/// The write is done: its route is named.
pub open spec fn job_done(job: WriteJob) -> JobTurn {
    (JobStage::Ended, WorkV::Finish(job.route@, 1, JsonV::Null))
}

/// What is stored once the columns are prepared.
pub open spec fn job_stored(job: WriteJob, s: TableSchema, prep: Preparation, now: Seq<char>) -> ActionV {
    match job.op {
        WriteOpKind::Post => ActionV::StoreInsert(
            s.table@,
            JsonV::Object(
                queued_insert(
                    s,
                    job.body.deep_view(),
                    prep,
                    job.actor_id.deep_view(),
                    now,
                ),
            ),
        ),
        WriteOpKind::Put { id } => ActionV::StoreUpdate(
            s.table@,
            queued_filter(id@),
            JsonV::Object(queued_update(s, job.body.deep_view(), prep, now)),
        ),
        WriteOpKind::Delete { id } => queued_delete(s, id@, now),
    }
}

/// The next step of a queued write.
pub open spec fn job_next(
    job: WriteJob,
    schema: Option<TableSchema>,
    now: Seq<char>,
    stage: JobStage,
    o: Outcome,
) -> JobTurn {
    match schema {
        None => (JobStage::Ended, WorkV::Fail("Schema not found for "@ + job.route@)),
        Some(s) => match stage {
            JobStage::Start => match job.op {
                WriteOpKind::Delete { id } => (
                    JobStage::Storing,
                    WorkV::Ask(queued_delete(s, id@, now)),
                ),
                WriteOpKind::Post => (
                    JobStage::Preparing,
                    WorkV::Ask(
                        ActionV::Prepare(
                            asked_columns(
                                s.columns@,
                                insert_columns(s),
                                s.post.columns.deep_view(),
                                job.body.deep_view(),
                                true,
                            ),
                        ),
                    ),
                ),
                WriteOpKind::Put { .. } => (
                    JobStage::Preparing,
                    WorkV::Ask(
                        ActionV::Prepare(
                            asked_columns(
                                s.columns@,
                                put_columns(s),
                                s.put.columns.deep_view(),
                                job.body.deep_view(),
                                true,
                            ),
                        ),
                    ),
                ),
            },
            JobStage::Preparing => match o {
                Outcome::Prepared(prep) => (
                    JobStage::Storing,
                    WorkV::Ask(job_stored(job, s, prep, now)),
                ),
                _ => (JobStage::Ended, WorkV::Ask(ActionV::Fault)),
            },
            JobStage::Storing => match failure_in(o) {
                Some(e) => (JobStage::Ended, WorkV::Fail(e)),
                None => job_done(job),
            },
            JobStage::Ended => (JobStage::Ended, WorkV::Ask(ActionV::Nothing)),
        },
    }
}

/// A queued write that is to be carried out.
pub fn execute_job(job: WriteJob, schema: Option<TableSchema>, now: String) -> (r: JobRun)
    ensures
        r.job == job,
        r.schema == schema,
        r.now == now,
        r.stage == JobStage::Start,
{
    JobRun { job, schema, now, stage: JobStage::Start }
}

fn store_job(job: &WriteJob, s: &TableSchema, prep: &Preparation, now: &str) -> (r: Action)
    ensures
        r.deep_view() == job_stored(*job, *s, *prep, now@),
{
    broadcast use crate::json::lemma_object_view;

    match &job.op {
        WriteOpKind::Post => {
            let doc = exec_post(s, &job.body, prep, &job.actor_id, now);
            Action::StoreInsert(s.table.clone(), Json::Object(doc))
        },
        WriteOpKind::Put { id } => {
            let doc = exec_put(s, &job.body, prep, now);
            let filter = Filter::Eq("id".to_owned(), id_param(id.as_str()).to_val());
            Action::StoreUpdate(s.table.clone(), filter, Json::Object(doc))
        },
        WriteOpKind::Delete { id } => exec_delete(s, id.as_str(), now),
    }
}

fn begin_job(job: &WriteJob, s: &TableSchema, now: &str) -> (r: (JobStage, Work))
    ensures
        (r.0, r.1.deep_view()) == job_next(*job, Some(*s), now@, JobStage::Start, Outcome::Done),
{
    match &job.op {
        WriteOpKind::Delete { id } => (
            JobStage::Storing,
            Work::Ask(exec_delete(s, id.as_str(), now)),
        ),
        WriteOpKind::Post => {
            let picked = build_insert_columns(s);
            let asked = ask_columns(&s.columns, &picked, &s.post.columns, &job.body, true);
            (JobStage::Preparing, Work::Ask(Action::Prepare(asked)))
        },
        WriteOpKind::Put { .. } => {
            let picked = build_update_columns(&s.columns, &s.put.columns);
            let asked = ask_columns(&s.columns, &picked, &s.put.columns, &job.body, true);
            (JobStage::Preparing, Work::Ask(Action::Prepare(asked)))
        },
    }
}

impl JobRun {
    /// Takes the next step of the write, with what came of the last one.
    pub fn step(&mut self, outcome: Outcome) -> (r: Work)
        ensures
            final(self).job == old(self).job,
            final(self).schema == old(self).schema,
            final(self).now == old(self).now,
            (final(self).stage, r.deep_view()) == job_next(
                old(self).job,
                old(self).schema,
                old(self).now@,
                old(self).stage,
                outcome,
            ),
    {
        match &self.schema {
            None => {
                self.stage = JobStage::Ended;
                Work::Fail(told("Schema not found for ", self.job.route.as_str()))
            },
            Some(s) => match self.stage {
                JobStage::Start => {
                    let (stage, w) = begin_job(&self.job, s, self.now.as_str());
                    self.stage = stage;
                    w
                },
                JobStage::Preparing => match outcome {
                    Outcome::Prepared(prep) => {
                        let a = store_job(&self.job, s, &prep, self.now.as_str());
                        self.stage = JobStage::Storing;
                        Work::Ask(a)
                    },
                    _ => {
                        self.stage = JobStage::Ended;
                        Work::Ask(Action::Fault)
                    },
                },
                JobStage::Storing => match failure(&outcome) {
                    Some(e) => {
                        self.stage = JobStage::Ended;
                        Work::Fail(e.to_owned())
                    },
                    None => {
                        self.stage = JobStage::Ended;
                        Work::Finish(self.job.route.clone(), 1, Json::Null)
                    },
                },
                JobStage::Ended => Work::Ask(Action::Nothing),
            },
        }
    }
}

// ---------------------------------------------------------------------------
// Laws
// ---------------------------------------------------------------------------

proof fn lemma_queued_row_keys(
    schema: TableSchema,
    body: JsonV,
    prep: Preparation,
    n: int,
    name: Seq<char>,
)
    requires
        0 <= n <= insert_columns(schema).len(),
        is_audit_column(name),
        name != "id"@,
    ensures
        lookup(queued_row(schema, body, prep, n), name) is None,
    decreases n,
{
    if n > 0 {
        lemma_queued_row_keys(schema, body, prep, n - 1, name);
        lemma_insert_column_not_audit(schema, n - 1);
        let c = schema.columns@[insert_columns(schema)[n - 1] as int];
        let before = queued_row(schema, body, prep, n - 1);
        let text = given_text(field(body, c.name@));
        if !is_passed_over(c, entry_at(prep, n - 1)) && text.len() > 0 {
            let value = if c.encrypt {
                stored_at(prep, n - 1)
            } else {
                text
            };
            crate::json::law_set_then_get(
                before,
                c.name@,
                as_json(typed(value, ascii_lower(c.type_data@))),
                name,
            );
        }
    }
}

/// A queued write says itself when it was made: what its body holds for the audit
/// trail is not taken over.
pub proof fn law_queued_rows_cannot_set_audit_columns(
    schema: TableSchema,
    body: JsonV,
    prep: Preparation,
    actor: Option<Seq<char>>,
    now: Seq<char>,
    name: Seq<char>,
)
    requires
        is_audit_column(name),
        name != "created_at"@,
        name != "created_by_id"@,
    ensures
        lookup(queued_insert(schema, body, prep, actor, now), name) is None,
        lookup(queued_insert(schema, body, prep, actor, now), "created_at"@) == Some(
            JsonV::Str(now),
        ),
{
    reveal_strlit("id");
    reveal_strlit("created_at");
    reveal_strlit("created_by_id");
    reveal_strlit("updated_at");
    reveal_strlit("updated_by_id");
    reveal_strlit("deleted_at");
    reveal_strlit("deleted_by_id");
    assert("id"@.len() == 2 && "created_at"@.len() == 10 && "created_by_id"@.len() == 13);
    assert("updated_at"@.len() == 10 && "updated_by_id"@.len() == 13);
    assert("deleted_at"@.len() == 10 && "deleted_by_id"@.len() == 13);
    let n = insert_columns(schema).len() as int;
    let row = queued_row(schema, body, prep, n);
    lemma_queued_row_keys(schema, body, prep, n, name);
    let doc = with_field(row, "created_at"@, JsonV::Str(now));
    crate::json::law_set_then_get(row, "created_at"@, JsonV::Str(now), name);
    crate::json::law_set_then_get(row, "created_at"@, JsonV::Str(now), "created_at"@);
    match (column_named(schema.columns@, "created_by_id"@), queued_by(actor, body)) {
        (Some(c), Some(a)) => {
            let v = as_json(typed(a, ascii_lower(c.type_data@)));
            crate::json::law_set_then_get(doc, "created_by_id"@, v, name);
            crate::json::law_set_then_get(doc, "created_by_id"@, v, "created_at"@);
        },
        _ => {},
    }
}

/// A queued write does what it says: an insertion goes into the table of the entity,
/// an update or a deletion touches the row of its identifier, as a number where it
/// is a numeral, and no other, and rows are removed only where deletions are not
/// soft.
pub proof fn law_queued_writes_touch_their_row(
    job: WriteJob,
    schema: TableSchema,
    now: Seq<char>,
    stage: JobStage,
    o: Outcome,
    row: RowV,
    by: Collation,
)
    ensures
        ({
            let picked = |id: Seq<char>|
                match i64_value(id) {
                    Some(n) => row("id"@) == Scalar::I64(n),
                    None => row("id"@) == Scalar::Str(id),
                };
            match job_next(job, Some(schema), now, stage, o).1 {
                WorkV::Ask(a) => match a {
                    ActionV::StoreInsert(t, _) => t == schema.table@ && job.op is Post,
                    ActionV::StoreUpdate(t, f, doc) => {
                        &&& t == schema.table@
                        &&& match job.op {
                            WriteOpKind::Put { id } => satisfies(row, f, by) <==> picked(id@),
                            WriteOpKind::Delete { id } => {
                                &&& satisfies(row, f, by) <==> picked(id@)
                                &&& schema.del.type_delete@ == "soft"@
                                &&& field(doc, "deleted_at"@) == Some(JsonV::Str(now))
                            },
                            WriteOpKind::Post => false,
                        }
                    },
                    ActionV::StoreDelete(t, f) => {
                        &&& t == schema.table@
                        &&& schema.del.type_delete@ != "soft"@
                        &&& match job.op {
                            WriteOpKind::Delete { id } => satisfies(row, f, by) <==> picked(id@),
                            _ => false,
                        }
                    },
                    ActionV::CompileInsert(_, _, _) => false,
                    ActionV::CompileUpdate(_, _, _) => false,
                    ActionV::CompileDelete(_, _) => false,
                    _ => true,
                },
                WorkV::Finish(_, _, _) => stage == JobStage::Storing && failure_in(o) is None,
                _ => true,
            }
        }),
{
    let mark = seq![("deleted_at"@, JsonV::Str(now))];
    assert(key_at(mark, "deleted_at"@, 0) == Some(0int));
}

/// A queued write is made: once its columns are prepared it is stored, and it counts
/// as done once it was.
pub proof fn law_queued_writes_are_made(
    job: WriteJob,
    schema: TableSchema,
    now: Seq<char>,
    o: Outcome,
)
    ensures
        o is Prepared ==> {
            let w = job_next(job, Some(schema), now, JobStage::Preparing, o).1;
            &&& job.op is Post ==> w is Ask && w->Ask_0 is StoreInsert
            &&& job.op is Put ==> w is Ask && w->Ask_0 is StoreUpdate
        },
        job.op is Delete ==> {
            let w = job_next(job, Some(schema), now, JobStage::Start, o).1;
            w is Ask && (w->Ask_0 is StoreUpdate || w->Ask_0 is StoreDelete)
        },
        failure_in(o) is None ==> job_next(job, Some(schema), now, JobStage::Storing, o).1
            is Finish,
        failure_in(o) is Some ==> job_next(job, Some(schema), now, JobStage::Storing, o).1 is Fail,
{
}

/// What a document has under the name of a column is what a text gives for it.
pub open spec fn doc_is_typed(doc: Fields, name: Seq<char>, text: Seq<char>, t: Seq<char>) -> bool {
    &&& lookup(doc, name) is Some
    &&& contains(t, "int"@) && i64_value(text) is Some ==> lookup(doc, name) == Some(
        JsonV::Int(i64_value(text)->0),
    )
    &&& is_typed(Scalar::Str(text), text, t) ==> lookup(doc, name) == Some(JsonV::Str(text))
}

proof fn lemma_with_queued(doc: Fields, c: Column, body: JsonV, prep: Preparation, k: int, name: Seq<char>)
    ensures
        name != c.name@ ==> lookup(with_queued(doc, c, body, prep, k), name) == lookup(doc, name),
        field(body, c.name@) is Some && gives(field(body, c.name@)->0) is Some && !c.encrypt
            ==> doc_is_typed(
            with_queued(doc, c, body, prep, k),
            c.name@,
            gives(field(body, c.name@)->0)->0,
            ascii_lower(c.type_data@),
        ),
{
    let text = given_text(field(body, c.name@));
    let value = if c.encrypt {
        stored_at(prep, k)
    } else {
        text
    };
    let v = as_json(typed(value, ascii_lower(c.type_data@)));
    law_set_then_get(doc, c.name@, v, name);
    law_set_then_get(doc, c.name@, v, c.name@);
    law_typing_tells_the_text(value, ascii_lower(c.type_data@));
    if field(body, c.name@) is Some && gives(field(body, c.name@)->0) is Some {
        law_values_are_read_as_given(field(body, c.name@)->0);
    }
}

/// A queued row holds what its body gives: under the name of each column that is
/// inserted, that is not encrypted, and that no formula computes and no function
/// generates, stands what the body gives for it, typed by the column.
pub proof fn law_queued_rows_hold_what_is_given(
    schema: TableSchema,
    body: JsonV,
    prep: Preparation,
    n: int,
    k: int,
)
    requires
        0 <= k < n <= insert_columns(schema).len(),
        ({
            let c = schema.columns@[insert_columns(schema)[k] as int];
            &&& !c.auto_increment
            &&& !c.encrypt
            &&& c.name@ == "id"@ || entry_at(prep, k) is None
            &&& c.name@ == "id"@ ==> c.function@.len() == 0
            &&& field(body, c.name@) is Some
            &&& gives(field(body, c.name@)->0) is Some
            &&& forall|j: int|
                k < j < n ==> (#[trigger] schema.columns@[insert_columns(schema)[j] as int]).name@
                    != c.name@
        }),
    ensures
        ({
            let c = schema.columns@[insert_columns(schema)[k] as int];
            doc_is_typed(
                queued_row(schema, body, prep, n),
                c.name@,
                gives(field(body, c.name@)->0)->0,
                ascii_lower(c.type_data@),
            )
        }),
    decreases n,
{
    let c = schema.columns@[insert_columns(schema)[k] as int];
    let last = schema.columns@[insert_columns(schema)[n - 1] as int];
    let before = queued_row(schema, body, prep, n - 1);
    lemma_with_queued(before, last, body, prep, n - 1, c.name@);
    if k < n - 1 {
        assert(schema.columns@[insert_columns(schema)[n - 1] as int].name@ != c.name@);
        law_queued_rows_hold_what_is_given(schema, body, prep, n - 1, k);
    }
}

/// A queued update holds what its body gives, in the same way.
pub proof fn law_queued_changes_hold_what_is_given(
    schema: TableSchema,
    body: JsonV,
    prep: Preparation,
    n: int,
    k: int,
)
    requires
        0 <= k < n <= put_columns(schema).len(),
        ({
            let c = schema.columns@[put_columns(schema)[k] as int];
            &&& !c.encrypt
            &&& entry_at(prep, k) is None
            &&& field(body, c.name@) is Some
            &&& gives(field(body, c.name@)->0) is Some
            &&& forall|j: int|
                k < j < n ==> (#[trigger] schema.columns@[put_columns(schema)[j] as int]).name@
                    != c.name@
        }),
    ensures
        ({
            let c = schema.columns@[put_columns(schema)[k] as int];
            doc_is_typed(
                queued_changes(schema, body, prep, n),
                c.name@,
                gives(field(body, c.name@)->0)->0,
                ascii_lower(c.type_data@),
            )
        }),
    decreases n,
{
    let c = schema.columns@[put_columns(schema)[k] as int];
    let last = schema.columns@[put_columns(schema)[n - 1] as int];
    let before = queued_changes(schema, body, prep, n - 1);
    lemma_with_queued(before, last, body, prep, n - 1, c.name@);
    if k < n - 1 {
        assert(schema.columns@[put_columns(schema)[n - 1] as int].name@ != c.name@);
        law_queued_changes_hold_what_is_given(schema, body, prep, n - 1, k);
    }
}

proof fn lemma_update_columns(columns: Seq<Column>, names: Seq<Seq<char>>, n: int, j: int)
    requires
        0 <= j < n <= columns.len() <= usize::MAX,
        !is_audit_column(columns[j].name@),
        names.contains(columns[j].name@),
    ensures
        update_columns(columns, names, n).contains(j as usize),
    decreases n,
{
    let all = update_columns(columns, names, n);
    let before = update_columns(columns, names, n - 1);
    if j < n - 1 {
        lemma_update_columns(columns, names, n - 1, j);
        let i = choose|i: int| 0 <= i < before.len() && before[i] == j as usize;
        assert(all[i] == j as usize);
    } else {
        assert(all[all.len() - 1] == j as usize);
    }
}

/// A queued update leaves out no configured column but those of the audit trail, and
/// stores the changes with when they were made.
pub proof fn law_queued_updates_are_whole(
    schema: TableSchema,
    body: JsonV,
    prep: Preparation,
    now: Seq<char>,
    j: int,
    name: Seq<char>,
)
    requires
        0 <= j < schema.columns@.len() <= usize::MAX,
    ensures
        !is_audit_column(schema.columns@[j].name@) && schema.put.columns.deep_view().contains(
            schema.columns@[j].name@,
        ) ==> put_columns(schema).contains(j as usize),
        name != "updated_at"@ && name != "updated_by_id"@ ==> lookup(
            queued_update(schema, body, prep, now),
            name,
        ) == lookup(queued_changes(schema, body, prep, put_columns(schema).len() as int), name),
        lookup(queued_update(schema, body, prep, now), "updated_at"@) == Some(JsonV::Str(now)),
{
    if !is_audit_column(schema.columns@[j].name@) && schema.put.columns.deep_view().contains(
        schema.columns@[j].name@,
    ) {
        lemma_update_columns(
            schema.columns@,
            schema.put.columns.deep_view(),
            schema.columns@.len() as int,
            j,
        );
    }
    reveal_strlit("updated_at");
    reveal_strlit("updated_by_id");
    assert("updated_at"@.len() != "updated_by_id"@.len());
    let row = queued_changes(schema, body, prep, put_columns(schema).len() as int);
    let doc = with_field(row, "updated_at"@, JsonV::Str(now));
    law_set_then_get(row, "updated_at"@, JsonV::Str(now), name);
    law_set_then_get(row, "updated_at"@, JsonV::Str(now), "updated_at"@);
    if let (Some(c), Some(a)) = (
        column_named(schema.columns@, "updated_by_id"@),
        queued_by(None, body),
    ) {
        let v = as_json(typed(a, ascii_lower(c.type_data@)));
        law_set_then_get(doc, "updated_by_id"@, v, name);
        law_set_then_get(doc, "updated_by_id"@, v, "updated_at"@);
    }
}

/// A queued insertion stores its row: under each name but those of who made it, and
/// when, stands what the row has.
pub proof fn law_queued_insertions_are_whole(
    schema: TableSchema,
    body: JsonV,
    prep: Preparation,
    actor: Option<Seq<char>>,
    now: Seq<char>,
    name: Seq<char>,
)
    requires
        name != "created_at"@,
        name != "created_by_id"@,
    ensures
        lookup(queued_insert(schema, body, prep, actor, now), name) == lookup(
            queued_row(schema, body, prep, insert_columns(schema).len() as int),
            name,
        ),
{
    let row = queued_row(schema, body, prep, insert_columns(schema).len() as int);
    let doc = with_field(row, "created_at"@, JsonV::Str(now));
    law_set_then_get(row, "created_at"@, JsonV::Str(now), name);
    if let (Some(c), Some(a)) = (
        column_named(schema.columns@, "created_by_id"@),
        queued_by(actor, body),
    ) {
        law_set_then_get(
            doc,
            "created_by_id"@,
            as_json(typed(a, ascii_lower(c.type_data@))),
            name,
        );
    }
}

} // verus!
