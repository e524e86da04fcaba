//! Answers to requests, and what the steps of a request ask for.
use crate::ast::{DbParam, Filter, FilterV, InsertValue, InsertValueV, Query, QueryV, Scalar};
use crate::auth::Claims;
use crate::consumer::{WriteJob, WriteJobV};
use crate::filters::Split;
use crate::generate::{CreateTable, CreateTableV};
use crate::json::{field, set_in, with_field, Json, JsonV};
use crate::reading::{SplitRequest, SplitRequestV};
use crate::text::same;
use crate::validation::{FkCheck, FkCheckV, UniqueCheck, UniqueCheckV};
use vstd::prelude::*;
use vstd::string::*;

verus! {

/// The body of an answer.
#[derive(Debug, PartialEq)]
pub struct WebResponse {
    pub success: bool,
    pub message: String,
    pub total_data: i32,
    pub data: Json,
}

/// What the body of an answer is.
pub struct WebResponseV {
    pub success: bool,
    pub message: Seq<char>,
    pub total_data: i32,
    pub data: JsonV,
}

impl DeepView for WebResponse {
    type V = WebResponseV;

    open spec fn deep_view(&self) -> WebResponseV {
        WebResponseV {
            success: self.success,
            message: self.message@,
            total_data: self.total_data,
            data: self.data.deep_view(),
        }
    }
}

/// An answer: its HTTP status and its body.
#[derive(Debug, PartialEq)]
pub struct Reply {
    pub status: u16,
    pub body: WebResponse,
}

/// What an answer is.
pub struct ReplyV {
    pub status: u16,
    pub body: WebResponseV,
}

impl DeepView for Reply {
    type V = ReplyV;

    open spec fn deep_view(&self) -> ReplyV {
        ReplyV { status: self.status, body: self.body.deep_view() }
    }
}

/// A refusal: nothing was done.
pub open spec fn refusal(message: Seq<char>) -> WebResponseV {
    WebResponseV { success: false, message, total_data: 0, data: JsonV::Null }
}

/// The answer of a success.
pub open spec fn success(message: Seq<char>, total: i32, data: JsonV) -> WebResponseV {
    WebResponseV { success: true, message, total_data: total, data }
}

/// The body of a refusal.
pub fn web_err(msg: String) -> (r: WebResponse)
    ensures
        r.deep_view() == refusal(msg@),
{
    WebResponse { success: false, message: msg, total_data: 0, data: Json::Null }
}

/// A refusal with a status.
pub open spec fn refused(status: u16, message: Seq<char>) -> ReplyV {
    ReplyV { status, body: refusal(message) }
}

/// A refusal with a status.
pub fn refuse(status: u16, message: String) -> (r: Reply)
    ensures
        r.deep_view() == refused(status, message@),
{
    Reply { status, body: web_err(message) }
}

/// The answer of a success with status 200.
pub open spec fn succeeded(message: Seq<char>, total: i32, data: JsonV) -> ReplyV {
    ReplyV { status: 200, body: success(message, total, data) }
}

/// The answer of a success with status 200.
pub fn succeed(message: &str, total: i32, data: Json) -> (r: Reply)
    ensures
        r.deep_view() == succeeded(message@, total, data.deep_view()),
{
    Reply {
        status: 200,
        body: WebResponse { success: true, message: message.to_owned(), total_data: total, data },
    }
}

/// A message with something behind it.
pub fn told(prefix: &str, rest: &str) -> (r: String)
    ensures
        r@ == prefix@ + rest@,
{
    let mut m = prefix.to_owned();
    m.append(rest);
    m
}

/// What is said of an entity that is not configured.
pub open spec fn missing_entity(route: Seq<char>) -> Seq<char> {
    "Entity "@ + route + " on folder config/"@ + route + ".json not found"@
}

/// What is said of an entity that is not configured.
pub fn say_missing_entity(route: &str) -> (r: String)
    ensures
        r@ == missing_entity(route@),
{
    let mut m = "Entity ".to_owned();
    m.append(route);
    m.append(" on folder config/");
    m.append(route);
    m.append(".json not found");
    m
}

/// The answer that a write was queued.
pub open spec fn enqueued() -> ReplyV {
    ReplyV { status: 202, body: success("Enqueued"@, 0, JsonV::Null) }
}

/// The answer that a write was queued.
pub fn say_enqueued() -> (r: Reply)
    ensures
        r.deep_view() == enqueued(),
{
    Reply {
        status: 202,
        body: WebResponse {
            success: true,
            message: "Enqueued".to_owned(),
            total_data: 0,
            data: Json::Null,
        },
    }
}

/// An entry of the audit log.
#[derive(Debug, PartialEq)]
pub struct Audit {
    pub action: String,
    pub actor_id: String,
    pub id: Option<String>,
}

/// What an entry of the audit log is.
pub struct AuditV {
    pub action: Seq<char>,
    pub actor_id: Seq<char>,
    pub id: Option<Seq<char>>,
}

impl DeepView for Audit {
    type V = AuditV;

    open spec fn deep_view(&self) -> AuditV {
        AuditV {
            action: self.action@,
            actor_id: self.actor_id@,
            id: match self.id {
                Some(i) => Some(i@),
                None => None,
            },
        }
    }
}

/// What a step of a request asks for next.
#[derive(Debug)]
pub enum Action {
    /// Nothing: the request was answered.
    Nothing,
    /// Verify the token of the request.
    VerifyToken,
    /// Check that the bearer of the token may do this.
    CheckAccess(String),
    /// Check that the bearer of the token may make this request.
    CheckRequest,
    /// Count a request under a key, which may be counted so often in a second.
    RateLimit(String, u32),
    /// Look up the answer of a tenant to a request, by the request's parameters,
    /// in the cache of this process.
    LookUpLocal(String, String),
    /// Look it up in the shared cache.
    LookUpShared(String, String),
    /// Drop it from the shared cache.
    DropShared(String, String),
    /// Answer with what was found in a cache; keep it in the cache of this
    /// process where it was found in the shared one.
    AnswerFound,
    /// Keep an answer in the cache of this process, where that is asked for, and
    /// in the shared one, for some seconds, and answer.
    KeepAndAnswer(String, String, bool, Option<usize>, Reply),
    /// Read the fields of the request's body.
    ReadBody,
    /// Take the parameters of the request apart.
    TakeApart(Vec<SplitRequest>),
    /// Write the audit log and send a file.
    SendFile(Audit, FileReply),
    /// Read the uploaded file and the fields beside it.
    ReadUpload,
    /// Encrypt those of some values that are marked, unless they are encrypted
    /// already.
    Encrypt(Vec<(String, bool)>),
    /// Look up, for the columns that are to be written, what the configuration
    /// says of them, and encrypt their values.
    Prepare(ColumnRequest),
    /// Run a statement outside of any transaction.
    QueryDb(String, Vec<DbParam>),
    /// Build a statement from a configured formula and the request's body.
    BuildFormula(String, Json),
    /// Check some foreign keys with one statement, in the transaction where one
    /// is open.
    CheckKeys(Vec<FkCheck>),
    /// Check some unique indexes of a table with one statement, in the
    /// transaction where one is open; the row with the given key is left out.
    CheckUnique(String, Vec<UniqueCheck>, Option<(String, DbParam)>),
    /// Build an address from a configured one and the request's body.
    BuildUrl(String, Json),
    /// Fetch an answer from an address, and pick what stands under a path in it.
    FetchNumber(String, String),
    /// Have the request's body validated by a configured service.
    ValidateApi(String, Json),
    /// Run the triggers of an entity for an event, in the transaction, and write
    /// an audit log of each that ran.
    RunTriggers(Trigger),
    /// Find the first of some files that is there.
    FindFile(Vec<String>),
    /// Read a file.
    ReadFile(String),
    /// Read some texts as JSON.
    ReadJson(Vec<String>),
    /// Compile an insertion of a document.
    CompileDocument(String, Json),
    /// Compile the definition of a table, and of its indexes.
    CompileTable(CreateTable),
    /// Compare values with those that are expected of them.
    CompareValues(Vec<(Json, Json)>),
    /// Stop: the request cannot be carried out, nor answered.
    Fault,
    /// Put a write into the queue.
    Enqueue(WriteJob),
    /// Put a write into the queue in the background, and answer.
    EnqueueInBackground(WriteJob, Reply),
    /// Put some writes into the queue in the background, and answer.
    EnqueueAllInBackground(Vec<WriteJob>, Reply),
    /// Compile an insertion of several rows, with the names of their columns.
    CompileBulk(String, Vec<String>, Vec<Vec<InsertValue>>),
    /// Compile an insertion, with the columns that it should return. It is tried
    /// without returning any where that cannot be compiled.
    CompileInsert(String, Vec<(String, InsertValue)>, Vec<String>),
    /// Compile an update of the rows that a filter picks.
    CompileUpdate(String, Filter, Vec<(String, InsertValue)>),
    /// Compile a deletion of the rows that a filter picks.
    CompileDelete(String, Filter),
    /// Compile an insertion of the rows of a query, with what is done where a
    /// row is there already.
    CompileUpsert(Upsert),
    /// Compile the call of a stored procedure with some values.
    CompileCall(String, Vec<DbParam>),
    /// Begin a transaction.
    Begin,
    /// Run, in the transaction, what was compiled last; an empty statement where
    /// nothing was compiled.
    RunCompiled,
    /// Run a statement, with the values that it binds, in the transaction.
    RunSql(String, Vec<DbParam>),
    /// Do so with the placeholders of the statement written as the database has
    /// them.
    RunNative(String, Vec<DbParam>),
    /// Build a statement from a configured formula and the request's body, and
    /// run it in the transaction.
    CheckFormula(String, Json),
    /// Run a configured formula, on the request's body, in the transaction.
    RunFormula(String, Json),
    /// Follow the foreign keys of a deletion or of a change of a key, in the
    /// transaction.
    FollowKeys(KeyChange),
    /// Insert a document into a store without transactions.
    StoreInsert(String, Json),
    /// Update the documents that a filter picks, in a store without
    /// transactions.
    StoreUpdate(String, Filter, Json),
    /// Update the rows that a filter picks, in the transaction.
    UpdateRows(String, Filter, Json),
    /// Delete the documents that a filter picks, in a store without
    /// transactions.
    StoreDelete(String, Filter),
    /// Run a query, in the transaction where one is open.
    RunQuery(Query),
    /// Run a query outside of any transaction.
    FindRows(Query),
    /// Commit the transaction.
    Commit,
    /// Roll the transaction back, whatever comes of it, and answer.
    Abort(Reply),
    /// Drop the transaction, and answer.
    Abandon(Reply),
    /// Empty the cache of this process, drop the answers on a route from the
    /// shared cache, write the audit log, each where asked for, and answer.
    Settle(Option<String>, Option<Audit>, Reply),
    /// Commit the transaction, whatever comes of it, and answer.
    CommitAndAnswer(Reply),
    /// Commit the transaction, whatever comes of it, write the audit log and
    /// answer.
    CommitAndConclude(Audit, Reply),
    /// Answer.
    Answer(Reply),
    /// Write the audit log and answer.
    Conclude(Audit, Reply),
}

/// What such a request is.
pub enum ActionV {
    Nothing,
    VerifyToken,
    CheckAccess(Seq<char>),
    CheckRequest,
    RateLimit(Seq<char>, u32),
    LookUpLocal(Seq<char>, Seq<char>),
    LookUpShared(Seq<char>, Seq<char>),
    DropShared(Seq<char>, Seq<char>),
    AnswerFound,
    KeepAndAnswer(Seq<char>, Seq<char>, bool, Option<usize>, ReplyV),
    ReadBody,
    TakeApart(Seq<SplitRequestV>),
    SendFile(AuditV, FileReplyV),
    ReadUpload,
    Encrypt(Seq<(Seq<char>, bool)>),
    Prepare(ColumnRequestV),
    QueryDb(Seq<char>, Seq<Scalar>),
    BuildFormula(Seq<char>, JsonV),
    CheckKeys(Seq<FkCheckV>),
    CheckUnique(Seq<char>, Seq<UniqueCheckV>, Option<(Seq<char>, Scalar)>),
    BuildUrl(Seq<char>, JsonV),
    FetchNumber(Seq<char>, Seq<char>),
    ValidateApi(Seq<char>, JsonV),
    RunTriggers(TriggerV),
    FindFile(Seq<Seq<char>>),
    ReadFile(Seq<char>),
    ReadJson(Seq<Seq<char>>),
    CompileDocument(Seq<char>, JsonV),
    CompileTable(CreateTableV),
    CompareValues(Seq<(JsonV, JsonV)>),
    Fault,
    Enqueue(WriteJobV),
    EnqueueInBackground(WriteJobV, ReplyV),
    EnqueueAllInBackground(Seq<WriteJobV>, ReplyV),
    CompileBulk(Seq<char>, Seq<Seq<char>>, Seq<Seq<InsertValueV>>),
    CompileInsert(Seq<char>, Seq<(Seq<char>, InsertValueV)>, Seq<Seq<char>>),
    CompileUpdate(Seq<char>, FilterV, Seq<(Seq<char>, InsertValueV)>),
    CompileDelete(Seq<char>, FilterV),
    CompileUpsert(UpsertV),
    CompileCall(Seq<char>, Seq<Scalar>),
    Begin,
    RunCompiled,
    RunSql(Seq<char>, Seq<Scalar>),
    RunNative(Seq<char>, Seq<Scalar>),
    CheckFormula(Seq<char>, JsonV),
    RunFormula(Seq<char>, JsonV),
    FollowKeys(KeyChangeV),
    StoreInsert(Seq<char>, JsonV),
    StoreUpdate(Seq<char>, FilterV, JsonV),
    UpdateRows(Seq<char>, FilterV, JsonV),
    StoreDelete(Seq<char>, FilterV),
    RunQuery(QueryV),
    FindRows(QueryV),
    Commit,
    Abort(ReplyV),
    Abandon(ReplyV),
    Settle(Option<Seq<char>>, Option<AuditV>, ReplyV),
    CommitAndAnswer(ReplyV),
    CommitAndConclude(AuditV, ReplyV),
    Answer(ReplyV),
    Conclude(AuditV, ReplyV),
}

impl DeepView for Action {
    type V = ActionV;

    open spec fn deep_view(&self) -> ActionV {
        match self {
            Action::Nothing => ActionV::Nothing,
            Action::VerifyToken => ActionV::VerifyToken,
            Action::CheckAccess(m) => ActionV::CheckAccess(m@),
            Action::CheckRequest => ActionV::CheckRequest,
            Action::RateLimit(k, n) => ActionV::RateLimit(k@, *n),
            Action::LookUpLocal(a, b) => ActionV::LookUpLocal(a@, b@),
            Action::LookUpShared(a, b) => ActionV::LookUpShared(a@, b@),
            Action::DropShared(a, b) => ActionV::DropShared(a@, b@),
            Action::AnswerFound => ActionV::AnswerFound,
            Action::KeepAndAnswer(a, b, l, s, r) => ActionV::KeepAndAnswer(
                a@,
                b@,
                *l,
                *s,
                r.deep_view(),
            ),
            Action::ReadBody => ActionV::ReadBody,
            Action::TakeApart(r) => ActionV::TakeApart(r.deep_view()),
            Action::SendFile(a, f) => ActionV::SendFile(a.deep_view(), f.deep_view()),
            Action::ReadUpload => ActionV::ReadUpload,
            Action::Encrypt(v) => ActionV::Encrypt(v.deep_view()),
            Action::Prepare(c) => ActionV::Prepare(c.deep_view()),
            Action::QueryDb(s, p) => ActionV::QueryDb(s@, p.deep_view()),
            Action::BuildFormula(s, b) => ActionV::BuildFormula(s@, b.deep_view()),
            Action::CheckKeys(c) => ActionV::CheckKeys(c.deep_view()),
            Action::CheckUnique(t, c, k) => ActionV::CheckUnique(
                t@,
                c.deep_view(),
                k.deep_view(),
            ),
            Action::BuildUrl(u, b) => ActionV::BuildUrl(u@, b.deep_view()),
            Action::FetchNumber(u, p) => ActionV::FetchNumber(u@, p@),
            Action::ValidateApi(f, b) => ActionV::ValidateApi(f@, b.deep_view()),
            Action::RunTriggers(t) => ActionV::RunTriggers(t.deep_view()),
            Action::FindFile(v) => ActionV::FindFile(v.deep_view()),
            Action::ReadFile(p) => ActionV::ReadFile(p@),
            Action::ReadJson(v) => ActionV::ReadJson(v.deep_view()),
            Action::CompileDocument(t, d) => ActionV::CompileDocument(t@, d.deep_view()),
            Action::CompileTable(t) => ActionV::CompileTable(t.deep_view()),
            Action::CompareValues(v) => ActionV::CompareValues(v.deep_view()),
            Action::Fault => ActionV::Fault,
            Action::Enqueue(j) => ActionV::Enqueue(j.deep_view()),
            Action::EnqueueInBackground(j, r) => ActionV::EnqueueInBackground(
                j.deep_view(),
                r.deep_view(),
            ),
            Action::EnqueueAllInBackground(js, r) => ActionV::EnqueueAllInBackground(
                js.deep_view(),
                r.deep_view(),
            ),
            Action::CompileBulk(t, c, rows) => ActionV::CompileBulk(
                t@,
                c.deep_view(),
                rows.deep_view(),
            ),
            Action::CompileInsert(t, f, c) => ActionV::CompileInsert(
                t@,
                f.deep_view(),
                c.deep_view(),
            ),
            Action::CompileUpdate(t, w, f) => ActionV::CompileUpdate(
                t@,
                w.deep_view(),
                f.deep_view(),
            ),
            Action::CompileDelete(t, w) => ActionV::CompileDelete(t@, w.deep_view()),
            Action::CompileUpsert(u) => ActionV::CompileUpsert(u.deep_view()),
            Action::CompileCall(p, v) => ActionV::CompileCall(p@, v.deep_view()),
            Action::Begin => ActionV::Begin,
            Action::RunCompiled => ActionV::RunCompiled,
            Action::RunSql(s, p) => ActionV::RunSql(s@, p.deep_view()),
            Action::RunNative(s, p) => ActionV::RunNative(s@, p.deep_view()),
            Action::CheckFormula(s, b) => ActionV::CheckFormula(s@, b.deep_view()),
            Action::RunFormula(s, b) => ActionV::RunFormula(s@, b.deep_view()),
            Action::FollowKeys(c) => ActionV::FollowKeys(c.deep_view()),
            Action::StoreInsert(t, d) => ActionV::StoreInsert(t@, d.deep_view()),
            Action::StoreUpdate(t, w, d) => ActionV::StoreUpdate(
                t@,
                w.deep_view(),
                d.deep_view(),
            ),
            Action::UpdateRows(t, w, d) => ActionV::UpdateRows(t@, w.deep_view(), d.deep_view()),
            Action::StoreDelete(t, w) => ActionV::StoreDelete(t@, w.deep_view()),
            Action::RunQuery(q) => ActionV::RunQuery(q.deep_view()),
            Action::FindRows(q) => ActionV::FindRows(q.deep_view()),
            Action::Commit => ActionV::Commit,
            Action::Abort(r) => ActionV::Abort(r.deep_view()),
            Action::Abandon(r) => ActionV::Abandon(r.deep_view()),
            Action::Settle(p, a, r) => ActionV::Settle(
                p.deep_view(),
                a.deep_view(),
                r.deep_view(),
            ),
            Action::CommitAndAnswer(r) => ActionV::CommitAndAnswer(r.deep_view()),
            Action::CommitAndConclude(a, r) => ActionV::CommitAndConclude(
                a.deep_view(),
                r.deep_view(),
            ),
            Action::Answer(r) => ActionV::Answer(r.deep_view()),
            Action::Conclude(a, r) => ActionV::Conclude(a.deep_view(), r.deep_view()),
        }
    }
}

/// A row that is deleted, or whose key changes.
#[derive(Debug)]
pub struct KeyChange {
    /// `DELETE` or `UPDATE`.
    pub process: String,
    pub route: String,
    /// Who makes the change.
    pub user: String,
    pub id: String,
    /// The new key, where it changes.
    pub id_new: String,
}

/// What such a change is.
pub struct KeyChangeV {
    pub process: Seq<char>,
    pub route: Seq<char>,
    pub user: Seq<char>,
    pub id: Seq<char>,
    pub id_new: Seq<char>,
}

impl DeepView for KeyChange {
    type V = KeyChangeV;

    open spec fn deep_view(&self) -> KeyChangeV {
        KeyChangeV {
            process: self.process@,
            route: self.route@,
            user: self.user@,
            id: self.id@,
            id_new: self.id_new@,
        }
    }
}

/// The deletion of a row.
pub open spec fn key_deleted(route: Seq<char>, user: Seq<char>, id: Seq<char>) -> KeyChangeV {
    KeyChangeV { process: "DELETE"@, route, user, id, id_new: Seq::empty() }
}

/// The deletion of a row.
pub fn delete_key(route: &str, user: &str, id: &str) -> (r: KeyChange)
    ensures
        r.deep_view() == key_deleted(route@, user@, id@),
{
    KeyChange {
        process: "DELETE".to_owned(),
        route: route.to_owned(),
        user: user.to_owned(),
        id: id.to_owned(),
        id_new: String::new(),
    }
}

/// Columns that are to be written.
#[derive(Debug)]
pub struct ColumnRequest {
    /// The configured entries that the columns are looked up in.
    pub entries: Vec<String>,
    /// The names of the columns.
    pub names: Vec<String>,
    /// The value of each column, and whether it is encrypted unless it is
    /// already.
    pub values: Vec<(String, bool)>,
}

/// What such columns are.
pub struct ColumnRequestV {
    pub entries: Seq<Seq<char>>,
    pub names: Seq<Seq<char>>,
    pub values: Seq<(Seq<char>, bool)>,
}

impl DeepView for ColumnRequest {
    type V = ColumnRequestV;

    open spec fn deep_view(&self) -> ColumnRequestV {
        ColumnRequestV {
            entries: self.entries.deep_view(),
            names: self.names.deep_view(),
            values: self.values.deep_view(),
        }
    }
}

/// What was found out of the columns that are to be written, in their order.
#[derive(Debug)]
pub struct Preparation {
    /// The configured entry that a column matches.
    pub matches: Vec<Option<String>>,
    /// The expressions of the column's formula, each with the subquery that it
    /// stands for where it reads a table.
    pub expressions: Vec<Vec<(String, String)>>,
    /// The column's value as it is stored.
    pub stored: Vec<String>,
}

/// What came of a step.
#[derive(Debug)]
pub enum Outcome {
    /// It was done.
    Done,
    /// The token is that of this actor.
    Identified(String),
    /// The token says this of its bearer.
    Claimed(Claims),
    /// It was found.
    Found,
    /// It was done and gave these rows.
    Rows(Vec<Json>),
    /// It failed with this message.
    Failed(String),
    /// A statement could not be built from a formula.
    NotBuilt(String),
    /// The fields of the body.
    Body(Vec<(String, Json)>),
    /// What was found out of the columns.
    Prepared(Preparation),
    /// It was done and gave this value.
    Value(Json),
    /// The statement that was built from a formula.
    Built(String, Vec<DbParam>),
    /// What was uploaded.
    Uploaded(Upload),
    /// What went wrong while the upload was read.
    UploadFailed(UploadFault),
    /// Values as they are stored.
    Texts(Vec<String>),
    /// What the parameters were taken apart into.
    TakenApart(Vec<Vec<Split>>),
    /// The answer of a service with this status was a refusal, with this text.
    Rejected(String, String),
    /// A query failed with this message; the query as it is written down.
    QueryFailed(String, String),
    /// What some texts hold as JSON, where they are JSON.
    Parsed(Vec<Option<Json>>),
    /// For each comparison, whether the values match.
    Flags(Vec<bool>),
    /// It was done and changed so many rows.
    Count(i32),
    /// What stands under a path in the answer of a service.
    Picked(Option<Json>),
}

/// An insertion of the rows of a query.
#[derive(Debug)]
pub struct Upsert {
    pub table: String,
    pub columns: Vec<String>,
    pub query: Query,
    /// The columns by which a row is told to be there already.
    pub keys: Vec<String>,
    /// What is assigned then, besides the columns.
    pub assignments: Vec<String>,
}

/// What such an insertion is.
pub struct UpsertV {
    pub table: Seq<char>,
    pub columns: Seq<Seq<char>>,
    pub query: QueryV,
    pub keys: Seq<Seq<char>>,
    pub assignments: Seq<Seq<char>>,
}

impl DeepView for Upsert {
    type V = UpsertV;

    open spec fn deep_view(&self) -> UpsertV {
        UpsertV {
            table: self.table@,
            columns: self.columns.deep_view(),
            query: self.query.deep_view(),
            keys: self.keys.deep_view(),
            assignments: self.assignments.deep_view(),
        }
    }
}

/// Triggers that are run for an event on a row.
#[derive(Debug)]
pub struct Trigger {
    pub event: String,
    /// The action under which each trigger that ran is logged.
    pub action: String,
    /// The key of the row.
    pub key: String,
    /// Who set them off, where that is known.
    pub actor: Option<String>,
    pub old_record: Vec<(String, Json)>,
    pub new_record: Vec<(String, Json)>,
    pub body: Json,
}

/// What such triggers are run for.
pub struct TriggerV {
    pub event: Seq<char>,
    pub action: Seq<char>,
    pub key: Seq<char>,
    pub actor: Option<Seq<char>>,
    pub old_record: Seq<(Seq<char>, JsonV)>,
    pub new_record: Seq<(Seq<char>, JsonV)>,
    pub body: JsonV,
}

impl DeepView for Trigger {
    type V = TriggerV;

    open spec fn deep_view(&self) -> TriggerV {
        TriggerV {
            event: self.event@,
            action: self.action@,
            key: self.key@,
            actor: self.actor.deep_view(),
            old_record: self.old_record.deep_view(),
            new_record: self.new_record.deep_view(),
            body: self.body.deep_view(),
        }
    }
}

/// What a step of a write asks for, or how the write ended.
#[derive(Debug)]
pub enum Work {
    /// Something is to be done next.
    Ask(Action),
    /// It failed, with no transaction open.
    Fail(String),
    /// It failed: the transaction is to be rolled back.
    Abort(String),
    /// It failed: the transaction is to be dropped.
    Abandon(String),
    /// It is done: the message, the number of rows and the data of the answer.
    Finish(String, i32, Json),
}

/// What such a step asks for.
pub enum WorkV {
    Ask(ActionV),
    Fail(Seq<char>),
    Abort(Seq<char>),
    Abandon(Seq<char>),
    Finish(Seq<char>, i32, JsonV),
}

impl DeepView for Work {
    type V = WorkV;

    open spec fn deep_view(&self) -> WorkV {
        match self {
            Work::Ask(a) => WorkV::Ask(a.deep_view()),
            Work::Fail(m) => WorkV::Fail(m@),
            Work::Abort(m) => WorkV::Abort(m@),
            Work::Abandon(m) => WorkV::Abandon(m@),
            Work::Finish(m, n, d) => WorkV::Finish(m@, *n, d.deep_view()),
        }
    }
}

/// A file that is sent as an answer.
#[derive(Debug, PartialEq)]
pub struct FileReply {
    pub content_type: String,
    pub disposition: String,
    pub bytes: Vec<u8>,
}

/// What such a file is.
pub struct FileReplyV {
    pub content_type: Seq<char>,
    pub disposition: Seq<char>,
    pub bytes: Seq<u8>,
}

impl DeepView for FileReply {
    type V = FileReplyV;

    open spec fn deep_view(&self) -> FileReplyV {
        FileReplyV {
            content_type: self.content_type@,
            disposition: self.disposition@,
            bytes: self.bytes@,
        }
    }
}

/// An uploaded file and the fields beside it.
#[derive(Debug)]
pub struct Upload {
    pub filename: String,
    /// The type that was declared for the file.
    pub declared: Option<String>,
    pub file: Option<Vec<u8>>,
    pub extra: Vec<(String, Json)>,
}

/// What went wrong while an upload was read.
#[derive(Debug)]
pub enum UploadFault {
    /// A part could not be read.
    Part(String),
    /// A piece of the file could not be read.
    Chunk(String),
    /// A piece of a field could not be read.
    Field(String, String),
    /// The file is larger than is allowed.
    TooLarge,
}

impl Upload {
    /// An upload of which nothing was read yet.
    pub fn new() -> (r: Upload)
        ensures
            r.filename@ == Seq::<char>::empty(),
            r.declared is None,
            r.file is None,
            r.extra@.len() == 0,
    {
        Upload { filename: String::new(), declared: None, file: None, extra: Vec::new() }
    }

    /// Adds the file, with its name where one was given.
    pub fn set_file(&mut self, filename: Option<String>, declared: Option<String>, bytes: Vec<u8>)
        ensures
            final(self).filename == match filename {
                Some(n) => n,
                None => old(self).filename,
            },
            final(self).declared == declared,
            final(self).file == Some(bytes),
            final(self).extra == old(self).extra,
    {
        match filename {
            Some(n) => {
                self.filename = n;
            },
            None => {},
        }
        self.declared = declared;
        self.file = Some(bytes);
    }

    /// Sets a field beside the file.
    pub fn set_field(&mut self, name: &str, text: String)
        ensures
            final(self).filename == old(self).filename,
            final(self).declared == old(self).declared,
            final(self).file == old(self).file,
            final(self).extra.deep_view() == with_field(
                old(self).extra.deep_view(),
                name@,
                JsonV::Str(text@),
            ),
    {
        set_in(&mut self.extra, name, Json::Str(text));
    }
}

/// Takes a piece of an uploaded file, unless the file becomes larger than is
/// allowed. Returns whether it was taken.
pub fn take_chunk(buffer: &mut Vec<u8>, chunk: &Vec<u8>, max: usize) -> (r: bool)
    requires
        old(buffer)@.len() <= max,
    ensures
        r == (old(buffer)@.len() + chunk@.len() <= max),
        r ==> final(buffer)@ == old(buffer)@ + chunk@,
        !r ==> final(buffer)@ == old(buffer)@,
{
    if chunk.len() > max - buffer.len() {
        return false;
    }
    let ghost start = buffer@;
    let mut i: usize = 0;
    assert(start + chunk@.take(0) =~= start);
    while i < chunk.len()
        invariant
            i <= chunk@.len(),
            buffer@ == start + chunk@.take(i as int),
        decreases chunk.len() - i,
    {
        buffer.push(chunk[i]);
        i += 1;
        assert(chunk@.take(i as int) =~= chunk@.take(i - 1).push(chunk@[i - 1]));
        assert(buffer@ =~= start + chunk@.take(i as int));
    }
    assert(chunk@.take(chunk@.len() as int) =~= chunk@);
    true
}

/// The rows that a step gave.
pub open spec fn rows_in(o: Outcome) -> Seq<JsonV> {
    match o {
        Outcome::Rows(rows) => rows.deep_view(),
        _ => Seq::empty(),
    }
}

/// The message of a failure.
pub open spec fn failure_in(o: Outcome) -> Option<Seq<char>> {
    match o {
        Outcome::Failed(e) => Some(e@),
        Outcome::NotBuilt(e) => Some(e@),
        Outcome::QueryFailed(e, _) => Some(e@),
        _ => None,
    }
}

/// The message of a failure.
pub fn failure(o: &Outcome) -> (r: Option<&str>)
    ensures
        r.deep_view() == failure_in(*o),
{
    match o {
        Outcome::Failed(e) => Some(e.as_str()),
        Outcome::NotBuilt(e) => Some(e.as_str()),
        Outcome::QueryFailed(e, _) => Some(e.as_str()),
        _ => None,
    }
}

/// Whether an action touches stored data or the queue of writes.
pub open spec fn touches_data(a: ActionV) -> bool {
    match a {
        ActionV::Nothing => false,
        ActionV::VerifyToken => false,
        ActionV::CheckAccess(_) => false,
        ActionV::CheckRequest => false,
        ActionV::RateLimit(_, _) => false,
        ActionV::ReadBody => false,
        ActionV::TakeApart(_) => false,
        ActionV::ReadUpload => false,
        ActionV::Encrypt(_) => false,
        ActionV::Prepare(_) => false,
        ActionV::CompareValues(_) => false,
        ActionV::ReadJson(_) => false,
        ActionV::Fault => false,
        ActionV::Answer(_) => false,
        _ => true,
    }
}

/// Whether an action answers the request with a success.
pub open spec fn answers_success(a: ActionV) -> bool {
    match a {
        ActionV::EnqueueInBackground(_, r) => r.body.success,
        ActionV::EnqueueAllInBackground(_, r) => r.body.success,
        ActionV::Abort(r) => r.body.success,
        ActionV::Abandon(r) => r.body.success,
        ActionV::Settle(_, _, r) => r.body.success,
        ActionV::CommitAndAnswer(r) => r.body.success,
        ActionV::CommitAndConclude(_, r) => r.body.success,
        ActionV::Answer(r) => r.body.success,
        ActionV::AnswerFound => true,
        ActionV::SendFile(_, _) => true,
        ActionV::KeepAndAnswer(_, _, _, _, r) => r.body.success,
        ActionV::Conclude(_, r) => r.body.success,
        _ => false,
    }
}

/// Whether an action answers the request.
pub open spec fn answers(a: ActionV) -> bool {
    match a {
        ActionV::EnqueueInBackground(_, _) => true,
        ActionV::EnqueueAllInBackground(_, _) => true,
        ActionV::Abort(_) => true,
        ActionV::Abandon(_) => true,
        ActionV::Settle(_, _, _) => true,
        ActionV::CommitAndAnswer(_) => true,
        ActionV::CommitAndConclude(_, _) => true,
        ActionV::Answer(_) => true,
        ActionV::AnswerFound => true,
        ActionV::SendFile(_, _) => true,
        ActionV::KeepAndAnswer(_, _, _, _, _) => true,
        ActionV::Conclude(_, _) => true,
        _ => false,
    }
}

/// Whether an action checks whether the bearer of the token may go on.
pub open spec fn checks_access(a: ActionV) -> bool {
    a is CheckAccess || a is CheckRequest
}

/// Whether a request asks for its write to be queued.
pub open spec fn wants_queue(parameters: JsonV) -> bool {
    match field(parameters, "isqueue"@) {
        Some(JsonV::Bool(b)) => b,
        Some(JsonV::Str(s)) => s == "true"@,
        _ => false,
    }
}

/// Whether a request asks for its write to be queued.
pub fn queue_wanted(parameters: &Json) -> (r: bool)
    ensures
        r == wants_queue(parameters.deep_view()),
{
    match parameters.get("isqueue") {
        Some(v) => match v {
            Json::Bool(b) => *b,
            Json::Str(s) => same(s.as_str(), "true"),
            _ => false,
        },
        None => false,
    }
}

/// What went wrong is never passed over: an outcome that tells of a failure has its
/// message, and rows that came back are the rows that are read.
pub proof fn law_outcomes_are_read_as_they_are(o: Outcome)
    ensures
        match o {
            Outcome::Failed(e) => failure_in(o) == Some(e@) && rows_in(o).len() == 0,
            Outcome::NotBuilt(e) => failure_in(o) == Some(e@) && rows_in(o).len() == 0,
            Outcome::QueryFailed(e, _) => failure_in(o) == Some(e@) && rows_in(o).len() == 0,
            Outcome::Rows(rows) => failure_in(o) is None && rows_in(o) == rows.deep_view(),
            Outcome::Done => failure_in(o) is None && rows_in(o).len() == 0,
            _ => failure_in(o) is None,
        },
{
}

/// A refusal is never a success, and shows no data; a success has the status of one,
/// and shows its data.
pub proof fn law_answers_are_what_they_say(status: u16, message: Seq<char>, total: i32, data: JsonV)
    ensures
        refused(status, message).status == status,
        !refused(status, message).body.success,
        refused(status, message).body.message == message,
        refused(status, message).body.data == JsonV::Null,
        succeeded(message, total, data).status == 200,
        succeeded(message, total, data).body.success,
        succeeded(message, total, data).body.data == data,
        succeeded(message, total, data).body.total_data == total,
        enqueued().status == 202,
        enqueued().body.success,
{
}

/// A write is queued only where the request asks for it, with a truth value or the word
/// for it.
pub proof fn law_writes_are_queued_only_if_asked_for(parameters: JsonV)
    ensures
        wants_queue(parameters) <==> field(parameters, "isqueue"@) == Some(JsonV::Bool(true))
            || field(parameters, "isqueue"@) == Some(JsonV::Str("true"@)),
{
    reveal_strlit("true");
    reveal_strlit("false");
}

} // verus!
