//! Importing the rows of an uploaded file.
use crate::ast::{copy_rows, InsertValue, InsertValueV};
use crate::consumer::{job_of, make_job, WriteJob, WriteJobV, WriteOpKind, WriteOpKindV};
use crate::flow::{
    answers, answers_success, failure, failure_in, missing_entity, queue_wanted, rows_in,
    say_missing_entity, success, told, touches_data, wants_queue, Action, ActionV, Audit, AuditV,
    Outcome, Reply, ReplyV, Upload, UploadFault, WebResponse, WebResponseV,
};
use crate::giving::shows;
use crate::handlers::import_handler::{failed_status, status_of_failure};
use crate::idgen::Today;
use crate::importing::{
    build_bulk_names, build_bulk_row, build_greatest_query, build_import_columns, build_row_checks,
    build_row_doc, bulk_names, bulk_row, calculate_max_id, cell_given, check_data_foreign_key,
    derive_id_prefix_and_width, find_id_function, generates_id, greatest_id, greatest_query,
    holds_cell, id_function, import_columns, key_query, last_number,
    law_bulk_rows_hold_their_values, law_imported_documents_hold_their_values,
    law_values_come_from_the_file, mark_encrypted, prefix_parts, prefix_width, read_imports_id,
    read_last_number, read_row, row_checks, row_doc, row_values, to_encrypt, value_is_given,
    values_are_given, CellStyle, Numbering, NumberingV,
};
use crate::json::{field, law_set_then_get, lemma_object_view, set_in, with_field, Json, JsonV};
use crate::model::{column_type, type_or_int, Column, TableSchema};
use crate::number::{int_text, u64_text};
use crate::pk_utils::{as_json, to_json, typed, typed_param};
use crate::post::{take_rows, Fields};
use crate::tabular::{
    cell_sheet_rows, csv_read, csv_rows, detect_kind, inferred_type, kind_of_file, parse_csv,
    first_sheet, parse_xlsx, parse_xlsx_cells, read_result, text_sheet_rows, FileKind,
    RowStyle,
};
use crate::text::{contains, join, push_item, split};
use crate::validation::{FkCheck, FkCheckV};
use crate::writing::is_audit_column;
use vstd::prelude::*;
use vstd::string::*;

verus! {

/// A request to import rows.
#[derive(Debug)]
pub struct ImportRequest {
    pub route: String,
    /// Whether the route is open to everyone.
    pub is_public: bool,
    /// Whether routes that are not open ask for a token.
    pub require_auth: bool,
    pub queue_enabled: bool,
    /// Whether queued writes are acknowledged before they are in the queue.
    pub fast_ack: bool,
    pub parameters: Json,
    pub schema: TableSchema,
    /// Whether the store is one without transactions.
    pub mongodb: bool,
    /// The database's expression for the present time.
    pub now_expr: String,
    /// The present time, local and in UTC.
    pub now: String,
    pub now_utc: String,
    pub today: Today,
    /// How many rows are inserted with one statement.
    pub batch_size: usize,
    /// Whether numbers are typed by their columns, and answers have statuses of
    /// their own; otherwise values stay texts, and a status follows from the
    /// message.
    pub classic: bool,
}

/// Where an import stands.
#[derive(Debug, PartialEq, Eq, Clone, Copy, Structural)]
pub enum ImportStage {
    Start,
    Token,
    Access,
    Uploading,
    LookingUp,
    Beginning,
    CheckingKey,
    Encrypting,
    Queueing,
    Storing,
    Compiling,
    Running,
    Committing,
    Ended,
}

/// What an import remembers.
#[derive(Debug)]
pub struct ImportMemo {
    /// The bearer of the token.
    pub actor: String,
    /// Whether the rows are queued.
    pub queued: bool,
    pub rows: Vec<Vec<(String, Json)>>,
    /// The fields beside the file.
    pub extra: Vec<(String, Json)>,
    /// The positions of the columns that are imported.
    pub picked: Vec<usize>,
    pub numbering: Option<Numbering>,
    /// The row that is next.
    pub row: usize,
    /// The values of that row, the checks that they ask for, and the check that
    /// is next.
    pub values: Vec<String>,
    pub checks: Vec<FkCheck>,
    pub check: usize,
    /// The documents that are queued, and how many were sent.
    pub docs: Vec<Json>,
    pub sent: usize,
    /// The rows that are inserted together.
    pub bulk: Vec<Vec<InsertValue>>,
    pub inserted: usize,
}

/// What an import remembers.
pub struct ImportMemoV {
    pub actor: Seq<char>,
    pub queued: bool,
    pub rows: Seq<Fields>,
    pub extra: Fields,
    pub picked: Seq<usize>,
    pub numbering: Option<NumberingV>,
    pub row: int,
    pub values: Seq<Seq<char>>,
    pub checks: Seq<FkCheckV>,
    pub check: int,
    pub docs: Seq<JsonV>,
    pub sent: int,
    pub bulk: Seq<Seq<InsertValueV>>,
    pub inserted: int,
}

impl DeepView for ImportMemo {
    type V = ImportMemoV;

    open spec fn deep_view(&self) -> ImportMemoV {
        ImportMemoV {
            actor: self.actor@,
            queued: self.queued,
            rows: self.rows.deep_view(),
            extra: self.extra.deep_view(),
            picked: self.picked@,
            numbering: self.numbering.deep_view(),
            row: self.row as int,
            values: self.values.deep_view(),
            checks: self.checks.deep_view(),
            check: self.check as int,
            docs: self.docs.deep_view(),
            sent: self.sent as int,
            bulk: self.bulk.deep_view(),
            inserted: self.inserted as int,
        }
    }
}

/// An import under way.
#[derive(Debug)]
pub struct Importing {
    pub request: ImportRequest,
    pub stage: ImportStage,
    pub memo: ImportMemo,
}

impl Importing {
    /// What holds of every import: the columns are those of the table, the rows
    /// can be counted, and those before the next one are inserted, or about to be,
    /// unless they are queued.
    pub open spec fn wf(&self) -> bool {
        &&& forall|k: int|
            0 <= k < self.memo.picked@.len() ==> self.memo.picked@[k]
                < self.request.schema.columns@.len()
        &&& self.memo.rows@.len() <= i32::MAX
        &&& self.memo.inserted + self.memo.bulk@.len() <= self.memo.row
        &&& !self.memo.queued ==> self.memo.inserted + self.memo.bulk@.len() == self.memo.row
        &&& self.memo.row <= self.memo.rows@.len()
        &&& (self.stage == ImportStage::CheckingKey || self.stage == ImportStage::Encrypting)
            ==> self.memo.values@.len() == self.memo.picked@.len() && self.memo.row
            < self.memo.rows@.len()
        &&& self.stage == ImportStage::Storing ==> self.memo.row < self.memo.rows@.len()
        &&& (self.stage == ImportStage::Start || self.stage == ImportStage::Token || self.stage
            == ImportStage::Access || self.stage == ImportStage::Uploading || self.stage
            == ImportStage::LookingUp || self.stage == ImportStage::Beginning) ==> self.memo.row
            == 0
    }
}

/// What a new import remembers.
pub open spec fn blank_import() -> ImportMemoV {
    ImportMemoV {
        actor: Seq::empty(),
        queued: false,
        rows: Seq::empty(),
        extra: Seq::empty(),
        picked: Seq::empty(),
        numbering: None,
        row: 0,
        values: Seq::empty(),
        checks: Seq::empty(),
        check: 0,
        docs: Seq::empty(),
        sent: 0,
        bulk: Seq::empty(),
        inserted: 0,
    }
}

// ---------------------------------------------------------------------------
// Answers
// ---------------------------------------------------------------------------

/// What follows from a step: where the import stands, what it remembers and what
/// it asks for.
pub type ImportTurn = (ImportStage, ImportMemoV, ActionV);

/// A refusal that says how many rows were inserted.
pub open spec fn import_refusal(classic: bool, status: u16, message: Seq<char>, total: int) -> ReplyV {
    ReplyV {
        status: if classic {
            status
        } else {
            failed_status(message)
        },
        body: WebResponseV {
            success: false,
            message,
            total_data: total as i32,
            data: JsonV::Null,
        },
    }
}

/// The request is refused.
pub open spec fn import_answers(
    q: ImportRequest,
    m: ImportMemoV,
    status: u16,
    message: Seq<char>,
) -> ImportTurn {
    (
        ImportStage::Ended,
        m,
        ActionV::Answer(import_refusal(q.classic, status, message, m.inserted)),
    )
}

/// The request is refused, and rolled back where a transaction is open.
pub open spec fn import_fails(
    q: ImportRequest,
    m: ImportMemoV,
    status: u16,
    message: Seq<char>,
) -> ImportTurn {
    let reply = import_refusal(q.classic, status, message, m.inserted);
    (
        ImportStage::Ended,
        m,
        if q.mongodb {
            ActionV::Answer(reply)
        } else {
            ActionV::Abort(reply)
        },
    )
}

/// Nothing can be answered.
pub open spec fn import_faults(m: ImportMemoV) -> ImportTurn {
    (ImportStage::Ended, m, ActionV::Fault)
}

/// What is said of an upload that could not be read.
pub open spec fn upload_refusal(f: UploadFault) -> (u16, Seq<char>) {
    match f {
        UploadFault::Part(e) => (400, "Multipart error: "@ + e@),
        UploadFault::Chunk(e) => (400, "Read chunk error: "@ + e@),
        UploadFault::Field(name, e) => (400, "Read field '"@ + name@ + "' error: "@ + e@),
        UploadFault::TooLarge => (413, "File too large"@),
    }
}

/// What is said of a number of rows.
pub open spec fn counted(before: Seq<char>, n: int, after: Seq<char>) -> Seq<char> {
    before + int_text(n) + after
}

/// What is said of a value that is not there in the other table.
pub open spec fn bad_key(classic: bool, c: FkCheckV, row: int) -> Seq<char> {
    if classic {
        "Invalid foreign key value '"@ + c.value + "' for column '"@ + c.column + "' at row "@
            + int_text(row)
    } else {
        "Invalid FK '"@ + c.value + "'"@
    }
}

/// What is said of a row that the store did not take.
pub open spec fn bad_row(classic: bool, e: Seq<char>, row: int, inserted: int) -> Seq<char> {
    if classic {
        "Insert error: "@ + e + " (at row "@ + int_text(row) + " after "@ + int_text(inserted)
            + ")"@
    } else {
        "Insert error: "@ + e
    }
}

/// What is said of rows that the database did not take.
pub open spec fn bad_bulk(classic: bool, e: Seq<char>, inserted: int) -> Seq<char> {
    if classic {
        "Bulk insert error: "@ + e + " (after "@ + int_text(inserted) + " rows)"@
    } else {
        "Bulk insert error: "@ + e
    }
}

/// The number of a row in messages. A store without transactions has counted the
/// rows before it twice.
pub open spec fn row_number(q: ImportRequest, m: ImportMemoV) -> int {
    if q.mongodb {
        m.inserted + m.row + 1
    } else {
        m.row + 1
    }
}

// ---------------------------------------------------------------------------
// The steps
// ---------------------------------------------------------------------------

/// Whether the request needs a token.
pub open spec fn import_guarded(q: ImportRequest) -> bool {
    q.require_auth && !q.is_public
}

/// What follows once the actor may import.
pub open spec fn import_admitted(q: ImportRequest, m: ImportMemoV) -> ImportTurn {
    if q.schema.table@.len() == 0 {
        import_answers(q, m, 424, missing_entity(q.route@))
    } else {
        (ImportStage::Uploading, m, ActionV::ReadUpload)
    }
}

/// What follows from the rows of a file.
pub open spec fn file_read(
    q: ImportRequest,
    m: ImportMemoV,
    kind: FileKind,
    rows: Result<Seq<Fields>, Seq<char>>,
) -> ImportTurn {
    match kind {
        FileKind::Unsupported => import_answers(
            q,
            m,
            400,
            "Unsupported file type (expect .csv or .xlsx)"@,
        ),
        _ => match rows {
            Err(e) => import_answers(
                q,
                m,
                400,
                if kind == FileKind::Xlsx {
                    "Failed to read XLSX: "@ + e
                } else {
                    "Failed to read CSV: "@ + e
                },
            ),
            Ok(rows) => if rows.len() == 0 {
                import_answers(q, m, 400, "No data rows found"@)
            } else if rows.len() > i32::MAX {
                import_faults(m)
            } else {
                choose_columns(q, ImportMemoV { rows, ..m })
            },
        },
    }
}

/// The rows of a file of a kind.
pub open spec fn rows_in_file(classic: bool, kind: FileKind, bytes: Seq<u8>) -> Result<
    Seq<Fields>,
    Seq<char>,
> {
    if kind == FileKind::Xlsx {
        if classic {
            text_sheet_rows(first_sheet(bytes))
        } else {
            cell_sheet_rows(first_sheet(bytes))
        }
    } else {
        csv_rows(
            csv_read(bytes),
            if classic {
                RowStyle::Trimmed
            } else {
                RowStyle::Verbatim
            },
        )
    }
}

/// What follows from an upload.
pub open spec fn upload_read(q: ImportRequest, m: ImportMemoV, u: Upload) -> ImportTurn {
    let n = ImportMemoV { extra: u.extra.deep_view(), ..m };
    match u.file {
        Some(bytes) => {
            let kind = kind_of_file(u.filename@, u.declared.deep_view(), inferred_type(bytes@));
            file_read(q, n, kind, rows_in_file(q.classic, kind, bytes@))
        },
        None => import_answers(q, n, 400, "No file provided (field name 'file')"@),
    }
}

/// What follows once the rows are there: the columns are chosen, and the
/// greatest identifier is looked up where identifiers are generated.
pub open spec fn choose_columns(q: ImportRequest, m: ImportMemoV) -> ImportTurn {
    let columns = q.schema.columns@;
    let picked = import_columns(columns, m.rows);
    if generates_id(columns, m.rows) {
        let tokens = split(id_function(columns), '/');
        let prefix = join(prefix_parts(tokens, q.today), "/"@);
        let n = ImportMemoV {
            picked,
            numbering: Some(
                NumberingV { prefix, width: prefix_width(tokens) as int, last: 0 },
            ),
            row: 0,
            bulk: Seq::empty(),
            inserted: 0,
            ..m
        };
        (
            ImportStage::LookingUp,
            n,
            ActionV::RunQuery(greatest_query(q.schema.table@, prefix, q.mongodb)),
        )
    } else {
        start_rows(
            q,
            ImportMemoV {
                picked,
                numbering: None,
                row: 0,
                bulk: Seq::empty(),
                inserted: 0,
                ..m
            },
        )
    }
}

/// What follows once the greatest identifier is known.
pub open spec fn looked_up(q: ImportRequest, m: ImportMemoV, rows: Seq<JsonV>) -> ImportTurn {
    let last = last_number(greatest_id(rows, q.mongodb));
    start_rows(
        q,
        ImportMemoV {
            numbering: match m.numbering {
                Some(n) => Some(NumberingV { last, ..n }),
                None => None,
            },
            ..m
        },
    )
}

/// What follows once everything is known: the rows are taken one after the
/// other.
pub open spec fn start_rows(q: ImportRequest, m: ImportMemoV) -> ImportTurn {
    let queued = q.queue_enabled && wants_queue(q.parameters.deep_view());
    let n = ImportMemoV { queued, ..m };
    if queued || q.mongodb {
        next_row(q, n)
    } else if q.batch_size == 0 {
        import_faults(n)
    } else {
        (ImportStage::Beginning, n, ActionV::Begin)
    }
}

/// What follows for the next row, or after the last.
pub open spec fn next_row(q: ImportRequest, m: ImportMemoV) -> ImportTurn {
    if m.row >= m.rows.len() {
        rows_done(q, m)
    } else {
        match row_values(
            q.schema.columns@,
            m.picked,
            m.extra,
            m.rows[m.row],
            m.numbering,
            m.picked.len() as int,
        ) {
            Some((values, numbering)) => check_row(
                q,
                ImportMemoV {
                    values,
                    numbering,
                    checks: if m.queued {
                        Seq::empty()
                    } else {
                        row_checks(q.schema, m.picked, values, m.picked.len() as int)
                    },
                    check: 0,
                    ..m
                },
            ),
            None => import_faults(ImportMemoV { numbering: None, ..m }),
        }
    }
}

/// What follows while the foreign keys of a row are checked.
pub open spec fn check_row(q: ImportRequest, m: ImportMemoV) -> ImportTurn {
    if m.check < m.checks.len() {
        (ImportStage::CheckingKey, m, ActionV::FindRows(key_query(m.checks[m.check])))
    } else {
        (
            ImportStage::Encrypting,
            m,
            ActionV::Encrypt(to_encrypt(q.schema.columns@, m.picked, m.values)),
        )
    }
}

/// What follows from a check of a foreign key.
pub open spec fn key_checked(q: ImportRequest, m: ImportMemoV, found: bool) -> ImportTurn {
    if m.check >= m.checks.len() {
        import_faults(m)
    } else if found {
        check_row(q, ImportMemoV { check: m.check + 1, ..m })
    } else {
        import_fails(q, m, 400, bad_key(q.classic, m.checks[m.check], row_number(q, m)))
    }
}

/// The document of a row that is queued.
pub open spec fn queued_doc(q: ImportRequest, m: ImportMemoV, stored: Seq<Seq<char>>) -> JsonV {
    JsonV::Object(
        row_doc(
            q.schema.columns@,
            m.picked,
            m.values,
            stored,
            if q.classic {
                CellStyle::Typed
            } else {
                CellStyle::Text
            },
            m.picked.len() as int,
        ),
    )
}

/// The document of a row for a store without transactions.
pub open spec fn stored_doc(q: ImportRequest, m: ImportMemoV, stored: Seq<Seq<char>>) -> JsonV {
    let doc = row_doc(
        q.schema.columns@,
        m.picked,
        m.values,
        stored,
        if q.classic {
            CellStyle::Typed
        } else {
            CellStyle::Plain
        },
        m.picked.len() as int,
    );
    let by = if q.classic {
        as_json(typed(m.actor, type_or_int(q.schema.columns@, "created_by_id"@)))
    } else {
        JsonV::Str(m.actor)
    };
    JsonV::Object(
        with_field(with_field(doc, "created_at"@, JsonV::Str(q.now@)), "created_by_id"@, by),
    )
}

/// What follows once the values of a row are as they are stored.
pub open spec fn row_ready(q: ImportRequest, m: ImportMemoV, stored: Seq<Seq<char>>) -> ImportTurn {
    if m.queued {
        next_row(
            q,
            ImportMemoV { docs: m.docs.push(queued_doc(q, m, stored)), row: m.row + 1, ..m },
        )
    } else if q.mongodb {
        (
            ImportStage::Storing,
            m,
            ActionV::StoreInsert(q.schema.table@, stored_doc(q, m, stored)),
        )
    } else {
        let n = ImportMemoV {
            bulk: m.bulk.push(
                bulk_row(
                    q.schema.columns@,
                    m.picked,
                    m.values,
                    stored,
                    q.classic,
                    q.now_expr@,
                    m.actor,
                ),
            ),
            row: m.row + 1,
            ..m
        };
        if n.bulk.len() >= q.batch_size || n.row >= n.rows.len() {
            (
                ImportStage::Compiling,
                n,
                ActionV::CompileBulk(
                    q.schema.table@,
                    bulk_names(q.schema.columns@, n.picked),
                    n.bulk,
                ),
            )
        } else {
            next_row(q, n)
        }
    }
}

/// The write of a queued row.
pub open spec fn row_job(q: ImportRequest, m: ImportMemoV, doc: JsonV) -> WriteJobV {
    job_of(
        q.route@,
        WriteOpKindV::Post,
        doc,
        q.now_utc@,
        if import_guarded(q) {
            Some(m.actor)
        } else {
            None
        },
    )
}

/// The answer that rows were queued.
pub open spec fn rows_queued(q: ImportRequest, m: ImportMemoV) -> ReplyV {
    ReplyV {
        status: if q.classic {
            202
        } else {
            200
        },
        body: success(
            counted(
                "Enqueued "@,
                m.rows.len() as int,
                if !q.classic && q.fast_ack {
                    " rows (async)"@
                } else {
                    " rows"@
                },
            ),
            m.rows.len() as i32,
            JsonV::Null,
        ),
    }
}

/// What follows while queued rows are sent.
pub open spec fn send_next(q: ImportRequest, m: ImportMemoV) -> ImportTurn {
    if m.sent < m.docs.len() {
        (ImportStage::Queueing, m, ActionV::Enqueue(row_job(q, m, m.docs[m.sent])))
    } else {
        (ImportStage::Ended, m, ActionV::Answer(rows_queued(q, m)))
    }
}

/// The import is answered.
pub open spec fn import_concludes(m: ImportMemoV) -> ImportTurn {
    (
        ImportStage::Ended,
        m,
        ActionV::Conclude(
            AuditV { action: "IMPORT"@, actor_id: m.actor, id: None },
            ReplyV {
                status: 200,
                body: success(
                    counted("Imported "@, m.inserted, " rows"@),
                    m.inserted as i32,
                    JsonV::Null,
                ),
            },
        ),
    )
}

/// What follows after the last row.
pub open spec fn rows_done(q: ImportRequest, m: ImportMemoV) -> ImportTurn {
    if m.queued {
        if q.fast_ack {
            (
                ImportStage::Ended,
                m,
                ActionV::EnqueueAllInBackground(
                    Seq::new(m.docs.len(), |i: int| row_job(q, m, m.docs[i])),
                    rows_queued(q, m),
                ),
            )
        } else {
            send_next(q, ImportMemoV { sent: 0, ..m })
        }
    } else if q.mongodb {
        import_concludes(m)
    } else {
        (ImportStage::Committing, m, ActionV::Commit)
    }
}

/// What follows once values were encrypted. Nothing can, unless there is one for
/// each value of the row.
pub open spec fn row_encrypted(q: ImportRequest, m: ImportMemoV, outcome: Outcome) -> ImportTurn {
    match outcome {
        Outcome::Texts(stored) => if stored@.len() == m.picked.len() {
            row_ready(q, m, stored.deep_view())
        } else {
            import_faults(m)
        },
        _ => import_faults(m),
    }
}

/// The next step of an import.
pub open spec fn import_next(
    q: ImportRequest,
    stage: ImportStage,
    m: ImportMemoV,
    outcome: Outcome,
) -> ImportTurn {
    match stage {
        ImportStage::Start => if import_guarded(q) {
            (ImportStage::Token, m, ActionV::VerifyToken)
        } else {
            import_admitted(q, m)
        },
        ImportStage::Token => match outcome {
            Outcome::Identified(id) => (
                ImportStage::Access,
                ImportMemoV { actor: id@, ..m },
                ActionV::CheckAccess("write"@),
            ),
            _ => import_answers(q, m, 401, "Invalid token"@),
        },
        ImportStage::Access => match failure_in(outcome) {
            Some(_) => import_answers(q, m, 401, "Unauthorized"@),
            None => import_admitted(q, m),
        },
        ImportStage::Uploading => match outcome {
            Outcome::Uploaded(u) => upload_read(q, m, u),
            Outcome::UploadFailed(f) => import_answers(
                q,
                m,
                upload_refusal(f).0,
                upload_refusal(f).1,
            ),
            _ => import_faults(m),
        },
        ImportStage::LookingUp => looked_up(q, m, rows_in(outcome)),
        ImportStage::Beginning => match failure_in(outcome) {
            Some(e) => import_answers(
                q,
                m,
                500,
                if q.classic {
                    "Error starting transaction: "@ + e
                } else {
                    "Tx error: "@ + e
                },
            ),
            None => next_row(q, m),
        },
        ImportStage::CheckingKey => key_checked(q, m, rows_in(outcome).len() > 0),
        ImportStage::Encrypting => row_encrypted(q, m, outcome),
        ImportStage::Queueing => match failure_in(outcome) {
            Some(e) => import_answers(q, m, 500, "Queue error: "@ + e),
            None => if m.sent < m.docs.len() {
                send_next(q, ImportMemoV { sent: m.sent + 1, ..m })
            } else {
                import_faults(m)
            },
        },
        ImportStage::Storing => match failure_in(outcome) {
            Some(e) => import_answers(
                q,
                m,
                400,
                bad_row(q.classic, e, row_number(q, m), m.inserted),
            ),
            None => next_row(
                q,
                ImportMemoV { inserted: m.inserted + 1, row: m.row + 1, ..m },
            ),
        },
        ImportStage::Compiling => match failure_in(outcome) {
            Some(e) => import_fails(q, m, 400, "Bulk compile error: "@ + e),
            None => (ImportStage::Running, m, ActionV::RunCompiled),
        },
        ImportStage::Running => match failure_in(outcome) {
            Some(e) => import_fails(q, m, 400, bad_bulk(q.classic, e, m.inserted)),
            None => next_row(
                q,
                ImportMemoV {
                    inserted: m.inserted + m.bulk.len(),
                    bulk: Seq::empty(),
                    ..m
                },
            ),
        },
        ImportStage::Committing => match failure_in(outcome) {
            Some(e) => import_answers(q, m, 500, "Commit error: "@ + e),
            None => import_concludes(m),
        },
        ImportStage::Ended => (ImportStage::Ended, m, ActionV::Nothing),
    }
}

/// An import that has not begun.
pub fn import(request: ImportRequest) -> (r: Importing)
    ensures
        r.wf(),
        r.request == request,
        r.stage == ImportStage::Start,
        r.memo.deep_view() == blank_import(),
{
    let memo = ImportMemo {
        actor: String::new(),
        queued: false,
        rows: Vec::new(),
        extra: Vec::new(),
        picked: Vec::new(),
        numbering: None,
        row: 0,
        values: Vec::new(),
        checks: Vec::new(),
        check: 0,
        docs: Vec::new(),
        sent: 0,
        bulk: Vec::new(),
        inserted: 0,
    };
    assert(memo.rows.deep_view() =~= Seq::empty());
    assert(memo.extra.deep_view() =~= Seq::empty());
    assert(memo.values.deep_view() =~= Seq::empty());
    assert(memo.checks.deep_view() =~= Seq::empty());
    assert(memo.docs.deep_view() =~= Seq::empty());
    assert(memo.bulk.deep_view() =~= Seq::empty());
    Importing { request, stage: ImportStage::Start, memo }
}

fn count(before: &str, n: usize, after: &str) -> (r: String)
    ensures
        r@ == counted(before@, n as int, after@),
{
    let mut m = before.to_owned();
    m.append(u64_text(n as u64).as_str());
    m.append(after);
    m
}

fn say_upload_refusal(f: &UploadFault) -> (r: (u16, String))
    ensures
        (r.0, r.1@) == upload_refusal(*f),
{
    match f {
        UploadFault::Part(e) => (400, told("Multipart error: ", e.as_str())),
        UploadFault::Chunk(e) => (400, told("Read chunk error: ", e.as_str())),
        UploadFault::Field(name, e) => {
            let mut m = "Read field '".to_owned();
            m.append(name.as_str());
            m.append("' error: ");
            m.append(e.as_str());
            (400, m)
        },
        UploadFault::TooLarge => (413, "File too large".to_owned()),
    }
}

fn say_bad_key(classic: bool, c: &FkCheck, row: u64) -> (r: String)
    ensures
        r@ == bad_key(classic, c.deep_view(), row as int),
{
    if classic {
        let mut m = "Invalid foreign key value '".to_owned();
        m.append(c.value.as_str());
        m.append("' for column '");
        m.append(c.column.as_str());
        m.append("' at row ");
        m.append(u64_text(row).as_str());
        m
    } else {
        let mut m = "Invalid FK '".to_owned();
        m.append(c.value.as_str());
        m.append("'");
        m
    }
}

fn say_bad_row(classic: bool, e: &str, row: u64, inserted: u64) -> (r: String)
    ensures
        r@ == bad_row(classic, e@, row as int, inserted as int),
{
    let mut m = "Insert error: ".to_owned();
    m.append(e);
    if classic {
        m.append(" (at row ");
        m.append(u64_text(row).as_str());
        m.append(" after ");
        m.append(u64_text(inserted).as_str());
        m.append(")");
    }
    m
}

fn say_bad_bulk(classic: bool, e: &str, inserted: u64) -> (r: String)
    ensures
        r@ == bad_bulk(classic, e@, inserted as int),
{
    let mut m = "Bulk insert error: ".to_owned();
    m.append(e);
    if classic {
        m.append(" (after ");
        m.append(u64_text(inserted).as_str());
        m.append(" rows)");
    }
    m
}

/// The rows of a file of a kind, or what is wrong with it.
pub fn read_file(classic: bool, kind: FileKind, bytes: &Vec<u8>) -> (r: Result<
    Vec<Vec<(String, Json)>>,
    String,
>)
    ensures
        read_result(r) == rows_in_file(classic, kind, bytes@),
{
    match kind {
        FileKind::Xlsx => if classic {
            parse_xlsx(bytes)
        } else {
            parse_xlsx_cells(bytes)
        },
        _ => if classic {
            parse_csv(bytes, RowStyle::Trimmed)
        } else {
            parse_csv(bytes, RowStyle::Verbatim)
        },
    }
}

impl Importing {
    fn refusal(&self, status: u16, message: String) -> (r: Reply)
        requires
            self.wf(),
        ensures
            r.deep_view() == import_refusal(
                self.request.classic,
                status,
                message@,
                self.memo.inserted as int,
            ),
    {
        let s: u16 = if self.request.classic {
            status
        } else {
            status_of_failure(message.as_str())
        };
        Reply {
            status: s,
            body: WebResponse {
                success: false,
                message,
                total_data: self.memo.inserted as i32,
                data: Json::Null,
            },
        }
    }

    fn answer(&mut self, status: u16, message: String) -> (r: Action)
        requires
            old(self).wf(),
        ensures
            final(self).wf(),
            final(self).request == old(self).request,
            (final(self).stage, final(self).memo.deep_view(), r.deep_view()) == import_answers(
                old(self).request,
                old(self).memo.deep_view(),
                status,
                message@,
            ),
    {
        let reply = self.refusal(status, message);
        self.stage = ImportStage::Ended;
        Action::Answer(reply)
    }

    fn fail(&mut self, status: u16, message: String) -> (r: Action)
        requires
            old(self).wf(),
        ensures
            final(self).wf(),
            final(self).request == old(self).request,
            (final(self).stage, final(self).memo.deep_view(), r.deep_view()) == import_fails(
                old(self).request,
                old(self).memo.deep_view(),
                status,
                message@,
            ),
    {
        let reply = self.refusal(status, message);
        self.stage = ImportStage::Ended;
        if self.request.mongodb {
            Action::Answer(reply)
        } else {
            Action::Abort(reply)
        }
    }

    fn fault(&mut self) -> (r: Action)
        requires
            old(self).wf(),
        ensures
            final(self).wf(),
            final(self).request == old(self).request,
            (final(self).stage, final(self).memo.deep_view(), r.deep_view()) == import_faults(
                old(self).memo.deep_view(),
            ),
    {
        self.stage = ImportStage::Ended;
        Action::Fault
    }

    fn admitted(&mut self) -> (r: Action)
        requires
            old(self).wf(),
            old(self).memo.row == 0,
        ensures
            final(self).wf(),
            final(self).request == old(self).request,
            (final(self).stage, final(self).memo.deep_view(), r.deep_view()) == import_admitted(
                old(self).request,
                old(self).memo.deep_view(),
            ),
    {
        if self.request.schema.table.as_str().is_empty() {
            let message = say_missing_entity(self.request.route.as_str());
            self.answer(424, message)
        } else {
            self.stage = ImportStage::Uploading;
            Action::ReadUpload
        }
    }

    fn conclude(&mut self) -> (r: Action)
        requires
            old(self).wf(),
        ensures
            final(self).wf(),
            final(self).request == old(self).request,
            (final(self).stage, final(self).memo.deep_view(), r.deep_view()) == import_concludes(
                old(self).memo.deep_view(),
            ),
    {
        self.stage = ImportStage::Ended;
        Action::Conclude(
            Audit { action: "IMPORT".to_owned(), actor_id: self.memo.actor.clone(), id: None },
            Reply {
                status: 200,
                body: WebResponse {
                    success: true,
                    message: count("Imported ", self.memo.inserted, " rows"),
                    total_data: self.memo.inserted as i32,
                    data: Json::Null,
                },
            },
        )
    }

    fn job(&self, doc: &Json) -> (r: WriteJob)
        ensures
            r.deep_view() == row_job(self.request, self.memo.deep_view(), doc.deep_view()),
    {
        let actor: Option<String> = if self.request.require_auth && !self.request.is_public {
            Some(self.memo.actor.clone())
        } else {
            None
        };
        make_job(
            self.request.route.as_str(),
            WriteOpKind::Post,
            doc.copy(),
            self.request.now_utc.as_str(),
            actor,
        )
    }

    fn say_queued(&self) -> (r: Reply)
        requires
            self.wf(),
        ensures
            r.deep_view() == rows_queued(self.request, self.memo.deep_view()),
    {
        let n: usize = self.memo.rows.len();
        let status: u16 = if self.request.classic {
            202
        } else {
            200
        };
        let message = if !self.request.classic && self.request.fast_ack {
            count("Enqueued ", n, " rows (async)")
        } else {
            count("Enqueued ", n, " rows")
        };
        Reply {
            status,
            body: WebResponse {
                success: true,
                message,
                total_data: n as i32,
                data: Json::Null,
            },
        }
    }

    fn send_next(&mut self) -> (r: Action)
        requires
            old(self).wf(),
        ensures
            final(self).wf(),
            final(self).request == old(self).request,
            (final(self).stage, final(self).memo.deep_view(), r.deep_view()) == send_next(
                old(self).request,
                old(self).memo.deep_view(),
            ),
    {
        assert(self.memo.docs.deep_view().len() == self.memo.docs@.len());
        if self.memo.sent < self.memo.docs.len() {
            assert(self.memo.docs.deep_view()[self.memo.sent as int]
                == self.memo.docs@[self.memo.sent as int].deep_view());
            let job = self.job(&self.memo.docs[self.memo.sent]);
            self.stage = ImportStage::Queueing;
            Action::Enqueue(job)
        } else {
            let reply = self.say_queued();
            self.stage = ImportStage::Ended;
            Action::Answer(reply)
        }
    }

    fn rows_done(&mut self) -> (r: Action)
        requires
            old(self).wf(),
        ensures
            final(self).wf(),
            final(self).request == old(self).request,
            (final(self).stage, final(self).memo.deep_view(), r.deep_view()) == rows_done(
                old(self).request,
                old(self).memo.deep_view(),
            ),
    {
        if self.memo.queued {
            if self.request.fast_ack {
                let ghost q = self.request;
                let ghost m = self.memo.deep_view();
                let ghost all = Seq::new(m.docs.len(), |i: int| row_job(q, m, m.docs[i]));
                let mut jobs: Vec<WriteJob> = Vec::new();
                let mut i: usize = 0;
                assert(m.docs.len() == self.memo.docs@.len());
                while i < self.memo.docs.len()
                    invariant
                        i <= self.memo.docs@.len(),
                        m == self.memo.deep_view(),
                        q == self.request,
                        all == Seq::new(m.docs.len(), |i: int| row_job(q, m, m.docs[i])),
                        jobs.deep_view() == all.take(i as int),
                    decreases self.memo.docs.len() - i,
                {
                    assert(m.docs[i as int] == self.memo.docs@[i as int].deep_view());
                    push_item(&mut jobs, self.job(&self.memo.docs[i]));
                    i += 1;
                    assert(all.take(i as int) =~= all.take(i - 1).push(all[i - 1]));
                }
                assert(all.take(all.len() as int) =~= all);
                let reply = self.say_queued();
                self.stage = ImportStage::Ended;
                Action::EnqueueAllInBackground(jobs, reply)
            } else {
                self.memo.sent = 0;
                self.send_next()
            }
        } else if self.request.mongodb {
            self.conclude()
        } else {
            self.stage = ImportStage::Committing;
            Action::Commit
        }
    }

    fn check_row(&mut self) -> (r: Action)
        requires
            old(self).wf(),
            old(self).memo.values@.len() == old(self).memo.picked@.len(),
            old(self).memo.row < old(self).memo.rows@.len(),
        ensures
            final(self).wf(),
            final(self).request == old(self).request,
            (final(self).stage, final(self).memo.deep_view(), r.deep_view()) == check_row(
                old(self).request,
                old(self).memo.deep_view(),
            ),
    {
        assert(self.memo.checks.deep_view().len() == self.memo.checks@.len());
        if self.memo.check < self.memo.checks.len() {
            assert(self.memo.checks.deep_view()[self.memo.check as int]
                == self.memo.checks@[self.memo.check as int].deep_view());
            self.stage = ImportStage::CheckingKey;
            Action::FindRows(check_data_foreign_key(&self.memo.checks[self.memo.check]))
        } else {
            self.stage = ImportStage::Encrypting;
            Action::Encrypt(
                mark_encrypted(
                    &self.request.schema.columns,
                    &self.memo.picked,
                    &self.memo.values,
                ),
            )
        }
    }

    fn next_row(&mut self) -> (r: Action)
        requires
            old(self).wf(),
        ensures
            final(self).wf(),
            final(self).request == old(self).request,
            (final(self).stage, final(self).memo.deep_view(), r.deep_view()) == next_row(
                old(self).request,
                old(self).memo.deep_view(),
            ),
    {
        let ghost m = self.memo.deep_view();
        assert(m.rows.len() == self.memo.rows@.len());
        if self.memo.row >= self.memo.rows.len() {
            return self.rows_done();
        }
        assert(m.rows[m.row] == self.memo.rows@[m.row].deep_view());
        let mut numbering = self.memo.numbering.take();
        let read = read_row(
            &self.request.schema.columns,
            &self.memo.picked,
            &self.memo.extra,
            &self.memo.rows[self.memo.row],
            &mut numbering,
        );
        match read {
            Some(values) => {
                self.memo.numbering = numbering;
                let checks = if self.memo.queued {
                    let none: Vec<FkCheck> = Vec::new();
                    assert(none.deep_view() =~= Seq::empty());
                    none
                } else {
                    build_row_checks(&self.request.schema, &self.memo.picked, &values)
                };
                self.memo.values = values;
                self.memo.checks = checks;
                self.memo.check = 0;
                self.stage = ImportStage::CheckingKey;
                self.check_row()
            },
            None => self.fault(),
        }
    }

    fn start_rows(&mut self) -> (r: Action)
        requires
            old(self).wf(),
            old(self).memo.row == 0,
        ensures
            final(self).wf(),
            final(self).request == old(self).request,
            (final(self).stage, final(self).memo.deep_view(), r.deep_view()) == start_rows(
                old(self).request,
                old(self).memo.deep_view(),
            ),
    {
        self.memo.queued = self.request.queue_enabled && queue_wanted(&self.request.parameters);
        if self.memo.queued || self.request.mongodb {
            self.next_row()
        } else if self.request.batch_size == 0 {
            self.fault()
        } else {
            self.stage = ImportStage::Beginning;
            Action::Begin
        }
    }

    fn looked_up(&mut self, rows: Vec<Json>) -> (r: Action)
        requires
            old(self).wf(),
            old(self).memo.row == 0,
        ensures
            final(self).wf(),
            final(self).request == old(self).request,
            (final(self).stage, final(self).memo.deep_view(), r.deep_view()) == looked_up(
                old(self).request,
                old(self).memo.deep_view(),
                rows.deep_view(),
            ),
    {
        let greatest = calculate_max_id(&rows, self.request.mongodb);
        let last: i64 = read_last_number(greatest.as_str());
        let numbering = self.memo.numbering.take();
        match numbering {
            Some(n) => {
                self.memo.numbering = Some(
                    Numbering { prefix: n.prefix, width: n.width, last },
                );
            },
            None => {},
        }
        self.start_rows()
    }

    fn choose_columns(&mut self) -> (r: Action)
        requires
            old(self).wf(),
        ensures
            final(self).wf(),
            final(self).request == old(self).request,
            (final(self).stage, final(self).memo.deep_view(), r.deep_view()) == choose_columns(
                old(self).request,
                old(self).memo.deep_view(),
            ),
    {
        let none: Vec<Vec<InsertValue>> = Vec::new();
        assert(none.deep_view() =~= Seq::empty());
        let with_id = read_imports_id(&self.request.schema.columns, &self.memo.rows);
        let function = find_id_function(&self.request.schema.columns);
        let picked = build_import_columns(&self.request.schema.columns, &self.memo.rows);
        self.stage = ImportStage::LookingUp;
        self.memo.picked = picked;
        self.memo.row = 0;
        self.memo.bulk = none;
        self.memo.inserted = 0;
        if with_id && !function.as_str().is_empty() {
            let (prefix, width) = derive_id_prefix_and_width(
                function.as_str(),
                &self.request.today,
            );
            let query = build_greatest_query(
                self.request.schema.table.as_str(),
                prefix.as_str(),
                self.request.mongodb,
            );
            self.memo.numbering = Some(Numbering { prefix, width, last: 0 });
            Action::RunQuery(query)
        } else {
            self.memo.numbering = None;
            self.start_rows()
        }
    }

    fn file_read(&mut self, kind: FileKind, rows: Result<Vec<Vec<(String, Json)>>, String>) -> (r: Action)
        requires
            old(self).wf(),
            old(self).stage == ImportStage::Uploading,
            old(self).memo.row == 0,
        ensures
            final(self).wf(),
            final(self).request == old(self).request,
            (final(self).stage, final(self).memo.deep_view(), r.deep_view()) == file_read(
                old(self).request,
                old(self).memo.deep_view(),
                kind,
                read_result(rows),
            ),
    {
        match kind {
            FileKind::Unsupported => self.answer(
                400,
                "Unsupported file type (expect .csv or .xlsx)".to_owned(),
            ),
            _ => match rows {
                Err(e) => {
                    let message = if kind == FileKind::Xlsx {
                        told("Failed to read XLSX: ", e.as_str())
                    } else {
                        told("Failed to read CSV: ", e.as_str())
                    };
                    self.answer(400, message)
                },
                Ok(rows) => {
                    assert(rows.deep_view().len() == rows@.len());
                    if rows.len() == 0 {
                        self.answer(400, "No data rows found".to_owned())
                    } else if rows.len() > 0x7fff_ffff {
                        self.fault()
                    } else {
                        self.memo.rows = rows;
                        self.choose_columns()
                    }
                },
            },
        }
    }

    fn upload_read(&mut self, u: Upload) -> (r: Action)
        requires
            old(self).wf(),
            old(self).stage == ImportStage::Uploading,
        ensures
            final(self).wf(),
            final(self).request == old(self).request,
            (final(self).stage, final(self).memo.deep_view(), r.deep_view()) == upload_read(
                old(self).request,
                old(self).memo.deep_view(),
                u,
            ),
    {
        self.memo.extra = u.extra;
        match u.file {
            Some(bytes) => {
                let kind = detect_kind(u.filename.as_str(), &u.declared, &bytes);
                let rows = read_file(self.request.classic, kind, &bytes);
                self.file_read(kind, rows)
            },
            None => self.answer(400, "No file provided (field name 'file')".to_owned()),
        }
    }

    fn doc(&self, stored: &Vec<String>, style: CellStyle) -> (r: Vec<(String, Json)>)
        requires
            self.wf(),
            self.memo.values@.len() == self.memo.picked@.len(),
            stored@.len() == self.memo.picked@.len(),
        ensures
            r.deep_view() == row_doc(
                self.request.schema.columns@,
                self.memo.picked@,
                self.memo.values.deep_view(),
                stored.deep_view(),
                style,
                self.memo.picked@.len() as int,
            ),
    {
        build_row_doc(
            &self.request.schema.columns,
            &self.memo.picked,
            &self.memo.values,
            stored,
            style,
        )
    }

    fn stored_doc(&self, stored: &Vec<String>) -> (r: Json)
        requires
            self.wf(),
            self.memo.values@.len() == self.memo.picked@.len(),
            stored@.len() == self.memo.picked@.len(),
        ensures
            r.deep_view() == stored_doc(self.request, self.memo.deep_view(), stored.deep_view()),
    {
        broadcast use lemma_object_view;

        let style = if self.request.classic {
            CellStyle::Typed
        } else {
            CellStyle::Plain
        };
        let mut doc = self.doc(stored, style);
        set_in(&mut doc, "created_at", Json::Str(self.request.now.clone()));
        let by = if self.request.classic {
            let t = column_type(&self.request.schema.columns, "created_by_id");
            to_json(typed_param(self.memo.actor.as_str(), t.as_str()))
        } else {
            Json::Str(self.memo.actor.clone())
        };
        set_in(&mut doc, "created_by_id", by);
        Json::Object(doc)
    }

    fn row_ready(&mut self, stored: Vec<String>) -> (r: Action)
        requires
            old(self).wf(),
            old(self).stage == ImportStage::Encrypting,
            stored@.len() == old(self).memo.picked@.len(),
        ensures
            final(self).wf(),
            final(self).request == old(self).request,
            (final(self).stage, final(self).memo.deep_view(), r.deep_view()) == row_ready(
                old(self).request,
                old(self).memo.deep_view(),
                stored.deep_view(),
            ),
    {
        broadcast use lemma_object_view;

        if self.memo.queued {
            let style = if self.request.classic {
                CellStyle::Typed
            } else {
                CellStyle::Text
            };
            let doc = self.doc(&stored, style);
            self.stage = ImportStage::Running;
            push_item(&mut self.memo.docs, Json::Object(doc));
            self.memo.row = self.memo.row + 1;
            self.next_row()
        } else if self.request.mongodb {
            let doc = self.stored_doc(&stored);
            self.stage = ImportStage::Storing;
            Action::StoreInsert(self.request.schema.table.clone(), doc)
        } else {
            let row = build_bulk_row(
                &self.request.schema.columns,
                &self.memo.picked,
                &self.memo.values,
                &stored,
                self.request.classic,
                self.request.now_expr.as_str(),
                self.memo.actor.as_str(),
            );
            self.stage = ImportStage::Running;
            push_item(&mut self.memo.bulk, row);
            self.memo.row = self.memo.row + 1;
            assert(self.memo.bulk.deep_view().len() == self.memo.bulk@.len());
            assert(self.memo.rows.deep_view().len() == self.memo.rows@.len());
            if self.memo.bulk.len() >= self.request.batch_size || self.memo.row
                >= self.memo.rows.len() {
                let names = build_bulk_names(&self.request.schema.columns, &self.memo.picked);
                let rows = copy_rows(&self.memo.bulk);
                self.stage = ImportStage::Compiling;
                Action::CompileBulk(self.request.schema.table.clone(), names, rows)
            } else {
                self.next_row()
            }
        }
    }

    fn row_number(&self) -> (r: u64)
        requires
            self.wf(),
        ensures
            r == row_number(self.request, self.memo.deep_view()),
    {
        if self.request.mongodb {
            self.memo.inserted as u64 + self.memo.row as u64 + 1
        } else {
            self.memo.row as u64 + 1
        }
    }

    /// Takes the next step of the import, with what came of the last one.
    pub fn step(&mut self, outcome: Outcome) -> (r: Action)
        requires
            old(self).wf(),
        ensures
            final(self).wf(),
            final(self).request == old(self).request,
            (final(self).stage, final(self).memo.deep_view(), r.deep_view()) == import_next(
                old(self).request,
                old(self).stage,
                old(self).memo.deep_view(),
                outcome,
            ),
    {
        match self.stage {
            ImportStage::Start => {
                if self.request.require_auth && !self.request.is_public {
                    self.stage = ImportStage::Token;
                    Action::VerifyToken
                } else {
                    self.admitted()
                }
            },
            ImportStage::Token => match outcome {
                Outcome::Identified(id) => {
                    self.memo.actor = id;
                    self.stage = ImportStage::Access;
                    Action::CheckAccess("write".to_owned())
                },
                _ => self.answer(401, "Invalid token".to_owned()),
            },
            ImportStage::Access => match failure(&outcome) {
                Some(_) => self.answer(401, "Unauthorized".to_owned()),
                None => self.admitted(),
            },
            ImportStage::Uploading => match outcome {
                Outcome::Uploaded(u) => self.upload_read(u),
                Outcome::UploadFailed(f) => {
                    let (status, message) = say_upload_refusal(&f);
                    self.answer(status, message)
                },
                _ => self.fault(),
            },
            ImportStage::LookingUp => {
                let rows = take_rows(outcome);
                self.looked_up(rows)
            },
            ImportStage::Beginning => match failure(&outcome) {
                Some(e) => {
                    let message = if self.request.classic {
                        told("Error starting transaction: ", e)
                    } else {
                        told("Tx error: ", e)
                    };
                    self.answer(500, message)
                },
                None => self.next_row(),
            },
            ImportStage::CheckingKey => {
                let rows = take_rows(outcome);
                assert(rows.deep_view().len() == rows@.len());
                assert(self.memo.checks.deep_view().len() == self.memo.checks@.len());
                if self.memo.check >= self.memo.checks.len() {
                    self.fault()
                } else if rows.len() > 0 {
                    self.memo.check = self.memo.check + 1;
                    self.check_row()
                } else {
                    assert(self.memo.checks.deep_view()[self.memo.check as int]
                        == self.memo.checks@[self.memo.check as int].deep_view());
                    let number: u64 = self.row_number();
                    let message = say_bad_key(
                        self.request.classic,
                        &self.memo.checks[self.memo.check],
                        number,
                    );
                    self.fail(400, message)
                }
            },
            ImportStage::Encrypting => match outcome {
                Outcome::Texts(stored) => if stored.len() == self.memo.picked.len() {
                    self.row_ready(stored)
                } else {
                    self.fault()
                },
                _ => self.fault(),
            },
            ImportStage::Queueing => match failure(&outcome) {
                Some(e) => self.answer(500, told("Queue error: ", e)),
                None => {
                    assert(self.memo.docs.deep_view().len() == self.memo.docs@.len());
                    if self.memo.sent < self.memo.docs.len() {
                        self.memo.sent = self.memo.sent + 1;
                        self.send_next()
                    } else {
                        self.fault()
                    }
                },
            },
            ImportStage::Storing => match failure(&outcome) {
                Some(e) => {
                    let number: u64 = self.row_number();
                    let message = say_bad_row(
                        self.request.classic,
                        e,
                        number,
                        self.memo.inserted as u64,
                    );
                    self.answer(400, message)
                },
                None => {
                    self.stage = ImportStage::Running;
                    self.memo.inserted = self.memo.inserted + 1;
                    self.memo.row = self.memo.row + 1;
                    self.next_row()
                },
            },
            ImportStage::Compiling => match failure(&outcome) {
                Some(e) => self.fail(400, told("Bulk compile error: ", e)),
                None => {
                    self.stage = ImportStage::Running;
                    Action::RunCompiled
                },
            },
            ImportStage::Running => match failure(&outcome) {
                Some(e) => {
                    let message = say_bad_bulk(
                        self.request.classic,
                        e,
                        self.memo.inserted as u64,
                    );
                    self.fail(400, message)
                },
                None => {
                    let none: Vec<Vec<InsertValue>> = Vec::new();
                    assert(none.deep_view() =~= Seq::empty());
                    assert(self.memo.bulk.deep_view().len() == self.memo.bulk@.len());
                    self.memo.inserted = self.memo.inserted + self.memo.bulk.len();
                    self.memo.bulk = none;
                    self.next_row()
                },
            },
            ImportStage::Committing => match failure(&outcome) {
                Some(e) => self.answer(500, told("Commit error: ", e)),
                None => self.conclude(),
            },
            ImportStage::Ended => Action::Nothing,
        }
    }
}

// ---------------------------------------------------------------------------
// Laws
// ---------------------------------------------------------------------------

/// Where an import stands, and what it remembers, after some outcomes, one after
/// the other.
pub open spec fn import_after(q: ImportRequest, outcomes: Seq<Outcome>) -> (ImportStage, ImportMemoV)
    decreases outcomes.len(),
{
    if outcomes.len() == 0 {
        (ImportStage::Start, blank_import())
    } else {
        let (stage, m) = import_after(q, outcomes.drop_last());
        let (s, n, _) = import_next(q, stage, m, outcomes.last());
        (s, n)
    }
}

/// What an import asks for after some outcomes.
pub open spec fn import_asks(q: ImportRequest, outcomes: Seq<Outcome>) -> ActionV {
    let (stage, m) = import_after(q, outcomes.drop_last());
    import_next(q, stage, m, outcomes.last()).2
}

/// Whether the outcome at `k` answered a check of access, and granted it.
pub open spec fn import_granted_at(q: ImportRequest, outcomes: Seq<Outcome>, k: int) -> bool {
    &&& 0 < k < outcomes.len()
    &&& import_asks(q, outcomes.take(k)) is CheckAccess
    &&& failure_in(outcomes[k]) is None
}

/// The stages that come before access is granted.
pub open spec fn import_before_access(stage: ImportStage) -> bool {
    stage == ImportStage::Start || stage == ImportStage::Token || stage == ImportStage::Access
        || stage == ImportStage::Ended
}

proof fn lemma_import_granted(q: ImportRequest, outcomes: Seq<Outcome>)
    requires
        import_guarded(q),
    ensures
        !import_before_access(import_after(q, outcomes).0) ==> exists|k: int|
            import_granted_at(q, outcomes, k),
        import_after(q, outcomes).0 == ImportStage::Access ==> outcomes.len() > 0 && import_asks(
            q,
            outcomes,
        ) is CheckAccess,
    decreases outcomes.len(),
{
    if outcomes.len() > 0 {
        let before = outcomes.drop_last();
        lemma_import_granted(q, before);
        let (stage, m) = import_after(q, before);
        lemma_row_turns(q, m, outcomes.last());
        if !import_before_access(import_after(q, outcomes).0) {
            if import_before_access(stage) {
                let k = outcomes.len() - 1;
                assert(outcomes.take(k) =~= before);
                assert(import_granted_at(q, outcomes, k));
            } else {
                let k = choose|k: int| import_granted_at(q, before, k);
                assert(before.take(k) =~= outcomes.take(k));
                assert(before[k] == outcomes[k]);
                assert(import_granted_at(q, outcomes, k));
            }
        }
    }
}

/// What can follow for a row.
pub open spec fn is_row_turn(q: ImportRequest, queued: bool, t: ImportTurn) -> bool {
    let (s, n, a) = t;
    &&& n.queued == queued
    &&& {
        ||| s == ImportStage::CheckingKey && a is FindRows
        ||| s == ImportStage::Encrypting && a is Encrypt
        ||| s == ImportStage::Ended && a is Fault
        ||| queued && s == ImportStage::Ended && a is EnqueueAllInBackground
        ||| queued && s == ImportStage::Queueing && a is Enqueue
        ||| queued && s == ImportStage::Ended && a is Answer
        ||| !queued && q.mongodb && s == ImportStage::Ended && a is Conclude
        ||| !queued && !q.mongodb && s == ImportStage::Committing && a is Commit
    }
}

proof fn lemma_next_row_turn(q: ImportRequest, m: ImportMemoV)
    ensures
        is_row_turn(q, m.queued, next_row(q, m)),
{
}

proof fn lemma_row_turns(q: ImportRequest, m: ImportMemoV, outcome: Outcome)
    ensures
        is_row_turn(q, m.queued, next_row(q, m)),
        start_rows(q, m).0 != ImportStage::Access,
        looked_up(q, m, rows_in(outcome)).0 != ImportStage::Access,
        forall|u: Upload| (#[trigger] upload_read(q, m, u)).0 != ImportStage::Access,
        import_next(q, ImportStage::Encrypting, m, outcome).0 != ImportStage::Access,
        import_next(q, ImportStage::CheckingKey, m, outcome).0 != ImportStage::Access,
        import_next(q, ImportStage::Storing, m, outcome).0 != ImportStage::Access,
        import_next(q, ImportStage::Running, m, outcome).0 != ImportStage::Access,
        import_next(q, ImportStage::Beginning, m, outcome).0 != ImportStage::Access,
{
    let queued = q.queue_enabled && wants_queue(q.parameters.deep_view());
    lemma_next_row_turn(q, m);
    lemma_next_row_turn(q, ImportMemoV { queued, ..m });
    lemma_next_row_turn(
        q,
        ImportMemoV { inserted: m.inserted + m.bulk.len(), bulk: Seq::empty(), ..m },
    );
    lemma_next_row_turn(q, ImportMemoV { inserted: m.inserted + 1, row: m.row + 1, ..m });
}

/// Where a request needs a token, no stored data and no queue is touched unless
/// access was checked and granted before.
pub proof fn law_import_is_guarded(q: ImportRequest, outcomes: Seq<Outcome>)
    requires
        import_guarded(q),
        outcomes.len() > 0,
        touches_data(import_asks(q, outcomes)),
    ensures
        exists|k: int| import_granted_at(q, outcomes, k),
{
    let before = outcomes.drop_last();
    lemma_import_granted(q, before);
    let (stage, m) = import_after(q, before);
    assert(!import_before_access(stage));
    let k = choose|k: int| import_granted_at(q, before, k);
    assert(before.take(k) =~= outcomes.take(k));
    assert(before[k] == outcomes[k]);
    assert(import_granted_at(q, outcomes, k));
}

/// Whether a transaction is open in a stage.
pub open spec fn import_in_transaction(q: ImportRequest, stage: ImportStage, queued: bool) -> bool {
    !q.mongodb && !queued && (stage == ImportStage::CheckingKey || stage == ImportStage::Encrypting
        || stage == ImportStage::Compiling || stage == ImportStage::Running || stage
        == ImportStage::Committing)
}

/// None of the transactions stays open: inside one an import is answered only by
/// rolling back, or once the commit was tried; and it succeeds only once that was
/// done.
pub proof fn law_import_closes_its_transaction(
    q: ImportRequest,
    stage: ImportStage,
    m: ImportMemoV,
    outcome: Outcome,
)
    requires
        import_in_transaction(q, stage, m.queued),
    ensures
        ({
            let (s, n, a) = import_next(q, stage, m, outcome);
            &&& n.queued == m.queued
            &&& answers(a) ==> a is Abort || stage == ImportStage::Committing
            &&& answers_success(a) ==> stage == ImportStage::Committing && failure_in(
                outcome,
            ) is None
            &&& !answers(a) && !(a is Fault) ==> import_in_transaction(q, s, n.queued)
        }),
{
    lemma_next_row_turn(
        q,
        ImportMemoV { inserted: m.inserted + m.bulk.len(), bulk: Seq::empty(), ..m },
    );
    lemma_next_row_turn(
        q,
        ImportMemoV {
            bulk: m.bulk.push(
                bulk_row(
                    q.schema.columns@,
                    m.picked,
                    m.values,
                    match outcome {
                        Outcome::Texts(stored) => stored.deep_view(),
                        _ => Seq::empty(),
                    },
                    q.classic,
                    q.now_expr@,
                    m.actor,
                ),
            ),
            row: m.row + 1,
            ..m
        },
    );
}

/// Whether an import can stand so, and remember this: the rows before the next one
/// are inserted or about to be, or are queued; those that are about to be inserted
/// are inserted before the import goes on behind the last row.
pub open spec fn is_import_state(q: ImportRequest, stage: ImportStage, m: ImportMemoV) -> bool {
    &&& m.rows.len() <= i32::MAX
    &&& 0 <= m.row <= m.rows.len()
    &&& 0 <= m.inserted
    &&& if m.queued {
        m.inserted == 0 && m.bulk.len() == 0 && m.docs.len() == m.row
    } else {
        m.inserted + m.bulk.len() == m.row && m.docs.len() == 0
    }
    &&& q.mongodb ==> m.bulk.len() == 0
    &&& match stage {
        ImportStage::Start | ImportStage::Token | ImportStage::Access | ImportStage::Uploading
        | ImportStage::LookingUp => m.row == 0 && !m.queued,
        ImportStage::Beginning => m.row == 0 && !m.queued,
        ImportStage::CheckingKey | ImportStage::Encrypting => m.row < m.rows.len(),
        ImportStage::Storing => m.row < m.rows.len() && !m.queued && q.mongodb,
        ImportStage::Compiling | ImportStage::Running => !m.queued && !q.mongodb,
        ImportStage::Queueing => m.queued && m.row == m.rows.len(),
        ImportStage::Committing => !m.queued && m.inserted == m.rows.len(),
        ImportStage::Ended => true,
    }
}

/// Whether an import that ends so, with this action, told of every row where it
/// told of a success.
pub open spec fn tells_of_every_row(m: ImportMemoV, a: ActionV) -> bool {
    answers_success(a) ==> {
        &&& m.row == m.rows.len()
        &&& if m.queued {
            m.docs.len() == m.rows.len() && match a {
                ActionV::Answer(r) => m.sent >= m.rows.len() && r.body.total_data == m.rows.len(),
                ActionV::EnqueueAllInBackground(jobs, r) => jobs.len() == m.rows.len()
                    && r.body.total_data == m.rows.len(),
                _ => false,
            }
        } else {
            m.inserted == m.rows.len() && match a {
                ActionV::Conclude(_, r) => r.status == 200 && r.body.total_data == m.rows.len(),
                _ => false,
            }
        }
    }
}

/// Whether a turn keeps to what an import can be.
pub open spec fn is_kept(q: ImportRequest, t: ImportTurn) -> bool {
    is_import_state(q, t.0, t.1) && tells_of_every_row(t.1, t.2)
}

proof fn lemma_next_row_keeps(q: ImportRequest, m: ImportMemoV)
    requires
        is_import_state(q, ImportStage::Ended, m),
        m.row == m.rows.len() ==> m.bulk.len() == 0,
    ensures
        is_kept(q, next_row(q, m)),
{
}

proof fn lemma_start_keeps(q: ImportRequest, m: ImportMemoV)
    requires
        is_import_state(q, ImportStage::LookingUp, m),
    ensures
        is_kept(q, start_rows(q, m)),
{
    let queued = q.queue_enabled && wants_queue(q.parameters.deep_view());
    lemma_next_row_keeps(q, ImportMemoV { queued, ..m });
}

proof fn lemma_upload_keeps(q: ImportRequest, m: ImportMemoV, u: Upload)
    requires
        is_import_state(q, ImportStage::Uploading, m),
    ensures
        is_kept(q, upload_read(q, m, u)),
{
    let n = ImportMemoV { extra: u.extra.deep_view(), ..m };
    if let Some(bytes) = u.file {
        let kind = kind_of_file(u.filename@, u.declared.deep_view(), inferred_type(bytes@));
        if let Ok(rows) = rows_in_file(q.classic, kind, bytes@) {
            let picked = import_columns(q.schema.columns@, rows);
            if rows.len() <= i32::MAX {
                lemma_start_keeps(
                    q,
                    ImportMemoV {
                        rows,
                        picked,
                        numbering: None,
                        row: 0,
                        bulk: Seq::empty(),
                        inserted: 0,
                        ..n
                    },
                );
            }
        }
    }
}

proof fn lemma_ready_keeps(q: ImportRequest, m: ImportMemoV, stored: Seq<Seq<char>>)
    requires
        is_import_state(q, ImportStage::Encrypting, m),
    ensures
        is_kept(q, row_ready(q, m, stored)),
{
    if m.queued {
        lemma_next_row_keeps(
            q,
            ImportMemoV { docs: m.docs.push(queued_doc(q, m, stored)), row: m.row + 1, ..m },
        );
    } else if !q.mongodb {
        let n = ImportMemoV {
            bulk: m.bulk.push(
                bulk_row(
                    q.schema.columns@,
                    m.picked,
                    m.values,
                    stored,
                    q.classic,
                    q.now_expr@,
                    m.actor,
                ),
            ),
            row: m.row + 1,
            ..m
        };
        if n.row < n.rows.len() {
            lemma_next_row_keeps(q, n);
        }
    }
}

proof fn lemma_import_keeps(
    q: ImportRequest,
    stage: ImportStage,
    m: ImportMemoV,
    outcome: Outcome,
)
    requires
        is_import_state(q, stage, m),
    ensures
        is_kept(q, import_next(q, stage, m, outcome)),
{
    match stage {
        ImportStage::Uploading => {
            if let Outcome::Uploaded(u) = outcome {
                lemma_upload_keeps(q, m, u);
            }
        },
        ImportStage::LookingUp => {
            let last = last_number(greatest_id(rows_in(outcome), q.mongodb));
            lemma_start_keeps(
                q,
                ImportMemoV {
                    numbering: match m.numbering {
                        Some(n) => Some(NumberingV { last, ..n }),
                        None => None,
                    },
                    ..m
                },
            );
        },
        ImportStage::Beginning => {
            lemma_next_row_keeps(q, m);
        },
        ImportStage::Encrypting => {
            if let Outcome::Texts(stored) = outcome {
                lemma_ready_keeps(q, m, stored.deep_view());
            }
        },
        ImportStage::Storing => {
            lemma_next_row_keeps(
                q,
                ImportMemoV { inserted: m.inserted + 1, row: m.row + 1, ..m },
            );
        },
        ImportStage::Running => {
            lemma_next_row_keeps(
                q,
                ImportMemoV { inserted: m.inserted + m.bulk.len(), bulk: Seq::empty(), ..m },
            );
        },
        _ => {},
    }
}

proof fn lemma_import_state(q: ImportRequest, outcomes: Seq<Outcome>)
    ensures
        ({
            let (stage, m) = import_after(q, outcomes);
            is_import_state(q, stage, m)
        }),
    decreases outcomes.len(),
{
    if outcomes.len() > 0 {
        lemma_import_state(q, outcomes.drop_last());
        let (stage, m) = import_after(q, outcomes.drop_last());
        lemma_import_keeps(q, stage, m, outcomes.last());
    }
}

/// An import that tells of a success leaves out no row of the file: each was
/// inserted, or each was handed to the queue, and their number is what it tells.
pub proof fn law_import_leaves_out_no_row(q: ImportRequest, outcomes: Seq<Outcome>)
    requires
        outcomes.len() > 0,
    ensures
        tells_of_every_row(import_after(q, outcomes).1, import_asks(q, outcomes)),
{
    lemma_import_state(q, outcomes.drop_last());
    let (stage, m) = import_after(q, outcomes.drop_last());
    lemma_import_keeps(q, stage, m, outcomes.last());
}

/// Whether a row of a bulk insertion holds the cells of a row of the file: under
/// each imported column that is not encrypted, what its cell gives.
pub open spec fn bulk_row_is_given(
    q: ImportRequest,
    m: ImportMemoV,
    row: Fields,
    bulk: Seq<InsertValueV>,
) -> bool {
    &&& bulk.len() == m.picked.len() + 2
    &&& forall|k: int|
        0 <= k < m.picked.len() ==> bulk_cell_is_given(
            q,
            q.schema.columns@[m.picked[k] as int],
            m.extra,
            row,
            #[trigger] bulk[k],
        )
}

/// Whether a value of a bulk insertion is what its cell gives.
pub open spec fn bulk_cell_is_given(
    q: ImportRequest,
    c: Column,
    extra: Fields,
    row: Fields,
    v: InsertValueV,
) -> bool {
    match cell_given(extra, row, c.name@) {
        Some(text) => !c.encrypt && !(c.name@ == "id"@ && text.len() == 0) ==> holds_cell(
            v,
            c,
            text,
            q.classic,
        ),
        None => true,
    }
}

/// Whether what an import remembers is what the file gives: the values of the row
/// that is next, and the rows that are about to be inserted.
pub open spec fn import_is_given(q: ImportRequest, stage: ImportStage, m: ImportMemoV) -> bool {
    &&& is_import_state(q, stage, m)
    &&& stage == ImportStage::CheckingKey || stage == ImportStage::Encrypting
        ==> values_are_given(
        q.schema.columns@,
        m.picked,
        m.extra,
        m.rows[m.row],
        m.values,
        m.picked.len() as int,
    )
    &&& forall|j: int|
        0 <= j < m.bulk.len() ==> bulk_row_is_given(
            q,
            m,
            m.rows[m.inserted + j],
            #[trigger] m.bulk[j],
        )
}

proof fn lemma_next_row_is_given(q: ImportRequest, m: ImportMemoV)
    requires
        import_is_given(q, ImportStage::Ended, m),
        m.row == m.rows.len() ==> m.bulk.len() == 0,
    ensures
        import_is_given(q, next_row(q, m).0, next_row(q, m).1),
        m.row < m.rows.len() && !(next_row(q, m).2 is Fault) ==> next_row(q, m).1.row == m.row,
{
    lemma_next_row_keeps(q, m);
    let n = next_row(q, m).1;
    if m.row < m.rows.len() {
        let read = row_values(
            q.schema.columns@,
            m.picked,
            m.extra,
            m.rows[m.row],
            m.numbering,
            m.picked.len() as int,
        );
        if read is Some {
            law_values_come_from_the_file(
                q.schema.columns@,
                m.picked,
                m.extra,
                m.rows[m.row],
                m.numbering,
                m.picked.len() as int,
            );
        }
    }
    assert forall|j: int| 0 <= j < n.bulk.len() implies bulk_row_is_given(
        q,
        n,
        n.rows[n.inserted + j],
        #[trigger] n.bulk[j],
    ) by {
        assert(bulk_row_is_given(q, m, m.rows[m.inserted + j], m.bulk[j]));
        assert forall|k: int| 0 <= k < n.picked.len() implies bulk_cell_is_given(
            q,
            q.schema.columns@[n.picked[k] as int],
            n.extra,
            n.rows[n.inserted + j],
            #[trigger] n.bulk[j][k],
        ) by {
            assert(bulk_cell_is_given(
                q,
                q.schema.columns@[m.picked[k] as int],
                m.extra,
                m.rows[m.inserted + j],
                m.bulk[j][k],
            ));
        }
    }
}

proof fn lemma_bulk_grows(q: ImportRequest, m: ImportMemoV, stored: Seq<Seq<char>>)
    requires
        import_is_given(q, ImportStage::Encrypting, m),
        !m.queued,
        !q.mongodb,
    ensures
        ({
            let bulk = m.bulk.push(
                bulk_row(
                    q.schema.columns@,
                    m.picked,
                    m.values,
                    stored,
                    q.classic,
                    q.now_expr@,
                    m.actor,
                ),
            );
            import_is_given(q, ImportStage::Running, ImportMemoV { bulk, row: m.row + 1, ..m })
        }),
{
    let row = bulk_row(
        q.schema.columns@,
        m.picked,
        m.values,
        stored,
        q.classic,
        q.now_expr@,
        m.actor,
    );
    let bulk = m.bulk.push(row);
    let n = ImportMemoV { bulk, row: m.row + 1, ..m };
    law_bulk_rows_hold_their_values(
        q.schema.columns@,
        m.picked,
        m.values,
        stored,
        q.classic,
        q.now_expr@,
        m.actor,
        0,
    );
    assert forall|j: int| 0 <= j < bulk.len() implies bulk_row_is_given(
        q,
        n,
        n.rows[n.inserted + j],
        #[trigger] bulk[j],
    ) by {
        if j < m.bulk.len() {
            assert(bulk_row_is_given(q, m, m.rows[m.inserted + j], m.bulk[j]));
            assert forall|k: int| 0 <= k < n.picked.len() implies bulk_cell_is_given(
                q,
                q.schema.columns@[n.picked[k] as int],
                n.extra,
                n.rows[n.inserted + j],
                #[trigger] bulk[j][k],
            ) by {
                assert(bulk_cell_is_given(
                    q,
                    q.schema.columns@[m.picked[k] as int],
                    m.extra,
                    m.rows[m.inserted + j],
                    m.bulk[j][k],
                ));
            }
        } else {
            assert forall|k: int| 0 <= k < n.picked.len() implies bulk_cell_is_given(
                q,
                q.schema.columns@[n.picked[k] as int],
                n.extra,
                n.rows[n.inserted + j],
                #[trigger] bulk[j][k],
            ) by {
                law_bulk_rows_hold_their_values(
                    q.schema.columns@,
                    m.picked,
                    m.values,
                    stored,
                    q.classic,
                    q.now_expr@,
                    m.actor,
                    k,
                );
                assert(value_is_given(
                    q.schema.columns@[m.picked[k] as int].name@,
                    m.extra,
                    m.rows[m.row],
                    m.values[k],
                ));
            }
        }
    }
}

#[verifier::spinoff_prover]
#[verifier::rlimit(60)]
proof fn lemma_import_step_is_given(
    q: ImportRequest,
    stage: ImportStage,
    m: ImportMemoV,
    outcome: Outcome,
)
    requires
        import_is_given(q, stage, m),
    ensures
        import_is_given(
            q,
            import_next(q, stage, m, outcome).0,
            import_next(q, stage, m, outcome).1,
        ),
{
    lemma_import_keeps(q, stage, m, outcome);
    match stage {
        ImportStage::Uploading => {
            if let Outcome::Uploaded(u) = outcome {
                lemma_upload_is_given(q, m, u);
            }
        },
        ImportStage::LookingUp => {
            let last = last_number(greatest_id(rows_in(outcome), q.mongodb));
            lemma_start_is_given(
                q,
                ImportMemoV {
                    numbering: match m.numbering {
                        Some(n) => Some(NumberingV { last, ..n }),
                        None => None,
                    },
                    ..m
                },
            );
        },
        ImportStage::Beginning => {
            lemma_next_row_is_given(q, m);
        },
        ImportStage::Encrypting => {
            if let Outcome::Texts(stored) = outcome {
                if m.queued {
                    lemma_next_row_is_given(
                        q,
                        ImportMemoV {
                            docs: m.docs.push(queued_doc(q, m, stored.deep_view())),
                            row: m.row + 1,
                            ..m
                        },
                    );
                } else if !q.mongodb {
                    lemma_bulk_grows(q, m, stored.deep_view());
                    let n = ImportMemoV {
                        bulk: m.bulk.push(
                            bulk_row(
                                q.schema.columns@,
                                m.picked,
                                m.values,
                                stored.deep_view(),
                                q.classic,
                                q.now_expr@,
                                m.actor,
                            ),
                        ),
                        row: m.row + 1,
                        ..m
                    };
                    if n.row < n.rows.len() {
                        lemma_next_row_is_given(q, n);
                    }
                }
            }
        },
        ImportStage::Storing => {
            lemma_next_row_is_given(
                q,
                ImportMemoV { inserted: m.inserted + 1, row: m.row + 1, ..m },
            );
        },
        ImportStage::Running => {
            lemma_next_row_is_given(
                q,
                ImportMemoV { inserted: m.inserted + m.bulk.len(), bulk: Seq::empty(), ..m },
            );
        },
        _ => {},
    }
}

proof fn lemma_start_is_given(q: ImportRequest, m: ImportMemoV)
    requires
        import_is_given(q, ImportStage::LookingUp, m),
    ensures
        import_is_given(q, start_rows(q, m).0, start_rows(q, m).1),
{
    lemma_start_keeps(q, m);
    let queued = q.queue_enabled && wants_queue(q.parameters.deep_view());
    lemma_next_row_is_given(q, ImportMemoV { queued, ..m });
}

proof fn lemma_upload_is_given(q: ImportRequest, m: ImportMemoV, u: Upload)
    requires
        import_is_given(q, ImportStage::Uploading, m),
    ensures
        import_is_given(q, upload_read(q, m, u).0, upload_read(q, m, u).1),
{
    lemma_upload_keeps(q, m, u);
    let n = ImportMemoV { extra: u.extra.deep_view(), ..m };
    if let Some(bytes) = u.file {
        let kind = kind_of_file(u.filename@, u.declared.deep_view(), inferred_type(bytes@));
        if let Ok(rows) = rows_in_file(q.classic, kind, bytes@) {
            let picked = import_columns(q.schema.columns@, rows);
            if rows.len() <= i32::MAX {
                lemma_start_is_given(
                    q,
                    ImportMemoV {
                        rows,
                        picked,
                        numbering: None,
                        row: 0,
                        bulk: Seq::empty(),
                        inserted: 0,
                        ..n
                    },
                );
            }
        }
    }
}

proof fn lemma_import_run_is_given(q: ImportRequest, outcomes: Seq<Outcome>)
    ensures
        import_is_given(q, import_after(q, outcomes).0, import_after(q, outcomes).1),
    decreases outcomes.len(),
{
    if outcomes.len() > 0 {
        lemma_import_run_is_given(q, outcomes.drop_last());
        let (stage, m) = import_after(q, outcomes.drop_last());
        lemma_import_step_is_given(q, stage, m, outcomes.last());
    }
}

/// An import inserts what the file holds. Whenever rows are inserted together, they
/// go into the table of the entity, under the names of the imported columns, they
/// are the rows of the file that come next, in their order, and in each stands,
/// under each column that is not encrypted, what its cell gives: the integer or the
/// float of a numeral in a column of numbers, and the text itself in any other. Null
/// stands only for an empty cell of a column that may be null.
pub proof fn law_import_inserts_what_the_file_holds(q: ImportRequest, outcomes: Seq<Outcome>)
    requires
        outcomes.len() > 0,
        import_asks(q, outcomes) is CompileBulk,
    ensures
        ({
            let m = import_after(q, outcomes).1;
            let a = import_asks(q, outcomes);
            &&& a->CompileBulk_0 == q.schema.table@
            &&& a->CompileBulk_1.len() == m.picked.len() + 2
            &&& forall|k: int|
                0 <= k < m.picked.len() ==> #[trigger] a->CompileBulk_1[k]
                    == q.schema.columns@[m.picked[k] as int].name@
            &&& a->CompileBulk_2.len() > 0
            &&& m.inserted + a->CompileBulk_2.len() == m.row
            &&& forall|j: int|
                0 <= j < a->CompileBulk_2.len() ==> bulk_row_is_given(
                    q,
                    m,
                    m.rows[m.inserted + j],
                    #[trigger] a->CompileBulk_2[j],
                )
        }),
{
    lemma_import_run_is_given(q, outcomes);
    let before = import_after(q, outcomes.drop_last());
    lemma_import_run_is_given(q, outcomes.drop_last());
    lemma_bulk_turn(q, before.0, before.1, outcomes.last());
}

proof fn lemma_bulk_turn(q: ImportRequest, stage: ImportStage, m: ImportMemoV, outcome: Outcome)
    requires
        is_import_state(q, stage, m),
        import_next(q, stage, m, outcome).2 is CompileBulk,
    ensures
        ({
            let (s, n, a) = import_next(q, stage, m, outcome);
            &&& s == ImportStage::Compiling
            &&& a->CompileBulk_0 == q.schema.table@
            &&& a->CompileBulk_1 == bulk_names(q.schema.columns@, n.picked)
            &&& a->CompileBulk_2 == n.bulk
            &&& n.bulk.len() > 0
            &&& !n.queued
        }),
{
    lemma_next_row_turn(q, m);
    let queued = q.queue_enabled && wants_queue(q.parameters.deep_view());
    lemma_next_row_turn(q, ImportMemoV { queued, ..m });
    lemma_next_row_turn(
        q,
        ImportMemoV { inserted: m.inserted + m.bulk.len(), bulk: Seq::empty(), ..m },
    );
    lemma_next_row_turn(q, ImportMemoV { inserted: m.inserted + 1, row: m.row + 1, ..m });
    if let Outcome::Uploaded(u) = outcome {
        if stage == ImportStage::Uploading {
            lemma_upload_asks_for_no_bulk(q, m, u);
        }
    }
}

proof fn lemma_upload_asks_for_no_bulk(q: ImportRequest, m: ImportMemoV, u: Upload)
    ensures
        !(upload_read(q, m, u).2 is CompileBulk),
        !(upload_read(q, m, u).2 is StoreInsert),
{
    let queued = q.queue_enabled && wants_queue(q.parameters.deep_view());
    let n = ImportMemoV { extra: u.extra.deep_view(), ..m };
    if let Some(bytes) = u.file {
        let kind = kind_of_file(u.filename@, u.declared.deep_view(), inferred_type(bytes@));
        if let Ok(rows) = rows_in_file(q.classic, kind, bytes@) {
            lemma_next_row_turn(
                q,
                ImportMemoV {
                    rows,
                    picked: import_columns(q.schema.columns@, rows),
                    numbering: None,
                    row: 0,
                    bulk: Seq::empty(),
                    inserted: 0,
                    queued,
                    ..n
                },
            );
        }
    }
}

/// An import into a store without transactions inserts what the file holds: each
/// document goes into the table of the entity, and has, under the name of each
/// imported column that is not encrypted, what the cell of the row that is next
/// gives for it.
pub proof fn law_import_stores_what_the_file_holds(
    q: ImportRequest,
    outcomes: Seq<Outcome>,
    k: int,
)
    requires
        outcomes.len() > 0,
        import_asks(q, outcomes) is StoreInsert,
        ({
            let m = import_after(q, outcomes).1;
            let c = q.schema.columns@[m.picked[k] as int];
            &&& 0 <= k < m.picked.len()
            &&& !c.encrypt
            &&& !is_audit_column(c.name@)
            &&& cell_given(m.extra, m.rows[m.row], c.name@) is Some
            &&& cell_given(m.extra, m.rows[m.row], c.name@)->0.len() > 0
            &&& forall|j: int|
                k < j < m.picked.len() ==> (#[trigger] q.schema.columns@[m.picked[j] as int]).name@
                    != c.name@
        }),
    ensures
        ({
            let m = import_after(q, outcomes).1;
            let a = import_asks(q, outcomes);
            let c = q.schema.columns@[m.picked[k] as int];
            let t = c.type_data@;
            let numeric = q.classic && (contains(t, "int"@) || contains(t, "float"@) || contains(
                t,
                "double"@,
            ) || contains(t, "decimal"@) || contains(t, "money"@));
            &&& a->StoreInsert_0 == q.schema.table@
            &&& field(a->StoreInsert_1, c.name@) is Some
            &&& shows(
                field(a->StoreInsert_1, c.name@)->0,
                cell_given(m.extra, m.rows[m.row], c.name@)->0,
                numeric,
            )
        }),
{
    let before = import_after(q, outcomes.drop_last());
    let m = before.1;
    lemma_import_run_is_given(q, outcomes.drop_last());
    lemma_import_run_is_given(q, outcomes);
    lemma_store_turn(q, before.0, m, outcomes.last());
    let stored = outcomes.last()->Texts_0.deep_view();
    let c = q.schema.columns@[m.picked[k] as int];
    assert(value_is_given(c.name@, m.extra, m.rows[m.row], m.values[k]));
    let style = if q.classic {
        CellStyle::Typed
    } else {
        CellStyle::Plain
    };
    let n = m.picked.len() as int;
    law_imported_documents_hold_their_values(
        q.schema.columns@,
        m.picked,
        m.values,
        stored,
        style,
        n,
        k,
    );
    let doc = row_doc(q.schema.columns@, m.picked, m.values, stored, style, n);
    let by = if q.classic {
        as_json(typed(m.actor, type_or_int(q.schema.columns@, "created_by_id"@)))
    } else {
        JsonV::Str(m.actor)
    };
    law_set_then_get(doc, "created_at"@, JsonV::Str(q.now@), c.name@);
    law_set_then_get(
        with_field(doc, "created_at"@, JsonV::Str(q.now@)),
        "created_by_id"@,
        by,
        c.name@,
    );
}

proof fn lemma_store_turn(q: ImportRequest, stage: ImportStage, m: ImportMemoV, outcome: Outcome)
    requires
        is_import_state(q, stage, m),
        import_next(q, stage, m, outcome).2 is StoreInsert,
    ensures
        stage == ImportStage::Encrypting,
        outcome is Texts,
        import_next(q, stage, m, outcome) == (
            ImportStage::Storing,
            m,
            ActionV::StoreInsert(
                q.schema.table@,
                stored_doc(q, m, outcome->Texts_0.deep_view()),
            ),
        ),
{
    lemma_next_row_turn(q, m);
    let queued = q.queue_enabled && wants_queue(q.parameters.deep_view());
    lemma_next_row_turn(q, ImportMemoV { queued, ..m });
    lemma_next_row_turn(
        q,
        ImportMemoV { inserted: m.inserted + m.bulk.len(), bulk: Seq::empty(), ..m },
    );
    lemma_next_row_turn(q, ImportMemoV { inserted: m.inserted + 1, row: m.row + 1, ..m });
    if let Outcome::Uploaded(u) = outcome {
        if stage == ImportStage::Uploading {
            lemma_upload_asks_for_no_bulk(q, m, u);
        }
    }
}

/// The file's own rows are imported: once an upload is read, the rows that are
/// remembered are those that were read in the file.
pub proof fn law_import_takes_the_rows_of_the_file(
    q: ImportRequest,
    m: ImportMemoV,
    u: Upload,
)
    requires
        u.file is Some,
        ({
            let n = import_next(q, ImportStage::Uploading, m, Outcome::Uploaded(u));
            !(n.2 is Answer) && !(n.2 is Fault)
        }),
    ensures
        ({
            let bytes = u.file->0@;
            let kind = kind_of_file(u.filename@, u.declared.deep_view(), inferred_type(bytes));
            let n = import_next(q, ImportStage::Uploading, m, Outcome::Uploaded(u)).1;
            &&& kind != FileKind::Unsupported
            &&& rows_in_file(q.classic, kind, bytes) == Ok::<Seq<Fields>, Seq<char>>(n.rows)
            &&& n.extra == u.extra.deep_view()
            &&& n.row == 0
        }),
{
}

/// No row is imported unchecked: each value that refers to another table is looked for
/// there before the row goes on, one after the other, and one that is not there ends the
/// import.
pub proof fn law_imported_keys_are_checked(
    q: ImportRequest,
    m: ImportMemoV,
    outcome: Outcome,
)
    ensures
        0 <= m.check < m.checks.len() ==> {
            let (s, n, a) = import_next(q, ImportStage::CheckingKey, m, outcome);
            if rows_in(outcome).len() == 0 {
                s == ImportStage::Ended && answers(a) && !answers_success(a)
            } else if m.check + 1 < m.checks.len() {
                s == ImportStage::CheckingKey && n.check == m.check + 1 && a == ActionV::FindRows(
                    key_query(m.checks[m.check + 1]),
                )
            } else {
                s == ImportStage::Encrypting && a is Encrypt
            }
        },
        !m.queued && m.row < m.rows.len() && row_values(
            q.schema.columns@,
            m.picked,
            m.extra,
            m.rows[m.row],
            m.numbering,
            m.picked.len() as int,
        ) is Some ==> {
            let (values, _) = row_values(
                q.schema.columns@,
                m.picked,
                m.extra,
                m.rows[m.row],
                m.numbering,
                m.picked.len() as int,
            )->0;
            let checks = row_checks(q.schema, m.picked, values, m.picked.len() as int);
            checks.len() > 0 ==> next_row(q, m).2 == ActionV::FindRows(key_query(checks[0]))
        },
{
}

/// What is queued is what the file holds: the document of a row that is queued has, under
/// the name of each imported column that is not encrypted, what its value gives, and it
/// is put behind those of the rows before it.
pub proof fn law_import_queues_what_the_file_holds(
    q: ImportRequest,
    m: ImportMemoV,
    outcome: Outcome,
    k: int,
)
    requires
        m.queued,
        outcome is Texts,
        outcome->Texts_0@.len() == m.picked.len(),
        0 <= k < m.picked.len(),
        m.values[k].len() > 0,
        !q.schema.columns@[m.picked[k] as int].encrypt,
        forall|j: int|
            k < j < m.picked.len() ==> (#[trigger] q.schema.columns@[m.picked[j] as int]).name@
                != q.schema.columns@[m.picked[k] as int].name@,
    ensures
        ({
            let n = import_next(q, ImportStage::Encrypting, m, outcome).1;
            let c = q.schema.columns@[m.picked[k] as int];
            let t = c.type_data@;
            let numeric = q.classic && (contains(t, "int"@) || contains(t, "float"@) || contains(
                t,
                "double"@,
            ) || contains(t, "decimal"@) || contains(t, "money"@));
            &&& n.docs.len() == m.docs.len() + 1
            &&& n.docs.drop_last() == m.docs
            &&& field(n.docs.last(), c.name@) is Some
            &&& shows(field(n.docs.last(), c.name@)->0, m.values[k], numeric)
        }),
{
    let stored = outcome->Texts_0.deep_view();
    let style = if q.classic {
        CellStyle::Typed
    } else {
        CellStyle::Text
    };
    law_imported_documents_hold_their_values(
        q.schema.columns@,
        m.picked,
        m.values,
        stored,
        style,
        m.picked.len() as int,
        k,
    );
    let next = ImportMemoV {
        docs: m.docs.push(queued_doc(q, m, stored)),
        row: m.row + 1,
        ..m
    };
    assert(next.docs.drop_last() =~= m.docs);
    lemma_next_row_keeps_docs(q, next);
}

proof fn lemma_next_row_keeps_docs(q: ImportRequest, m: ImportMemoV)
    ensures
        next_row(q, m).1.docs == m.docs,
{
}

/// The rows that were queued are sent one after the other, each as a write of its
/// document on the route.
pub proof fn law_queued_rows_are_sent(q: ImportRequest, m: ImportMemoV, i: int)
    ensures
        0 <= m.sent < m.docs.len() ==> match send_next(q, m).2 {
            ActionV::Enqueue(job) => job.route == q.route@ && job.op == WriteOpKindV::Post
                && job.body == m.docs[m.sent],
            _ => false,
        },
        m.queued && q.fast_ack ==> match rows_done(q, m).2 {
            ActionV::EnqueueAllInBackground(jobs, _) => jobs.len() == m.docs.len() && (0 <= i
                < m.docs.len() ==> jobs[i].body == m.docs[i] && jobs[i].route == q.route@
                && jobs[i].op == WriteOpKindV::Post),
            _ => false,
        },
{
}

} // verus!
