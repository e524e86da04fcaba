use nocode::ast::{DbParam, Filter, InsertValue, Val};
use nocode::delete::{delete, DeleteRequest};
use nocode::export::{export, ExportRequest};
use nocode::filters::Split;
use nocode::flow::{Action, Outcome, Preparation, Reply, Upload, UploadFault};
use nocode::get::{select, SelectRequest};
use nocode::idgen::Today;
use nocode::import::{import, ImportRequest};
use nocode::json::Json;
use nocode::model::{
    Column, DbType, DeleteConfig, ForeignKey, GetConfig, Index, PatchConfig, TableSchema,
    TraceConfig, WriteConfig,
};
use nocode::patch::{build_call_values, process_sp, say_called, wrap_count, CallRequest};
use nocode::post::{insert, InsertRequest};
use nocode::put::{update, UpdateRequest};
use nocode::reading::PageLimits;
use nocode::trace::{process, TraceRequest};

fn text(s: &str) -> Json {
    Json::Str(s.to_string())
}

fn names(list: &[&str]) -> Vec<String> {
    list.iter().map(|s| s.to_string()).collect()
}

fn row(list: &[(&str, Json)]) -> Json {
    Json::Object(fields(list))
}

fn fields(list: &[(&str, Json)]) -> Vec<(String, Json)> {
    list.iter().map(|(k, v)| (k.to_string(), v.copy())).collect()
}

fn column(name: &str, type_data: &str, nullable: bool) -> Column {
    Column { name: name.to_string(), type_data: type_data.to_string(), nullable, ..Default::default() }
}

fn today() -> Today {
    Today { year: "2026".to_string(), month: "06".to_string(), day: "09".to_string() }
}

fn items() -> TableSchema {
    TableSchema {
        table: "items".to_string(),
        primary_key: names(&["id"]),
        columns: vec![
            Column { auto_increment: true, ..column("id", "int", true) },
            column("name", "varchar", false),
            column("shop_id", "int", true),
            column("created_by_id", "int", true),
            column("updated_by_id", "int", true),
            column("deleted_by_id", "varchar", true),
        ],
        indexes: vec![Index { name: "ux".to_string(), columns: names(&["name", "shop_id"]), unique: true }],
        foreign_keys: vec![ForeignKey {
            column: "shop_id".to_string(),
            reference_table: "shops".to_string(),
            reference_column: "id".to_string(),
            ..Default::default()
        }],
        post: WriteConfig { columns: names(&["name", "shop_id"]), ..Default::default() },
        put: WriteConfig { columns: names(&["name"]), ..Default::default() },
        ..Default::default()
    }
}

fn name_of(a: &Action) -> String {
    format!("{:?}", a).split(|c: char| !c.is_alphanumeric()).next().unwrap().to_string()
}

const LAST: [&str; 14] = [
    "Nothing",
    "Answer",
    "Conclude",
    "Abort",
    "Abandon",
    "Settle",
    "CommitAndAnswer",
    "CommitAndConclude",
    "KeepAndAnswer",
    "AnswerFound",
    "SendFile",
    "Fault",
    "EnqueueInBackground",
    "EnqueueAllInBackground",
];

/// Runs a request to its end: the names of what it asked for, and the last of it.
fn run(
    mut step: impl FnMut(Outcome) -> Action,
    mut reply: impl FnMut(&Action) -> Outcome,
) -> (Vec<String>, Action) {
    let mut seen = Vec::new();
    let mut outcome = Outcome::Done;
    for _ in 0..200 {
        let a = step(outcome);
        seen.push(name_of(&a));
        if LAST.contains(&name_of(&a).as_str()) {
            return (seen, a);
        }
        outcome = reply(&a);
    }
    panic!("no end: {:?}", seen)
}

fn answer(a: Action) -> Reply {
    match a {
        Action::Answer(r)
        | Action::Conclude(_, r)
        | Action::Abort(r)
        | Action::Abandon(r)
        | Action::CommitAndAnswer(r)
        | Action::CommitAndConclude(_, r)
        | Action::KeepAndAnswer(_, _, _, _, r)
        | Action::EnqueueInBackground(_, r)
        | Action::EnqueueAllInBackground(_, r) => r,
        other => panic!("no answer: {:?}", other),
    }
}

fn told(a: Action) -> (u16, String) {
    let r = answer(a);
    (r.status, r.body.message)
}

fn prepared(stored: &[&str]) -> Outcome {
    Outcome::Prepared(Preparation {
        matches: stored.iter().map(|_| None).collect(),
        expressions: stored.iter().map(|_| Vec::new()).collect(),
        stored: names(stored),
    })
}

fn failed(s: &str) -> Outcome {
    Outcome::Failed(s.to_string())
}

// ---------------------------------------------------------------------------
// Insertions
// ---------------------------------------------------------------------------

fn insertion(schema: TableSchema) -> InsertRequest {
    InsertRequest {
        route: "items".to_string(),
        is_public: false,
        require_auth: true,
        queue_enabled: false,
        fast_ack: false,
        parameters: Json::Null,
        schema,
        mongodb: false,
        mysql: true,
        now_expr: "NOW()".to_string(),
        now: "now".to_string(),
        now_utc: "utc".to_string(),
        today: today(),
    }
}

fn insert_reply(a: &Action) -> Outcome {
    match a {
        Action::VerifyToken => Outcome::Identified("7".to_string()),
        Action::ReadBody => Outcome::Body(fields(&[
            ("name", text("Pen")),
            ("shop_id", text("3")),
            ("created_by_id", text("666")),
        ])),
        Action::Prepare(_) => prepared(&["Pen", "3"]),
        Action::RunSql(sql, _) if sql.contains("LAST_INSERT_ID") => Outcome::Rows(vec![row(&[("id", Json::Int(12))])]),
        Action::RunCompiled | Action::QueryDb(_, _) => Outcome::Rows(Vec::new()),
        Action::CheckFormula(_, _) => Outcome::Rows(vec![row(&[("ok", Json::Bool(true))])]),
        Action::StoreInsert(_, _) => {
            Outcome::Value(row(&[("inserted_id", row(&[("$oid", text("abc"))]))]))
        }
        _ => Outcome::Done,
    }
}

#[test]
fn an_insertion_is_checked_made_and_answered() {
    let mut m = insert(insertion(items()));
    let (seen, last) = run(|o| m.step(o), |a| {
        if let Action::QueryDb(sql, params) = a {
            if sql.contains("_valid") {
                assert_eq!(sql, "SELECT 'shop_id' as _col, 'shops' as _table, EXISTS(SELECT 1 FROM shops WHERE id = ?) as _valid");
                assert_eq!(params, &vec![DbParam::Str("3".to_string())]);
            } else {
                assert_eq!(sql, "SELECT 'ux' as _idx, EXISTS(SELECT 1 FROM items WHERE name = ? AND shop_id = ?) as _dup");
                assert_eq!(params, &vec![DbParam::Str("Pen".to_string()), DbParam::I64(3)]);
            }
        }
        if let Action::CompileInsert(table, fields, returning) = a {
            assert_eq!(table, "items");
            assert_eq!(
                fields,
                &vec![
                    ("name".to_string(), InsertValue::Param(DbParam::Str("Pen".to_string()))),
                    ("shop_id".to_string(), InsertValue::Param(DbParam::I64(3))),
                    ("created_at".to_string(), InsertValue::Raw("NOW()".to_string())),
                    ("created_by_id".to_string(), InsertValue::Param(DbParam::I64(7))),
                ]
            );
            assert_eq!(returning, &names(&["id"]));
        }
        insert_reply(a)
    });
    assert_eq!(
        seen,
        vec![
            "VerifyToken", "CheckAccess", "ReadBody", "Prepare", "QueryDb", "QueryDb", "Begin",
            "CompileInsert", "RunCompiled", "RunSql", "CommitAndConclude"
        ]
    );
    let r = answer(last);
    assert_eq!(r.status, 200);
    assert_eq!(r.body.data.get("id"), Some(&Json::Int(12)));
}

#[test]
fn an_insertion_into_a_store_needs_no_transaction() {
    let mut q = insertion(items());
    q.mongodb = true;
    let mut m = insert(q);
    let (seen, last) = run(|o| m.step(o), insert_reply);
    assert!(!seen.contains(&"Begin".to_string()));
    assert!(seen.contains(&"StoreInsert".to_string()));
    assert_eq!(answer(last).body.data.get("id"), Some(&text("abc")));
}

#[test]
fn an_insertion_needs_access() {
    let mut m = insert(insertion(items()));
    let (_, last) = run(|o| m.step(o), |_| Outcome::Done);
    assert_eq!(told(last), (401, "Invalid token".to_string()));
    let mut m = insert(insertion(items()));
    let (seen, last) = run(|o| m.step(o), |a| match a {
        Action::CheckAccess(_) => failed("no"),
        _ => insert_reply(a),
    });
    assert_eq!(seen, vec!["VerifyToken", "CheckAccess", "Answer"]);
    assert_eq!(told(last), (401, "Unauthorized".to_string()));
}

#[test]
fn an_insertion_needs_its_required_fields() {
    let mut m = insert(insertion(items()));
    let (_, last) = run(|o| m.step(o), |a| match a {
        Action::ReadBody => Outcome::Body(fields(&[("shop_id", text("3"))])),
        _ => insert_reply(a),
    });
    assert_eq!(told(last), (400, "Missing required field: name".to_string()));
}

#[test]
fn an_insertion_with_a_dangling_key_or_a_duplicate_is_refused() {
    let mut m = insert(insertion(items()));
    let (_, last) = run(|o| m.step(o), |a| match a {
        Action::QueryDb(sql, _) if sql.contains("_valid") => Outcome::Rows(vec![row(&[
            ("_col", text("shop_id")),
            ("_table", text("shops")),
            ("_valid", Json::Bool(false)),
        ])]),
        _ => insert_reply(a),
    });
    let (status, message) = told(last);
    assert_eq!(status, 400);
    assert!(message.contains("shop_id") && message.contains("shops"), "{}", message);
    let mut m = insert(insertion(items()));
    let (seen, last) = run(|o| m.step(o), |a| match a {
        Action::QueryDb(sql, _) if sql.contains("_dup") => {
            Outcome::Rows(vec![row(&[("_idx", text("ux")), ("_dup", Json::Bool(true))])])
        }
        _ => insert_reply(a),
    });
    assert!(!seen.contains(&"Begin".to_string()));
    assert_eq!(told(last).0, 400);
}

#[test]
fn a_failed_insertion_is_rolled_back() {
    let mut schema = items();
    schema.post.validate_data = "SQL:SELECT 1".to_string();
    schema.post.pre_process = "SQL:SELECT 2".to_string();
    schema.post.post_process = "SQL:SELECT 3".to_string();
    for bad in ["CheckFormula", "RunFormula", "RunCompiled"] {
        let mut s = items();
        s.post.validate_data = schema.post.validate_data.clone();
        s.post.pre_process = schema.post.pre_process.clone();
        s.post.post_process = schema.post.post_process.clone();
        let mut m = insert(insertion(s));
        let (_, last) = run(|o| m.step(o), |a| if name_of(a) == bad { failed("BAD created_by_id") } else { insert_reply(a) });
        assert!(matches!(last, Action::Abort(_)), "{}", bad);
        if bad == "RunCompiled" {
            assert_eq!(
                told(last),
                (500, "Error NCO-POST: bad created_by_id \n id user from token : `7`".to_string())
            );
        }
    }
    let mut m = insert(insertion(schema));
    let (seen, _) = run(|o| m.step(o), insert_reply);
    assert_eq!(
        seen[7..],
        ["CompileInsert", "CheckFormula", "RunFormula", "RunCompiled", "RunSql", "RunFormula", "CommitAndConclude"]
    );
}

#[test]
fn an_insertion_is_queued_with_its_actor() {
    let mut q = insertion(items());
    q.queue_enabled = true;
    q.parameters = row(&[("isqueue", text("true"))]);
    let mut m = insert(q);
    let (seen, last) = run(|o| m.step(o), |a| {
        if let Action::Enqueue(job) = a {
            assert_eq!(job.actor_id, Some("7".to_string()));
            assert_eq!(job.body.get("created_by_id"), Some(&Json::Int(7)));
        }
        insert_reply(a)
    });
    assert_eq!(
        seen,
        vec!["VerifyToken", "CheckAccess", "ReadBody", "VerifyToken", "CheckAccess", "Enqueue", "Answer"]
    );
    assert_eq!(told(last).0, 202);
}

#[test]
fn identifiers_are_generated_within_the_transaction() {
    let mut schema = items();
    schema.columns[0].function = "INV/%Y/000ID".to_string();
    schema.columns[0].type_data = "varchar".to_string();
    schema.columns[0].auto_increment = false;
    let mut m = insert(insertion(schema));
    let (seen, _) = run(|o| m.step(o), |a| {
        if let Action::CompileInsert(_, fields, _) = a {
            assert!(fields.contains(&(
                "id".to_string(),
                InsertValue::Param(DbParam::Str("INV/2026/010".to_string()))
            )));
        }
        match a {
            Action::RunQuery(q) => {
                assert_eq!(q.table, "items");
                Outcome::Rows(vec![row(&[("id", text("INV/2026/009"))])])
            }
            Action::Prepare(_) => prepared(&["Pen", "3", ""]),
            _ => insert_reply(a),
        }
    });
    assert!(seen.contains(&"RunQuery".to_string()), "{:?}", seen);
}

// ---------------------------------------------------------------------------
// Updates
// ---------------------------------------------------------------------------

fn updating(schema: TableSchema) -> UpdateRequest {
    UpdateRequest {
        route: "items".to_string(),
        is_public: false,
        require_auth: true,
        queue_enabled: false,
        fast_ack: false,
        parameters: Json::Null,
        schema,
        id_raw: "5".to_string(),
        mongodb: false,
        now_expr: "NOW()".to_string(),
        now: "now".to_string(),
        now_utc: "utc".to_string(),
        now_plain: "plain".to_string(),
    }
}

fn update_reply(a: &Action) -> Outcome {
    match a {
        Action::VerifyToken => Outcome::Identified("7".to_string()),
        Action::ReadBody => Outcome::Body(fields(&[("name", text("Ink"))])),
        Action::Encrypt(values) => Outcome::Texts(values.iter().map(|v| v.0.clone()).collect()),
        Action::RunSql(sql, _) if sql.starts_with("SELECT shop_id") => {
            Outcome::Rows(vec![row(&[("shop_id", Json::Int(3))])])
        }
        Action::RunSql(_, _) | Action::RunCompiled => Outcome::Rows(Vec::new()),
        _ => Outcome::Done,
    }
}

#[test]
fn an_update_reads_what_its_unique_indexes_need() {
    let mut m = update(updating(items()));
    let mut statements = Vec::new();
    let (seen, last) = run(|o| m.step(o), |a| {
        if let Action::RunSql(sql, params) = a {
            statements.push((sql.clone(), params.len()));
        }
        if let Action::CompileUpdate(_, filter, fields) = a {
            assert_eq!(filter, &Filter::Eq("id".to_string(), Val::Str("5".to_string())));
            assert_eq!(fields.len(), 3);
        }
        update_reply(a)
    });
    assert_eq!(
        seen,
        vec![
            "VerifyToken", "CheckAccess", "ReadBody", "Encrypt", "CompileUpdate", "Begin",
            "RunSql", "RunSql", "RunCompiled", "Commit", "Conclude"
        ]
    );
    assert_eq!(statements[0], ("SELECT shop_id FROM items WHERE id = ?".to_string(), 1));
    assert_eq!(statements[1].1, 3);
    assert_eq!(told(last), (200, "Data updated successfully".to_string()));
}

#[test]
fn an_update_to_a_duplicate_is_rolled_back() {
    let mut m = update(updating(items()));
    let (_, last) = run(|o| m.step(o), |a| match a {
        Action::RunSql(sql, _) if !sql.starts_with("SELECT shop_id") => {
            Outcome::Rows(vec![row(&[("_dup", Json::Bool(true))])])
        }
        _ => update_reply(a),
    });
    assert!(matches!(last, Action::Abort(_)));
    assert_eq!(told(last), (400, "Unique constraint violation".to_string()));
}

#[test]
fn an_update_follows_a_changed_key() {
    let mut schema = items();
    schema.put.columns = names(&["id"]);
    let mut m = update(updating(schema));
    let (seen, last) = run(|o| m.step(o), |a| match a {
        Action::ReadBody => Outcome::Body(fields(&[("id", text("9"))])),
        Action::FollowKeys(c) => {
            assert_eq!((c.process.as_str(), c.user.as_str()), ("UPDATE", "7"));
            assert_eq!((c.id.as_str(), c.id_new.as_str()), ("5", "9"));
            failed("used")
        }
        _ => update_reply(a),
    });
    assert_eq!(seen.last().unwrap(), "Abort");
    assert_eq!(
        told(last),
        (500, "Transaction rolled back due to foreign key failures: used".to_string())
    );
}

#[test]
fn an_update_of_a_column_that_is_not_there_is_refused() {
    let mut schema = items();
    schema.put.columns = names(&["colour"]);
    let mut m = update(updating(schema));
    let (_, last) = run(|o| m.step(o), |a| match a {
        Action::ReadBody => Outcome::Body(fields(&[("colour", text("x"))])),
        _ => update_reply(a),
    });
    let (status, message) = told(last);
    assert_eq!(status, 400);
    assert!(message.contains("colour"), "{}", message);
}

#[test]
fn a_queued_update_names_its_actor() {
    let mut q = updating(items());
    q.queue_enabled = true;
    q.fast_ack = true;
    q.parameters = row(&[("isqueue", text("true"))]);
    let mut m = update(q);
    let (_, last) = run(|o| m.step(o), update_reply);
    match last {
        Action::EnqueueInBackground(job, r) => {
            assert_eq!(job.body.get("__actor_id__"), Some(&text("7")));
            assert_eq!(r.status, 202);
        }
        other => panic!("unexpected: {:?}", other),
    }
}

#[test]
fn secrets_are_handed_over_and_stored_as_they_come_back() {
    let mut schema = items();
    schema.columns[1].encrypt = true;
    let mut m = update(updating(schema));
    run(|o| m.step(o), |a| match a {
        Action::Encrypt(values) => {
            assert_eq!(values, &vec![("Ink".to_string(), true)]);
            Outcome::Texts(names(&["secret"]))
        }
        Action::CompileUpdate(_, _, fields) => {
            assert_eq!(
                fields[0],
                ("name".to_string(), InsertValue::Param(DbParam::Str("secret".to_string())))
            );
            Outcome::Done
        }
        _ => update_reply(a),
    });
    let mut schema = items();
    schema.columns[1].encrypt = true;
    let mut m = insert(insertion(schema));
    run(|o| m.step(o), |a| match a {
        Action::Prepare(c) => {
            assert_eq!(c.entries, names(&["name", "shop_id"]));
            assert_eq!(c.names, names(&["name", "shop_id"]));
            assert_eq!(c.values, vec![("Pen".to_string(), true), ("3".to_string(), false)]);
            prepared(&["secret", "3"])
        }
        Action::CompileInsert(_, fields, _) => {
            assert_eq!(
                fields[0],
                ("name".to_string(), InsertValue::Param(DbParam::Str("secret".to_string())))
            );
            Outcome::Done
        }
        _ => insert_reply(a),
    });
}

// ---------------------------------------------------------------------------
// Deletions
// ---------------------------------------------------------------------------

fn deletion(kind: &str, mongodb: bool) -> DeleteRequest {
    let mut schema = items();
    schema.del = DeleteConfig { type_delete: kind.to_string(), ..Default::default() };
    DeleteRequest {
        route: "items".to_string(),
        is_public: false,
        queue_enabled: false,
        fast_ack: false,
        parameters: Json::Null,
        schema,
        id_raw: "5".to_string(),
        mongodb,
        now_expr: "NOW()".to_string(),
        now: "now".to_string(),
        now_utc: "utc".to_string(),
    }
}

fn delete_reply(a: &Action) -> Outcome {
    match a {
        Action::VerifyToken => Outcome::Identified("7".to_string()),
        _ => Outcome::Done,
    }
}

#[test]
fn a_soft_deletion_marks_the_row() {
    let mut m = delete(deletion("soft", false));
    let (seen, last) = run(|o| m.step(o), |a| {
        if let Action::CompileUpdate(_, _, fields) = a {
            assert_eq!(
                fields,
                &vec![
                    ("deleted_at".to_string(), InsertValue::Raw("NOW()".to_string())),
                    ("deleted_by_id".to_string(), InsertValue::Param(DbParam::Str("7".to_string()))),
                ]
            );
        }
        delete_reply(a)
    });
    assert_eq!(
        seen,
        vec!["VerifyToken", "CheckAccess", "CompileUpdate", "Begin", "RunCompiled", "FollowKeys", "Commit", "Conclude"]
    );
    assert_eq!(told(last), (200, "Data deleted successfully".to_string()));
}

#[test]
fn a_hard_deletion_removes_the_row() {
    let mut m = delete(deletion("hard", true));
    let (seen, last) = run(|o| m.step(o), delete_reply);
    assert_eq!(seen, vec!["VerifyToken", "CheckAccess", "CompileDelete", "StoreDelete", "Conclude"]);
    assert_eq!(told(last), (200, "Data deleted".to_string()));
}

#[test]
fn a_failed_deletion_is_rolled_back() {
    for (bad, message) in [
        ("RunCompiled", "Error NCO-DELETE: e"),
        ("FollowKeys", "Transaction rolled back due to foreign key failures: e"),
    ] {
        let mut m = delete(deletion("hard", false));
        let (_, last) = run(|o| m.step(o), |a| if name_of(a) == bad { failed("e") } else { delete_reply(a) });
        assert!(matches!(last, Action::Abort(_)));
        assert_eq!(told(last), (500, message.to_string()));
    }
}

// ---------------------------------------------------------------------------
// Readings and exports
// ---------------------------------------------------------------------------

fn reading(public: bool, params: &[(&str, Json)]) -> SelectRequest {
    let mut schema = items();
    schema.redis_ttl = 60;
    schema.get = GetConfig { columns: names(&["items.id"]), ..Default::default() };
    SelectRequest {
        route: "items".to_string(),
        ip: "1.2.3.4".to_string(),
        is_public: public,
        limit_per_second: 5,
        schema,
        params: fields(params),
        splits: Vec::new(),
        limits: PageLimits { default_rows: 10, max_rows: 20 },
        invalid_token: "bad token".to_string(),
        unauthorized: "no access".to_string(),
    }
}

fn read_reply(a: &Action) -> Outcome {
    match a {
        Action::VerifyToken => Outcome::Identified("7".to_string()),
        Action::RunQuery(_) => Outcome::Rows(vec![row(&[("id", Json::Int(1))])]),
        _ => Outcome::Done,
    }
}

#[test]
fn a_reading_is_limited_checked_and_kept_for_its_user() {
    let mut m = select(reading(false, &[("redis", text("true"))]));
    let mut keys = Vec::new();
    let (seen, last) = run(|o| m.step(o), |a| {
        if let Action::RateLimit(k, n) = a {
            keys.push((k.clone(), *n));
        }
        if let Action::LookUpShared(tenant, _) = a {
            assert_eq!(tenant, "7");
        }
        read_reply(a)
    });
    assert_eq!(
        seen,
        vec!["RateLimit", "VerifyToken", "CheckAccess", "RateLimit", "LookUpShared", "RunQuery", "KeepAndAnswer"]
    );
    assert_eq!(
        keys,
        vec![("get:items:1.2.3.4".to_string(), 5), ("get:items:user:7".to_string(), 5)]
    );
    match last {
        Action::KeepAndAnswer(tenant, _, local, ttl, r) => {
            assert_eq!((tenant.as_str(), local, ttl), ("7", false, Some(60)));
            assert_eq!(r.body.total_data, 9999);
        }
        other => panic!("unexpected: {:?}", other),
    }
}

#[test]
fn a_reading_of_everyone_drops_what_was_kept() {
    let mut m = select(reading(true, &[]));
    let (seen, last) = run(|o| m.step(o), |a| {
        if let Action::DropShared(tenant, _) = a {
            assert_eq!(tenant, "public");
        }
        read_reply(a)
    });
    assert_eq!(seen, vec!["RateLimit", "DropShared", "RunQuery", "Answer"]);
    assert_eq!(told(last), (200, "Data found".to_string()));
}

#[test]
fn a_reading_that_goes_wrong_is_answered() {
    let cases = [
        ("RateLimit", 429, "Too many requests"),
        ("CheckAccess", 401, "no access"),
        ("RunQuery", 500, "Error NCO-GET(AST): e"),
    ];
    for (bad, status, message) in cases {
        let mut m = select(reading(false, &[]));
        let (_, last) = run(|o| m.step(o), |a| if name_of(a) == bad { failed("e") } else { read_reply(a) });
        assert_eq!(told(last), (status, message.to_string()));
    }
    let mut m = select(reading(false, &[]));
    let (_, last) = run(|o| m.step(o), |_| Outcome::Done);
    assert_eq!(told(last), (401, "bad token".to_string()));
    let mut q = reading(true, &[]);
    q.schema.table = String::new();
    let mut m = select(q);
    let (_, last) = run(|o| m.step(o), read_reply);
    assert_eq!(
        told(last),
        (424, "ER01(nocode_get): Entity items on folder config/items.json not found".to_string())
    );
}

fn exporting(classic: bool) -> ExportRequest {
    let mut schema = items();
    schema.get.parameters = names(&["**month"]);
    ExportRequest {
        route: "items".to_string(),
        is_public: true,
        require_auth: true,
        schema,
        invalid_token: "bad token".to_string(),
        unauthorized: "no access".to_string(),
        stamp: "S".to_string(),
        classic,
    }
}

#[test]
fn an_export_sends_a_file() {
    let mut m = export(exporting(false));
    let (seen, last) = run(|o| m.step(o), |a| match a {
        Action::ReadBody => Outcome::Body(fields(&[("month", text("6")), ("limit", text("999999"))])),
        Action::TakeApart(requests) => Outcome::TakenApart(
            requests
                .iter()
                .map(|r| {
                    r.parts
                        .iter()
                        .map(|p| Split { column: p.clone(), operator: "=".to_string(), val: r.value.clone() })
                        .collect()
                })
                .collect(),
        ),
        Action::RunQuery(q) => {
            assert_eq!(q.limit, Some(100_000));
            Outcome::Rows(vec![row(&[("a", Json::Int(1))])])
        }
        _ => Outcome::Done,
    });
    assert_eq!(seen, vec!["ReadBody", "TakeApart", "RunQuery", "SendFile"]);
    match last {
        Action::SendFile(audit, file) => {
            assert_eq!(audit.action, "EXPORT");
            assert_eq!(file.disposition, "attachment; filename=\"items-S.csv\"");
            assert_eq!(file.content_type, "text/csv");
            assert_eq!(file.bytes, b"a\n1\n");
        }
        other => panic!("unexpected: {:?}", other),
    }
}

#[test]
fn a_classic_export_shows_floats_without_exponents() {
    let file = |classic: bool| {
        let mut q = exporting(classic);
        q.schema.get.parameters.clear();
        let mut m = export(q);
        let (_, last) = run(|o| m.step(o), |a| match a {
            Action::ReadBody => Outcome::Body(fields(&[("type", text("csv"))])),
            Action::TakeApart(_) => Outcome::TakenApart(Vec::new()),
            Action::RunQuery(_) => Outcome::Rows(vec![row(&[
                ("a", Json::Float("5.0".to_string())),
                ("b", Json::Float("1e21".to_string())),
            ])]),
            _ => Outcome::Done,
        });
        match last {
            Action::SendFile(_, file) => String::from_utf8(file.bytes).unwrap(),
            other => panic!("unexpected: {:?}", other),
        }
    };
    assert_eq!(file(true), "a,b\n5,1000000000000000000000\n");
    assert_eq!(file(false), "a,b\n5.0,1e21\n");
}

#[test]
fn an_export_can_be_a_workbook() {
    let mut q = exporting(false);
    q.schema.get.parameters.clear();
    let mut m = export(q);
    let (_, last) = run(|o| m.step(o), |a| match a {
        Action::ReadBody => Outcome::Body(fields(&[("type", text("xlsx"))])),
        Action::TakeApart(_) => Outcome::TakenApart(Vec::new()),
        Action::RunQuery(_) => Outcome::Rows(vec![row(&[("a", text("x"))])]),
        _ => Outcome::Done,
    });
    match last {
        Action::SendFile(_, file) => {
            assert!(file.disposition.ends_with(".xlsx\""));
            let rows = nocode::tabular::parse_xlsx(&file.bytes).unwrap();
            assert_eq!(rows, vec![vec![("a".to_string(), text("x"))]]);
        }
        other => panic!("unexpected: {:?}", other),
    }
}

#[test]
fn an_export_needs_its_required_parameters() {
    let mut m = export(exporting(false));
    let (_, last) = run(|o| m.step(o), |_| Outcome::Body(Vec::new()));
    assert_eq!(told(last), (400, "Required parameters missing: month".to_string()));
}

// ---------------------------------------------------------------------------
// Imports
// ---------------------------------------------------------------------------

fn importing(mongodb: bool) -> ImportRequest {
    ImportRequest {
        route: "items".to_string(),
        is_public: true,
        require_auth: true,
        queue_enabled: false,
        fast_ack: false,
        parameters: Json::Null,
        schema: items(),
        mongodb,
        now_expr: "NOW()".to_string(),
        now: "now".to_string(),
        now_utc: "utc".to_string(),
        today: today(),
        batch_size: 2,
        classic: true,
    }
}

fn csv(content: &str) -> Outcome {
    Outcome::Uploaded(Upload {
        filename: "items.csv".to_string(),
        declared: None,
        file: Some(content.as_bytes().to_vec()),
        extra: Vec::new(),
    })
}

fn import_reply(a: &Action) -> Outcome {
    match a {
        Action::ReadUpload => csv("name,shop_id\nPen,1\nInk,2\nCap,3\n"),
        Action::FindRows(_) => Outcome::Rows(vec![Json::Null]),
        Action::Encrypt(values) => Outcome::Texts(values.iter().map(|v| v.0.clone()).collect()),
        _ => Outcome::Done,
    }
}

#[test]
fn an_import_inserts_its_rows_in_batches() {
    let mut m = import(importing(false));
    let mut sizes = Vec::new();
    let (seen, last) = run(|o| m.step(o), |a| {
        if let Action::CompileBulk(table, columns, rows) = a {
            assert_eq!(table, "items");
            for r in rows {
                assert_eq!(r.len(), columns.len());
            }
            sizes.push(rows.len());
        }
        import_reply(a)
    });
    assert_eq!(sizes, vec![2, 1]);
    assert_eq!(seen.iter().filter(|s| *s == "FindRows").count(), 3);
    assert_eq!(seen[seen.len() - 2], "Commit");
    let r = answer(last);
    assert_eq!((r.status, r.body.total_data), (200, 3));
    assert_eq!(r.body.message, "Imported 3 rows");
}

#[test]
fn an_import_with_a_dangling_key_is_rolled_back() {
    let mut m = import(importing(false));
    let mut asked = 0;
    let (_, last) = run(|o| m.step(o), |a| match a {
        Action::FindRows(_) => {
            asked += 1;
            Outcome::Rows(if asked == 2 { Vec::new() } else { vec![Json::Null] })
        }
        _ => import_reply(a),
    });
    assert!(matches!(last, Action::Abort(_)));
    assert_eq!(
        told(last),
        (400, "Invalid foreign key value '2' for column 'shop_id' at row 2".to_string())
    );
}

#[test]
fn an_import_whose_values_were_not_encrypted_ends_in_a_fault() {
    let answers: Vec<fn(&[(String, bool)]) -> Outcome> = vec![
        |_| Outcome::Done,
        |values| Outcome::Texts(values.iter().skip(1).map(|v| v.0.clone()).collect()),
    ];
    for answered in answers {
        let mut m = import(importing(false));
        let (seen, last) = run(|o| m.step(o), |a| match a {
            Action::Encrypt(values) => answered(values),
            _ => import_reply(a),
        });
        assert!(matches!(last, Action::Fault));
        assert!(!seen.contains(&"CompileBulk".to_string()), "{:?}", seen);
    }
}

#[test]
fn an_import_into_a_store_goes_row_by_row() {
    let mut m = import(importing(true));
    let (seen, last) = run(|o| m.step(o), |a| {
        if let Action::StoreInsert(_, doc) = a {
            assert_eq!(doc.get("created_at"), Some(&text("now")));
        }
        import_reply(a)
    });
    assert_eq!(seen.iter().filter(|s| *s == "StoreInsert").count(), 3);
    assert_eq!(told(last).1, "Imported 3 rows");
}

#[test]
fn an_import_can_be_queued() {
    let mut q = importing(false);
    q.queue_enabled = true;
    q.fast_ack = true;
    q.parameters = row(&[("isqueue", text("true"))]);
    let mut m = import(q);
    let (_, last) = run(|o| m.step(o), import_reply);
    match last {
        Action::EnqueueAllInBackground(jobs, r) => {
            assert_eq!(jobs.len(), 3);
            assert_eq!(jobs[1].body.get("name"), Some(&text("Ink")));
            assert_eq!((r.status, r.body.message.as_str()), (202, "Enqueued 3 rows"));
        }
        other => panic!("unexpected: {:?}", other),
    }
}

#[test]
fn uploads_that_cannot_be_read_are_refused() {
    let cases = [
        (Outcome::UploadFailed(UploadFault::TooLarge), 413, "File too large"),
        (Outcome::UploadFailed(UploadFault::Part("p".to_string())), 400, "Multipart error: p"),
        (Outcome::UploadFailed(UploadFault::Chunk("c".to_string())), 400, "Read chunk error: c"),
        (
            Outcome::UploadFailed(UploadFault::Field("f".to_string(), "e".to_string())),
            400,
            "Read field 'f' error: e",
        ),
        (csv("name\n"), 400, "No data rows found"),
        (
            Outcome::Uploaded(Upload { filename: String::new(), declared: None, file: None, extra: Vec::new() }),
            400,
            "No file provided (field name 'file')",
        ),
        (
            Outcome::Uploaded(Upload {
                filename: "a.bin".to_string(),
                declared: None,
                file: Some(vec![1]),
                extra: Vec::new(),
            }),
            400,
            "Unsupported file type (expect .csv or .xlsx)",
        ),
    ];
    for (outcome, status, message) in cases {
        let mut m = import(importing(false));
        m.step(Outcome::Done);
        assert_eq!(told(m.step(outcome)), (status, message.to_string()));
    }
}

// ---------------------------------------------------------------------------
// Calls and copies
// ---------------------------------------------------------------------------

fn calling(classic: bool) -> CallRequest {
    let mut schema = items();
    schema.patch = PatchConfig {
        parameters: names(&["name", "n"]),
        pre_process_sp: "close_month".to_string(),
        return_mode: "ROWS".to_string(),
    };
    CallRequest {
        route: "items".to_string(),
        ip: "1.2.3.4".to_string(),
        is_public: true,
        require_auth: true,
        limit_per_second: 0,
        schema,
        parameters: row(&[("name", text("5")), ("n", Json::Int(5))]),
        mongodb: false,
        classic,
    }
}

#[test]
fn a_procedure_is_called_with_every_parameter() {
    let mut m = process_sp(calling(false));
    let (seen, last) = run(|o| m.step(o), |a| {
        if let Action::CompileCall(name, values) = a {
            assert_eq!(name, "close_month");
            assert_eq!(values, &vec![DbParam::Str("5".to_string()), DbParam::I64(5)]);
        }
        Outcome::Rows(vec![Json::Null, Json::Null])
    });
    assert_eq!(seen, vec!["CompileCall", "Begin", "RunCompiled", "Commit", "Conclude"]);
    let r = answer(last);
    assert_eq!((r.body.total_data, r.body.data), (2, Json::Array(vec![Json::Null, Json::Null])));
}

#[test]
fn a_call_without_a_parameter_is_refused() {
    let mut q = calling(false);
    q.parameters = row(&[("name", text("5"))]);
    let schema = calling(false).schema;
    assert_eq!(
        build_call_values(&schema, &q.parameters, true),
        Err("Missing required parameter: n".to_string())
    );
    assert_eq!(build_call_values(&schema, &q.parameters, false), Ok(vec![DbParam::I64(5)]));
    let mut m = process_sp(q);
    let (_, last) = run(|o| m.step(o), |_| Outcome::Done);
    assert_eq!(told(last), (400, "Missing required parameter: n".to_string()));
}

#[test]
fn a_failed_call_is_rolled_back() {
    let mut m = process_sp(calling(true));
    let (_, last) = run(|o| m.step(o), |a| match a {
        Action::RunCompiled => failed("e"),
        _ => Outcome::Done,
    });
    assert!(matches!(last, Action::Abort(_)));
    assert_eq!(told(last), (500, "Error NCO-PATCH: e".to_string()));
}

#[test]
fn answers_to_calls_follow_the_configuration() {
    assert_eq!(say_called("affected", vec![Json::Null]).body.data, Json::Null);
    assert_eq!(say_called("", vec![Json::Null, Json::Null]).body.total_data, 1);
    assert_eq!(wrap_count(0x8000_0000), i32::MIN);
    assert_eq!(wrap_count(0x1_0000_0001), 1);
}

fn tracing(db: DbType, classic: bool) -> TraceRequest {
    let mut schema = items();
    schema.trace = TraceConfig {
        parameters: names(&["name"]),
        column_selects: names(&["name", "shop_id"]),
        column_inserts: names(&["label", "shop"]),
        column_conflicts: names(&["label"]),
        insert_into: "labels".to_string(),
        ..Default::default()
    };
    TraceRequest {
        route: "items".to_string(),
        is_public: true,
        require_auth: true,
        schema,
        parameters: row(&[("name", text("Pen"))]),
        splits: vec![vec![Split { column: "items.name".to_string(), operator: "=".to_string(), val: "Pen".to_string() }]],
        now_expr: "NOW()".to_string(),
        db,
        classic,
    }
}

#[test]
fn rows_that_are_not_deleted_are_copied() {
    let mut m = process(tracing(DbType::Postgres, false));
    let (seen, last) = run(|o| m.step(o), |a| {
        if let Action::CompileUpsert(u) = a {
            assert_eq!(u.table, "labels");
            assert_eq!(u.columns.len(), u.query.columns.len());
            assert!(format!("{:?}", u.query.filter).contains("deleted_at"));
        }
        Outcome::Done
    });
    assert_eq!(seen, vec!["CompileUpsert", "Begin", "RunCompiled", "CommitAndAnswer"]);
    assert_eq!(told(last), (200, "Data inserted".to_string()));
}

#[test]
fn a_copy_that_is_not_supported_is_refused() {
    let mut m = process(tracing(DbType::Mongodb, false));
    let (_, last) = run(|o| m.step(o), |_| Outcome::Done);
    assert_eq!(
        told(last),
        (400, "TRACE insert-select upsert is not supported for MongoDB yet".to_string())
    );
    let mut m = process(tracing(DbType::Sqlite, true));
    let (_, last) = run(|o| m.step(o), |a| match a {
        Action::RunCompiled => failed("e"),
        _ => Outcome::Done,
    });
    assert!(matches!(last, Action::Abort(_)));
    assert_eq!(told(last), (500, "Error NCO-TRACE: e".to_string()));
}
