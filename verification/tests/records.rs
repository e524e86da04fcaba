use nocode::ast::{DbParam, Filter, InsertValue, Val};
use nocode::flow::{Action, Outcome, Preparation, Reply};
use nocode::idgen::Today;
use nocode::json::Json;
use nocode::model::{
    Column, DeleteConfig, DetailConfig, ForeignKey, GetConfig, Index, TableSchema, WriteConfig,
};
use nocode::reading::PageLimits;
use nocode::repositories::data_create_repo::RowTarget;
use nocode::repositories::data_trace_repo::build_conflict_keys;
use nocode::repositories::data_update_repo::ChangeTarget;
use nocode::validation::build_unique_checks;
use nocode::services::collect_missing_required_params;
use nocode::services::data_create_service::{process_insert_request, CreateRequest};
use nocode::services::data_delete_service::{process_delete_request, EraseRequest};
use nocode::services::data_import_service::get_import_batch_size;
use nocode::services::data_read_service::{process_get_request, ReadRequest};
use nocode::services::data_update_service::{process_update_request, ChangeRequest};

fn text(s: &str) -> Json {
    Json::Str(s.to_string())
}

fn names(list: &[&str]) -> Vec<String> {
    list.iter().map(|s| s.to_string()).collect()
}

fn fields(list: &[(&str, Json)]) -> Vec<(String, Json)> {
    list.iter().map(|(k, v)| (k.to_string(), v.copy())).collect()
}

fn row(list: &[(&str, Json)]) -> Json {
    Json::Object(fields(list))
}

fn column(name: &str, type_data: &str, nullable: bool) -> Column {
    Column { name: name.to_string(), type_data: type_data.to_string(), nullable, ..Default::default() }
}

fn orders() -> TableSchema {
    TableSchema {
        table: "orders".to_string(),
        primary_key: names(&["id"]),
        columns: vec![
            Column { auto_increment: true, ..column("id", "int", true) },
            column("customer_id", "int", false),
            column("note", "varchar", true),
            column("created_by_id", "int", true),
            column("updated_by_id", "int", true),
            column("deleted_at", "datetime", true),
        ],
        indexes: vec![Index { name: "ux_note".to_string(), columns: names(&["note"]), unique: true }],
        foreign_keys: vec![ForeignKey {
            column: "customer_id".to_string(),
            reference_table: "customers".to_string(),
            reference_column: "id".to_string(),
            ..Default::default()
        }],
        post: WriteConfig { columns: names(&["customer_id", "note"]), ..Default::default() },
        put: WriteConfig { columns: names(&["note"]), ..Default::default() },
        details: vec![DetailConfig {
            field: "items".to_string(),
            target_table: "order_items".to_string(),
            foreign_key_column: "order_id".to_string(),
            ..Default::default()
        }],
        ..Default::default()
    }
}

fn order_items() -> TableSchema {
    TableSchema {
        table: "order_items".to_string(),
        columns: vec![
            column("order_id", "int", false),
            column("sku", "varchar", false),
            column("qty", "int", true),
        ],
        post: WriteConfig { columns: names(&["sku", "qty"]), ..Default::default() },
        ..Default::default()
    }
}

fn name_of(a: &Action) -> String {
    format!("{:?}", a).split(|c: char| !c.is_alphanumeric()).next().unwrap().to_string()
}

const LAST: [&str; 12] = [
    "Nothing",
    "Answer",
    "Conclude",
    "Abort",
    "Abandon",
    "Settle",
    "CommitAndAnswer",
    "CommitAndConclude",
    "KeepAndAnswer",
    "AnswerFound",
    "Fault",
    "EnqueueInBackground",
];

/// Runs a request to its end: the names of what it asked for, and the last of it.
fn run(
    mut step: impl FnMut(Outcome) -> Action,
    mut reply: impl FnMut(&Action) -> Outcome,
) -> (Vec<String>, Action) {
    let mut seen = Vec::new();
    let mut outcome = Outcome::Done;
    for _ in 0..200 {
        let a = step(outcome);
        seen.push(name_of(&a));
        if LAST.contains(&name_of(&a).as_str()) {
            return (seen, a);
        }
        outcome = reply(&a);
    }
    panic!("no end: {:?}", seen)
}

fn answer(a: Action) -> Reply {
    match a {
        Action::Answer(r)
        | Action::Conclude(_, r)
        | Action::Abort(r)
        | Action::Abandon(r)
        | Action::Settle(_, _, r)
        | Action::KeepAndAnswer(_, _, _, _, r)
        | Action::EnqueueInBackground(_, r) => r,
        other => panic!("no answer: {:?}", other),
    }
}

fn told(a: Action) -> (u16, String) {
    let r = answer(a);
    (r.status, r.body.message)
}

fn failed(s: &str) -> Outcome {
    Outcome::Failed(s.to_string())
}

// ---------------------------------------------------------------------------
// Insertions
// ---------------------------------------------------------------------------

fn create_request() -> CreateRequest {
    CreateRequest {
        is_public: false,
        require_auth: true,
        queue_enabled: false,
        fast_ack: false,
        shared_cache: true,
        parameters: Json::Null,
        entities: vec![("order_items".to_string(), order_items())],
        now_utc: "utc".to_string(),
    }
}

fn create_target(mongodb: bool) -> RowTarget {
    RowTarget {
        route: "orders".to_string(),
        schema: orders(),
        mongodb,
        mysql: true,
        today: Today { year: "2026".to_string(), month: "06".to_string(), day: "09".to_string() },
    }
}

fn order_body() -> Json {
    row(&[
        ("customer_id", text("4")),
        ("note", text("fast")),
        (
            "items",
            Json::Array(vec![
                row(&[("sku", text("A")), ("qty", Json::Int(2))]),
                row(&[("sku", text("B")), ("qty", Json::Int(1))]),
            ]),
        ),
    ])
}

fn create_reply(a: &Action) -> Outcome {
    match a {
        Action::VerifyToken => Outcome::Identified("7".to_string()),
        Action::Prepare(_) => Outcome::Prepared(Preparation {
            matches: vec![None, None, None],
            expressions: vec![Vec::new(), Vec::new(), Vec::new()],
            stored: names(&["4", "fast", ""]),
        }),
        Action::Encrypt(values) => Outcome::Texts(values.iter().map(|v| v.0.clone()).collect()),
        Action::CheckKeys(_) | Action::CheckUnique(_, _, _) | Action::RunCompiled => {
            Outcome::Rows(Vec::new())
        }
        Action::RunSql(_, _) => Outcome::Rows(vec![row(&[("id", Json::Int(31))])]),
        Action::RunQuery(_) => Outcome::Rows(Vec::new()),
        Action::StoreInsert(_, _) => Outcome::Value(text("oid")),
        _ => Outcome::Done,
    }
}

#[test]
fn an_order_is_inserted_with_its_items() {
    let mut m = process_insert_request(create_request(), create_target(false), order_body());
    let mut bulk = Vec::new();
    let (seen, last) = run(|o| m.step(o), |a| {
        if let Action::CompileBulk(table, columns, rows) = a {
            let fk = columns.iter().position(|c| c == "order_id").unwrap();
            for r in rows {
                assert_eq!(r.len(), columns.len());
                assert_eq!(r[fk], InsertValue::Param(DbParam::I64(31)));
            }
            bulk.push((table.clone(), rows.len()));
        }
        create_reply(a)
    });
    assert_eq!(
        seen,
        vec![
            "VerifyToken", "CheckRequest", "Prepare", "Encrypt", "CheckKeys", "CheckUnique",
            "Begin", "CompileInsert", "RunCompiled", "RunSql", "CompileBulk", "RunCompiled",
            "Commit", "Settle"
        ]
    );
    assert_eq!(bulk, vec![("order_items".to_string(), 2)]);
    match last {
        Action::Settle(route, audit, r) => {
            assert_eq!(route, Some("orders".to_string()));
            assert_eq!(audit.unwrap().actor_id, "7");
            assert_eq!(r.body.message, "Data inserted successfully");
            assert_eq!(r.body.data.get("id"), Some(&Json::Int(31)));
            match r.body.data.get("items") {
                Some(Json::Array(items)) => {
                    assert_eq!(items.len(), 2);
                    assert_eq!(items[1].get("order_id"), Some(&Json::Int(31)));
                }
                other => panic!("no items: {:?}", other),
            }
        }
        other => panic!("unexpected: {:?}", other),
    }
}

#[test]
fn an_order_with_bad_items_is_refused() {
    let bodies = [
        row(&[("customer_id", text("4")), ("note", text("x")), ("items", Json::Array(vec![Json::Int(1)]))]),
        row(&[("customer_id", text("4")), ("note", text("x")), ("items", Json::Array(vec![row(&[("qty", Json::Int(1))])]))]),
        row(&[("note", text("x"))]),
    ];
    for body in bodies {
        let mut m = process_insert_request(create_request(), create_target(false), body);
        let (seen, last) = run(|o| m.step(o), create_reply);
        assert!(!seen.contains(&"Begin".to_string()), "{:?}", seen);
        let (status, message) = told(last);
        assert!(status >= 400, "{}", message);
    }
}

#[test]
fn an_order_that_fails_late_is_rolled_back() {
    let mut runs = 0;
    let mut m = process_insert_request(create_request(), create_target(false), order_body());
    let (_, last) = run(|o| m.step(o), |a| match a {
        Action::RunCompiled => {
            runs += 1;
            if runs == 2 { failed("e") } else { Outcome::Rows(Vec::new()) }
        }
        _ => create_reply(a),
    });
    assert!(matches!(last, Action::Abort(_)));
    assert_eq!(told(last).1, "Error inserting detail items into order_items: e");
}

#[test]
fn an_order_of_an_unknown_customer_is_refused() {
    let mut m = process_insert_request(create_request(), create_target(false), order_body());
    let (seen, last) = run(|o| m.step(o), |a| match a {
        Action::CheckKeys(checks) => {
            assert_eq!(checks[0].table, "customers");
            Outcome::Rows(vec![row(&[
                ("_col", text("customer_id")),
                ("_table", text("customers")),
                ("_valid", Json::Int(0)),
            ])])
        }
        _ => create_reply(a),
    });
    assert!(!seen.contains(&"Begin".to_string()));
    let (_, message) = told(last);
    assert!(message.contains("customer_id") && message.contains("customers"), "{}", message);
}

#[test]
fn a_stored_order_stores_its_items() {
    let mut m = process_insert_request(create_request(), create_target(true), order_body());
    let mut stored = Vec::new();
    let (seen, _) = run(|o| m.step(o), |a| match a {
        Action::StoreInsert(table, doc) => {
            stored.push((table.clone(), doc.get("order_id").is_some()));
            Outcome::Value(text("oid"))
        }
        Action::RunQuery(q) if q.table == "customers" => Outcome::Rows(vec![Json::Null]),
        _ => create_reply(a),
    });
    assert_eq!(
        stored,
        vec![
            ("orders".to_string(), false),
            ("order_items".to_string(), true),
            ("order_items".to_string(), true)
        ]
    );
    assert!(!seen.contains(&"Begin".to_string()));
}

#[test]
fn an_order_without_token_or_access_is_refused() {
    let mut m = process_insert_request(create_request(), create_target(false), order_body());
    let (_, last) = run(|o| m.step(o), |_| Outcome::Done);
    assert_eq!(told(last), (401, "Invalid token".to_string()));
    let mut m = process_insert_request(create_request(), create_target(false), order_body());
    let (_, last) = run(|o| m.step(o), |a| match a {
        Action::CheckRequest => failed("no"),
        _ => create_reply(a),
    });
    assert_eq!(told(last), (500, "Unauthorized: no".to_string()));
}

#[test]
fn an_order_can_be_queued() {
    let mut q = create_request();
    q.queue_enabled = true;
    q.parameters = row(&[("isqueue", text("true"))]);
    let mut m = process_insert_request(q, create_target(false), order_body());
    let (_, last) = run(|o| m.step(o), |a| {
        if let Action::Enqueue(job) = a {
            assert_eq!(job.body.get("created_by_id"), Some(&Json::Int(7)));
        }
        create_reply(a)
    });
    assert_eq!(told(last), (200, "Enqueued".to_string()));
}

#[test]
fn the_number_of_an_order_can_come_from_a_service() {
    let mut t = create_target(true);
    t.schema.columns[0] = Column {
        name: "id".to_string(),
        type_data: "varchar".to_string(),
        function: "000ID/SO".to_string(),
        function_endpoint: "http://n".to_string(),
        ..Default::default()
    };
    let mut m = process_insert_request(create_request(), t, order_body());
    let (_, last) = run(|o| m.step(o), |a| match a {
        Action::RunQuery(q) if q.table == "customers" => Outcome::Rows(vec![Json::Null]),
        Action::BuildUrl(url, _) => Outcome::Texts(vec![url.clone()]),
        Action::FetchNumber(url, path) => {
            assert_eq!((url.as_str(), path.as_str()), ("http://n?prefix=SO", "data"));
            Outcome::Picked(Some(Json::Int(12)))
        }
        Action::StoreInsert(_, _) => Outcome::Value(Json::Null),
        _ => create_reply(a),
    });
    assert_eq!(answer(last).body.data.get("id"), Some(&text("012/SO")));
}

#[test]
fn a_number_that_the_service_does_not_give_is_not_made_up() {
    let cases = [
        (Outcome::Picked(None), "ID endpoint response missing field 'data'"),
        (failed("down"), "ID endpoint request failed: down"),
        (Outcome::NotBuilt("eof".to_string()), "ID endpoint response is not valid JSON: eof"),
        (
            Outcome::Rejected("503 Service Unavailable".to_string(), "later".to_string()),
            "ID endpoint returned 503 Service Unavailable: later",
        ),
    ];
    for (outcome, message) in cases {
        let mut given = Some(outcome);
        let mut t = create_target(false);
        t.schema.columns[0] = Column {
            name: "id".to_string(),
            function: "000ID".to_string(),
            function_endpoint: "http://n".to_string(),
            ..Default::default()
        };
        let mut m = process_insert_request(create_request(), t, order_body());
        let (_, last) = run(|o| m.step(o), |a| match a {
            Action::BuildUrl(url, _) => Outcome::Texts(vec![url.clone()]),
            Action::FetchNumber(_, _) => given.take().unwrap(),
            _ => create_reply(a),
        });
        assert!(matches!(last, Action::Abandon(_)));
        assert_eq!(told(last).1, message);
    }
}

#[test]
fn complete_unique_indexes_are_checked() {
    let index = |name: &str, columns: &[&str], unique: bool| Index {
        name: name.to_string(),
        columns: names(columns),
        unique,
    };
    let indexes = vec![
        index("a", &["note"], true),
        index("b", &["note", "customer_id"], true),
        index("c", &["note", "missing"], true),
        index("d", &["note"], false),
    ];
    let body = row(&[("note", text("x")), ("customer_id", text("4"))]);
    let checks = build_unique_checks(&indexes, &orders().columns, &body);
    assert_eq!(checks.len(), 2);
    assert_eq!(checks[0].index_name, "a");
    assert_eq!(
        checks[1].columns,
        vec![
            ("note".to_string(), DbParam::Str("x".to_string())),
            ("customer_id".to_string(), DbParam::I64(4)),
        ]
    );
}

// ---------------------------------------------------------------------------
// Updates
// ---------------------------------------------------------------------------

fn change_request() -> ChangeRequest {
    ChangeRequest {
        is_public: false,
        require_auth: true,
        queue_enabled: false,
        fast_ack: false,
        parameters: Json::Null,
        path_fault: None,
        now_expr: "NOW()".to_string(),
        now: "now".to_string(),
        now_utc: "utc".to_string(),
    }
}

fn change_target() -> ChangeTarget {
    ChangeTarget { route: "orders".to_string(), schema: orders(), id_raw: "5".to_string(), mongodb: false }
}

fn change_reply(a: &Action) -> Outcome {
    match a {
        Action::VerifyToken => Outcome::Identified("7".to_string()),
        Action::ReadBody => Outcome::Value(row(&[("note", text("slow"))])),
        Action::Encrypt(values) => Outcome::Texts(values.iter().map(|v| v.0.clone()).collect()),
        Action::CheckUnique(_, _, _) | Action::RunNative(_, _) => Outcome::Rows(Vec::new()),
        Action::UpdateRows(_, _, _) => Outcome::Count(1),
        _ => Outcome::Done,
    }
}

#[test]
fn a_row_that_is_not_deleted_is_updated() {
    let mut m = process_update_request(change_request(), change_target());
    let (seen, last) = run(|o| m.step(o), |a| {
        if let Action::CheckUnique(table, checks, other) = a {
            assert_eq!(table, "orders");
            assert_eq!(checks[0].index_name, "ux_note");
            assert_eq!(other, &Some(("id".to_string(), DbParam::I64(5))));
        }
        if let Action::UpdateRows(_, filter, doc) = a {
            let f = format!("{:?}", filter);
            assert!(f.contains("deleted_at"), "{}", f);
            assert_eq!(doc.get("note"), Some(&text("slow")));
            assert_eq!(doc.get("updated_by_id"), Some(&Json::Int(7)));
        }
        change_reply(a)
    });
    assert_eq!(
        seen,
        vec![
            "VerifyToken", "CheckRequest", "ReadBody", "Encrypt", "CompileUpdate", "Begin",
            "RunNative", "CheckUnique", "UpdateRows", "Commit", "Conclude"
        ]
    );
    let r = answer(last);
    assert_eq!((r.status, r.body.message.as_str()), (200, "Data updated successfully"));
    assert_eq!(r.body.data.get("id"), Some(&text("5")));
}

#[test]
fn an_update_that_fails_is_rolled_back() {
    let cases = [
        ("UpdateRows", "Error NCO-PUT: e"),
        ("CheckUnique", "Unique batch validation failed: e"),
    ];
    for (bad, message) in cases {
        let mut m = process_update_request(change_request(), change_target());
        let (_, last) = run(|o| m.step(o), |a| if name_of(a) == bad { failed("e") } else { change_reply(a) });
        assert!(matches!(last, Action::Abort(_)));
        assert_eq!(told(last), (500, message.to_string()));
    }
}

#[test]
fn an_update_with_a_bad_path_or_entity_is_refused() {
    let mut q = change_request();
    q.path_fault = Some("bad path".to_string());
    let mut m = process_update_request(q, change_target());
    let (_, last) = run(|o| m.step(o), change_reply);
    assert_eq!(told(last), (400, "bad path".to_string()));
    let mut t = change_target();
    t.schema.table = String::new();
    let mut m = process_update_request(change_request(), t);
    let (_, last) = run(|o| m.step(o), change_reply);
    assert_eq!(told(last), (424, "Entity orders not found".to_string()));
    let mut m = process_update_request(change_request(), change_target());
    let (_, last) = run(|o| m.step(o), |a| match a {
        Action::ReadBody => failed("cut off"),
        _ => change_reply(a),
    });
    assert_eq!(told(last), (400, "Failed to parse multipart data: cut off".to_string()));
}

// ---------------------------------------------------------------------------
// Deletions
// ---------------------------------------------------------------------------

fn erase_request() -> EraseRequest {
    EraseRequest {
        route: "orders".to_string(),
        is_public: false,
        require_auth: true,
        queue_enabled: false,
        fast_ack: false,
        parameters: Json::Null,
        id_raw: "5".to_string(),
        now: "now".to_string(),
    }
}

fn erase_schema() -> TableSchema {
    let mut schema = orders();
    schema.del = DeleteConfig { type_delete: "soft".to_string(), ..Default::default() };
    schema.locked_when = vec![("note".to_string(), Json::Array(vec![text("paid")]))];
    schema
}

fn erase_reply(a: &Action) -> Outcome {
    match a {
        Action::VerifyToken => Outcome::Identified("7".to_string()),
        Action::RunNative(_, _) => Outcome::Rows(vec![row(&[("note", text("paid"))])]),
        Action::CompareValues(pairs) => Outcome::Flags(pairs.iter().map(|_| false).collect()),
        _ => Outcome::Done,
    }
}

#[test]
fn a_row_that_is_not_locked_is_deleted() {
    let mut m = process_delete_request(erase_request(), erase_schema(), false, "NOW()".to_string());
    let (seen, last) = run(|o| m.step(o), erase_reply);
    assert_eq!(
        seen,
        vec![
            "VerifyToken", "CheckRequest", "CompileUpdate", "Begin", "RunNative", "CompareValues",
            "RunCompiled", "FollowKeys", "Commit", "Conclude"
        ]
    );
    assert_eq!(told(last), (200, "Data soft-deleted".to_string()));
}

#[test]
fn a_locked_row_stays() {
    let mut m = process_delete_request(erase_request(), erase_schema(), false, "NOW()".to_string());
    let (seen, last) = run(|o| m.step(o), |a| match a {
        Action::CompareValues(pairs) => Outcome::Flags(pairs.iter().map(|_| true).collect()),
        _ => erase_reply(a),
    });
    assert!(!seen.contains(&"RunCompiled".to_string()));
    assert!(matches!(last, Action::Abort(_)));
    assert_eq!(told(last).1, "Cannot delete locked record: field 'note' is currently 'paid'");
}

#[test]
fn a_document_is_marked_as_deleted() {
    let mut m = process_delete_request(erase_request(), erase_schema(), true, "NOW()".to_string());
    let (seen, last) = run(|o| m.step(o), |a| {
        if let Action::StoreUpdate(table, filter, doc) = a {
            assert_eq!(table, "orders");
            assert_eq!(filter, &Filter::Eq("id".to_string(), Val::Str("5".to_string())));
            assert_eq!(doc.get("deleted_at"), Some(&text("now")));
        }
        erase_reply(a)
    });
    assert_eq!(seen, vec!["VerifyToken", "CheckRequest", "StoreUpdate", "Conclude"]);
    assert_eq!(told(last), (200, "Data soft-deleted".to_string()));
}

// ---------------------------------------------------------------------------
// Readings
// ---------------------------------------------------------------------------

fn read_request(ttl: i64, parameters: Json) -> ReadRequest {
    let mut schema = orders();
    schema.get = GetConfig { columns: names(&["orders.id"]), ..Default::default() };
    schema.redis_ttl = ttl;
    ReadRequest {
        route: "orders".to_string(),
        is_public: false,
        require_auth: true,
        shared_cache: true,
        schema,
        parameters,
        splits: Vec::new(),
        limits: PageLimits { default_rows: 10, max_rows: 20 },
    }
}

fn lookup_reply(a: &Action) -> Outcome {
    match a {
        Action::VerifyToken => Outcome::Identified("7".to_string()),
        Action::RunQuery(_) => Outcome::Rows(Vec::new()),
        _ => Outcome::Done,
    }
}

#[test]
fn an_answer_is_kept_for_its_user() {
    let mut m = process_get_request(read_request(0, row(&[("redis", text("YES")), ("b", Json::Int(1))])));
    let (seen, last) = run(|o| m.step(o), lookup_reply);
    assert_eq!(
        seen,
        vec!["VerifyToken", "CheckRequest", "LookUpLocal", "LookUpShared", "RunQuery", "KeepAndAnswer"]
    );
    match last {
        Action::KeepAndAnswer(tenant, suffix, local, ttl, _) => {
            assert_eq!((tenant.as_str(), suffix.as_str(), local, ttl), ("7", "b=1", true, Some(300)));
        }
        other => panic!("unexpected: {:?}", other),
    }
}

#[test]
fn a_kept_answer_is_given_again() {
    let mut m = process_get_request(read_request(60, row(&[])));
    let (seen, _) = run(|o| m.step(o), |a| match a {
        Action::LookUpLocal(_, _) => Outcome::Found,
        _ => lookup_reply(a),
    });
    assert_eq!(seen.last().unwrap(), "AnswerFound");
}

#[test]
fn a_reading_that_cannot_be_made_is_refused() {
    let mut q = read_request(0, Json::Int(1));
    q.is_public = true;
    let mut m = process_get_request(q);
    let (_, last) = run(|o| m.step(o), lookup_reply);
    assert_eq!(told(last), (400, "Invalid parameters format".to_string()));
    let mut q = read_request(0, row(&[]));
    q.schema.get.columns.clear();
    let mut m = process_get_request(q);
    let (_, last) = run(|o| m.step(o), lookup_reply);
    assert_eq!(
        told(last),
        (424, "ER02(nocode_get): No columns defined for GET operation on entity orders".to_string())
    );
    let mut q = read_request(0, row(&[]));
    q.schema.get.parameters = names(&["*month", "year"]);
    let mut m = process_get_request(q);
    let (_, last) = run(|o| m.step(o), lookup_reply);
    assert_eq!(told(last), (400, "Required parameters missing: month".to_string()));
}

#[test]
fn required_parameters_that_are_not_given_are_listed() {
    let given = fields(&[("a", text("1")), ("c", text(""))]);
    let mut parameters = names(&["*a", "*b", "*c", "d"]);
    let missing = collect_missing_required_params(&mut parameters, &given);
    assert_eq!(missing, vec!["b", "c"]);
    assert_eq!(parameters, vec!["a", "b", "c", "d"]);
}

#[test]
fn the_size_of_a_batch_can_be_configured() {
    assert_eq!(get_import_batch_size(&None), 500);
    assert_eq!(get_import_batch_size(&Some("20".to_string())), 20);
    assert_eq!(get_import_batch_size(&Some("0".to_string())), 0);
    assert_eq!(get_import_batch_size(&Some("x".to_string())), 500);
}

#[test]
fn conflicts_are_told_by_the_configured_columns() {
    let mut schema = orders();
    schema.trace.column_conflicts = names(&["a"]);
    assert_eq!(build_conflict_keys(&schema, nocode::model::DbType::Postgres), vec!["a"]);
}
