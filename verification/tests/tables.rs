use nocode::auth::Claims;
use nocode::flow::{Action, KeyChange, Outcome, Reply, Work};
use nocode::foreign_key::{process_foreign_keys_delete_update_txstore, Followed};
use nocode::generate::{
    add_audit_columns, create_table, execute_generate_table, generate_mongo_indexes,
    generate_table, KeyAction, TableConstraint, TableRequest, TableWork,
};
use nocode::json::Json;
use nocode::model::{
    Column, DbType, ForeignAction, ForeignKey, Index, ReferenceForeignKey, TableSchema,
};
use nocode::seed::{list_seed_files, seed_table, SeedRequest};

fn names(list: &[&str]) -> Vec<String> {
    list.iter().map(|s| s.to_string()).collect()
}

fn failed(s: &str) -> Outcome {
    Outcome::Failed(s.to_string())
}

fn shops() -> TableSchema {
    TableSchema {
        table: "shops".to_string(),
        collate: " utf8 ".to_string(),
        primary_key: names(&["id"]),
        columns: vec![
            Column {
                name: "id".to_string(),
                type_data: "bigint".to_string(),
                auto_increment: true,
                ..Default::default()
            },
            Column { name: "city_id".to_string(), type_data: "int".to_string(), nullable: true, ..Default::default() },
            Column { name: "created_at".to_string(), type_data: "TimeStamp".to_string(), ..Default::default() },
        ],
        indexes: vec![
            Index { name: "pk".to_string(), columns: names(&["id"]), unique: true },
            Index { name: "ix_b_a".to_string(), columns: names(&["b", "a"]), unique: false },
        ],
        foreign_keys: vec![ForeignKey {
            column: "city_id".to_string(),
            reference_table: "cities".to_string(),
            reference_column: "id".to_string(),
            on_delete: "SET NULL".to_string(),
            on_update: "other".to_string(),
        }],
        ..Default::default()
    }
}

#[test]
fn tables_have_an_audit_trail() {
    let t = generate_table("mysql", &shops());
    let columns: Vec<&str> = t.columns.iter().map(|c| c.name.as_str()).collect();
    assert_eq!(
        columns,
        vec![
            "id", "city_id", "created_at", "updated_at", "deleted_at", "created_by_id",
            "updated_by_id", "deleted_by_id"
        ]
    );
    assert_eq!(t.columns[3].col_type, "datetime");
    assert_eq!(t.columns[5].col_type, "bigint unsigned");
    let mut none = Vec::new();
    add_audit_columns(&mut none, "sqlite");
    assert_eq!(none.len(), 6);
    assert_eq!((none[0].col_type.as_str(), none[5].col_type.as_str()), ("text", "integer"));
}

#[test]
fn numbered_keys_have_the_type_of_their_dialect() {
    let ty = |d: &str| generate_table(d, &shops()).columns[0].col_type.clone();
    assert_eq!(ty("mysql"), "bigint");
    assert!(generate_table("mysql", &shops()).columns[0].auto_increment);
    assert_eq!(ty("postgres"), "BIGSERIAL");
    assert_eq!(ty("mssql"), "bigint IDENTITY(1,1)");
    assert_eq!(ty("sqlite"), "INTEGER PRIMARY KEY AUTOINCREMENT");
    assert_eq!(generate_table("mssql", &shops()).columns[2].col_type, "datetime");
}

#[test]
fn keys_are_declared_once() {
    let is_key = |c: &TableConstraint| matches!(c, TableConstraint::PrimaryKey(_));
    assert_eq!(generate_table("mysql", &shops()).constraints.iter().filter(|c| is_key(c)).count(), 1);
    assert_eq!(generate_table("sqlite", &shops()).constraints.iter().filter(|c| is_key(c)).count(), 0);
}

#[test]
fn constraints_of_a_table_are_declared() {
    let t = generate_table("postgres", &shops());
    assert_eq!(
        t.constraints,
        vec![
            TableConstraint::PrimaryKey(names(&["id"])),
            TableConstraint::Index("shops_ix_b_a".to_string(), names(&["b", "a"]), false),
            TableConstraint::ForeignKey(
                "fk_shops_city_id_cities".to_string(),
                "city_id".to_string(),
                "cities".to_string(),
                "id".to_string(),
                Some(KeyAction::SetNull),
                None,
            ),
        ]
    );
}

#[test]
fn indexes_of_documents_are_commands() {
    let commands = generate_mongo_indexes(&shops());
    assert_eq!(commands.len(), 3);
    assert_eq!(
        commands[1],
        "{\"createIndexes\":\"shops\",\"indexes\":[{\"key\":{\"b\":1,\"a\":1},\"name\":\"shops_ix_b_a\",\"unique\":false}]}"
    );
    assert_eq!(
        commands[2],
        "{\"createIndexes\":\"shops\",\"indexes\":[{\"key\":{\"city_id\":1},\"name\":\"idx_fk_shops_city_id\",\"unique\":false}]}"
    );
}

fn work(mongodb: bool) -> TableWork {
    TableWork { table: "t".to_string(), statements: names(&["a", "b", "c"]), mongodb }
}

#[test]
fn a_table_is_created_wholly() {
    let mut b = execute_generate_table(work(false));
    assert!(matches!(b.step(Outcome::Done), Work::Ask(Action::Begin)));
    for s in ["a", "b", "c"] {
        assert!(matches!(b.step(Outcome::Done), Work::Ask(Action::RunSql(sql, _)) if sql == s));
    }
    assert!(matches!(b.step(Outcome::Done), Work::Ask(Action::Commit)));
    assert!(matches!(b.step(Outcome::Done), Work::Finish(m, 1, Json::Null) if m == "success"));
    assert!(b.ended());
}

#[test]
fn a_table_whose_index_fails_is_rolled_back() {
    let mut b = execute_generate_table(work(false));
    b.step(Outcome::Done);
    b.step(Outcome::Done);
    b.step(Outcome::Done);
    b.step(failed("Duplicate key name 'x'"));
    match b.step(failed("no room")) {
        Work::Abort(m) => assert_eq!(m, " \nFailed to create index t with error : no room"),
        other => panic!("unexpected: {:?}", other),
    }
}

#[test]
fn an_index_that_is_there_is_no_failure() {
    let mut b = execute_generate_table(work(true));
    b.step(Outcome::Done);
    b.step(Outcome::Done);
    b.step(failed("Index with name x already exists"));
    b.step(Outcome::Done);
    assert!(matches!(b.step(Outcome::Done), Work::Ask(Action::Commit)));
}

fn table_request(db: DbType) -> TableRequest {
    TableRequest {
        route: "shops".to_string(),
        is_public: false,
        require_auth: true,
        schema: shops(),
        db,
        default_collate: String::new(),
    }
}

fn reply_of(a: Action) -> Reply {
    match a {
        Action::Answer(r) | Action::Abort(r) => r,
        other => panic!("no answer: {:?}", other),
    }
}

#[test]
fn a_table_is_created_on_request() {
    let mut c = create_table(table_request(DbType::Postgres));
    assert!(matches!(c.step(Outcome::Done), Action::VerifyToken));
    assert!(matches!(c.step(Outcome::Identified("1".to_string())), Action::CheckRequest));
    assert!(matches!(c.step(Outcome::Done), Action::CompileTable(t) if t.name == "shops"));
    assert!(matches!(c.step(Outcome::Texts(names(&["create"]))), Action::Begin));
    assert!(matches!(c.step(Outcome::Done), Action::RunSql(s, _) if s == "create"));
    assert!(matches!(c.step(Outcome::Done), Action::Commit));
    assert_eq!(reply_of(c.step(Outcome::Done)).status, 200);
}

#[test]
fn a_table_is_not_created_without_access() {
    let mut c = create_table(table_request(DbType::Mongodb));
    c.step(Outcome::Done);
    assert_eq!(reply_of(c.step(Outcome::Done)).status, 401);
    assert!(matches!(c.step(Outcome::Done), Action::Nothing));
}

// ---------------------------------------------------------------------------
// References
// ---------------------------------------------------------------------------

fn action(action: &str, type_delete: &str, table: &str) -> ForeignAction {
    ForeignAction {
        action: action.to_string(),
        type_delete: type_delete.to_string(),
        table: table.to_string(),
        column: "shop_id".to_string(),
    }
}

fn reference(route: &str, on_delete: ForeignAction, on_update: ForeignAction) -> ReferenceForeignKey {
    ReferenceForeignKey { table: route.to_string(), on_delete_action: on_delete, on_update_action: on_update }
}

fn followed(process: &str) -> Followed {
    Followed {
        change: KeyChange {
            process: process.to_string(),
            route: "shops".to_string(),
            user: "7".to_string(),
            id: "5".to_string(),
            id_new: "6".to_string(),
        },
        keys: vec![
            reference("other", action("cascade", "hard", "x"), action("cascade", "", "x")),
            reference("shops", action("cascade", "soft", "a"), action("cascade", "", "a")),
            reference("shops", action("cascade", "hard", "b"), action("set null", "", "b")),
            reference("shops", action("restrict", "", "c"), action("", "", "c")),
        ],
        now_expr: "NOW()".to_string(),
    }
}

#[test]
fn references_to_a_deleted_row_are_followed() {
    let mut f = process_foreign_keys_delete_update_txstore(followed("DELETE"));
    assert!(matches!(f.step(Outcome::Done), Work::Ask(Action::CompileUpdate(t, _, v)) if t == "a" && v[0].0 == "deleted_at"));
    assert!(matches!(f.step(Outcome::Done), Work::Ask(Action::RunCompiled)));
    assert!(matches!(f.step(Outcome::Done), Work::Ask(Action::CompileDelete(t, _)) if t == "b"));
    assert!(matches!(f.step(Outcome::Done), Work::Ask(Action::RunCompiled)));
    assert!(matches!(f.step(Outcome::Done), Work::Ask(Action::RunQuery(q)) if q.table == "c" && q.limit == Some(1)));
    match f.step(Outcome::Rows(vec![Json::Null])) {
        Work::Fail(m) => assert_eq!(m, "Cannot delete data because it is referenced in table c"),
        other => panic!("unexpected: {:?}", other),
    }
}

#[test]
fn references_to_a_changed_key_are_followed() {
    let mut f = process_foreign_keys_delete_update_txstore(followed("UPDATE"));
    assert!(matches!(f.step(Outcome::Done), Work::Ask(Action::CompileUpdate(t, _, v)) if t == "a" && v[0].0 == "shop_id"));
    f.step(Outcome::Done);
    assert!(matches!(
        f.step(Outcome::Done),
        Work::Ask(Action::CompileUpdate(t, _, v))
            if t == "b" && v[0].1 == nocode::ast::InsertValue::Raw("NULL".to_string())
    ));
    f.step(Outcome::Done);
    assert!(matches!(f.step(Outcome::Done), Work::Finish(_, _, _)));
}

#[test]
fn a_reference_that_cannot_be_followed_stops_the_change() {
    let mut f = process_foreign_keys_delete_update_txstore(followed("UPDATE"));
    f.step(Outcome::Done);
    f.step(Outcome::Done);
    assert!(matches!(f.step(failed("e")), Work::Fail(m) if m == "e"));
}

// ---------------------------------------------------------------------------
// Seeds
// ---------------------------------------------------------------------------

fn seed_request(mongodb: bool) -> SeedRequest {
    SeedRequest {
        require_auth: true,
        route: "shops".to_string(),
        schema: shops(),
        directory: "config/seed".to_string(),
        mongodb,
    }
}

fn admin() -> Outcome {
    Outcome::Claimed(Claims { id: "1".to_string(), rl: "user,Admin".to_string() })
}

#[test]
fn a_script_is_carried_out_wholly() {
    let mut s = seed_table(seed_request(false));
    assert!(matches!(s.step(Outcome::Done), Action::VerifyToken));
    assert!(matches!(s.step(admin()), Action::FindFile(_)));
    assert!(matches!(s.step(Outcome::Texts(names(&["f.sql"]))), Action::ReadFile(f) if f == "f.sql"));
    assert!(matches!(s.step(Outcome::Texts(names(&["a; -- x;\nb"]))), Action::Begin));
    assert!(matches!(s.step(Outcome::Done), Action::RunSql(q, _) if q == "a"));
    assert!(matches!(s.step(Outcome::Done), Action::RunSql(q, _) if q.contains('b')));
    assert!(matches!(s.step(Outcome::Done), Action::Commit));
    let r = reply_of(s.step(Outcome::Done));
    assert_eq!((r.status, r.body.total_data), (200, 2));
    assert_eq!(r.body.message, "Successfully seeded table 'shops'");
}

#[test]
fn a_script_that_fails_is_rolled_back() {
    let mut s = seed_table(seed_request(false));
    s.step(Outcome::Done);
    s.step(admin());
    s.step(Outcome::Texts(names(&["f.sql"])));
    s.step(Outcome::Texts(names(&["a;b;c"])));
    s.step(Outcome::Done);
    s.step(Outcome::Done);
    let a = s.step(failed("e"));
    assert!(matches!(a, Action::Abort(_)));
    let r = reply_of(a);
    assert_eq!(r.body.message, "Failed executing seed query for table 'shops': e");
    assert_eq!(r.body.total_data, 1);
}

#[test]
fn rows_of_a_file_are_inserted() {
    let mut s = seed_table(seed_request(false));
    s.step(Outcome::Done);
    s.step(admin());
    s.step(Outcome::Texts(names(&["f.csv"])));
    assert!(matches!(s.step(Outcome::Texts(names(&["city_id\n4\n"]))), Action::ReadJson(_)));
    assert!(matches!(s.step(Outcome::Parsed(Vec::new())), Action::Begin));
    match s.step(Outcome::Done) {
        Action::CompileDocument(table, doc) => {
            assert_eq!(table, "shops");
            assert_eq!(doc.get("city_id"), Some(&Json::Int(4)));
        }
        other => panic!("unexpected: {:?}", other),
    }
    assert!(matches!(s.step(Outcome::Done), Action::RunCompiled));
    assert!(matches!(s.step(Outcome::Done), Action::Commit));
}

#[test]
fn documents_of_a_file_are_stored() {
    let mut s = seed_table(seed_request(true));
    s.step(Outcome::Done);
    s.step(admin());
    s.step(Outcome::Texts(names(&["f.json"])));
    assert!(matches!(s.step(Outcome::Texts(names(&["[{}]"]))), Action::ReadJson(t) if t == names(&["[{}]"])));
    let rows = Json::Array(vec![Json::Object(Vec::new())]);
    assert!(matches!(s.step(Outcome::Parsed(vec![Some(rows)])), Action::StoreInsert(_, _)));
    assert_eq!(reply_of(s.step(Outcome::Done)).body.total_data, 1);
}

#[test]
fn only_administrators_seed() {
    let mut s = seed_table(seed_request(false));
    s.step(Outcome::Done);
    let user = Claims { id: "1".to_string(), rl: "user".to_string() };
    let r = reply_of(s.step(Outcome::Claimed(user)));
    assert_eq!(
        (r.status, r.body.message.as_str()),
        (403, "Forbidden: Only Admin role is allowed to seed tables")
    );
    let mut s = seed_table(seed_request(false));
    s.step(Outcome::Done);
    assert_eq!(reply_of(s.step(Outcome::Done)).status, 401);
}

#[test]
fn a_seed_file_that_is_not_there_or_empty_is_told() {
    let mut s = seed_table(seed_request(false));
    s.step(Outcome::Done);
    s.step(admin());
    let r = reply_of(s.step(Outcome::Done));
    assert_eq!(
        (r.status, r.body.message.as_str()),
        (404, "Seed file for route 'shops' (table 'shops') not found in folder 'config/seed'")
    );
    let mut s = seed_table(seed_request(false));
    s.step(Outcome::Done);
    s.step(admin());
    s.step(Outcome::Texts(names(&["f.sql"])));
    let r = reply_of(s.step(Outcome::Texts(names(&[" -- nothing"]))));
    assert_eq!(r.body.message, "Seed file 'f.sql' is empty; no operations executed");
    assert!(!list_seed_files(&seed_request(false)).is_empty());
}
