use nocode::ast::{Expr, Filter, JoinKind, Query, Val};
use nocode::filters::{build_filter_clause, Split};
use nocode::json::Json;
use nocode::model::{GetConfig, Index, JoinTable, TableSchema};
use nocode::ordering::apply_order_by;
use nocode::post::build_select_query;
use nocode::reading::{
    build_having, build_joins, build_where, parameter_names, read_configured_joins, read_given_joins, read_window,
    split_requests, substitute, PageLimits, ReadRules,
};
use nocode::repositories::data_read_repo::fetch_dynamic_data;
use nocode::repositories::data_trace_repo::build_eq_filter;

fn texts(list: &[&str]) -> Vec<String> {
    list.iter().map(|s| s.to_string()).collect()
}

fn params(list: &[(&str, &str)]) -> Vec<(String, Json)> {
    list.iter().map(|(k, v)| (k.to_string(), Json::Str(v.to_string()))).collect()
}

fn split(column: &str, operator: &str, val: &str) -> Split {
    Split { column: column.to_string(), operator: operator.to_string(), val: val.to_string() }
}

fn orders() -> TableSchema {
    TableSchema {
        table: "orders".to_string(),
        primary_key: texts(&["id"]),
        indexes: vec![Index { name: "ix".to_string(), columns: texts(&["c.code"]), unique: true }],
        get: GetConfig {
            parameters: texts(&["*status.eq", "a|b", "search", "page", "limit", "sort", "ascending"]),
            columns: texts(&["orders.id", "orders.total AS amount"]),
            order_by: texts(&["orders.id"]),
            ..Default::default()
        },
        ..Default::default()
    }
}

const RULES: ReadRules =
    ReadRules { stars: true, skips_empty: true, lists: false, sonic: false, any_case: true };

#[test]
fn operators_make_conditions() {
    let f = |op: &str, v: &str| build_filter_clause("c", op, v, v);
    let c = || "c".to_string();
    assert_eq!(f("=", "5"), Filter::Eq(c(), Val::I64(5)));
    assert_eq!(f("=", "TRUE"), Filter::Eq(c(), Val::Bool(true)));
    assert_eq!(f("<", "x"), Filter::Lt(c(), Val::Str("x".to_string())));
    assert_eq!(f("<=", "1.5"), Filter::Lte(c(), Val::F64("1.5".to_string())));
    assert_eq!(f(">", "1"), Filter::Gt(c(), Val::I64(1)));
    assert_eq!(f(">=", "1"), Filter::Gte(c(), Val::I64(1)));
    assert_eq!(f("like", "%a%"), Filter::ILike(c(), "%a%".to_string()));
    assert_eq!(f("?", "1"), Filter::Eq(c(), Val::I64(1)));
}

#[test]
fn lists_are_read_as_json_or_by_their_commas() {
    let f = |op: &str, v: &str| build_filter_clause("c", op, v, v);
    let c = || "c".to_string();
    assert_eq!(
        f("=", "[1, \"a\", null, true]"),
        Filter::In(c(), vec![Val::I64(1), Val::Str("a".to_string()), Val::Null, Val::Bool(true)])
    );
    assert_eq!(f("=", "1, b"), Filter::In(c(), vec![Val::I64(1), Val::Str("b".to_string())]));
    assert_eq!(f("=", "[1"), Filter::Eq(c(), Val::Str("[1".to_string())));
    assert_eq!(f("nin", "[2.5]"), Filter::NotIn(c(), vec![Val::F64("2.5".to_string())]));
    assert_eq!(f("nin", "7"), Filter::NotIn(c(), vec![Val::I64(7)]));
    assert_eq!(f("between", "[1,2]"), Filter::Between(c(), Val::I64(1), Val::I64(2)));
    assert_eq!(f("between", "1, 9,x"), Filter::Between(c(), Val::I64(1), Val::I64(9)));
    assert_eq!(f("between", "[1]"), Filter::Eq(c(), Val::Str("[1]".to_string())));
}

#[test]
fn equality_knows_null_and_numbers() {
    let f = |raw: &str| build_eq_filter("c".to_string(), raw.to_string());
    assert_eq!(f("null"), Filter::IsNull("c".to_string()));
    assert_eq!(f("3"), Filter::Eq("c".to_string(), Val::I64(3)));
    assert_eq!(f("3.5"), Filter::Eq("c".to_string(), Val::F64("3.5".to_string())));
    assert_eq!(f("x"), Filter::Eq("c".to_string(), Val::Str("x".to_string())));
}

#[test]
fn parameters_are_taken_apart_by_their_bars() {
    let schema = orders();
    let requests = split_requests(&schema.get.parameters, &params(&[("a|b", "7")]), true);
    assert_eq!(requests.len(), 7);
    assert_eq!(requests[0].parts, vec!["status.eq"]);
    assert_eq!(requests[1].parts, vec!["a", "b"]);
    assert_eq!(requests[1].value, "7");
}

fn splits() -> Vec<Vec<Split>> {
    vec![
        vec![split("orders.status", "=", "open")],
        vec![split("orders.a", "=", "7"), split("orders.b", "like", "%7%")],
        vec![split("orders.search", "=", "")],
        vec![split("orders.page", "=", "")],
        vec![split("orders.limit", "=", "")],
        vec![split("orders.sort", "=", "")],
        vec![split("orders.ascending", "=", "")],
    ]
}

#[test]
fn conditions_come_from_configured_parameters_alone() {
    let schema = orders();
    let given = params(&[("status.eq", "open"), ("a|b", "7"), ("secret", "1"), ("search", "x")]);
    let terms = build_where(&schema, &parameter_names(&schema.get.parameters, true), &given, &splits(), RULES);
    assert_eq!(terms.len(), 4);
    assert_eq!(terms[0], Filter::Eq("orders.status".to_string(), Val::Str("open".to_string())));
    assert!(matches!(&terms[1], Filter::Or(v) if v.len() == 2));
    assert_eq!(
        terms[2],
        Filter::Or(vec![
            Filter::ILike("orders.id".to_string(), "%x%".to_string()),
            Filter::ILike("c.code".to_string(), "%x%".to_string()),
        ])
    );
    assert_eq!(terms[3], Filter::IsNull("orders.deleted_at".to_string()));
}

#[test]
fn deleted_rows_are_shown_only_where_they_are_asked_for() {
    let mut schema = orders();
    schema.get.parameters = texts(&["deleted_at.is"]);
    let asked = params(&[("deleted_at.is", "NOT NULL")]);
    let split = vec![vec![split("orders.deleted_at", "is", "NOT NULL")]];
    let terms = build_where(&schema, &parameter_names(&schema.get.parameters, true), &asked, &split, RULES);
    assert_eq!(terms, vec![Filter::IsNotNull("orders.deleted_at".to_string())]);
    let terms = build_where(&schema, &parameter_names(&schema.get.parameters, true), &Vec::new(), &split, RULES);
    assert_eq!(terms, vec![Filter::IsNull("orders.deleted_at".to_string())]);
}

#[test]
fn lists_that_are_nested_too_deep_are_no_lists() {
    let mut schema = orders();
    schema.get.parameters = texts(&["status"]);
    let rules = ReadRules { stars: false, skips_empty: false, lists: false, sonic: true, any_case: true };
    let filter = |value: &str| {
        let splits = vec![vec![split("orders.status", "=", value)]];
        let terms = build_where(&schema, &texts(&["status"]), &params(&[("status", value)]), &splits, rules);
        terms.into_iter().next().unwrap()
    };
    let column = "orders.status".to_string();
    let deep = format!("{}]", "[".repeat(1_000_000));
    assert_eq!(filter(&deep), Filter::Eq(column.clone(), Val::Str(deep.clone())));
    assert_eq!(
        filter("[1, \"]]\\\"[[\", [2]]"),
        Filter::In(
            column.clone(),
            vec![Val::I64(1), Val::Str("]]\"[[".to_string()), Val::Str("[2]".to_string())]
        )
    );
    let seventeen = format!("{}7{}", "[".repeat(17), "]".repeat(17));
    assert_eq!(filter(&seventeen), Filter::Eq(column.clone(), Val::Str(seventeen.clone())));
    let nested = format!("{}7{}", "[".repeat(16), "]".repeat(16));
    let inner = nested[1..nested.len() - 1].to_string();
    assert_eq!(filter(&nested), Filter::In(column, vec![Val::Str(inner)]));
}

#[test]
fn pages_are_windows_of_bounded_size() {
    let names = texts(&["page", "limit"]);
    let limits = PageLimits { default_rows: 200, max_rows: 2000 };
    assert_eq!(read_window(&names, &Vec::new(), limits), Some((200, 0)));
    assert_eq!(read_window(&names, &params(&[("page", "3"), ("limit", "50")]), limits), Some((50, 100)));
    assert_eq!(read_window(&names, &params(&[("limit", "999999")]), limits), Some((2000, 0)));
    assert_eq!(read_window(&names, &params(&[("limit", "-5"), ("page", "-5")]), limits), Some((1, 0)));
    assert_eq!(read_window(&names, &params(&[("limit", "x")]), limits), Some((200, 0)));
}

#[test]
fn rows_are_ordered_by_columns_that_are_shown() {
    let schema = orders();
    let mut q = Query::of("orders");
    assert!(apply_order_by(&mut q, "amount desc, -id, password", "ASC", &schema));
    assert_eq!(q.order_by, vec![("amount".to_string(), false), ("id".to_string(), false)]);
    let mut q = Query::of("orders");
    assert!(apply_order_by(&mut q, "password", "DESC", &schema));
    assert_eq!(q.order_by, vec![("orders.id".to_string(), false)]);
}

#[test]
fn names_in_join_conditions_are_replaced_by_safe_values() {
    let joins = vec![("paramjoin1".to_string(), "a'b.c".to_string())];
    assert_eq!(substitute("x.id = paramjoin1", &joins), "x.id = ab.c");
    assert_eq!(read_given_joins(&params(&[("paramjoin1.eq", "v"), ("x", "y")])), vec![("paramjoin1".to_string(), "v".to_string())]);
    let configured = read_configured_joins(&texts(&["paramjoin1.eq", "status"]), &params(&[("paramjoin1.eq", "v"), ("status", "s")]));
    assert_eq!(configured, vec![("paramjoin1".to_string(), "v".to_string())]);
}

#[test]
fn joins_are_equalities_or_texts() {
    let tables = vec![
        JoinTable { table: "c".to_string(), type_join: "LEFT".to_string(), logical: "o.c_id = c.id".to_string(), ..Default::default() },
        JoinTable { table: "d".to_string(), type_join: "inner".to_string(), logical: "o.d_id = 5".to_string(), ..Default::default() },
    ];
    let joins = build_joins(&tables, &Vec::new(), true);
    assert_eq!(joins[0].kind, JoinKind::Left);
    assert_eq!(joins[0].on_expr, Some(Expr::ColEq("o.c_id".to_string(), "c.id".to_string())));
    assert_eq!(joins[1].on, "o.d_id = 5");
    assert_eq!(joins[1].on_expr, None);
    let raw = build_joins(&tables, &Vec::new(), false);
    assert_eq!(raw[1].on_expr, Some(Expr::Raw("o.d_id = 5".to_string())));
}

#[test]
fn conditions_on_rows_come_before_those_on_groups() {
    let mut schema = orders();
    schema.get.where_clause = texts(&[" ", "a > 1"]);
    schema.get.having = texts(&["count(*) > 2"]);
    assert_eq!(build_having(&schema, true).len(), 2);
    assert_eq!(build_having(&schema, false), vec![vec![Expr::Raw("count(*) > 2".to_string())]]);
}

#[test]
fn a_request_is_one_query() {
    let schema = orders();
    let limits = PageLimits { default_rows: 10, max_rows: 20 };
    let q = fetch_dynamic_data(&schema, &params(&[("status.eq", "open"), ("sort", "id"), ("ascending", "false")]), &splits(), limits).unwrap();
    assert_eq!(q.table, "orders");
    assert_eq!(q.columns, schema.get.columns);
    assert_eq!(q.order_by, vec![("id".to_string(), false)]);
    assert_eq!((q.limit, q.offset), (Some(10), Some(0)));
    assert!(matches!(&q.filter, Some(Filter::And(v)) if v.len() == 2));
}

#[test]
fn simple_statements_are_read_as_queries() {
    let q = build_select_query(
        "SELECT id, name FROM users WHERE id = ? AND x = 1;",
        &vec![nocode::ast::DbParam::I64(4)],
    )
    .unwrap();
    assert_eq!(q.table, "users");
    assert_eq!(q.columns, vec!["id", "name"]);
    assert_eq!(q.filter, Some(Filter::Eq("id".to_string(), Val::I64(4))));
    let all = build_select_query("select * from t", &Vec::new()).unwrap();
    assert_eq!(all.columns, Vec::<String>::new());
    assert_eq!(all.filter, None);
    assert!(build_select_query("update t set a = 1", &Vec::new()).is_none());
}
