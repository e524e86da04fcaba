//! Copying rows of a query into a table.
use crate::ast::{
    all_of, lemma_meets_all, lemma_meets_any, satisfies, Collation, Filter, FilterV, Query, QueryV,
    RowV, Scalar, Val,
};
use crate::filters::{infer_param, number_or_text, Split, SplitV};
use crate::flow::{Upsert, UpsertV};
use crate::giving::carries;
use crate::json::{lookup, Json};
use crate::model::{DbType, Index, TableSchema};
use crate::post::Fields;
use crate::reading::{
    build_all, build_joins, given, given_text, joins_of, splits_fit, all_conditions,
};
use crate::text::{
    begins_with, contains, copy_texts, cut, has_char, has_text, lowercase, push_item, same,
    same_but_case, same_ignoring_case, split_once, starts_with, to_lowercase, trim, trimmed,
};
use vstd::prelude::*;
use vstd::string::*;

verus! {

// ---------------------------------------------------------------------------
// Conditions
// ---------------------------------------------------------------------------

/// The condition that a column has a value: a text that says so stands for none,
/// a numeral for its number.
pub open spec fn eq_filter(column: Seq<char>, raw: Seq<char>) -> FilterV {
    if same_but_case(raw, "NULL"@) {
        FilterV::IsNull(column)
    } else {
        FilterV::Eq(column, number_or_text(raw))
    }
}

/// The condition that a column has a value.
pub fn build_eq_filter(column: String, raw: String) -> (r: Filter)
    ensures
        r.deep_view() == eq_filter(column@, raw@),
{
    if same_ignoring_case(raw.as_str(), "NULL") {
        Filter::IsNull(column)
    } else {
        Filter::Eq(column, infer_param(raw.as_str()).to_val())
    }
}

/// The condition of one part of a parameter.
pub open spec fn trace_term(s: SplitV) -> FilterV {
    if s.operator == ">"@ {
        FilterV::Gt(s.column, Scalar::Str(s.val))
    } else if s.operator == ">="@ {
        FilterV::Gte(s.column, Scalar::Str(s.val))
    } else if s.operator == "<"@ {
        FilterV::Lt(s.column, Scalar::Str(s.val))
    } else if s.operator == "<="@ {
        FilterV::Lte(s.column, Scalar::Str(s.val))
    } else if s.operator == "<>"@ || s.operator == "!="@ {
        FilterV::Ne(s.column, Scalar::Str(s.val))
    } else if s.operator == "LIKE"@ {
        FilterV::Like(s.column, s.val)
    } else {
        eq_filter(s.column, s.val)
    }
}

fn build_trace_term(s: &Split) -> (r: Filter)
    ensures
        r.deep_view() == trace_term(s.deep_view()),
{
    let op = s.operator.as_str();
    let column = s.column.clone();
    let val = s.val.clone();
    if same(op, ">") {
        Filter::Gt(column, Val::Str(val))
    } else if same(op, ">=") {
        Filter::Gte(column, Val::Str(val))
    } else if same(op, "<") {
        Filter::Lt(column, Val::Str(val))
    } else if same(op, "<=") {
        Filter::Lte(column, Val::Str(val))
    } else if same(op, "<>") || same(op, "!=") {
        Filter::Ne(column, Val::Str(val))
    } else if same(op, "LIKE") {
        Filter::Like(column, val)
    } else {
        build_eq_filter(column, val)
    }
}

/// The conditions of the parts of a parameter.
pub open spec fn trace_terms(splits: Seq<SplitV>) -> Seq<FilterV> {
    Seq::new(splits.len(), |i: int| trace_term(splits[i]))
}

fn build_trace_terms(splits: &Vec<Split>) -> (r: Vec<Filter>)
    ensures
        r.deep_view() == trace_terms(splits.deep_view()),
{
    let ghost sv = splits.deep_view();
    let ghost all = trace_terms(sv);
    let mut out: Vec<Filter> = Vec::new();
    let mut i: usize = 0;
    while i < splits.len()
        invariant
            i <= splits@.len(),
            sv == splits.deep_view(),
            all == trace_terms(sv),
            out.deep_view() == all.take(i as int),
        decreases splits.len() - i,
    {
        assert(sv[i as int] == splits@[i as int].deep_view());
        push_item(&mut out, build_trace_term(&splits[i]));
        i += 1;
        assert(all.take(i as int) =~= all.take(i - 1).push(all[i - 1]));
    }
    assert(all.take(splits@.len() as int) =~= all);
    out
}

/// The condition of a parameter: one of its parts where it has several.
pub open spec fn trace_condition(name: Seq<char>, splits: Seq<SplitV>) -> FilterV {
    if name.contains('|') {
        FilterV::Or(trace_terms(splits))
    } else {
        trace_term(splits[0])
    }
}

/// The conditions of the first `n` configured parameters that were given.
pub open spec fn trace_conditions(
    parameters: Seq<Seq<char>>,
    params: Fields,
    splits: Seq<Seq<SplitV>>,
    n: int,
) -> Seq<FilterV>
    decreases n,
{
    if n <= 0 {
        Seq::empty()
    } else {
        let before = trace_conditions(parameters, params, splits, n - 1);
        match given(params, parameters[n - 1]) {
            Some(_) => before.push(trace_condition(parameters[n - 1], splits[n - 1])),
            None => before,
        }
    }
}

/// Whether a request says something of deleted rows.
pub open spec fn names_deleted(parameters: Seq<Seq<char>>, params: Fields) -> bool {
    parameters.len() > 0 && exists|i: int|
        0 <= i < params.len() && contains(#[trigger] params[i].0, "deleted_at"@)
}

/// All conditions on the rows: those that are deleted are left out unless the
/// request says something of them.
pub open spec fn trace_where(
    schema: TableSchema,
    route: Seq<char>,
    params: Fields,
    splits: Seq<Seq<SplitV>>,
) -> Seq<FilterV> {
    let parameters = schema.trace.parameters.deep_view();
    let terms = trace_conditions(parameters, params, splits, parameters.len() as int);
    if names_deleted(parameters, params) {
        terms
    } else {
        terms.push(FilterV::IsNull(route + ".deleted_at"@))
    }
}

fn mention_deleted(params: &Vec<(String, Json)>) -> (r: bool)
    ensures
        r == exists|i: int|
            0 <= i < params.deep_view().len() && contains(
                #[trigger] params.deep_view()[i].0,
                "deleted_at"@,
            ),
{
    let ghost ps = params.deep_view();
    let mut i: usize = 0;
    while i < params.len()
        invariant
            i <= params@.len(),
            ps == params.deep_view(),
            forall|k: int| 0 <= k < i ==> !contains(#[trigger] ps[k].0, "deleted_at"@),
        decreases params.len() - i,
    {
        assert(ps[i as int] == params@[i as int].deep_view());
        if has_text(params[i].0.as_str(), "deleted_at") {
            assert(contains(params.deep_view()[i as int].0, "deleted_at"@));
            return true;
        }
        i += 1;
    }
    false
}

/// All conditions on the rows.
pub fn build_trace_where(
    schema: &TableSchema,
    route: &str,
    params: &Vec<(String, Json)>,
    splits: &Vec<Vec<Split>>,
) -> (r: Vec<Filter>)
    requires
        splits_fit(schema.trace.parameters.deep_view(), splits.deep_view()),
    ensures
        r.deep_view() == trace_where(*schema, route@, params.deep_view(), splits.deep_view()),
{
    let ghost names = schema.trace.parameters.deep_view();
    let ghost sv = splits.deep_view();
    let ghost pv = params.deep_view();
    let mut out: Vec<Filter> = Vec::new();
    assert(out.deep_view() =~= Seq::empty());
    assert(names.len() == schema.trace.parameters@.len());
    let mut i: usize = 0;
    while i < schema.trace.parameters.len()
        invariant
            i <= schema.trace.parameters@.len(),
            names == schema.trace.parameters.deep_view(),
            sv == splits.deep_view(),
            pv == params.deep_view(),
            names.len() == schema.trace.parameters@.len(),
            splits_fit(names, sv),
            out.deep_view() == trace_conditions(names, pv, sv, i as int),
        decreases schema.trace.parameters.len() - i,
    {
        assert(names[i as int] == schema.trace.parameters@[i as int]@);
        assert(sv.len() == splits@.len());
        assert(sv[i as int] == splits@[i as int].deep_view());
        assert(sv[i as int].len() == splits@[i as int]@.len());
        let name = schema.trace.parameters[i].as_str();
        if given_text(params, name).is_some() {
            proof {
                crate::text::lemma_split_nonempty(names[i as int], '|');
            }
            if has_char(name, '|') {
                let terms = build_trace_terms(&splits[i]);
                proof {
                    crate::ast::lemma_or_view(terms);
                }
                push_item(&mut out, Filter::Or(terms));
            } else {
                assert(sv[i as int][0] == splits@[i as int]@[0].deep_view());
                push_item(&mut out, build_trace_term(&splits[i][0]));
            }
        }
        i += 1;
    }
    if !(schema.trace.parameters.len() > 0 && mention_deleted(params)) {
        let mut column = route.to_owned();
        column.append(".deleted_at");
        push_item(&mut out, Filter::IsNull(column));
    }
    out
}

// ---------------------------------------------------------------------------
// What is copied, and where to
// ---------------------------------------------------------------------------

/// The query whose rows are copied.
pub open spec fn trace_query(
    schema: TableSchema,
    route: Seq<char>,
    params: Fields,
    splits: Seq<Seq<SplitV>>,
    now_expr: Seq<char>,
) -> QueryV {
    QueryV {
        columns: schema.trace.column_selects.deep_view().push(now_expr + " as created_at"@),
        filter: all_conditions(trace_where(schema, route, params, splits)),
        joins: joins_of(schema.trace.join_tables@, Seq::empty(), false),
        group_by: schema.trace.column_groups.deep_view(),
        ..all_of(schema.table@)
    }
}

/// The position of the first token, at or after `from`, that names an index.
pub open spec fn index_token_at(tokens: Seq<Seq<char>>, from: int) -> Option<int>
    decreases tokens.len() - from,
{
    if from < 0 || from >= tokens.len() {
        None
    } else if starts_with(lowercase(tokens[from]), "index:"@) {
        Some(from)
    } else {
        index_token_at(tokens, from + 1)
    }
}

/// The name behind the colon of a token.
pub open spec fn index_name(token: Seq<char>) -> Seq<char> {
    match split_once(token, ":"@) {
        Some((_, name)) => trim(name),
        None => Seq::empty(),
    }
}

/// The columns of the first index with a name, in any case, at or after `from`;
/// none where there is no such index.
pub open spec fn index_columns(indexes: Seq<Index>, name: Seq<char>, from: int) -> Seq<Seq<char>>
    decreases indexes.len() - from,
{
    if from < 0 || from >= indexes.len() {
        Seq::empty()
    } else if same_but_case(indexes[from].name@, name) {
        indexes[from].columns.deep_view()
    } else {
        index_columns(indexes, name, from + 1)
    }
}

/// The columns of the only unique index; none where there is none, or more than
/// one.
pub open spec fn only_unique(indexes: Seq<Index>) -> Seq<Seq<char>> {
    let uniques = indexes.filter(|ix: Index| ix.unique);
    if uniques.len() == 1 {
        uniques[0].columns.deep_view()
    } else {
        Seq::empty()
    }
}

/// The columns by which a copied row is told to be there already.
pub open spec fn conflict_keys(schema: TableSchema, db: DbType) -> Seq<Seq<char>> {
    let tokens = schema.trace.column_conflicts.deep_view();
    if tokens.len() > 0 {
        let named = match index_token_at(tokens, 0) {
            Some(i) => index_columns(schema.indexes@, index_name(tokens[i]), 0),
            None => Seq::empty(),
        };
        if named.len() > 0 {
            named
        } else {
            tokens
        }
    } else if db == DbType::Mssql {
        only_unique(schema.indexes@)
    } else {
        Seq::empty()
    }
}

fn find_index_token(tokens: &Vec<String>) -> (r: Option<usize>)
    ensures
        match r {
            Some(i) => i < tokens@.len() && index_token_at(tokens.deep_view(), 0) == Some(i as int),
            None => index_token_at(tokens.deep_view(), 0) is None,
        },
{
    let ghost ts = tokens.deep_view();
    let mut i: usize = 0;
    while i < tokens.len()
        invariant
            i <= tokens@.len(),
            ts == tokens.deep_view(),
            index_token_at(ts, 0) == index_token_at(ts, i as int),
        decreases tokens.len() - i,
    {
        assert(ts[i as int] == tokens@[i as int]@);
        let low = to_lowercase(tokens[i].as_str());
        if begins_with(low.as_str(), "index:") {
            return Some(i);
        }
        i += 1;
    }
    None
}

fn read_index_name(token: &str) -> (r: String)
    ensures
        r@ == index_name(token@),
{
    match cut(token, ":") {
        Some((_, name)) => trimmed(name.as_str()),
        None => String::new(),
    }
}

fn find_index_columns(indexes: &Vec<Index>, name: &str) -> (r: Vec<String>)
    ensures
        r.deep_view() == index_columns(indexes@, name@, 0),
{
    let mut i: usize = 0;
    while i < indexes.len()
        invariant
            i <= indexes@.len(),
            index_columns(indexes@, name@, 0) == index_columns(indexes@, name@, i as int),
        decreases indexes.len() - i,
    {
        if same_ignoring_case(indexes[i].name.as_str(), name) {
            return copy_texts(&indexes[i].columns);
        }
        i += 1;
    }
    let none: Vec<String> = Vec::new();
    assert(none.deep_view() =~= Seq::empty());
    none
}

fn find_only_unique(indexes: &Vec<Index>) -> (r: Vec<String>)
    ensures
        r.deep_view() == only_unique(indexes@),
{
    let ghost is_unique = |ix: Index| ix.unique;
    let mut count: usize = 0;
    let mut at: usize = 0;
    let mut i: usize = 0;
    assert(indexes@.take(0).filter(is_unique).len() == 0) by {
        reveal(Seq::filter);
    }
    while i < indexes.len()
        invariant
            i <= indexes@.len(),
            is_unique == (|ix: Index| ix.unique),
            count == indexes@.take(i as int).filter(is_unique).len(),
            count <= i,
            count == 1 ==> at < indexes@.len() && indexes@.take(i as int).filter(is_unique)[0]
                == indexes@[at as int],
        decreases indexes.len() - i,
    {
        proof {
            reveal(Seq::filter);
            assert(indexes@.take(i + 1).drop_last() =~= indexes@.take(i as int));
        }
        if indexes[i].unique {
            if count == 0 {
                at = i;
            }
            count += 1;
        }
        i += 1;
    }
    assert(indexes@.take(indexes@.len() as int) =~= indexes@);
    if count == 1 {
        copy_texts(&indexes[at].columns)
    } else {
        let none: Vec<String> = Vec::new();
        assert(none.deep_view() =~= Seq::empty());
        none
    }
}

/// The columns by which a copied row is told to be there already.
pub fn build_conflict_keys(schema: &TableSchema, db: DbType) -> (r: Vec<String>)
    ensures
        r.deep_view() == conflict_keys(*schema, db),
{
    let tokens = &schema.trace.column_conflicts;
    assert(tokens.deep_view().len() == tokens@.len());
    let none: Vec<String> = Vec::new();
    assert(none.deep_view() =~= Seq::empty());
    if tokens.len() > 0 {
        let named = match find_index_token(tokens) {
            Some(i) => {
                assert(tokens.deep_view()[i as int] == tokens@[i as int]@);
                let name = read_index_name(tokens[i].as_str());
                find_index_columns(&schema.indexes, name.as_str())
            },
            None => none,
        };
        assert(named.deep_view().len() == named@.len());
        if named.len() > 0 {
            named
        } else {
            copy_texts(tokens)
        }
    } else if db == DbType::Mssql {
        find_only_unique(&schema.indexes)
    } else {
        none
    }
}

/// The name of a kind of database.
pub open spec fn db_name(db: DbType) -> Seq<char> {
    match db {
        DbType::Mysql => "mysql"@,
        DbType::Postgres => "postgres"@,
        DbType::Sqlite => "sqlite"@,
        DbType::Mssql => "mssql"@,
        DbType::Mongodb => "mongodb"@,
    }
}

/// The name of a kind of database.
pub fn name_of_db(db: DbType) -> (r: &'static str)
    ensures
        r@ == db_name(db),
{
    match db {
        DbType::Mysql => "mysql",
        DbType::Postgres => "postgres",
        DbType::Sqlite => "sqlite",
        DbType::Mssql => "mssql",
        DbType::Mongodb => "mongodb",
    }
}

/// How rows are copied, or why they cannot be: two kinds of databases need the
/// columns by which a row is told to be there already.
pub open spec fn trace_plan(
    schema: TableSchema,
    route: Seq<char>,
    params: Fields,
    splits: Seq<Seq<SplitV>>,
    now_expr: Seq<char>,
    db: DbType,
) -> Result<UpsertV, Seq<char>> {
    let keys = conflict_keys(schema, db);
    if (db == DbType::Postgres || db == DbType::Mssql) && keys.len() == 0 {
        Err(
            "TRACE requires 'column_conflicts' (or index:<name>) for backend '"@ + db_name(db)
                + "'"@,
        )
    } else {
        Ok(
            UpsertV {
                table: schema.trace.insert_into@,
                columns: schema.trace.column_inserts.deep_view().push("created_at"@),
                query: trace_query(schema, route, params, splits, now_expr),
                keys,
                assignments: seq!["updated_at="@ + now_expr, "deleted_at=null"@],
            },
        )
    }
}

/// What a result with a message is.
pub open spec fn upsert_result(r: Result<Upsert, String>) -> Result<UpsertV, Seq<char>> {
    match r {
        Ok(u) => Ok(u.deep_view()),
        Err(m) => Err(m@),
    }
}

/// How rows are copied, or why they cannot be. `splits` is what the configured
/// parameters were taken apart into.
pub fn perform_trace_execution(
    schema: &TableSchema,
    route: &str,
    params: &Vec<(String, Json)>,
    splits: &Vec<Vec<Split>>,
    now_expr: &str,
    db: DbType,
) -> (r: Result<Upsert, String>)
    requires
        splits_fit(schema.trace.parameters.deep_view(), splits.deep_view()),
    ensures
        upsert_result(r) == trace_plan(
            *schema,
            route@,
            params.deep_view(),
            splits.deep_view(),
            now_expr@,
            db,
        ),
{
    let keys = build_conflict_keys(schema, db);
    assert(keys.deep_view().len() == keys@.len());
    if (db == DbType::Postgres || db == DbType::Mssql) && keys.len() == 0 {
        let mut m =
            "TRACE requires 'column_conflicts' (or index:<name>) for backend '".to_owned();
        m.append(name_of_db(db));
        m.append("'");
        return Err(m);
    }
    let terms = build_trace_where(schema, route, params, splits);
    let mut query = Query::of(schema.table.as_str());
    query.filter = build_all(terms);
    let mut columns = copy_texts(&schema.trace.column_selects);
    let mut stamp = now_expr.to_owned();
    stamp.append(" as created_at");
    push_item(&mut columns, stamp);
    query.columns = columns;
    let none: Vec<(String, String)> = Vec::new();
    assert(none.deep_view() =~= Seq::empty());
    query.joins = build_joins(&schema.trace.join_tables, &none, false);
    query.group_by = copy_texts(&schema.trace.column_groups);
    let mut inserted = copy_texts(&schema.trace.column_inserts);
    push_item(&mut inserted, "created_at".to_owned());
    let mut assignments: Vec<String> = Vec::new();
    let mut touched = "updated_at=".to_owned();
    touched.append(now_expr);
    push_item(&mut assignments, touched);
    push_item(&mut assignments, "deleted_at=null".to_owned());
    assert(assignments.deep_view() =~= seq!["updated_at="@ + now_expr@, "deleted_at=null"@]);
    Ok(
        Upsert {
            table: schema.trace.insert_into.clone(),
            columns: inserted,
            query,
            keys,
            assignments,
        },
    )
}

// ---------------------------------------------------------------------------
// Laws
// ---------------------------------------------------------------------------

/// Where no parameter names them, deleted rows are not copied.
pub proof fn law_deleted_rows_are_not_copied(
    schema: TableSchema,
    route: Seq<char>,
    params: Fields,
    splits: Seq<Seq<SplitV>>,
    now_expr: Seq<char>,
)
    requires
        forall|i: int|
            0 <= i < params.len() ==> !contains(#[trigger] params[i].0, "deleted_at"@),
    ensures
        ({
            let f = trace_query(schema, route, params, splits, now_expr).filter;
            f is Some && f->0 is And && f->0->And_0.contains(
                FilterV::IsNull(route + ".deleted_at"@),
            )
        }),
{
    let terms = trace_where(schema, route, params, splits);
    assert(terms.last() == FilterV::IsNull(route + ".deleted_at"@));
}

/// Rows are copied with one value more than is selected and inserted: when they
/// were. Both lists grow by the same column.
pub proof fn law_copied_columns_line_up(
    schema: TableSchema,
    route: Seq<char>,
    params: Fields,
    splits: Seq<Seq<SplitV>>,
    now_expr: Seq<char>,
    db: DbType,
)
    requires
        schema.trace.column_selects@.len() == schema.trace.column_inserts@.len(),
        trace_plan(schema, route, params, splits, now_expr, db) is Ok,
    ensures
        ({
            let u = trace_plan(schema, route, params, splits, now_expr, db)->Ok_0;
            u.columns.len() == u.query.columns.len()
        }),
{
}

/// Whether a row meets what a parameter asks of a column: a comparison is with the
/// text of the parameter, and an equality with the number where it is a numeral, or
/// with nothing where it says null.
pub open spec fn is_traced(s: SplitV, row: RowV, by: Collation) -> bool {
    let x = row(s.column);
    let text = Scalar::Str(s.val);
    if s.operator == ">"@ {
        (by.less)(text, x)
    } else if s.operator == ">="@ {
        x == text || (by.less)(text, x)
    } else if s.operator == "<"@ {
        (by.less)(x, text)
    } else if s.operator == "<="@ {
        x == text || (by.less)(x, text)
    } else if s.operator == "<>"@ || s.operator == "!="@ {
        x != text
    } else if s.operator == "LIKE"@ {
        (by.like)(x, s.val)
    } else if same_but_case(s.val, "NULL"@) {
        x == Scalar::Null
    } else {
        carries(x, s.val, true)
    }
}

/// Whether a row meets a parameter: with several columns in its name, one suffices.
pub open spec fn is_traced_by(name: Seq<char>, splits: Seq<SplitV>, row: RowV, by: Collation) -> bool {
    if name.contains('|') {
        exists|j: int| 0 <= j < splits.len() && is_traced(#[trigger] splits[j], row, by)
    } else {
        is_traced(splits[0], row, by)
    }
}

proof fn lemma_trace_condition(name: Seq<char>, splits: Seq<SplitV>, row: RowV, by: Collation)
    ensures
        satisfies(row, trace_condition(name, splits), by) <==> is_traced_by(name, splits, row, by),
{
    if name.contains('|') {
        let terms = trace_terms(splits);
        lemma_meets_any(row, terms, by);
        if satisfies(row, FilterV::Or(terms), by) {
            let j = choose|j: int| 0 <= j < terms.len() && satisfies(row, #[trigger] terms[j], by);
            assert(is_traced(splits[j], row, by));
        }
        if exists|j: int| 0 <= j < splits.len() && is_traced(#[trigger] splits[j], row, by) {
            let j = choose|j: int|
                0 <= j < splits.len() && is_traced(#[trigger] splits[j], row, by);
            assert(satisfies(row, terms[j], by));
        }
    }
}

proof fn lemma_trace_conditions(
    parameters: Seq<Seq<char>>,
    params: Fields,
    splits: Seq<Seq<SplitV>>,
    n: int,
    row: RowV,
    by: Collation,
)
    requires
        0 <= n <= parameters.len(),
    ensures
        ({
            let terms = trace_conditions(parameters, params, splits, n);
            (forall|j: int| 0 <= j < terms.len() ==> satisfies(row, #[trigger] terms[j], by)) <==> (
            forall|i: int|
                0 <= i < n && lookup(params, #[trigger] parameters[i]) is Some ==> is_traced_by(
                    parameters[i],
                    splits[i],
                    row,
                    by,
                ))
        }),
    decreases n,
{
    if n > 0 {
        lemma_trace_conditions(parameters, params, splits, n - 1, row, by);
        lemma_trace_condition(parameters[n - 1], splits[n - 1], row, by);
        let before = trace_conditions(parameters, params, splits, n - 1);
        let terms = trace_conditions(parameters, params, splits, n);
        if lookup(params, parameters[n - 1]) is Some {
            assert(terms == before.push(terms.last()));
            if forall|j: int| 0 <= j < terms.len() ==> satisfies(row, #[trigger] terms[j], by) {
                assert forall|j: int| 0 <= j < before.len() implies satisfies(
                    row,
                    #[trigger] before[j],
                    by,
                ) by {
                    assert(terms[j] == before[j]);
                }
                assert(satisfies(row, terms[terms.len() - 1], by));
            }
        } else {
            assert(terms == before);
        }
    }
}

/// The rows that are asked for are copied, and no others: they are selected from the
/// table of the entity, into the configured table and columns, and a row meets the
/// condition exactly if it meets every parameter that is given, and is not deleted,
/// unless the request speaks of that.
pub proof fn law_rows_are_copied_as_asked_for(
    schema: TableSchema,
    route: Seq<char>,
    params: Fields,
    splits: Seq<Seq<SplitV>>,
    now_expr: Seq<char>,
    db: DbType,
    row: RowV,
    by: Collation,
)
    requires
        trace_plan(schema, route, params, splits, now_expr, db) is Ok,
    ensures
        ({
            let u = trace_plan(schema, route, params, splits, now_expr, db)->Ok_0;
            let parameters = schema.trace.parameters.deep_view();
            &&& u.table == schema.trace.insert_into@
            &&& u.columns == schema.trace.column_inserts.deep_view().push("created_at"@)
            &&& u.query.table == schema.table@
            &&& u.query.columns == schema.trace.column_selects.deep_view().push(
                now_expr + " as created_at"@,
            )
            &&& u.query.group_by == schema.trace.column_groups.deep_view()
            &&& u.query.limit is None
            &&& u.query.offset is None
            &&& match u.query.filter {
                Some(f) => satisfies(row, f, by),
                None => true,
            } <==> {
                &&& forall|i: int|
                    0 <= i < parameters.len() && lookup(params, #[trigger] parameters[i]) is Some
                        ==> is_traced_by(parameters[i], splits[i], row, by)
                &&& row(route + ".deleted_at"@) == Scalar::Null || parameters.len() > 0 && exists|
                    i: int,
                |
                    0 <= i < params.len() && contains(#[trigger] params[i].0, "deleted_at"@)
            }
        }),
{
    let parameters = schema.trace.parameters.deep_view();
    let own = trace_conditions(parameters, params, splits, parameters.len() as int);
    let terms = trace_where(schema, route, params, splits);
    lemma_trace_conditions(parameters, params, splits, parameters.len() as int, row, by);
    lemma_meets_all(row, terms, by);
    if !names_deleted(parameters, params) {
        let hidden = FilterV::IsNull(route + ".deleted_at"@);
        assert(terms == own.push(hidden));
        if forall|j: int| 0 <= j < terms.len() ==> satisfies(row, #[trigger] terms[j], by) {
            assert forall|j: int| 0 <= j < own.len() implies satisfies(
                row,
                #[trigger] own[j],
                by,
            ) by {
                assert(terms[j] == own[j]);
            }
            assert(satisfies(row, terms[terms.len() - 1], by));
        }
    }
}

} // verus!
