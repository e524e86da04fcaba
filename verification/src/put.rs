//! Updating a row.
use crate::ast::{
    copy_field_values, satisfies, Collation, DbParam, Filter, FilterV, InsertValue, InsertValueV,
    RowV, Scalar,
};
use crate::consumer::{job_of, make_job, WriteOpKind, WriteOpKindV};
use crate::filters::{infer_param, number_or_text};
use crate::flow::{
    answers, answers_success, enqueued, failure, failure_in, missing_entity, queue_wanted, refuse,
    refused, rows_in, say_enqueued, say_missing_entity, succeed, succeeded, told, touches_data,
    wants_queue, Action, ActionV, Audit, AuditV, KeyChange, KeyChangeV, Outcome, ReplyV,
};
use crate::giving::{binds, gives, law_values_are_read_as_given, shows, tells};
use crate::json::{
    copy_fields, field, get_in, law_set_then_get, lemma_object_view, lookup, plain_field, plain_or_empty, plain_text,
    set_in, with_field, with_key, Json, JsonV,
};
use crate::model::{column_named, column_type, find_column, type_or_int, Column, Index, TableSchema};
use crate::pk_utils::{
    as_json, build_pk_filter, filter_result, float_type, int_type, is_float_type, is_int_type,
    law_keys_pick_their_row,
    parse_pk_values, pk_filter, to_json, typed, typed_param,
};
use crate::post::{take_rows, Fields};
use crate::text::{contains, ends_with, join, joined, listed, occurs_at, push_item, same, split};
use crate::validation::{
    answer_of, build_fk_batch, dbparam_from_value_and_type, fk_batch_params, fk_batch_sql,
    fk_verdict, read_answer, validate_foreign_keys_batch, value_for, FkCheck, FkCheckV, Reading,
};
use crate::writing::{
    check_of, has_statement, holds_statement, is_audit_column, judge_validation, key_checks,
    law_given_keys_are_checked, push_key_checks, validation_verdict,
};
use vstd::prelude::*;
use vstd::string::*;

verus! {

/// A request to update a row.
#[derive(Debug)]
pub struct UpdateRequest {
    pub route: String,
    /// Whether the route is open to everyone.
    pub is_public: bool,
    /// Whether routes that are not open ask for a token.
    pub require_auth: bool,
    pub queue_enabled: bool,
    /// Whether a queued write is acknowledged before it is in the queue.
    pub fast_ack: bool,
    pub parameters: Json,
    pub schema: TableSchema,
    pub id_raw: String,
    /// Whether the store is one without transactions.
    pub mongodb: bool,
    /// The database's expression for the present time.
    pub now_expr: String,
    /// The present time, local, in UTC, and local without a zone.
    pub now: String,
    pub now_utc: String,
    pub now_plain: String,
}

// ---------------------------------------------------------------------------
// What is updated
// ---------------------------------------------------------------------------

/// What a row is updated with: the values of its columns, the same as a
/// document, the checks that its foreign keys ask for, its new identifier where
/// it changes, and the password where it is set.
#[derive(Debug)]
pub struct UpdatePlan {
    pub fields: Vec<(String, InsertValue)>,
    pub patch: Vec<(String, Json)>,
    pub checks: Vec<FkCheck>,
    pub id_new: String,
    pub password: Option<String>,
}

/// What such a plan is.
pub struct UpdatePlanV {
    pub fields: Seq<(Seq<char>, InsertValueV)>,
    pub patch: Fields,
    pub checks: Seq<FkCheckV>,
    pub id_new: Seq<char>,
    pub password: Option<Seq<char>>,
}

impl DeepView for UpdatePlan {
    type V = UpdatePlanV;

    open spec fn deep_view(&self) -> UpdatePlanV {
        UpdatePlanV {
            fields: self.fields.deep_view(),
            patch: self.patch.deep_view(),
            checks: self.checks.deep_view(),
            id_new: self.id_new@,
            password: self.password.deep_view(),
        }
    }
}

/// The plan that changes nothing.
pub open spec fn no_change() -> UpdatePlanV {
    UpdatePlanV {
        fields: Seq::empty(),
        patch: Seq::empty(),
        checks: Seq::empty(),
        id_new: Seq::empty(),
        password: None,
    }
}

/// A stored value as a bound value of a column: a number only in a column of
/// numbers.
pub open spec fn bound_update(value: Seq<char>, type_data: Seq<char>) -> Scalar {
    if is_int_type(type_data) || is_float_type(type_data) {
        number_or_text(value)
    } else {
        Scalar::Str(value)
    }
}

/// What is said of a configured column that the table does not have.
pub open spec fn unknown_column(column: Seq<char>, route: Seq<char>) -> Seq<char> {
    "Unknown column '"@ + column + "' for route '"@ + route + "'"@
}

/// The value of the `k`-th configured column as it is stored.
pub open spec fn stored_update(stored: Seq<String>, k: int) -> Seq<char> {
    if 0 <= k < stored.len() {
        stored[k]@
    } else {
        Seq::empty()
    }
}

/// A plan with one column worked in.
pub open spec fn with_update(
    p: UpdatePlanV,
    q: UpdateRequest,
    column: Seq<char>,
    c: Column,
    raw: Seq<char>,
    stored: Seq<char>,
) -> UpdatePlanV {
    let value = if c.encrypt {
        stored
    } else {
        raw
    };
    let bound = bound_update(value, c.type_data@);
    UpdatePlanV {
        fields: p.fields.push((column, InsertValueV::Param(bound))),
        patch: with_field(p.patch, column, as_json(bound)),
        checks: p.checks + key_checks(q.schema.foreign_keys@, column, raw, c.type_data@),
        id_new: if column == "id"@ {
            raw
        } else {
            p.id_new
        },
        password: if c.encrypt && q.route@ == "flx_users"@ && column == "password"@ {
            Some(value)
        } else {
            p.password
        },
    }
}

/// The plan of the first `n` configured columns, or the first of them that is
/// given and that the table does not have.
pub open spec fn update_plan(q: UpdateRequest, body: JsonV, stored: Seq<String>, n: int) -> Result<
    UpdatePlanV,
    Seq<char>,
>
    decreases n,
{
    if n <= 0 {
        Ok(no_change())
    } else {
        match update_plan(q, body, stored, n - 1) {
            Ok(p) => {
                let column = q.schema.put.columns@[n - 1]@;
                match field(body, column) {
                    Some(v) => if plain_text(v).len() > 0 {
                        match column_named(q.schema.columns@, column) {
                            Some(c) => Ok(
                                with_update(
                                    p,
                                    q,
                                    column,
                                    c,
                                    plain_text(v),
                                    stored_update(stored, n - 1),
                                ),
                            ),
                            None => Err(column),
                        }
                    } else {
                        Ok(p)
                    },
                    None => Ok(p),
                }
            },
            Err(e) => Err(e),
        }
    }
}

proof fn lemma_update_plan_err(q: UpdateRequest, body: JsonV, stored: Seq<String>, k: int, n: int)
    requires
        k <= n,
        update_plan(q, body, stored, k) is Err,
    ensures
        update_plan(q, body, stored, n) == update_plan(q, body, stored, k),
    decreases n - k,
{
    if k < n {
        lemma_update_plan_err(q, body, stored, k, n - 1);
    }
}

/// The value that a request gives for a configured column, and whether it is
/// encrypted: where the table has the column, and the value is not empty.
pub open spec fn asked_value(schema: TableSchema, body: JsonV, column: Seq<char>) -> (
    Seq<char>,
    bool,
) {
    let text = plain_or_empty(field(body, column));
    (
        text,
        match column_named(schema.columns@, column) {
            Some(c) => c.encrypt && text.len() > 0,
            None => false,
        },
    )
}

/// The values that a request gives for the configured columns, each with whether
/// it is encrypted.
pub open spec fn asked_values(schema: TableSchema, body: JsonV) -> Seq<(Seq<char>, bool)> {
    Seq::new(
        schema.put.columns@.len(),
        |k: int| asked_value(schema, body, schema.put.columns@[k]@),
    )
}

/// The values that a request gives for the configured columns, each with whether
/// it is encrypted.
pub fn ask_values(schema: &TableSchema, body: &Json) -> (r: Vec<(String, bool)>)
    ensures
        r.deep_view() == asked_values(*schema, body.deep_view()),
{
    let ghost all = asked_values(*schema, body.deep_view());
    let mut out: Vec<(String, bool)> = Vec::new();
    assert(out.deep_view() =~= all.take(0));
    let mut i: usize = 0;
    while i < schema.put.columns.len()
        invariant
            i <= schema.put.columns@.len(),
            all == asked_values(*schema, body.deep_view()),
            out.deep_view() == all.take(i as int),
        decreases schema.put.columns.len() - i,
    {
        let column = schema.put.columns[i].as_str();
        let text = plain_field(body, column);
        let secret = match find_column(&schema.columns, column) {
            Some(c) => c.encrypt && !text.as_str().is_empty(),
            None => false,
        };
        push_item(&mut out, (text, secret));
        i += 1;
        assert(all.take(i as int) =~= all.take(i - 1).push(all[i - 1]));
    }
    assert(all.take(schema.put.columns@.len() as int) =~= all);
    out
}

fn bind_update(value: &str, type_data: &str) -> (r: DbParam)
    ensures
        r.deep_view() == bound_update(value@, type_data@),
{
    if int_type(type_data) || float_type(type_data) {
        infer_param(value)
    } else {
        DbParam::Str(value.to_owned())
    }
}

/// What is said of a configured column that the table does not have.
pub fn say_unknown_column(column: &str, route: &str) -> (r: String)
    ensures
        r@ == unknown_column(column@, route@),
{
    let mut m = "Unknown column '".to_owned();
    m.append(column);
    m.append("' for route '");
    m.append(route);
    m.append("'");
    m
}

/// What a row is updated with, or the column that the table does not have.
pub fn plan_update(q: &UpdateRequest, body: &Json, stored: &Vec<String>) -> (r: Result<
    UpdatePlan,
    String,
>)
    ensures
        match r {
            Ok(p) => update_plan(
                *q,
                body.deep_view(),
                stored@,
                q.schema.put.columns@.len() as int,
            ) == Ok::<UpdatePlanV, Seq<char>>(p.deep_view()),
            Err(e) => update_plan(
                *q,
                body.deep_view(),
                stored@,
                q.schema.put.columns@.len() as int,
            ) == Err::<UpdatePlanV, Seq<char>>(e@),
        },
{
    let mut p = UpdatePlan {
        fields: Vec::new(),
        patch: Vec::new(),
        checks: Vec::new(),
        id_new: String::new(),
        password: None,
    };
    assert(p.fields.deep_view() =~= Seq::empty());
    assert(p.patch.deep_view() =~= Seq::empty());
    assert(p.checks.deep_view() =~= Seq::empty());
    let mut i: usize = 0;
    while i < q.schema.put.columns.len()
        invariant
            i <= q.schema.put.columns@.len(),
            update_plan(*q, body.deep_view(), stored@, i as int) == Ok::<UpdatePlanV, Seq<char>>(
                p.deep_view(),
            ),
        decreases q.schema.put.columns.len() - i,
    {
        let column = q.schema.put.columns[i].as_str();
        match body.get(column) {
            Some(v) => {
                let raw = v.plain();
                if !raw.as_str().is_empty() {
                    match find_column(&q.schema.columns, column) {
                        Some(c) => {
                            push_key_checks(
                                &mut p.checks,
                                &q.schema.foreign_keys,
                                column,
                                raw.as_str(),
                                c.type_data.as_str(),
                            );
                            if same(column, "id") {
                                p.id_new = raw.clone();
                            }
                            let value = if c.encrypt {
                                if i < stored.len() {
                                    stored[i].clone()
                                } else {
                                    String::new()
                                }
                            } else {
                                raw
                            };
                            if c.encrypt && same(q.route.as_str(), "flx_users") && same(
                                column,
                                "password",
                            ) {
                                p.password = Some(value.clone());
                            }
                            let bound = bind_update(value.as_str(), c.type_data.as_str());
                            set_in(&mut p.patch, column, to_json(bound.copy()));
                            push_item(
                                &mut p.fields,
                                (column.to_owned(), InsertValue::Param(bound)),
                            );
                        },
                        None => {
                            proof {
                                lemma_update_plan_err(
                                    *q,
                                    body.deep_view(),
                                    stored@,
                                    i + 1,
                                    q.schema.put.columns@.len() as int,
                                );
                            }
                            return Err(column.to_owned());
                        },
                    }
                }
            },
            None => {},
        }
        i += 1;
    }
    Ok(p)
}

// ---------------------------------------------------------------------------
// Unique indexes
// ---------------------------------------------------------------------------

/// Whether one of some columns is set.
pub open spec fn any_set(columns: Seq<Seq<char>>, values: Fields) -> bool {
    exists|i: int| 0 <= i < columns.len() && lookup(values, #[trigger] columns[i]) is Some
}

/// Whether one of some columns is set.
pub fn is_any_set(columns: &Vec<String>, values: &Vec<(String, Json)>) -> (r: bool)
    ensures
        r == any_set(columns.deep_view(), values.deep_view()),
{
    let ghost cs = columns.deep_view();
    let mut i: usize = 0;
    while i < columns.len()
        invariant
            i <= columns@.len(),
            cs == columns.deep_view(),
            forall|k: int| 0 <= k < i ==> lookup(values.deep_view(), #[trigger] cs[k]) is None,
        decreases columns.len() - i,
    {
        assert(cs[i as int] == columns@[i as int]@);
        if get_in(values, columns[i].as_str()).is_some() {
            return true;
        }
        i += 1;
    }
    false
}

/// Whether a unique index is touched by an update.
pub open spec fn is_affected(ix: Index, values: Fields) -> bool {
    ix.unique && any_set(ix.columns.deep_view(), values)
}

/// Whether any unique index is touched by an update.
pub open spec fn any_affected(indexes: Seq<Index>, values: Fields) -> bool {
    exists|i: int| 0 <= i < indexes.len() && is_affected(#[trigger] indexes[i], values)
}

/// Whether any unique index is touched by an update.
pub fn is_any_affected(indexes: &Vec<Index>, values: &Vec<(String, Json)>) -> (r: bool)
    ensures
        r == any_affected(indexes@, values.deep_view()),
{
    let mut i: usize = 0;
    while i < indexes.len()
        invariant
            i <= indexes@.len(),
            forall|k: int|
                0 <= k < i ==> !is_affected(#[trigger] indexes@[k], values.deep_view()),
        decreases indexes.len() - i,
    {
        if indexes[i].unique && is_any_set(&indexes[i].columns, values) {
            assert(is_affected(indexes@[i as int], values.deep_view()));
            return true;
        }
        i += 1;
    }
    false
}

/// The columns among some that are not set, added to a list, each once.
pub open spec fn with_unset(
    list: Seq<Seq<char>>,
    columns: Seq<Seq<char>>,
    values: Fields,
) -> Seq<Seq<char>>
    decreases columns.len(),
{
    if columns.len() == 0 {
        list
    } else {
        let before = with_unset(list, columns.drop_last(), values);
        let c = columns.last();
        if lookup(values, c) is None && !before.contains(c) {
            before.push(c)
        } else {
            before
        }
    }
}

/// The columns of the touched unique indexes that the update does not set.
pub open spec fn needed_columns(indexes: Seq<Index>, values: Fields) -> Seq<Seq<char>>
    decreases indexes.len(),
{
    if indexes.len() == 0 {
        Seq::empty()
    } else {
        let before = needed_columns(indexes.drop_last(), values);
        let ix = indexes.last();
        if is_affected(ix, values) {
            with_unset(before, ix.columns.deep_view(), values)
        } else {
            before
        }
    }
}

fn push_unset(list: &mut Vec<String>, columns: &Vec<String>, values: &Vec<(String, Json)>)
    ensures
        final(list).deep_view() == with_unset(
            old(list).deep_view(),
            columns.deep_view(),
            values.deep_view(),
        ),
{
    let ghost start = list.deep_view();
    let ghost cs = columns.deep_view();
    let mut i: usize = 0;
    while i < columns.len()
        invariant
            i <= columns@.len(),
            cs == columns.deep_view(),
            list.deep_view() == with_unset(start, cs.take(i as int), values.deep_view()),
        decreases columns.len() - i,
    {
        assert(cs.take(i + 1).drop_last() =~= cs.take(i as int));
        assert(cs[i as int] == columns@[i as int]@);
        let c = columns[i].as_str();
        if get_in(values, c).is_none() && !listed(list, c) {
            push_item(list, columns[i].clone());
        }
        i += 1;
    }
    assert(cs.take(cs.len() as int) =~= cs);
}

/// The columns of the touched unique indexes that the update does not set.
pub fn build_needed_columns(indexes: &Vec<Index>, values: &Vec<(String, Json)>) -> (r: Vec<String>)
    ensures
        r.deep_view() == needed_columns(indexes@, values.deep_view()),
{
    let mut out: Vec<String> = Vec::new();
    let mut i: usize = 0;
    assert(out.deep_view() =~= Seq::empty());
    while i < indexes.len()
        invariant
            i <= indexes@.len(),
            out.deep_view() == needed_columns(indexes@.take(i as int), values.deep_view()),
        decreases indexes.len() - i,
    {
        assert(indexes@.take(i + 1).drop_last() =~= indexes@.take(i as int));
        if indexes[i].unique && is_any_set(&indexes[i].columns, values) {
            push_unset(&mut out, &indexes[i].columns, values);
        }
        i += 1;
    }
    assert(indexes@.take(indexes@.len() as int) =~= indexes@);
    out
}

/// Values with those of a row added for some columns.
pub open spec fn with_row(values: Fields, columns: Seq<Seq<char>>, row: JsonV) -> Fields
    decreases columns.len(),
{
    if columns.len() == 0 {
        values
    } else {
        let before = with_row(values, columns.drop_last(), row);
        match field(row, columns.last()) {
            Some(v) => with_field(before, columns.last(), v),
            None => before,
        }
    }
}

/// Values with those of the first of some rows added for some columns.
pub open spec fn with_rows(values: Fields, columns: Seq<Seq<char>>, rows: Seq<JsonV>) -> Fields {
    if rows.len() > 0 {
        with_row(values, columns, rows[0])
    } else {
        values
    }
}

/// Adds, for some columns, the values of the first of some rows.
pub fn add_rows(values: &mut Vec<(String, Json)>, columns: &Vec<String>, rows: &Vec<Json>)
    ensures
        final(values).deep_view() == with_rows(
            old(values).deep_view(),
            columns.deep_view(),
            rows.deep_view(),
        ),
{
    if rows.len() == 0 {
        return ;
    }
    assert(rows.deep_view()[0] == rows@[0].deep_view());
    let ghost start = values.deep_view();
    let ghost cs = columns.deep_view();
    let mut i: usize = 0;
    while i < columns.len()
        invariant
            i <= columns@.len(),
            rows@.len() > 0,
            cs == columns.deep_view(),
            values.deep_view() == with_row(start, cs.take(i as int), rows@[0].deep_view()),
        decreases columns.len() - i,
    {
        assert(cs.take(i + 1).drop_last() =~= cs.take(i as int));
        assert(cs[i as int] == columns@[i as int]@);
        match rows[0].get(columns[i].as_str()) {
            Some(v) => {
                set_in(values, columns[i].as_str(), v.copy());
            },
            None => {},
        }
        i += 1;
    }
    assert(cs.take(cs.len() as int) =~= cs);
}

/// The conditions of a check and the values that they bind, where every column
/// of the index has a value.
pub open spec fn index_values(
    names: Seq<Seq<char>>,
    columns: Seq<Column>,
    values: Fields,
) -> Option<(Seq<Seq<char>>, Seq<Scalar>)>
    decreases names.len(),
{
    if names.len() == 0 {
        Some((Seq::empty(), Seq::empty()))
    } else {
        match index_values(names.drop_last(), columns, values) {
            Some((conds, params)) => match lookup(values, names.last()) {
                Some(v) => Some(
                    (
                        conds.push(names.last() + " = ?"@),
                        params.push(value_for(v, column_named(columns, names.last()))),
                    ),
                ),
                None => None,
            },
            None => None,
        }
    }
}

/// The query of a check of a unique index that leaves out the row itself.
pub open spec fn other_row_query(
    name: Seq<char>,
    table: Seq<char>,
    conds: Seq<Seq<char>>,
    pk: Seq<char>,
) -> Seq<char> {
    "SELECT '"@ + name + "' as _idx, EXISTS(SELECT 1 FROM "@ + table + " WHERE "@ + join(
        conds.push(pk + " <> ?"@),
        " AND "@,
    ) + ") as _dup"@
}

/// The queries of the checks of the touched unique indexes, and the values that
/// they bind.
pub open spec fn other_row_checks(
    indexes: Seq<Index>,
    columns: Seq<Column>,
    values: Fields,
    table: Seq<char>,
    pk: Seq<char>,
    pk_value: Scalar,
) -> (Seq<Seq<char>>, Seq<Scalar>)
    decreases indexes.len(),
{
    if indexes.len() == 0 {
        (Seq::empty(), Seq::empty())
    } else {
        let before = other_row_checks(
            indexes.drop_last(),
            columns,
            values,
            table,
            pk,
            pk_value,
        );
        let ix = indexes.last();
        match index_values(ix.columns.deep_view(), columns, values) {
            Some((conds, params)) => if is_affected(ix, values) {
                (
                    before.0.push(other_row_query(ix.name@, table, conds, pk)),
                    before.1 + params.push(pk_value),
                )
            } else {
                before
            },
            None => before,
        }
    }
}

proof fn lemma_index_values_none(
    names: Seq<Seq<char>>,
    columns: Seq<Column>,
    values: Fields,
    k: int,
)
    requires
        0 <= k <= names.len(),
        index_values(names.take(k), columns, values) is None,
    ensures
        index_values(names, columns, values) is None,
    decreases names.len() - k,
{
    if k < names.len() {
        assert(names.take(k + 1).drop_last() =~= names.take(k));
        lemma_index_values_none(names, columns, values, k + 1);
    } else {
        assert(names.take(k) =~= names);
    }
}

fn collect_index_values(
    names: &Vec<String>,
    columns: &Vec<Column>,
    values: &Vec<(String, Json)>,
) -> (r: Option<(Vec<String>, Vec<DbParam>)>)
    ensures
        r.deep_view() == index_values(names.deep_view(), columns@, values.deep_view()),
{
    let ghost ns = names.deep_view();
    let mut conds: Vec<String> = Vec::new();
    let mut params: Vec<DbParam> = Vec::new();
    assert(conds.deep_view() =~= Seq::empty());
    assert(params.deep_view() =~= Seq::empty());
    let mut i: usize = 0;
    while i < names.len()
        invariant
            i <= names@.len(),
            ns == names.deep_view(),
            index_values(ns.take(i as int), columns@, values.deep_view()) == Some(
                (conds.deep_view(), params.deep_view()),
            ),
        decreases names.len() - i,
    {
        assert(ns.take(i + 1).drop_last() =~= ns.take(i as int));
        assert(ns[i as int] == names@[i as int]@);
        let name = names[i].as_str();
        match get_in(values, name) {
            Some(v) => {
                let p = dbparam_from_value_and_type(v, find_column(columns, name));
                let mut cond = name.to_owned();
                cond.append(" = ?");
                push_item(&mut conds, cond);
                push_item(&mut params, p);
            },
            None => {
                proof {
                    lemma_index_values_none(ns, columns@, values.deep_view(), i + 1);
                }
                return None;
            },
        }
        i += 1;
    }
    assert(ns.take(ns.len() as int) =~= ns);
    Some((conds, params))
}

fn append_params(out: &mut Vec<DbParam>, more: Vec<DbParam>)
    ensures
        final(out).deep_view() == old(out).deep_view() + more.deep_view(),
{
    let ghost a = out.deep_view();
    let ghost b = more.deep_view();
    let mut more = more;
    out.append(&mut more);
    assert(out.deep_view() =~= a + b);
}

fn write_other_row_query(name: &str, table: &str, conds: &Vec<String>) -> (r: String)
    ensures
        r@ == "SELECT '"@ + name@ + "' as _idx, EXISTS(SELECT 1 FROM "@ + table@ + " WHERE "@ + join(
            conds.deep_view(),
            " AND "@,
        ) + ") as _dup"@,
{
    let mut sql = "SELECT '".to_owned();
    sql.append(name);
    sql.append("' as _idx, EXISTS(SELECT 1 FROM ");
    sql.append(table);
    sql.append(" WHERE ");
    sql.append(joined(conds, " AND ").as_str());
    sql.append(") as _dup");
    sql
}

/// The queries of the checks of the touched unique indexes, and the values that
/// they bind. The row itself, which the first column of its key picks, is left
/// out.
pub fn validate_unique_constraints_batch_put(
    table: &str,
    indexes: &Vec<Index>,
    columns_meta: &Vec<Column>,
    effective_values: &Vec<(String, Json)>,
    pk_name: &str,
    pk_param: &DbParam,
) -> (r: (Vec<String>, Vec<DbParam>))
    ensures
        (r.0.deep_view(), r.1.deep_view()) == other_row_checks(
            indexes@,
            columns_meta@,
            effective_values.deep_view(),
            table@,
            pk_name@,
            pk_param.deep_view(),
        ),
{
    let mut queries: Vec<String> = Vec::new();
    let mut params: Vec<DbParam> = Vec::new();
    assert(queries.deep_view() =~= Seq::empty());
    assert(params.deep_view() =~= Seq::empty());
    let mut i: usize = 0;
    while i < indexes.len()
        invariant
            i <= indexes@.len(),
            (queries.deep_view(), params.deep_view()) == other_row_checks(
                indexes@.take(i as int),
                columns_meta@,
                effective_values.deep_view(),
                table@,
                pk_name@,
                pk_param.deep_view(),
            ),
        decreases indexes.len() - i,
    {
        assert(indexes@.take(i + 1).drop_last() =~= indexes@.take(i as int));
        let ix = &indexes[i];
        if ix.unique && is_any_set(&ix.columns, effective_values) {
            match collect_index_values(&ix.columns, columns_meta, effective_values) {
                Some((conds, local)) => {
                    let mut conds = conds;
                    let mut local = local;
                    let mut last = pk_name.to_owned();
                    last.append(" <> ?");
                    push_item(&mut conds, last);
                    push_item(&mut local, pk_param.copy());
                    push_item(
                        &mut queries,
                        write_other_row_query(ix.name.as_str(), table, &conds),
                    );
                    append_params(&mut params, local);
                },
                None => {},
            }
        }
        i += 1;
    }
    assert(indexes@.take(indexes@.len() as int) =~= indexes@);
    (queries, params)
}

/// Whether any of some checks found another row with the same values.
pub open spec fn any_duplicate(rows: Seq<JsonV>, reading: Reading) -> bool {
    exists|i: int| 0 <= i < rows.len() && answer_of(#[trigger] rows[i], "_dup"@, reading)
}

/// Whether any of some checks found another row with the same values.
pub fn found_duplicate(rows: &Vec<Json>, reading: Reading) -> (r: bool)
    ensures
        r == any_duplicate(rows.deep_view(), reading),
{
    let ghost rs = rows.deep_view();
    let mut i: usize = 0;
    while i < rows.len()
        invariant
            i <= rows@.len(),
            rs == rows.deep_view(),
            forall|k: int| 0 <= k < i ==> !answer_of(#[trigger] rs[k], "_dup"@, reading),
        decreases rows.len() - i,
    {
        assert(rs[i as int] == rows@[i as int].deep_view());
        if read_answer(&rows[i], "_dup", reading) {
            return true;
        }
        i += 1;
    }
    false
}

// ---------------------------------------------------------------------------
// An update under way
// ---------------------------------------------------------------------------

/// Where an update stands.
#[derive(Debug, PartialEq, Eq, Clone, Copy, Structural)]
pub enum UpdateStage {
    Start,
    Token,
    Access,
    Body,
    QueueToken,
    QueueAccess,
    Queueing,
    Encrypting,
    Compiling,
    Beginning,
    CheckingKeys,
    Preloading,
    CheckingUnique,
    Validating,
    PreProcessing,
    UpdatingPassword,
    Storing,
    Running,
    PostProcessing,
    Following,
    Committing,
    Ended,
}

/// What an update remembers.
#[derive(Debug)]
pub struct UpdateMemo {
    /// Who makes the update.
    pub actor: String,
    /// The body of the request.
    pub body: Json,
    pub plan: UpdatePlan,
}

/// What an update remembers.
pub struct UpdateMemoV {
    pub actor: Seq<char>,
    pub body: JsonV,
    pub plan: UpdatePlanV,
}

impl DeepView for UpdateMemo {
    type V = UpdateMemoV;

    open spec fn deep_view(&self) -> UpdateMemoV {
        UpdateMemoV {
            actor: self.actor@,
            body: self.body.deep_view(),
            plan: self.plan.deep_view(),
        }
    }
}

/// An update under way.
#[derive(Debug)]
pub struct Updating {
    pub request: UpdateRequest,
    pub stage: UpdateStage,
    pub memo: UpdateMemo,
}

/// What a new update remembers: without a token, the actor is `0`.
pub open spec fn blank_update() -> UpdateMemoV {
    UpdateMemoV { actor: "0"@, body: JsonV::Object(Seq::empty()), plan: no_change() }
}

/// What follows from a step: where the update stands, what it remembers and what
/// it asks for.
pub type UpdateTurn = (UpdateStage, UpdateMemoV, ActionV);

/// The request is answered.
pub open spec fn update_ends(m: UpdateMemoV, a: ActionV) -> UpdateTurn {
    (UpdateStage::Ended, m, a)
}

/// What follows from a failed step that was not in a transaction.
pub open spec fn update_answers(m: UpdateMemoV, status: u16, message: Seq<char>) -> UpdateTurn {
    update_ends(m, ActionV::Answer(refused(status, message)))
}

/// What follows from a failed step in a transaction.
pub open spec fn update_aborts(m: UpdateMemoV, status: u16, message: Seq<char>) -> UpdateTurn {
    update_ends(m, ActionV::Abort(refused(status, message)))
}

/// Whether the request needs a token.
pub open spec fn update_guarded(q: UpdateRequest) -> bool {
    !q.is_public && q.require_auth
}

/// The entry of the audit log for an update.
pub open spec fn update_audit(actor: Seq<char>, id: Seq<char>) -> AuditV {
    AuditV { action: "PUT"@, actor_id: actor, id: Some(id) }
}

/// The answer to an update.
pub open spec fn updated() -> ReplyV {
    succeeded("Data updated successfully"@, 1, JsonV::Null)
}

/// How the write is queued. The actor of a checked token is put into the body.
pub open spec fn queue_update(q: UpdateRequest, m: UpdateMemoV, checked: Option<Seq<char>>) -> UpdateTurn {
    let job = job_of(
        q.route@,
        WriteOpKindV::Put { id: q.id_raw@ },
        match checked {
            Some(id) => with_key(m.body, "__actor_id__"@, JsonV::Str(id)),
            None => m.body,
        },
        q.now_utc@,
        match checked {
            Some(id) => Some(id),
            None => if update_guarded(q) {
                None
            } else {
                Some("0"@)
            },
        },
    );
    if q.fast_ack {
        update_ends(m, ActionV::EnqueueInBackground(job, enqueued()))
    } else {
        (UpdateStage::Queueing, m, ActionV::Enqueue(job))
    }
}

/// What follows once the body is there: the write is queued or made.
pub open spec fn update_body_read(q: UpdateRequest, m: UpdateMemoV) -> UpdateTurn {
    if q.queue_enabled && wants_queue(q.parameters.deep_view()) {
        if q.is_public {
            queue_update(q, m, None)
        } else {
            (UpdateStage::QueueToken, m, ActionV::VerifyToken)
        }
    } else if q.schema.table@.len() == 0 {
        update_answers(m, 424, missing_entity(q.route@))
    } else {
        (UpdateStage::Encrypting, m, ActionV::Encrypt(asked_values(q.schema, m.body)))
    }
}

/// The actor as a value of the column that names who updated a row.
pub open spec fn updater(q: UpdateRequest, actor: Seq<char>) -> Scalar {
    typed(actor, type_or_int(q.schema.columns@, "updated_by_id"@))
}

/// A plan with the columns of the audit trail.
pub open spec fn with_updated(q: UpdateRequest, p: UpdatePlanV, actor: Seq<char>) -> UpdatePlanV {
    UpdatePlanV {
        fields: p.fields.push(("updated_at"@, InsertValueV::Raw(q.now_expr@))).push(
            ("updated_by_id"@, InsertValueV::Param(updater(q, actor))),
        ),
        patch: with_field(p.patch, "updated_by_id"@, as_json(updater(q, actor))),
        ..p
    }
}

/// The condition that picks the row.
pub open spec fn update_filter(q: UpdateRequest) -> Result<FilterV, Seq<char>> {
    pk_filter(q.schema.primary_key.deep_view(), split(q.id_raw@, '~'))
}

/// What follows once the row is planned: the statement is compiled.
pub open spec fn update_planned(q: UpdateRequest, m: UpdateMemoV) -> UpdateTurn {
    if q.mongodb {
        write_update(q, m)
    } else {
        match update_filter(q) {
            Ok(f) => (
                UpdateStage::Compiling,
                m,
                ActionV::CompileUpdate(q.schema.table@, f, m.plan.fields),
            ),
            Err(e) => update_answers(m, 400, "Error building PK filter: "@ + e),
        }
    }
}

/// What follows once the transaction is begun: the foreign keys are checked.
pub open spec fn check_update_keys(q: UpdateRequest, m: UpdateMemoV) -> UpdateTurn {
    if m.plan.checks.len() > 0 {
        (
            UpdateStage::CheckingKeys,
            m,
            ActionV::RunSql(fk_batch_sql(m.plan.checks), fk_batch_params(m.plan.checks)),
        )
    } else {
        preload_update(q, m)
    }
}

/// The first column of the row's key.
pub open spec fn first_key(q: UpdateRequest) -> Seq<char> {
    if q.schema.primary_key@.len() > 0 {
        q.schema.primary_key@[0]@
    } else {
        "id"@
    }
}

/// The path of the row as a value of the first column of its key.
pub open spec fn key_value(q: UpdateRequest) -> Scalar {
    match column_named(q.schema.columns@, first_key(q)) {
        Some(c) => value_for(JsonV::Str(q.id_raw@), Some(c)),
        None => Scalar::Str(q.id_raw@),
    }
}

/// The query for the values of a row that an update does not set.
pub open spec fn preload_sql(q: UpdateRequest, columns: Seq<Seq<char>>) -> Seq<char> {
    "SELECT "@ + join(columns, ","@) + " FROM "@ + q.schema.table@ + " WHERE "@ + first_key(q)
        + " = ?"@
}

/// What follows once the foreign keys are valid: values that the touched unique
/// indexes need are read.
pub open spec fn preload_update(q: UpdateRequest, m: UpdateMemoV) -> UpdateTurn {
    if any_affected(q.schema.indexes@, m.plan.patch) {
        let needed = needed_columns(q.schema.indexes@, m.plan.patch);
        if needed.len() > 0 {
            (
                UpdateStage::Preloading,
                m,
                ActionV::RunSql(preload_sql(q, needed), seq![key_value(q)]),
            )
        } else {
            check_update_unique(q, m, m.plan.patch)
        }
    } else {
        validate_update(q, m)
    }
}

/// What follows once all values are known: the unique indexes are checked.
pub open spec fn check_update_unique(q: UpdateRequest, m: UpdateMemoV, values: Fields) -> UpdateTurn {
    let (queries, params) = other_row_checks(
        q.schema.indexes@,
        q.schema.columns@,
        values,
        q.schema.table@,
        first_key(q),
        key_value(q),
    );
    if queries.len() > 0 {
        (
            UpdateStage::CheckingUnique,
            m,
            ActionV::RunSql(join(queries, " UNION ALL "@), params),
        )
    } else {
        validate_update(q, m)
    }
}

/// What follows once everything is checked: the data is validated.
pub open spec fn validate_update(q: UpdateRequest, m: UpdateMemoV) -> UpdateTurn {
    if has_statement(q.schema.put.validate_data@) {
        (
            UpdateStage::Validating,
            m,
            ActionV::CheckFormula(q.schema.put.validate_data@, m.body),
        )
    } else {
        preprocess_update(q, m)
    }
}

/// What follows once the data is valid.
pub open spec fn preprocess_update(q: UpdateRequest, m: UpdateMemoV) -> UpdateTurn {
    if has_statement(q.schema.put.pre_process@) {
        (
            UpdateStage::PreProcessing,
            m,
            ActionV::RunFormula(q.schema.put.pre_process@, m.body),
        )
    } else {
        write_update(q, m)
    }
}

/// Whether only the password of a user is set.
pub open spec fn is_password_only(q: UpdateRequest, m: UpdateMemoV) -> bool {
    q.route@ == "flx_users"@ && m.plan.password is Some && q.schema.put.columns@.len() == 1
}

/// The document that sets the password of a user.
pub open spec fn password_doc(q: UpdateRequest, m: UpdateMemoV) -> JsonV {
    JsonV::Object(
        seq![
            ("password"@, JsonV::Str(m.plan.password->0)),
            ("updated_at"@, JsonV::Str(q.now_plain@)),
            ("updated_by_id"@, as_json(updater(q, m.actor))),
        ],
    )
}

/// What follows once the row may be written.
pub open spec fn write_update(q: UpdateRequest, m: UpdateMemoV) -> UpdateTurn {
    if is_password_only(q, m) {
        match update_filter(q) {
            Ok(f) => if q.mongodb {
                (
                    UpdateStage::Storing,
                    m,
                    ActionV::StoreUpdate("flx_users"@, f, password_doc(q, m)),
                )
            } else {
                (
                    UpdateStage::UpdatingPassword,
                    m,
                    ActionV::UpdateRows("flx_users"@, f, password_doc(q, m)),
                )
            },
            Err(e) => if q.mongodb {
                update_ends(m, ActionV::Fault)
            } else {
                update_aborts(m, 400, "Error building PK filter: "@ + e)
            },
        }
    } else if q.mongodb {
        let patch = with_field(m.plan.patch, "updated_at"@, JsonV::Str(q.now@));
        let n = UpdateMemoV { plan: UpdatePlanV { patch, ..m.plan }, ..m };
        match update_filter(q) {
            Ok(f) => (
                UpdateStage::Storing,
                n,
                ActionV::StoreUpdate(q.schema.table@, f, JsonV::Object(patch)),
            ),
            Err(e) => update_answers(n, 400, "Error building PK filter: "@ + e),
        }
    } else {
        (UpdateStage::Running, m, ActionV::RunCompiled)
    }
}

/// What follows once the row is updated.
pub open spec fn postprocess_update(q: UpdateRequest, m: UpdateMemoV) -> UpdateTurn {
    if has_statement(q.schema.put.post_process@) {
        (
            UpdateStage::PostProcessing,
            m,
            ActionV::RunFormula(q.schema.put.post_process@, m.body),
        )
    } else {
        follow_update(q, m)
    }
}

/// What follows last: a changed identifier is changed wherever it is referred
/// to.
pub open spec fn follow_update(q: UpdateRequest, m: UpdateMemoV) -> UpdateTurn {
    if m.plan.id_new.len() > 0 {
        (
            UpdateStage::Following,
            m,
            ActionV::FollowKeys(
                KeyChangeV {
                    process: "UPDATE"@,
                    route: q.route@,
                    user: m.actor,
                    id: q.id_raw@,
                    id_new: m.plan.id_new,
                },
            ),
        )
    } else {
        (UpdateStage::Committing, m, ActionV::Commit)
    }
}

/// The update is answered.
pub open spec fn update_concludes(q: UpdateRequest, m: UpdateMemoV) -> UpdateTurn {
    update_ends(m, ActionV::Conclude(update_audit(m.actor, q.id_raw@), updated()))
}

/// The next step of an update.
pub open spec fn update_next(
    q: UpdateRequest,
    stage: UpdateStage,
    m: UpdateMemoV,
    outcome: Outcome,
) -> UpdateTurn {
    match stage {
        UpdateStage::Start => if update_guarded(q) {
            (UpdateStage::Token, m, ActionV::VerifyToken)
        } else {
            (UpdateStage::Body, m, ActionV::ReadBody)
        },
        UpdateStage::Token => match outcome {
            Outcome::Identified(id) => (
                UpdateStage::Access,
                UpdateMemoV { actor: id@, ..m },
                ActionV::CheckAccess("write"@),
            ),
            _ => update_answers(m, 401, "Invalid token"@),
        },
        UpdateStage::Access => match failure_in(outcome) {
            Some(_) => update_answers(m, 401, "Unauthorized"@),
            None => (UpdateStage::Body, m, ActionV::ReadBody),
        },
        UpdateStage::Body => match failure_in(outcome) {
            Some(e) => update_answers(m, 400, "Failed to parse multipart data: "@ + e),
            None => match outcome {
                Outcome::Body(fields) => update_body_read(
                    q,
                    UpdateMemoV { body: JsonV::Object(fields.deep_view()), ..m },
                ),
                _ => update_body_read(q, m),
            },
        },
        UpdateStage::QueueToken => match outcome {
            Outcome::Identified(id) => (
                UpdateStage::QueueAccess,
                UpdateMemoV { actor: id@, ..m },
                ActionV::CheckAccess("write"@),
            ),
            _ => update_answers(m, 401, "Invalid token"@),
        },
        UpdateStage::QueueAccess => match failure_in(outcome) {
            Some(_) => update_answers(m, 401, "Unauthorized"@),
            None => queue_update(q, m, Some(m.actor)),
        },
        UpdateStage::Queueing => match failure_in(outcome) {
            Some(e) => update_answers(m, 500, "Queue error: "@ + e),
            None => update_ends(m, ActionV::Answer(enqueued())),
        },
        UpdateStage::Encrypting => match outcome {
            Outcome::Texts(stored) => match update_plan(
                q,
                m.body,
                stored@,
                q.schema.put.columns@.len() as int,
            ) {
                Ok(p) => update_planned(
                    q,
                    UpdateMemoV { plan: with_updated(q, p, m.actor), ..m },
                ),
                Err(column) => update_answers(m, 400, unknown_column(column, q.route@)),
            },
            _ => update_ends(m, ActionV::Fault),
        },
        UpdateStage::Compiling => match failure_in(outcome) {
            Some(e) => update_answers(m, 500, "Error compiling AST UPDATE: "@ + e),
            None => (UpdateStage::Beginning, m, ActionV::Begin),
        },
        UpdateStage::Beginning => match failure_in(outcome) {
            Some(e) => update_answers(m, 500, "Error starting transaction: "@ + e),
            None => check_update_keys(q, m),
        },
        UpdateStage::CheckingKeys => match failure_in(outcome) {
            Some(e) => update_aborts(m, 400, "FK batch validation failed: "@ + e),
            None => match fk_verdict(rows_in(outcome), Reading::OnlyTrue) {
                Some(message) => update_aborts(m, 400, message),
                None => preload_update(q, m),
            },
        },
        UpdateStage::Preloading => match failure_in(outcome) {
            Some(e) => update_aborts(
                m,
                500,
                "Error preloading values for unique check: "@ + e,
            ),
            None => check_update_unique(
                q,
                m,
                with_rows(
                    m.plan.patch,
                    needed_columns(q.schema.indexes@, m.plan.patch),
                    rows_in(outcome),
                ),
            ),
        },
        UpdateStage::CheckingUnique => match failure_in(outcome) {
            Some(e) => update_aborts(m, 400, "Unique batch validation failed: "@ + e),
            None => if any_duplicate(rows_in(outcome), Reading::OnlyTrue) {
                update_aborts(m, 400, "Unique constraint violation"@)
            } else {
                validate_update(q, m)
            },
        },
        UpdateStage::Validating => match outcome {
            Outcome::NotBuilt(e) => update_aborts(
                m,
                400,
                "Error building validation formula: "@ + e@,
            ),
            Outcome::Failed(e) => update_aborts(m, 400, "Error in validation_data: "@ + e@),
            _ => match validation_verdict(rows_in(outcome)) {
                Some(message) => update_aborts(m, 400, message),
                None => preprocess_update(q, m),
            },
        },
        UpdateStage::PreProcessing => match failure_in(outcome) {
            Some(e) => update_aborts(m, 500, "Error in pre-process: "@ + e),
            None => write_update(q, m),
        },
        UpdateStage::UpdatingPassword => match failure_in(outcome) {
            Some(e) => update_aborts(m, 500, "Error NCO-PUT: "@ + e),
            None => update_ends(m, ActionV::CommitAndAnswer(updated())),
        },
        UpdateStage::Storing => match failure_in(outcome) {
            Some(e) => update_answers(m, 500, "Error NCO-PUT (mongo): "@ + e),
            None => update_concludes(q, m),
        },
        UpdateStage::Running => match failure_in(outcome) {
            Some(e) => update_aborts(m, 500, "Error NCO-PUT: "@ + e),
            None => postprocess_update(q, m),
        },
        UpdateStage::PostProcessing => match failure_in(outcome) {
            Some(e) => update_aborts(m, 500, "Error executing post-process SQL: "@ + e),
            None => follow_update(q, m),
        },
        UpdateStage::Following => match failure_in(outcome) {
            Some(e) => update_aborts(
                m,
                500,
                "Transaction rolled back due to foreign key failures: "@ + e,
            ),
            None => (UpdateStage::Committing, m, ActionV::Commit),
        },
        UpdateStage::Committing => match failure_in(outcome) {
            Some(e) => update_answers(m, 500, "Error committing transaction: "@ + e),
            None => update_concludes(q, m),
        },
        UpdateStage::Ended => update_ends(m, ActionV::Nothing),
    }
}

/// An update that has not begun.
pub fn update(request: UpdateRequest) -> (r: Updating)
    ensures
        r.request == request,
        r.stage == UpdateStage::Start,
        r.memo.deep_view() == blank_update(),
{
    broadcast use lemma_object_view;

    let memo = UpdateMemo {
        actor: "0".to_owned(),
        body: Json::Object(Vec::new()),
        plan: UpdatePlan {
            fields: Vec::new(),
            patch: Vec::new(),
            checks: Vec::new(),
            id_new: String::new(),
            password: None,
        },
    };
    assert(memo.body.deep_view()->Object_0 =~= Seq::empty());
    assert(memo.plan.fields.deep_view() =~= Seq::empty());
    assert(memo.plan.patch.deep_view() =~= Seq::empty());
    assert(memo.plan.checks.deep_view() =~= Seq::empty());
    Updating { request, stage: UpdateStage::Start, memo }
}

/// The answer to an update.
pub fn say_updated() -> (r: crate::flow::Reply)
    ensures
        r.deep_view() == updated(),
{
    succeed("Data updated successfully", 1, Json::Null)
}

fn one_param(p: DbParam) -> (r: Vec<DbParam>)
    ensures
        r.deep_view() == seq![p.deep_view()],
{
    let mut out: Vec<DbParam> = Vec::new();
    push_item(&mut out, p);
    assert(out.deep_view() =~= seq![p.deep_view()]);
    out
}

impl UpdateRequest {
    /// The condition that picks the row.
    fn filter(&self) -> (r: Result<Filter, String>)
        ensures
            filter_result(r) == update_filter(*self),
    {
        let values = parse_pk_values(self.id_raw.as_str());
        build_pk_filter(&self.schema.primary_key, &values)
    }

    /// The first column of the row's key.
    fn first_key(&self) -> (r: String)
        ensures
            r@ == first_key(*self),
    {
        if self.schema.primary_key.len() > 0 {
            self.schema.primary_key[0].clone()
        } else {
            "id".to_owned()
        }
    }

    /// The path of the row as a value of the first column of its key.
    fn key_value(&self) -> (r: DbParam)
        ensures
            r.deep_view() == key_value(*self),
    {
        let key = self.first_key();
        match find_column(&self.schema.columns, key.as_str()) {
            Some(c) => dbparam_from_value_and_type(&Json::Str(self.id_raw.clone()), Some(c)),
            None => DbParam::Str(self.id_raw.clone()),
        }
    }

    /// The actor as a value of the column that names who updated a row.
    fn updater(&self, actor: &str) -> (r: DbParam)
        ensures
            r.deep_view() == updater(*self, actor@),
    {
        let t = column_type(&self.schema.columns, "updated_by_id");
        typed_param(actor, t.as_str())
    }
}

impl Updating {
    fn answer(&mut self, status: u16, message: String) -> (r: Action)
        ensures
            final(self).request == old(self).request,
            (final(self).stage, final(self).memo.deep_view(), r.deep_view()) == update_answers(
                old(self).memo.deep_view(),
                status,
                message@,
            ),
    {
        self.stage = UpdateStage::Ended;
        Action::Answer(refuse(status, message))
    }

    fn abort(&mut self, status: u16, message: String) -> (r: Action)
        ensures
            final(self).request == old(self).request,
            (final(self).stage, final(self).memo.deep_view(), r.deep_view()) == update_aborts(
                old(self).memo.deep_view(),
                status,
                message@,
            ),
    {
        self.stage = UpdateStage::Ended;
        Action::Abort(refuse(status, message))
    }

    fn ask(&mut self, stage: UpdateStage, action: Action) -> (r: Action)
        ensures
            final(self).request == old(self).request,
            final(self).stage == stage,
            final(self).memo == old(self).memo,
            r == action,
    {
        self.stage = stage;
        action
    }

    fn conclude(&mut self) -> (r: Action)
        ensures
            final(self).request == old(self).request,
            (final(self).stage, final(self).memo.deep_view(), r.deep_view()) == update_concludes(
                old(self).request,
                old(self).memo.deep_view(),
            ),
    {
        let audit = Audit {
            action: "PUT".to_owned(),
            actor_id: self.memo.actor.clone(),
            id: Some(self.request.id_raw.clone()),
        };
        self.ask(UpdateStage::Ended, Action::Conclude(audit, say_updated()))
    }

    fn queue(&mut self, checked: bool) -> (r: Action)
        ensures
            final(self).request == old(self).request,
            (final(self).stage, final(self).memo.deep_view(), r.deep_view()) == queue_update(
                old(self).request,
                old(self).memo.deep_view(),
                if checked { Some(old(self).memo.deep_view().actor) } else { None },
            ),
    {
        let mut body = self.memo.body.copy();
        let mut actor: Option<String> = None;
        if checked {
            body.set("__actor_id__", Json::Str(self.memo.actor.clone()));
            actor = Some(self.memo.actor.clone());
        } else if self.request.is_public || !self.request.require_auth {
            actor = Some("0".to_owned());
        }
        let job = make_job(
            self.request.route.as_str(),
            WriteOpKind::Put { id: self.request.id_raw.clone() },
            body,
            self.request.now_utc.as_str(),
            actor,
        );
        if self.request.fast_ack {
            self.ask(UpdateStage::Ended, Action::EnqueueInBackground(job, say_enqueued()))
        } else {
            self.ask(UpdateStage::Queueing, Action::Enqueue(job))
        }
    }

    fn body_read(&mut self) -> (r: Action)
        ensures
            final(self).request == old(self).request,
            (final(self).stage, final(self).memo.deep_view(), r.deep_view()) == update_body_read(
                old(self).request,
                old(self).memo.deep_view(),
            ),
    {
        if self.request.queue_enabled && queue_wanted(&self.request.parameters) {
            if self.request.is_public {
                self.queue(false)
            } else {
                self.ask(UpdateStage::QueueToken, Action::VerifyToken)
            }
        } else if self.request.schema.table.as_str().is_empty() {
            let message = say_missing_entity(self.request.route.as_str());
            self.answer(424, message)
        } else {
            let values = ask_values(&self.request.schema, &self.memo.body);
            self.ask(UpdateStage::Encrypting, Action::Encrypt(values))
        }
    }

    fn planned(&mut self) -> (r: Action)
        ensures
            final(self).request == old(self).request,
            (final(self).stage, final(self).memo.deep_view(), r.deep_view()) == update_planned(
                old(self).request,
                old(self).memo.deep_view(),
            ),
    {
        if self.request.mongodb {
            self.write()
        } else {
            match self.request.filter() {
                Ok(f) => {
                    let action = Action::CompileUpdate(
                        self.request.schema.table.clone(),
                        f,
                        copy_field_values(&self.memo.plan.fields),
                    );
                    self.ask(UpdateStage::Compiling, action)
                },
                Err(e) => self.answer(400, told("Error building PK filter: ", e.as_str())),
            }
        }
    }

    fn check_keys(&mut self) -> (r: Action)
        ensures
            final(self).request == old(self).request,
            (final(self).stage, final(self).memo.deep_view(), r.deep_view()) == check_update_keys(
                old(self).request,
                old(self).memo.deep_view(),
            ),
    {
        assert(self.memo.plan.checks.deep_view().len() == self.memo.plan.checks@.len());
        if self.memo.plan.checks.len() > 0 {
            let (sql, params) = build_fk_batch(&self.memo.plan.checks);
            self.ask(UpdateStage::CheckingKeys, Action::RunSql(sql, params))
        } else {
            self.preload()
        }
    }

    fn preload(&mut self) -> (r: Action)
        ensures
            final(self).request == old(self).request,
            (final(self).stage, final(self).memo.deep_view(), r.deep_view()) == preload_update(
                old(self).request,
                old(self).memo.deep_view(),
            ),
    {
        if is_any_affected(&self.request.schema.indexes, &self.memo.plan.patch) {
            let needed = build_needed_columns(
                &self.request.schema.indexes,
                &self.memo.plan.patch,
            );
            assert(needed.deep_view().len() == needed@.len());
            if needed.len() > 0 {
                let mut sql = "SELECT ".to_owned();
                sql.append(joined(&needed, ",").as_str());
                sql.append(" FROM ");
                sql.append(self.request.schema.table.as_str());
                sql.append(" WHERE ");
                sql.append(self.request.first_key().as_str());
                sql.append(" = ?");
                let params = one_param(self.request.key_value());
                self.ask(UpdateStage::Preloading, Action::RunSql(sql, params))
            } else {
                let values = copy_fields(&self.memo.plan.patch);
                self.check_unique(&values)
            }
        } else {
            self.validate()
        }
    }

    fn check_unique(&mut self, values: &Vec<(String, Json)>) -> (r: Action)
        ensures
            final(self).request == old(self).request,
            (final(self).stage, final(self).memo.deep_view(), r.deep_view()) == check_update_unique(
                old(self).request,
                old(self).memo.deep_view(),
                values.deep_view(),
            ),
    {
        let key = self.request.first_key();
        let value = self.request.key_value();
        let (queries, params) = validate_unique_constraints_batch_put(
            self.request.schema.table.as_str(),
            &self.request.schema.indexes,
            &self.request.schema.columns,
            values,
            key.as_str(),
            &value,
        );
        assert(queries.deep_view().len() == queries@.len());
        if queries.len() > 0 {
            let sql = joined(&queries, " UNION ALL ");
            self.ask(UpdateStage::CheckingUnique, Action::RunSql(sql, params))
        } else {
            self.validate()
        }
    }

    fn validate(&mut self) -> (r: Action)
        ensures
            final(self).request == old(self).request,
            (final(self).stage, final(self).memo.deep_view(), r.deep_view()) == validate_update(
                old(self).request,
                old(self).memo.deep_view(),
            ),
    {
        if holds_statement(self.request.schema.put.validate_data.as_str()) {
            let action = Action::CheckFormula(
                self.request.schema.put.validate_data.clone(),
                self.memo.body.copy(),
            );
            self.ask(UpdateStage::Validating, action)
        } else {
            self.preprocess()
        }
    }

    fn preprocess(&mut self) -> (r: Action)
        ensures
            final(self).request == old(self).request,
            (final(self).stage, final(self).memo.deep_view(), r.deep_view()) == preprocess_update(
                old(self).request,
                old(self).memo.deep_view(),
            ),
    {
        if holds_statement(self.request.schema.put.pre_process.as_str()) {
            let action = Action::RunFormula(
                self.request.schema.put.pre_process.clone(),
                self.memo.body.copy(),
            );
            self.ask(UpdateStage::PreProcessing, action)
        } else {
            self.write()
        }
    }

    fn password_doc(&self, password: &str) -> (r: Json)
        requires
            self.memo.plan.password.deep_view() == Some(password@),
        ensures
            r.deep_view() == password_doc(self.request, self.memo.deep_view()),
    {
        broadcast use lemma_object_view;

        let mut out: Vec<(String, Json)> = Vec::new();
        push_item(&mut out, ("password".to_owned(), Json::Str(password.to_owned())));
        push_item(&mut out, ("updated_at".to_owned(), Json::Str(self.request.now_plain.clone())));
        let by = self.request.updater(self.memo.actor.as_str());
        push_item(&mut out, ("updated_by_id".to_owned(), to_json(by)));
        assert(out.deep_view() =~= password_doc(
            self.request,
            self.memo.deep_view(),
        )->Object_0);
        Json::Object(out)
    }

    fn write(&mut self) -> (r: Action)
        ensures
            final(self).request == old(self).request,
            (final(self).stage, final(self).memo.deep_view(), r.deep_view()) == write_update(
                old(self).request,
                old(self).memo.deep_view(),
            ),
    {
        broadcast use lemma_object_view;

        let users = same(self.request.route.as_str(), "flx_users");
        let password: Option<String> = if users && self.request.schema.put.columns.len() == 1 {
            match &self.memo.plan.password {
                Some(p) => Some(p.clone()),
                None => None,
            }
        } else {
            None
        };
        match password {
            Some(p) => {
                let doc = self.password_doc(p.as_str());
                match self.request.filter() {
                    Ok(f) => if self.request.mongodb {
                        self.ask(
                            UpdateStage::Storing,
                            Action::StoreUpdate("flx_users".to_owned(), f, doc),
                        )
                    } else {
                        self.ask(
                            UpdateStage::UpdatingPassword,
                            Action::UpdateRows("flx_users".to_owned(), f, doc),
                        )
                    },
                    Err(e) => if self.request.mongodb {
                        self.ask(UpdateStage::Ended, Action::Fault)
                    } else {
                        self.abort(400, told("Error building PK filter: ", e.as_str()))
                    },
                }
            },
            None => {
                if self.request.mongodb {
                    set_in(
                        &mut self.memo.plan.patch,
                        "updated_at",
                        Json::Str(self.request.now.clone()),
                    );
                    match self.request.filter() {
                        Ok(f) => {
                            let action = Action::StoreUpdate(
                                self.request.schema.table.clone(),
                                f,
                                Json::Object(copy_fields(&self.memo.plan.patch)),
                            );
                            self.ask(UpdateStage::Storing, action)
                        },
                        Err(e) => self.answer(400, told("Error building PK filter: ", e.as_str())),
                    }
                } else {
                    self.ask(UpdateStage::Running, Action::RunCompiled)
                }
            },
        }
    }

    fn postprocess(&mut self) -> (r: Action)
        ensures
            final(self).request == old(self).request,
            (final(self).stage, final(self).memo.deep_view(), r.deep_view()) == postprocess_update(
                old(self).request,
                old(self).memo.deep_view(),
            ),
    {
        if holds_statement(self.request.schema.put.post_process.as_str()) {
            let action = Action::RunFormula(
                self.request.schema.put.post_process.clone(),
                self.memo.body.copy(),
            );
            self.ask(UpdateStage::PostProcessing, action)
        } else {
            self.follow()
        }
    }

    fn follow(&mut self) -> (r: Action)
        ensures
            final(self).request == old(self).request,
            (final(self).stage, final(self).memo.deep_view(), r.deep_view()) == follow_update(
                old(self).request,
                old(self).memo.deep_view(),
            ),
    {
        if !self.memo.plan.id_new.as_str().is_empty() {
            let change = KeyChange {
                process: "UPDATE".to_owned(),
                route: self.request.route.clone(),
                user: self.memo.actor.clone(),
                id: self.request.id_raw.clone(),
                id_new: self.memo.plan.id_new.clone(),
            };
            self.ask(UpdateStage::Following, Action::FollowKeys(change))
        } else {
            self.ask(UpdateStage::Committing, Action::Commit)
        }
    }

    /// Takes the next step of the update, with what came of the last one.
    pub fn step(&mut self, outcome: Outcome) -> (r: Action)
        ensures
            final(self).request == old(self).request,
            (final(self).stage, final(self).memo.deep_view(), r.deep_view()) == update_next(
                old(self).request,
                old(self).stage,
                old(self).memo.deep_view(),
                outcome,
            ),
    {
        broadcast use lemma_object_view;

        match self.stage {
            UpdateStage::Start => {
                if !self.request.is_public && self.request.require_auth {
                    self.ask(UpdateStage::Token, Action::VerifyToken)
                } else {
                    self.ask(UpdateStage::Body, Action::ReadBody)
                }
            },
            UpdateStage::Token => match outcome {
                Outcome::Identified(id) => {
                    self.memo.actor = id;
                    self.ask(UpdateStage::Access, Action::CheckAccess("write".to_owned()))
                },
                _ => self.answer(401, "Invalid token".to_owned()),
            },
            UpdateStage::Access => match failure(&outcome) {
                Some(_) => self.answer(401, "Unauthorized".to_owned()),
                None => self.ask(UpdateStage::Body, Action::ReadBody),
            },
            UpdateStage::Body => match failure(&outcome) {
                Some(e) => self.answer(400, told("Failed to parse multipart data: ", e)),
                None => {
                    match outcome {
                        Outcome::Body(fields) => {
                            self.memo.body = Json::Object(fields);
                        },
                        _ => {},
                    }
                    self.body_read()
                },
            },
            UpdateStage::QueueToken => match outcome {
                Outcome::Identified(id) => {
                    self.memo.actor = id;
                    self.ask(UpdateStage::QueueAccess, Action::CheckAccess("write".to_owned()))
                },
                _ => self.answer(401, "Invalid token".to_owned()),
            },
            UpdateStage::QueueAccess => match failure(&outcome) {
                Some(_) => self.answer(401, "Unauthorized".to_owned()),
                None => self.queue(true),
            },
            UpdateStage::Queueing => match failure(&outcome) {
                Some(e) => self.answer(500, told("Queue error: ", e)),
                None => self.ask(UpdateStage::Ended, Action::Answer(say_enqueued())),
            },
            UpdateStage::Encrypting => match outcome {
                Outcome::Texts(stored) => match plan_update(
                    &self.request,
                    &self.memo.body,
                    &stored,
                ) {
                    Ok(p) => {
                        let mut p = p;
                        let by = self.request.updater(self.memo.actor.as_str());
                        push_item(
                            &mut p.fields,
                            (
                                "updated_at".to_owned(),
                                InsertValue::Raw(self.request.now_expr.clone()),
                            ),
                        );
                        set_in(&mut p.patch, "updated_by_id", to_json(by.copy()));
                        push_item(
                            &mut p.fields,
                            ("updated_by_id".to_owned(), InsertValue::Param(by)),
                        );
                        self.memo.plan = p;
                        self.planned()
                    },
                    Err(column) => {
                        let message = say_unknown_column(
                            column.as_str(),
                            self.request.route.as_str(),
                        );
                        self.answer(400, message)
                    },
                },
                _ => self.ask(UpdateStage::Ended, Action::Fault),
            },
            UpdateStage::Compiling => match failure(&outcome) {
                Some(e) => self.answer(500, told("Error compiling AST UPDATE: ", e)),
                None => self.ask(UpdateStage::Beginning, Action::Begin),
            },
            UpdateStage::Beginning => match failure(&outcome) {
                Some(e) => self.answer(500, told("Error starting transaction: ", e)),
                None => self.check_keys(),
            },
            UpdateStage::CheckingKeys => match failure(&outcome) {
                Some(e) => self.abort(400, told("FK batch validation failed: ", e)),
                None => {
                    let rows = take_rows(outcome);
                    match validate_foreign_keys_batch(&rows, Reading::OnlyTrue) {
                        Some(message) => self.abort(400, message),
                        None => self.preload(),
                    }
                },
            },
            UpdateStage::Preloading => match failure(&outcome) {
                Some(e) => self.abort(500, told("Error preloading values for unique check: ", e)),
                None => {
                    let rows = take_rows(outcome);
                    let needed = build_needed_columns(
                        &self.request.schema.indexes,
                        &self.memo.plan.patch,
                    );
                    let mut values = copy_fields(&self.memo.plan.patch);
                    add_rows(&mut values, &needed, &rows);
                    self.check_unique(&values)
                },
            },
            UpdateStage::CheckingUnique => match failure(&outcome) {
                Some(e) => self.abort(400, told("Unique batch validation failed: ", e)),
                None => {
                    let rows = take_rows(outcome);
                    if found_duplicate(&rows, Reading::OnlyTrue) {
                        self.abort(400, "Unique constraint violation".to_owned())
                    } else {
                        self.validate()
                    }
                },
            },
            UpdateStage::Validating => match outcome {
                Outcome::NotBuilt(e) => self.abort(
                    400,
                    told("Error building validation formula: ", e.as_str()),
                ),
                Outcome::Failed(e) => self.abort(400, told("Error in validation_data: ", e.as_str())),
                other => {
                    let rows = take_rows(other);
                    match judge_validation(&rows) {
                        Some(message) => self.abort(400, message),
                        None => self.preprocess(),
                    }
                },
            },
            UpdateStage::PreProcessing => match failure(&outcome) {
                Some(e) => self.abort(500, told("Error in pre-process: ", e)),
                None => self.write(),
            },
            UpdateStage::UpdatingPassword => match failure(&outcome) {
                Some(e) => self.abort(500, told("Error NCO-PUT: ", e)),
                None => self.ask(UpdateStage::Ended, Action::CommitAndAnswer(say_updated())),
            },
            UpdateStage::Storing => match failure(&outcome) {
                Some(e) => self.answer(500, told("Error NCO-PUT (mongo): ", e)),
                None => self.conclude(),
            },
            UpdateStage::Running => match failure(&outcome) {
                Some(e) => self.abort(500, told("Error NCO-PUT: ", e)),
                None => self.postprocess(),
            },
            UpdateStage::PostProcessing => match failure(&outcome) {
                Some(e) => self.abort(500, told("Error executing post-process SQL: ", e)),
                None => self.follow(),
            },
            UpdateStage::Following => match failure(&outcome) {
                Some(e) => self.abort(
                    500,
                    told("Transaction rolled back due to foreign key failures: ", e),
                ),
                None => self.ask(UpdateStage::Committing, Action::Commit),
            },
            UpdateStage::Committing => match failure(&outcome) {
                Some(e) => self.answer(500, told("Error committing transaction: ", e)),
                None => self.conclude(),
            },
            UpdateStage::Ended => Action::Nothing,
        }
    }
}

// ---------------------------------------------------------------------------
// Laws
// ---------------------------------------------------------------------------

/// Where an update stands, and what it remembers, after some outcomes, one after
/// the other.
pub open spec fn update_after(q: UpdateRequest, outcomes: Seq<Outcome>) -> (UpdateStage, UpdateMemoV)
    decreases outcomes.len(),
{
    if outcomes.len() == 0 {
        (UpdateStage::Start, blank_update())
    } else {
        let (stage, m) = update_after(q, outcomes.drop_last());
        let (s, n, _) = update_next(q, stage, m, outcomes.last());
        (s, n)
    }
}

/// What an update asks for after some outcomes.
pub open spec fn update_asks(q: UpdateRequest, outcomes: Seq<Outcome>) -> ActionV {
    let (stage, m) = update_after(q, outcomes.drop_last());
    update_next(q, stage, m, outcomes.last()).2
}

/// Whether the outcome at `k` answered a check of access, and granted it.
pub open spec fn update_granted_at(q: UpdateRequest, outcomes: Seq<Outcome>, k: int) -> bool {
    &&& 0 < k < outcomes.len()
    &&& update_asks(q, outcomes.take(k)) is CheckAccess
    &&& failure_in(outcomes[k]) is None
}

/// The stages that come before access is granted.
pub open spec fn update_before_access(stage: UpdateStage) -> bool {
    stage == UpdateStage::Start || stage == UpdateStage::Token || stage == UpdateStage::Access
        || stage == UpdateStage::Ended
}

proof fn lemma_update_granted(q: UpdateRequest, outcomes: Seq<Outcome>)
    requires
        update_guarded(q),
    ensures
        !update_before_access(update_after(q, outcomes).0) ==> exists|k: int|
            update_granted_at(q, outcomes, k),
        update_after(q, outcomes).0 == UpdateStage::Access ==> outcomes.len() > 0 && update_asks(
            q,
            outcomes,
        ) is CheckAccess,
    decreases outcomes.len(),
{
    if outcomes.len() > 0 {
        let before = outcomes.drop_last();
        lemma_update_granted(q, before);
        let (stage, m) = update_after(q, before);
        if !update_before_access(update_after(q, outcomes).0) {
            if update_before_access(stage) {
                let k = outcomes.len() - 1;
                assert(outcomes.take(k) =~= before);
                assert(update_granted_at(q, outcomes, k));
            } else {
                let k = choose|k: int| update_granted_at(q, before, k);
                assert(before.take(k) =~= outcomes.take(k));
                assert(before[k] == outcomes[k]);
                assert(update_granted_at(q, outcomes, k));
            }
        }
    }
}

/// Where a request needs a token, no stored data and no queue is touched unless
/// access was checked and granted before.
pub proof fn law_update_is_guarded(q: UpdateRequest, outcomes: Seq<Outcome>)
    requires
        update_guarded(q),
        outcomes.len() > 0,
        touches_data(update_asks(q, outcomes)),
    ensures
        exists|k: int| update_granted_at(q, outcomes, k),
{
    let before = outcomes.drop_last();
    lemma_update_granted(q, before);
    let (stage, m) = update_after(q, before);
    assert(!update_before_access(stage));
    let k = choose|k: int| update_granted_at(q, before, k);
    assert(before.take(k) =~= outcomes.take(k));
    assert(before[k] == outcomes[k]);
    assert(update_granted_at(q, outcomes, k));
}

/// Whether a transaction is open in a stage.
pub open spec fn update_in_transaction(stage: UpdateStage) -> bool {
    stage == UpdateStage::CheckingKeys || stage == UpdateStage::Preloading || stage
        == UpdateStage::CheckingUnique || stage == UpdateStage::Validating || stage
        == UpdateStage::PreProcessing || stage == UpdateStage::UpdatingPassword || stage
        == UpdateStage::Running || stage == UpdateStage::PostProcessing || stage
        == UpdateStage::Following || stage == UpdateStage::Committing
}

/// What can follow inside a transaction before the row is written.
pub open spec fn is_checking_turn(t: UpdateTurn) -> bool {
    let (s, _, a) = t;
    ||| s == UpdateStage::Ended && a is Abort
    ||| update_in_transaction(s) && s != UpdateStage::Committing && s != UpdateStage::Following && (
    a is RunSql || a is CheckFormula || a is RunFormula || a is RunCompiled || a is UpdateRows)
}

proof fn lemma_writing_turns(q: UpdateRequest, m: UpdateMemoV)
    requires
        !q.mongodb,
    ensures
        is_checking_turn(write_update(q, m)),
        is_checking_turn(preprocess_update(q, m)),
        is_checking_turn(validate_update(q, m)),
{
}

proof fn lemma_checking_turns(q: UpdateRequest, m: UpdateMemoV)
    requires
        !q.mongodb,
    ensures
        forall|values: Fields| is_checking_turn(#[trigger] check_update_unique(q, m, values)),
        is_checking_turn(preload_update(q, m)),
        is_checking_turn(check_update_keys(q, m)),
{
    lemma_writing_turns(q, m);
    assert forall|values: Fields| is_checking_turn(#[trigger] check_update_unique(q, m, values)) by {
        assert(check_update_unique(q, m, values).2 is RunSql && check_update_unique(q, m, values).0
            == UpdateStage::CheckingUnique || check_update_unique(q, m, values)
            == validate_update(q, m));
    }
}

/// What a step may ask for, and lead to, with regard to the transaction: inside
/// one, a request is answered only by rolling back, by committing, or once the
/// commit was tried, and what runs in a transaction runs after one was begun.
pub open spec fn keeps_transactions_closed(
    stage: UpdateStage,
    outcome: Outcome,
    s: UpdateStage,
    a: ActionV,
) -> bool {
    &&& answers(a) ==> s == UpdateStage::Ended
    &&& answers(a) && update_in_transaction(stage) ==> a is Abort || a is CommitAndAnswer || stage
        == UpdateStage::Committing
    &&& (a is Abort || a is CommitAndAnswer || a is Commit) ==> update_in_transaction(stage)
        || stage == UpdateStage::Beginning && failure_in(outcome) is None
    &&& (a is RunCompiled || a is RunSql || a is RunFormula || a is CheckFormula || a is UpdateRows
        || a is FollowKeys || a is Commit) ==> update_in_transaction(s)
    &&& update_in_transaction(s) && !update_in_transaction(stage) ==> stage
        == UpdateStage::Beginning && failure_in(outcome) is None
}

#[verifier::spinoff_prover]
#[verifier::rlimit(60)]
proof fn lemma_closed_outside(
    q: UpdateRequest,
    stage: UpdateStage,
    m: UpdateMemoV,
    outcome: Outcome,
)
    requires
        !q.mongodb,
        !update_in_transaction(stage),
        stage != UpdateStage::Beginning,
    ensures
        keeps_transactions_closed(
            stage,
            outcome,
            update_next(q, stage, m, outcome).0,
            update_next(q, stage, m, outcome).2,
        ),
{
}

#[verifier::spinoff_prover]
#[verifier::rlimit(60)]
proof fn lemma_closed_inside(
    q: UpdateRequest,
    stage: UpdateStage,
    m: UpdateMemoV,
    outcome: Outcome,
)
    requires
        !q.mongodb,
        update_in_transaction(stage) || stage == UpdateStage::Beginning,
    ensures
        keeps_transactions_closed(
            stage,
            outcome,
            update_next(q, stage, m, outcome).0,
            update_next(q, stage, m, outcome).2,
        ),
{
    lemma_writing_turns(q, m);
    lemma_checking_turns(q, m);
}

/// None of the transactions of an update stays open.
pub proof fn law_update_closes_its_transaction(
    q: UpdateRequest,
    stage: UpdateStage,
    m: UpdateMemoV,
    outcome: Outcome,
)
    requires
        !q.mongodb,
    ensures
        keeps_transactions_closed(
            stage,
            outcome,
            update_next(q, stage, m, outcome).0,
            update_next(q, stage, m, outcome).2,
        ),
{
    if update_in_transaction(stage) || stage == UpdateStage::Beginning {
        lemma_closed_inside(q, stage, m, outcome);
    } else {
        lemma_closed_outside(q, stage, m, outcome);
    }
}

proof fn lemma_writing_is_no_success(q: UpdateRequest, m: UpdateMemoV)
    ensures
        !answers_success(validate_update(q, m).2),
        !answers_success(preprocess_update(q, m).2),
        !answers_success(write_update(q, m).2),
{
}

proof fn lemma_checking_is_no_success(q: UpdateRequest, m: UpdateMemoV)
    ensures
        forall|values: Fields| !answers_success((#[trigger] check_update_unique(q, m, values)).2),
        !answers_success(preload_update(q, m).2),
        !answers_success(check_update_keys(q, m).2),
        !answers_success(update_planned(q, m).2),
{
    lemma_writing_is_no_success(q, m);
    assert forall|values: Fields| !answers_success(
        (#[trigger] check_update_unique(q, m, values)).2,
    ) by {
        assert(check_update_unique(q, m, values).2 is RunSql || check_update_unique(q, m, values)
            == validate_update(q, m));
    }
}

/// A row is reported as updated only when the transaction was committed, the
/// store updated the document, or the write was queued.
#[verifier::spinoff_prover]
#[verifier::rlimit(50)]
pub proof fn law_update_success_is_real(
    q: UpdateRequest,
    stage: UpdateStage,
    m: UpdateMemoV,
    outcome: Outcome,
)
    requires
        answers_success(update_next(q, stage, m, outcome).2),
    ensures
        ({
            let a = update_next(q, stage, m, outcome).2;
            ||| a is EnqueueInBackground
            ||| a is CommitAndAnswer
            ||| failure_in(outcome) is None && (stage == UpdateStage::Queueing || stage
                == UpdateStage::Storing || stage == UpdateStage::Committing)
        }),
{
    lemma_writing_is_no_success(q, m);
    lemma_checking_is_no_success(q, m);
    match outcome {
        Outcome::Texts(stored) => {
            match update_plan(q, m.body, stored@, q.schema.put.columns@.len() as int) {
                Ok(p) => {
                    lemma_checking_is_no_success(
                        q,
                        UpdateMemoV { plan: with_updated(q, p, m.actor), ..m },
                    );
                },
                Err(_) => {},
            }
        },
        _ => {},
    }
}

/// A row keeps every unique index: when a check finds another row with the same
/// values, the update is rolled back and refused.
pub proof fn law_duplicates_are_refused(q: UpdateRequest, m: UpdateMemoV, outcome: Outcome)
    requires
        any_duplicate(rows_in(outcome), Reading::OnlyTrue),
        failure_in(outcome) is None,
    ensures
        update_next(q, UpdateStage::CheckingUnique, m, outcome) == update_aborts(
            m,
            400,
            "Unique constraint violation"@,
        ),
{
}

proof fn lemma_index_values(names: Seq<Seq<char>>, columns: Seq<Column>, values: Fields)
    requires
        forall|j: int| 0 <= j < names.len() ==> lookup(values, #[trigger] names[j]) is Some,
    ensures
        index_values(names, columns, values) is Some,
        ({
            let found = index_values(names, columns, values)->0;
            found.0 =~= Seq::new(names.len(), |j: int| names[j] + " = ?"@)
        }),
    decreases names.len(),
{
    if names.len() > 0 {
        let before = names.drop_last();
        assert forall|j: int| 0 <= j < before.len() implies lookup(
            values,
            #[trigger] before[j],
        ) is Some by {
            assert(before[j] == names[j]);
        }
        lemma_index_values(before, columns, values);
        assert(lookup(values, names[names.len() - 1]) is Some);
    }
}

/// Every unique index that an update touches is checked, once the values of all
/// its columns are known; the row itself is left out of the check.
pub proof fn law_touched_indexes_are_checked(
    indexes: Seq<Index>,
    columns: Seq<Column>,
    values: Fields,
    table: Seq<char>,
    pk: Seq<char>,
    pk_value: Scalar,
    i: int,
)
    requires
        0 <= i < indexes.len(),
        is_affected(indexes[i], values),
        forall|j: int|
            0 <= j < indexes[i].columns.deep_view().len() ==> lookup(
                values,
                #[trigger] indexes[i].columns.deep_view()[j],
            ) is Some,
    ensures
        other_row_checks(indexes, columns, values, table, pk, pk_value).0.contains(
            other_row_query(
                indexes[i].name@,
                table,
                Seq::new(
                    indexes[i].columns.deep_view().len(),
                    |j: int| indexes[i].columns.deep_view()[j] + " = ?"@,
                ),
                pk,
            ),
        ),
    decreases indexes.len(),
{
    let before = other_row_checks(indexes.drop_last(), columns, values, table, pk, pk_value).0;
    let all = other_row_checks(indexes, columns, values, table, pk, pk_value).0;
    let names = indexes[i].columns.deep_view();
    let query = other_row_query(
        indexes[i].name@,
        table,
        Seq::new(names.len(), |j: int| names[j] + " = ?"@),
        pk,
    );
    if i < indexes.len() - 1 {
        law_touched_indexes_are_checked(
            indexes.drop_last(),
            columns,
            values,
            table,
            pk,
            pk_value,
            i,
        );
        let k = choose|k: int| 0 <= k < before.len() && before[k] == query;
        assert(all[k] == query);
    } else {
        lemma_index_values(names, columns, values);
        assert(all[all.len() - 1] == query);
    }
}

/// Every value that an update sets and that refers to another table is checked.
pub proof fn law_updated_keys_are_checked(
    q: UpdateRequest,
    body: JsonV,
    stored: Seq<String>,
    n: int,
    k: int,
    i: int,
)
    requires
        0 <= k < n <= q.schema.put.columns@.len(),
        0 <= i < q.schema.foreign_keys@.len(),
        update_plan(q, body, stored, n) is Ok,
        q.schema.foreign_keys@[i].column@ == q.schema.put.columns@[k]@,
        plain_or_empty(field(body, q.schema.put.columns@[k]@)).len() > 0,
    ensures
        ({
            let column = q.schema.put.columns@[k]@;
            &&& column_named(q.schema.columns@, column) is Some
            &&& update_plan(q, body, stored, n)->Ok_0.checks.contains(
                check_of(
                    q.schema.foreign_keys@[i],
                    column,
                    plain_or_empty(field(body, column)),
                    column_named(q.schema.columns@, column)->0.type_data@,
                ),
            )
        }),
    decreases n,
{
    let column = q.schema.put.columns@[k]@;
    let raw = plain_or_empty(field(body, column));
    let before = update_plan(q, body, stored, n - 1)->Ok_0.checks;
    let all = update_plan(q, body, stored, n)->Ok_0.checks;
    assert(update_plan(q, body, stored, n - 1) is Ok);
    if k < n - 1 {
        law_updated_keys_are_checked(q, body, stored, n - 1, k, i);
        let t = column_named(q.schema.columns@, column)->0.type_data@;
        let check = check_of(q.schema.foreign_keys@[i], column, raw, t);
        let j = choose|j: int| 0 <= j < before.len() && before[j] == check;
        assert(all[j] == check);
    } else {
        let t = column_named(q.schema.columns@, column)->0.type_data@;
        let check = check_of(q.schema.foreign_keys@[i], column, raw, t);
        law_given_keys_are_checked(q.schema.foreign_keys@, column, raw, t, i);
        let own = key_checks(q.schema.foreign_keys@, column, raw, t);
        let j = choose|j: int| 0 <= j < own.len() && own[j] == check;
        assert(all[before.len() + j] == check);
    }
}


/// Whether values are written by a primary key: to the rows of a table whose key
/// has these values, and to no others.
pub open spec fn writes_to_key(
    a: ActionV,
    table: Seq<char>,
    key: Seq<Seq<char>>,
    values: Seq<Seq<char>>,
    row: RowV,
    by: Collation,
) -> bool {
    let picked = key.len() == values.len() && forall|i: int|
        0 <= i < key.len() ==> row(#[trigger] key[i]) == Scalar::Str(values[i]);
    match a {
        ActionV::CompileUpdate(t, f, _) => t == table && (satisfies(row, f, by) <==> picked),
        ActionV::StoreUpdate(t, f, _) => t == table && (satisfies(row, f, by) <==> picked),
        ActionV::UpdateRows(t, f, _) => t == table && (satisfies(row, f, by) <==> picked),
        ActionV::CompileDelete(_, _) => false,
        ActionV::StoreDelete(_, _) => false,
        ActionV::StoreInsert(_, _) => false,
        ActionV::CompileInsert(_, _, _) => false,
        ActionV::CompileBulk(_, _, _) => false,
        _ => true,
    }
}

proof fn lemma_update_writes_to_key(q: UpdateRequest, m: UpdateMemoV, row: RowV, by: Collation)
    ensures
        writes_to_key(
            write_update(q, m).2,
            if is_password_only(q, m) {
                "flx_users"@
            } else {
                q.schema.table@
            },
            q.schema.primary_key.deep_view(),
            split(q.id_raw@, '~'),
            row,
            by,
        ),
        writes_to_key(
            update_planned(q, m).2,
            if is_password_only(q, m) && q.mongodb {
                "flx_users"@
            } else {
                q.schema.table@
            },
            q.schema.primary_key.deep_view(),
            split(q.id_raw@, '~'),
            row,
            by,
        ),
        is_password_only(q, m) ==> q.route@ == "flx_users"@,
{
    law_keys_pick_their_row(
        q.schema.primary_key.deep_view(),
        split(q.id_raw@, '~'),
        row,
        by,
    );
}

proof fn lemma_checks_write_nothing(q: UpdateRequest, m: UpdateMemoV)
    ensures
        check_update_keys(q, m).2 is RunSql || check_update_keys(q, m) == preload_update(q, m),
        preload_update(q, m).2 is RunSql || preload_update(q, m) == validate_update(q, m),
        forall|values: Fields|
            (#[trigger] check_update_unique(q, m, values)).2 is RunSql || check_update_unique(
                q,
                m,
                values,
            ) == validate_update(q, m),
        validate_update(q, m).2 is CheckFormula || validate_update(q, m) == preprocess_update(q, m),
        preprocess_update(q, m).2 is RunFormula || preprocess_update(q, m) == write_update(q, m),
{
}

/// An update writes to the row of the path and to no other: whatever an update
/// writes, at whatever step, a row is written to exactly if the columns of its
/// primary key have the values in the path. The table is that of the entity, or,
/// where it is the users' route, that of the users.
#[verifier::spinoff_prover]
#[verifier::rlimit(60)]
pub proof fn law_update_writes_to_its_row(
    q: UpdateRequest,
    stage: UpdateStage,
    m: UpdateMemoV,
    outcome: Outcome,
    row: RowV,
    by: Collation,
)
    ensures
        exists|table: Seq<char>|
            (table == q.schema.table@ || table == "flx_users"@ && q.route@ == "flx_users"@)
                && #[trigger] writes_to_key(
                update_next(q, stage, m, outcome).2,
                table,
                q.schema.primary_key.deep_view(),
                split(q.id_raw@, '~'),
                row,
                by,
            ),
{
    let key = q.schema.primary_key.deep_view();
    let values = split(q.id_raw@, '~');
    let a = update_next(q, stage, m, outcome).2;
    lemma_checks_write_nothing(q, m);
    lemma_update_writes_to_key(q, m, row, by);
    if let UpdateStage::Encrypting = stage {
        if let Outcome::Texts(stored) = outcome {
            if let Ok(p) = update_plan(q, m.body, stored@, q.schema.put.columns@.len() as int) {
                lemma_update_writes_to_key(
                    q,
                    UpdateMemoV { plan: with_updated(q, p, m.actor), ..m },
                    row,
                    by,
                );
            }
        }
    }
    if !writes_to_key(a, q.schema.table@, key, values, row, by) {
        assert(writes_to_key(a, "flx_users"@, key, values, row, by));
    }
}

/// Whether a type of a column is one of numbers, for an update.
pub open spec fn takes_numbers(t: Seq<char>) -> bool {
    contains(t, "int"@) || contains(t, "float"@) || contains(t, "double"@) || contains(
        t,
        "decimal"@,
    ) || contains(t, "money"@)
}

/// Whether a field of this name, with this text, is among some fields.
pub open spec fn sets(
    fields: Seq<(Seq<char>, InsertValueV)>,
    name: Seq<char>,
    text: Seq<char>,
    numeric: bool,
) -> bool {
    exists|j: int|
        0 <= j < fields.len() && (#[trigger] fields[j]).0 == name && binds(
            fields[j].1,
            text,
            numeric,
        )
}

proof fn lemma_update_sets(q: UpdateRequest, body: JsonV, stored: Seq<String>, k: int, n: int)
    requires
        0 <= k < n <= q.schema.put.columns@.len(),
        update_plan(q, body, stored, n) is Ok,
        field(body, q.schema.put.columns@[k]@) is Some,
        gives(field(body, q.schema.put.columns@[k]@)->0) is Some,
        column_named(q.schema.columns@, q.schema.put.columns@[k]@) is Some,
        ({
            let c = column_named(q.schema.columns@, q.schema.put.columns@[k]@)->0;
            c.encrypt ==> k < stored.len() && forall|j: int|
                0 <= j < q.schema.put.columns@.len() && j != k ==> (
                #[trigger] q.schema.put.columns@[j])@ != q.schema.put.columns@[k]@
        }),
    ensures
        ({
            let name = q.schema.put.columns@[k]@;
            let c = column_named(q.schema.columns@, name)->0;
            let text = if c.encrypt {
                stored[k]@
            } else {
                gives(field(body, name)->0)->0
            };
            let p = update_plan(q, body, stored, n)->Ok_0;
            &&& sets(p.fields, name, text, takes_numbers(c.type_data@))
            &&& lookup(p.patch, name) is Some
            &&& shows(lookup(p.patch, name)->0, text, takes_numbers(c.type_data@))
            &&& !c.encrypt && n == 1 ==> p.password is None
        }),
    decreases n,
{
    let name = q.schema.put.columns@[k]@;
    let c = column_named(q.schema.columns@, name)->0;
    let v = field(body, name)->0;
    let text = if c.encrypt {
        stored[k]@
    } else {
        gives(v)->0
    };
    let numeric = takes_numbers(c.type_data@);
    law_values_are_read_as_given(v);
    let before = update_plan(q, body, stored, n - 1)->Ok_0;
    let all = update_plan(q, body, stored, n)->Ok_0;
    let last = q.schema.put.columns@[n - 1]@;
    if k < n - 1 {
        lemma_update_sets(q, body, stored, k, n - 1);
        let j = choose|j: int|
            0 <= j < before.fields.len() && (#[trigger] before.fields[j]).0 == name && binds(
                before.fields[j].1,
                text,
                numeric,
            );
        assert(all.fields[j] == before.fields[j]);
        if last != name {
            if all != before {
                law_set_then_get(before.patch, last, lookup(all.patch, last)->0, name);
                let w = field(body, last)->0;
                let d = column_named(q.schema.columns@, last)->0;
                let value = if d.encrypt {
                    stored_update(stored, n - 1)
                } else {
                    plain_text(w)
                };
                law_set_then_get(
                    before.patch,
                    last,
                    as_json(bound_update(value, d.type_data@)),
                    name,
                );
            }
        } else {
            law_set_then_get(
                before.patch,
                name,
                as_json(bound_update(text, c.type_data@)),
                name,
            );
        }
    } else {
        assert(all.fields[all.fields.len() - 1].0 == name);
        assert(binds(all.fields[all.fields.len() - 1].1, text, numeric));
        law_set_then_get(before.patch, name, as_json(bound_update(text, c.type_data@)), name);
    }
}

/// An update writes what the request gives. Where a configured column of the table
/// is given a value, the statement that is compiled, or the document that is
/// stored, sets the column to it: to the integer or the float of a numeral in a
/// column of numbers, and to the text itself in any other; or to what the value
/// was encrypted to, where the column asks for that. The statement is compiled, or
/// the document stored, where the table has every configured column and the path
/// has a value for each column of the key.
pub proof fn law_update_writes_what_is_given(
    q: UpdateRequest,
    m: UpdateMemoV,
    outcome: Outcome,
    k: int,
)
    requires
        0 <= k < q.schema.put.columns@.len(),
        outcome is Texts,
        field(m.body, q.schema.put.columns@[k]@) is Some,
        gives(field(m.body, q.schema.put.columns@[k]@)->0) is Some,
        !is_audit_column(q.schema.put.columns@[k]@),
        forall|j: int|
            0 <= j < q.schema.put.columns@.len() ==> column_named(
                q.schema.columns@,
                (#[trigger] q.schema.put.columns@[j])@,
            ) is Some,
        q.schema.primary_key@.len() > 0,
        q.schema.primary_key@.len() == split(q.id_raw@, '~').len(),
        ({
            let c = column_named(q.schema.columns@, q.schema.put.columns@[k]@)->0;
            c.encrypt ==> k < outcome->Texts_0@.len() && q.route@ != "flx_users"@ && forall|j: int|
                0 <= j < q.schema.put.columns@.len() && j != k ==> (
                #[trigger] q.schema.put.columns@[j])@ != q.schema.put.columns@[k]@
        }),
    ensures
        ({
            let name = q.schema.put.columns@[k]@;
            let c = column_named(q.schema.columns@, name)->0;
            let text = if c.encrypt {
                outcome->Texts_0@[k]@
            } else {
                gives(field(m.body, name)->0)->0
            };
            let numeric = takes_numbers(c.type_data@);
            match update_next(q, UpdateStage::Encrypting, m, outcome).2 {
                ActionV::CompileUpdate(_, _, fields) => !q.mongodb && sets(
                    fields,
                    name,
                    text,
                    numeric,
                ),
                ActionV::StoreUpdate(_, _, doc) => {
                    &&& q.mongodb
                    &&& field(doc, name) is Some
                    &&& shows(field(doc, name)->0, text, numeric)
                },
                _ => false,
            }
        }),
{
    let stored = outcome->Texts_0@;
    let n = q.schema.put.columns@.len() as int;
    let name = q.schema.put.columns@[k]@;
    let c = column_named(q.schema.columns@, name)->0;
    let text = if c.encrypt {
        stored[k]@
    } else {
        gives(field(m.body, name)->0)->0
    };
    let numeric = takes_numbers(c.type_data@);
    lemma_update_plan_ok(q, m.body, stored, n);
    lemma_update_sets(q, m.body, stored, k, n);
    let p = update_plan(q, m.body, stored, n)->Ok_0;
    let plan = with_updated(q, p, m.actor);
    let j = choose|j: int|
        0 <= j < p.fields.len() && (#[trigger] p.fields[j]).0 == name && binds(
            p.fields[j].1,
            text,
            numeric,
        );
    assert(plan.fields[j] == p.fields[j]);
    law_set_then_get(p.patch, "updated_by_id"@, as_json(updater(q, m.actor)), name);
    law_set_then_get(plan.patch, "updated_at"@, JsonV::Str(q.now@), name);
    assert(q.schema.primary_key.deep_view().len() == q.schema.primary_key@.len());
}

proof fn lemma_update_plan_ok(q: UpdateRequest, body: JsonV, stored: Seq<String>, n: int)
    requires
        n <= q.schema.put.columns@.len(),
        forall|j: int|
            0 <= j < q.schema.put.columns@.len() ==> column_named(
                q.schema.columns@,
                (#[trigger] q.schema.put.columns@[j])@,
            ) is Some,
    ensures
        update_plan(q, body, stored, n) is Ok,
        q.route@ != "flx_users"@ ==> update_plan(q, body, stored, n)->Ok_0.password is None,
    decreases n,
{
    if n > 0 {
        lemma_update_plan_ok(q, body, stored, n - 1);
        assert(column_named(q.schema.columns@, q.schema.put.columns@[n - 1]@) is Some);
    }
}

proof fn lemma_update_fields(q: UpdateRequest, body: JsonV, stored: Seq<String>, n: int, i: int)
    requires
        n <= q.schema.put.columns@.len(),
        update_plan(q, body, stored, n) is Ok,
        0 <= i < update_plan(q, body, stored, n)->Ok_0.fields.len(),
    ensures
        ({
            let name = update_plan(q, body, stored, n)->Ok_0.fields[i].0;
            &&& field(body, name) is Some
            &&& exists|k: int|
                0 <= k < q.schema.put.columns@.len() && (#[trigger] q.schema.put.columns@[k])@
                    == name
        }),
    decreases n,
{
    let before = update_plan(q, body, stored, n - 1)->Ok_0;
    let all = update_plan(q, body, stored, n)->Ok_0;
    if n > 0 {
        if i < before.fields.len() {
            lemma_update_fields(q, body, stored, n - 1, i);
            assert(all.fields[i] == before.fields[i]);
        } else {
            assert(all.fields[i].0 == q.schema.put.columns@[n - 1]@);
        }
    }
}

/// An update writes nothing that the request does not give: each column that the
/// compiled statement sets is configured and given, or tells who updated the row,
/// and when.
pub proof fn law_update_writes_nothing_else(
    q: UpdateRequest,
    m: UpdateMemoV,
    outcome: Outcome,
    i: int,
)
    requires
        outcome is Texts,
        update_next(q, UpdateStage::Encrypting, m, outcome).2 is CompileUpdate,
        0 <= i < update_next(q, UpdateStage::Encrypting, m, outcome).2->CompileUpdate_2.len(),
    ensures
        ({
            let (name, value) = update_next(
                q,
                UpdateStage::Encrypting,
                m,
                outcome,
            ).2->CompileUpdate_2[i];
            ||| name == "updated_at"@ && value == InsertValueV::Raw(q.now_expr@)
            ||| name == "updated_by_id"@ && value is Param && tells(value->Param_0, m.actor)
            ||| field(m.body, name) is Some && exists|k: int|
                0 <= k < q.schema.put.columns@.len() && (#[trigger] q.schema.put.columns@[k])@
                    == name
        }),
{
    let stored = outcome->Texts_0@;
    let n = q.schema.put.columns@.len() as int;
    let p = update_plan(q, m.body, stored, n)->Ok_0;
    let fields = update_next(q, UpdateStage::Encrypting, m, outcome).2->CompileUpdate_2;
    assert(fields == with_updated(q, p, m.actor).fields);
    if i < p.fields.len() {
        lemma_update_fields(q, m.body, stored, n, i);
        assert(fields[i] == p.fields[i]);
    }
}

/// What is asked to be encrypted is what the request gives, exactly where the column
/// asks for it.
pub proof fn law_update_encrypts_what_is_given(schema: TableSchema, body: JsonV, k: int)
    requires
        0 <= k < schema.put.columns@.len(),
        field(body, schema.put.columns@[k]@) is Some,
        gives(field(body, schema.put.columns@[k]@)->0) is Some,
        column_named(schema.columns@, schema.put.columns@[k]@) is Some,
    ensures
        asked_values(schema, body).len() == schema.put.columns@.len(),
        asked_values(schema, body)[k] == (
            gives(field(body, schema.put.columns@[k]@)->0)->0,
            column_named(schema.columns@, schema.put.columns@[k]@)->0.encrypt,
        ),
{
    law_values_are_read_as_given(field(body, schema.put.columns@[k]@)->0);
}

/// A queued update is that of the request: on its route, for its row, and with its body,
/// but that its actor is put in.
pub proof fn law_queued_updates_carry_the_body(
    q: UpdateRequest,
    m: UpdateMemoV,
    checked: Option<Seq<char>>,
    name: Seq<char>,
)
    requires
        name != "__actor_id__"@,
    ensures
        ({
            let job = match queue_update(q, m, checked).2 {
                ActionV::Enqueue(job) => Some(job),
                ActionV::EnqueueInBackground(job, _) => Some(job),
                _ => None,
            };
            &&& job is Some
            &&& job->0.route == q.route@
            &&& job->0.op == (WriteOpKindV::Put { id: q.id_raw@ })
            &&& field(job->0.body, name) == field(m.body, name)
        }),
{
    if let Some(id) = checked {
        if let JsonV::Object(fields) = m.body {
            law_set_then_get(fields, "__actor_id__"@, JsonV::Str(id), name);
        }
    }
}

/// An update goes through all of its steps: it is committed only once its statement has
/// run, and, where the key changes, once the keys that refer to it were followed.
pub proof fn law_update_runs_before_it_is_committed(
    q: UpdateRequest,
    m: UpdateMemoV,
    outcome: Outcome,
)
    requires
        !q.mongodb,
        failure_in(outcome) is None,
    ensures
        ({
            let (s, _, a) = update_next(q, UpdateStage::Running, m, outcome);
            has_statement(q.schema.put.post_process@) || (m.plan.id_new.len() > 0 ==> s
                == UpdateStage::Following && a is FollowKeys && a->FollowKeys_0.id == q.id_raw@
                && a->FollowKeys_0.id_new == m.plan.id_new && a->FollowKeys_0.process == "UPDATE"@
                && a->FollowKeys_0.route == q.route@) && (m.plan.id_new.len() == 0 ==> s
                == UpdateStage::Committing && a is Commit)
        }),
        update_next(q, UpdateStage::Compiling, m, outcome).2 is Begin,
        !is_password_only(q, m) ==> write_update(q, m) == (
            UpdateStage::Running,
            m,
            ActionV::RunCompiled,
        ),
        update_next(q, UpdateStage::Following, m, outcome).2 is Commit,
{
}

/// A check of a unique index looks in the table for another row with the same values: all
/// conditions of the index are asked for, and, last of all, that the key is not that of
/// the row itself.
pub proof fn law_other_rows_are_looked_for(
    name: Seq<char>,
    table: Seq<char>,
    conds: Seq<Seq<char>>,
    pk: Seq<char>,
)
    ensures
        contains(
            other_row_query(name, table, conds, pk),
            " FROM "@ + table + " WHERE "@ + join(conds.push(pk + " <> ?"@), " AND "@),
        ),
        ends_with(other_row_query(name, table, conds, pk), pk + " <> ?"@ + ") as _dup"@),
{
    let all = conds.push(pk + " <> ?"@);
    let sql = other_row_query(name, table, conds, pk);
    let head = "SELECT '"@ + name + "' as _idx, EXISTS(SELECT 1"@;
    let joined_conds = join(all, " AND "@);
    let needle = " FROM "@ + table + " WHERE "@ + joined_conds;
    let tail = ") as _dup"@;
    reveal_strlit("' as _idx, EXISTS(SELECT 1 FROM ");
    reveal_strlit("' as _idx, EXISTS(SELECT 1");
    reveal_strlit(" FROM ");
    assert("' as _idx, EXISTS(SELECT 1 FROM "@ =~= "' as _idx, EXISTS(SELECT 1"@ + " FROM "@);
    assert(sql =~= head + needle + tail);
    assert(sql.subrange(head.len() as int, (head.len() + needle.len()) as int) =~= needle);
    assert(occurs_at(sql, needle, head.len() as int));
    let last = pk + " <> ?"@;
    let before = joined_conds.take(joined_conds.len() - last.len());
    assert(joined_conds =~= before + last) by {
        if conds.len() == 0 {
            assert(all[0] == last);
        } else {
            assert(all.drop_last() =~= conds);
        }
    }
    let end = last + tail;
    assert(sql.subrange(sql.len() - end.len(), sql.len() as int) =~= end);
}

/// The values that the checks of unique indexes bind end with the key of the row, behind
/// those of the index that is checked last.
pub proof fn law_other_rows_leave_out_the_row(
    indexes: Seq<Index>,
    columns: Seq<Column>,
    values: Fields,
    table: Seq<char>,
    pk: Seq<char>,
    pk_value: Scalar,
)
    requires
        indexes.len() > 0,
        is_affected(indexes.last(), values),
        index_values(indexes.last().columns.deep_view(), columns, values) is Some,
    ensures
        ({
            let (queries, params) = other_row_checks(
                indexes,
                columns,
                values,
                table,
                pk,
                pk_value,
            );
            let (before, earlier) = other_row_checks(
                indexes.drop_last(),
                columns,
                values,
                table,
                pk,
                pk_value,
            );
            &&& params.last() == pk_value
            &&& params.len() == earlier.len() + indexes.last().columns@.len() + 1
            &&& queries.len() == before.len() + 1
        }),
{
    lemma_index_values_len(indexes.last().columns.deep_view(), columns, values);
    assert(indexes.last().columns.deep_view().len() == indexes.last().columns@.len());
}

proof fn lemma_index_values_len(names: Seq<Seq<char>>, columns: Seq<Column>, values: Fields)
    requires
        index_values(names, columns, values) is Some,
    ensures
        ({
            let (conds, params) = index_values(names, columns, values)->0;
            conds.len() == names.len() && params.len() == names.len()
        }),
    decreases names.len(),
{
    if names.len() > 0 {
        lemma_index_values_len(names.drop_last(), columns, values);
    }
}

/// Nothing is updated unchecked: a row whose new values refer to other tables is checked
/// against them as soon as the transaction is begun, and one whose values touch unique
/// indexes, against the other rows; and it is validated where that is configured.
pub proof fn law_updates_are_checked_first(q: UpdateRequest, m: UpdateMemoV, outcome: Outcome)
    requires
        !q.mongodb,
    ensures
        failure_in(outcome) is None && m.plan.checks.len() > 0 ==> update_next(
            q,
            UpdateStage::Beginning,
            m,
            outcome,
        ).2 == ActionV::RunSql(fk_batch_sql(m.plan.checks), fk_batch_params(m.plan.checks)),
        failure_in(outcome) is None && fk_verdict(rows_in(outcome), Reading::OnlyTrue) is Some
            ==> update_next(q, UpdateStage::CheckingKeys, m, outcome).2 is Abort,
        failure_in(outcome) is Some ==> {
            &&& update_next(q, UpdateStage::CheckingKeys, m, outcome).2 is Abort
            &&& update_next(q, UpdateStage::CheckingUnique, m, outcome).2 is Abort
            &&& update_next(q, UpdateStage::Preloading, m, outcome).2 is Abort
        },
        any_affected(q.schema.indexes@, m.plan.patch) && (m.plan.checks.len() == 0 && failure_in(
            outcome,
        ) is None) && needed_columns(q.schema.indexes@, m.plan.patch).len() > 0 ==> update_next(
            q,
            UpdateStage::Beginning,
            m,
            outcome,
        ).0 == UpdateStage::Preloading,
        has_statement(q.schema.put.validate_data@) ==> validate_update(q, m).2
            == ActionV::CheckFormula(q.schema.put.validate_data@, m.body),
{
}

} // verus!
