//! Checks of foreign keys and of unique indexes, many in one query.
use crate::ast::{DbParam, Scalar};
use crate::filters::{infer_param, number_or_text};
use crate::giving::{is_plain, lemma_unquoted};
use crate::json::{field, json_text, Json, JsonV};
use crate::model::{column_named, find_column, Column, Index};
use crate::number::{i64_text, i64_value, int_text, is_float, float_numeral, u64_text};
use crate::pk_utils::{float_type, int_type, is_float_type, is_int_type};
use crate::text::{
    blank, contains, join, joined, lowercase, occurs_at, push_item, same, starts_with, strip_both,
    stripped, to_lowercase, trim,
};
use vstd::prelude::*;
use vstd::string::*;

verus! {

// ---------------------------------------------------------------------------
// Values typed by their column
// ---------------------------------------------------------------------------

/// A JSON value as a bound value of a column of the type `t`.
pub open spec fn value_for_type(v: JsonV, t: Seq<char>) -> Scalar {
    match v {
        JsonV::Int(n) => if is_float_type(t) {
            Scalar::F64(int_text(n as int))
        } else if is_int_type(t) {
            Scalar::I64(n)
        } else {
            Scalar::Str(int_text(n as int))
        },
        JsonV::UInt(n) => if is_float_type(t) {
            Scalar::F64(int_text(n as int))
        } else if is_int_type(t) {
            Scalar::I64(0)
        } else {
            Scalar::Str(int_text(n as int))
        },
        JsonV::Float(x) => if is_float_type(t) {
            Scalar::F64(x)
        } else if is_int_type(t) {
            Scalar::I64(0)
        } else {
            Scalar::Str(strip_both(x, '"'))
        },
        JsonV::Str(s) => if is_int_type(t) {
            number_or_text(s)
        } else if is_float_type(t) {
            if is_float(s) {
                Scalar::F64(s)
            } else {
                number_or_text(s)
            }
        } else {
            Scalar::Str(strip_both(json_text(v), '"'))
        },
        JsonV::Bool(b) => Scalar::Bool(b),
        JsonV::Null => Scalar::Null,
        _ => Scalar::Str(strip_both(json_text(v), '"')),
    }
}

/// A JSON value as a bound value where the column is not known.
pub open spec fn value_untyped(v: JsonV) -> Scalar {
    match v {
        JsonV::Int(n) => Scalar::Str(int_text(n as int)),
        JsonV::UInt(n) => Scalar::Str(int_text(n as int)),
        JsonV::Float(t) => Scalar::Str(t),
        JsonV::Str(s) => Scalar::Str(s),
        JsonV::Bool(b) => Scalar::Bool(b),
        _ => Scalar::Null,
    }
}

/// A JSON value as a bound value of a column.
pub open spec fn value_for(v: JsonV, meta: Option<Column>) -> Scalar {
    match meta {
        Some(c) => value_for_type(v, lowercase(c.type_data@)),
        None => value_untyped(v),
    }
}

/// A JSON value as a bound value of a column of the type `t`.
pub fn param_for_type(v: &Json, t: &str) -> (r: DbParam)
    ensures
        r.deep_view() == value_for_type(v.deep_view(), t@),
{
    match v {
        Json::Int(n) => if float_type(t) {
            DbParam::F64(i64_text(*n))
        } else if int_type(t) {
            DbParam::I64(*n)
        } else {
            DbParam::Str(i64_text(*n))
        },
        Json::UInt(n) => if float_type(t) {
            DbParam::F64(u64_text(*n))
        } else if int_type(t) {
            DbParam::I64(0)
        } else {
            DbParam::Str(u64_text(*n))
        },
        Json::Float(x) => if float_type(t) {
            DbParam::F64(x.clone())
        } else if int_type(t) {
            DbParam::I64(0)
        } else {
            DbParam::Str(stripped(x.as_str(), '"'))
        },
        Json::Str(s) => if int_type(t) {
            infer_param(s.as_str())
        } else if float_type(t) {
            if float_numeral(s.as_str()) {
                DbParam::F64(s.clone())
            } else {
                infer_param(s.as_str())
            }
        } else {
            let text = v.text();
            DbParam::Str(stripped(text.as_str(), '"'))
        },
        Json::Bool(b) => DbParam::Bool(*b),
        Json::Null => DbParam::Null,
        _ => {
            let text = v.text();
            DbParam::Str(stripped(text.as_str(), '"'))
        },
    }
}

/// A JSON value as a bound value where the column is not known.
pub fn param_untyped(v: &Json) -> (r: DbParam)
    ensures
        r.deep_view() == value_untyped(v.deep_view()),
{
    match v {
        Json::Int(n) => DbParam::Str(i64_text(*n)),
        Json::UInt(n) => DbParam::Str(u64_text(*n)),
        Json::Float(t) => DbParam::Str(t.clone()),
        Json::Str(s) => DbParam::Str(s.clone()),
        Json::Bool(b) => DbParam::Bool(*b),
        _ => DbParam::Null,
    }
}

/// A JSON value as a bound value of a column.
pub fn dbparam_from_value_and_type(val: &Json, meta: Option<&Column>) -> (r: DbParam)
    ensures
        match meta {
            Some(c) => r.deep_view() == value_for(val.deep_view(), Some(*c)),
            None => r.deep_view() == value_for(val.deep_view(), None),
        },
{
    match meta {
        Some(c) => {
            let td = to_lowercase(c.type_data.as_str());
            param_for_type(val, td.as_str())
        },
        None => param_untyped(val),
    }
}

// ---------------------------------------------------------------------------
// Foreign keys
// ---------------------------------------------------------------------------

/// A value that has to be there in a column of another table.
#[derive(Debug)]
pub struct FkCheck {
    pub column: String,
    pub table: String,
    pub ref_column: String,
    pub value: String,
    /// The type of the column that holds the value.
    pub type_data: String,
}

/// What such a check is.
pub struct FkCheckV {
    pub column: Seq<char>,
    pub table: Seq<char>,
    pub ref_column: Seq<char>,
    pub value: Seq<char>,
    pub type_data: Seq<char>,
}

impl DeepView for FkCheck {
    type V = FkCheckV;

    open spec fn deep_view(&self) -> FkCheckV {
        FkCheckV {
            column: self.column@,
            table: self.table@,
            ref_column: self.ref_column@,
            value: self.value@,
            type_data: self.type_data@,
        }
    }
}

/// The query of one check.
pub open spec fn fk_query(c: FkCheckV) -> Seq<char> {
    "SELECT '"@ + c.column + "' as _col, '"@ + c.table + "' as _table, EXISTS(SELECT 1 FROM "@
        + c.table + " WHERE "@ + c.ref_column + " = ?) as _valid"@
}

/// The queries of some checks.
pub open spec fn fk_queries(checks: Seq<FkCheckV>) -> Seq<Seq<char>> {
    Seq::new(checks.len(), |i: int| fk_query(checks[i]))
}

/// One query for all checks.
pub open spec fn fk_batch_sql(checks: Seq<FkCheckV>) -> Seq<char> {
    join(fk_queries(checks), " UNION ALL "@)
}

/// The values of the checks, which the query binds in order.
pub open spec fn fk_batch_params(checks: Seq<FkCheckV>) -> Seq<Scalar> {
    Seq::new(checks.len(), |i: int| Scalar::Str(checks[i].value))
}

fn write_fk_query(c: &FkCheck) -> (r: String)
    ensures
        r@ == fk_query(c.deep_view()),
{
    let mut q = "SELECT '".to_owned();
    q.append(c.column.as_str());
    q.append("' as _col, '");
    q.append(c.table.as_str());
    q.append("' as _table, EXISTS(SELECT 1 FROM ");
    q.append(c.table.as_str());
    q.append(" WHERE ");
    q.append(c.ref_column.as_str());
    q.append(" = ?) as _valid");
    q
}

/// One query for all checks, with the values that it binds.
pub fn build_fk_batch(checks: &Vec<FkCheck>) -> (r: (String, Vec<DbParam>))
    ensures
        r.0@ == fk_batch_sql(checks.deep_view()),
        r.1.deep_view() == fk_batch_params(checks.deep_view()),
{
    let ghost cs = checks.deep_view();
    let mut queries: Vec<String> = Vec::new();
    let mut params: Vec<DbParam> = Vec::new();
    let mut i: usize = 0;
    while i < checks.len()
        invariant
            i <= checks@.len(),
            cs == checks.deep_view(),
            queries.deep_view() == fk_queries(cs).take(i as int),
            params.deep_view() == fk_batch_params(cs).take(i as int),
        decreases checks.len() - i,
    {
        push_item(&mut queries, write_fk_query(&checks[i]));
        push_item(&mut params, DbParam::Str(checks[i].value.clone()));
        i += 1;
        assert(fk_queries(cs).take(i as int) =~= fk_queries(cs).take(i - 1).push(
            fk_queries(cs)[i - 1],
        ));
        assert(fk_batch_params(cs).take(i as int) =~= fk_batch_params(cs).take(i - 1).push(
            fk_batch_params(cs)[i - 1],
        ));
    }
    assert(fk_queries(cs).take(cs.len() as int) =~= fk_queries(cs));
    assert(fk_batch_params(cs).take(cs.len() as int) =~= fk_batch_params(cs));
    (joined(&queries, " UNION ALL "), params)
}

/// How the answer of a check in one row is read.
#[derive(Debug, PartialEq, Eq, Clone, Copy, Structural)]
pub enum Reading {
    /// Anything but `false` counts as true.
    NotFalse,
    /// Only `true` counts as true.
    OnlyTrue,
    /// `true` and the number one count as true.
    TrueOrOne,
}

/// Whether the answer under a key of a row is true.
pub open spec fn answer_of(row: JsonV, key: Seq<char>, reading: Reading) -> bool {
    match field(row, key) {
        Some(JsonV::Bool(b)) => b,
        Some(JsonV::Int(n)) => match reading {
            Reading::NotFalse => true,
            Reading::OnlyTrue => false,
            Reading::TrueOrOne => n == 1,
        },
        _ => reading == Reading::NotFalse,
    }
}

/// Whether the answer under a key of a row is true.
pub fn read_answer(row: &Json, key: &str, reading: Reading) -> (r: bool)
    ensures
        r == answer_of(row.deep_view(), key@, reading),
{
    match row.get(key) {
        Some(v) => match v {
            Json::Bool(b) => *b,
            Json::Int(n) => match reading {
                Reading::NotFalse => true,
                Reading::OnlyTrue => false,
                Reading::TrueOrOne => *n == 1,
            },
            _ => reading == Reading::NotFalse,
        },
        None => reading == Reading::NotFalse,
    }
}

/// The text under a key of a row, or another one.
pub open spec fn text_or(row: JsonV, key: Seq<char>, other: Seq<char>) -> Seq<char> {
    match field(row, key) {
        Some(JsonV::Str(s)) => s,
        _ => other,
    }
}

/// The text under a key of a row, or another one.
pub fn text_under(row: &Json, key: &str, other: &str) -> (r: String)
    ensures
        r@ == text_or(row.deep_view(), key@, other@),
{
    match row.get(key) {
        Some(v) => match v {
            Json::Str(s) => s.clone(),
            _ => other.to_owned(),
        },
        None => other.to_owned(),
    }
}

/// What is said of a value that is not there in the other table.
pub open spec fn invalid_key(column: Seq<char>, table: Seq<char>) -> Seq<char> {
    "Invalid foreign key value for column '"@ + column + "' referencing table '"@ + table + "'"@
}

/// What is said of a value that is not there in the other table.
pub fn say_invalid_key(column: &str, table: &str) -> (r: String)
    ensures
        r@ == invalid_key(column@, table@),
{
    let mut m = "Invalid foreign key value for column '".to_owned();
    m.append(column);
    m.append("' referencing table '");
    m.append(table);
    m.append("'");
    m
}

/// The position of the first row at or after `from` whose answer is `wanted`.
pub open spec fn first_answer(
    rows: Seq<JsonV>,
    key: Seq<char>,
    reading: Reading,
    wanted: bool,
    from: int,
) -> Option<int>
    decreases rows.len() - from,
{
    if from < 0 || from >= rows.len() {
        None
    } else if answer_of(rows[from], key, reading) == wanted {
        Some(from)
    } else {
        first_answer(rows, key, reading, wanted, from + 1)
    }
}

fn find_answer(rows: &Vec<Json>, key: &str, reading: Reading, wanted: bool) -> (r: Option<usize>)
    ensures
        match r {
            Some(i) => i < rows@.len() && first_answer(
                rows.deep_view(),
                key@,
                reading,
                wanted,
                0,
            ) == Some(i as int),
            None => first_answer(rows.deep_view(), key@, reading, wanted, 0) is None,
        },
{
    let mut i: usize = 0;
    while i < rows.len()
        invariant
            i <= rows@.len(),
            first_answer(rows.deep_view(), key@, reading, wanted, 0) == first_answer(
                rows.deep_view(),
                key@,
                reading,
                wanted,
                i as int,
            ),
        decreases rows.len() - i,
    {
        assert(rows.deep_view()[i as int] == rows@[i as int].deep_view());
        if read_answer(&rows[i], key, reading) == wanted {
            return Some(i);
        }
        i += 1;
    }
    None
}

/// What is wrong with the foreign keys, by the answers to the checks.
pub open spec fn fk_verdict(rows: Seq<JsonV>, reading: Reading) -> Option<Seq<char>> {
    match first_answer(rows, "_valid"@, reading, false, 0) {
        Some(i) => Some(
            invalid_key(
                text_or(rows[i], "_col"@, "unknown"@),
                text_or(rows[i], "_table"@, "unknown"@),
            ),
        ),
        None => None,
    }
}

/// What is wrong with the foreign keys, by the answers to the checks.
pub fn validate_foreign_keys_batch(rows: &Vec<Json>, reading: Reading) -> (r: Option<String>)
    ensures
        r.deep_view() == fk_verdict(rows.deep_view(), reading),
{
    match find_answer(rows, "_valid", reading, false) {
        Some(i) => {
            assert(rows.deep_view()[i as int] == rows@[i as int].deep_view());
            let col = text_under(&rows[i], "_col", "unknown");
            let table = text_under(&rows[i], "_table", "unknown");
            Some(say_invalid_key(col.as_str(), table.as_str()))
        },
        None => None,
    }
}

// ---------------------------------------------------------------------------
// Unique indexes
// ---------------------------------------------------------------------------

/// A row of values that must not be there yet under a unique index.
#[derive(Debug)]
pub struct UniqueCheck {
    pub index_name: String,
    pub columns: Vec<(String, DbParam)>,
}

/// What such a check is.
pub struct UniqueCheckV {
    pub index_name: Seq<char>,
    pub columns: Seq<(Seq<char>, Scalar)>,
}

impl DeepView for UniqueCheck {
    type V = UniqueCheckV;

    open spec fn deep_view(&self) -> UniqueCheckV {
        UniqueCheckV { index_name: self.index_name@, columns: self.columns.deep_view() }
    }
}

/// Whether a value was given for a column: neither null nor a blank text.
pub open spec fn is_given(v: Option<JsonV>) -> bool {
    match v {
        None => false,
        Some(JsonV::Null) => false,
        Some(JsonV::Str(s)) => trim(s).len() > 0,
        Some(_) => true,
    }
}

/// Whether a value was given for a column: neither null nor a blank text.
pub fn given_value(v: Option<&Json>) -> (r: bool)
    ensures
        r == is_given(v.deep_view()),
{
    match v {
        None => false,
        Some(v) => match v {
            Json::Null => false,
            Json::Str(s) => !blank(s.as_str()),
            _ => true,
        },
    }
}

/// The values of some columns, where one was given for each.
pub open spec fn given_values(
    names: Seq<Seq<char>>,
    columns: Seq<Column>,
    body: JsonV,
) -> Option<Seq<(Seq<char>, Scalar)>>
    decreases names.len(),
{
    if names.len() == 0 {
        Some(Seq::empty())
    } else {
        match given_values(names.drop_last(), columns, body) {
            Some(before) => {
                let v = field(body, names.last());
                if is_given(v) {
                    Some(
                        before.push(
                            (names.last(), value_for(v->0, column_named(columns, names.last()))),
                        ),
                    )
                } else {
                    None
                }
            },
            None => None,
        }
    }
}

/// The checks of the unique indexes for which every value was given.
pub open spec fn unique_checks(
    indexes: Seq<Index>,
    columns: Seq<Column>,
    body: JsonV,
) -> Seq<UniqueCheckV>
    decreases indexes.len(),
{
    if indexes.len() == 0 {
        Seq::empty()
    } else {
        let before = unique_checks(indexes.drop_last(), columns, body);
        let ix = indexes.last();
        match given_values(ix.columns.deep_view(), columns, body) {
            Some(values) => if ix.unique {
                before.push(UniqueCheckV { index_name: ix.name@, columns: values })
            } else {
                before
            },
            None => before,
        }
    }
}

proof fn lemma_given_values_none(
    names: Seq<Seq<char>>,
    columns: Seq<Column>,
    body: JsonV,
    k: int,
)
    requires
        0 <= k <= names.len(),
        given_values(names.take(k), columns, body) is None,
    ensures
        given_values(names, columns, body) is None,
    decreases names.len() - k,
{
    if k < names.len() {
        assert(names.take(k + 1).drop_last() =~= names.take(k));
        lemma_given_values_none(names, columns, body, k + 1);
    } else {
        assert(names.take(k) =~= names);
    }
}

fn collect_values(names: &Vec<String>, columns: &Vec<Column>, body: &Json) -> (r: Option<
    Vec<(String, DbParam)>,
>)
    ensures
        r.deep_view() == given_values(names.deep_view(), columns@, body.deep_view()),
{
    let ghost ns = names.deep_view();
    let mut out: Vec<(String, DbParam)> = Vec::new();
    let mut i: usize = 0;
    assert(out.deep_view() =~= Seq::empty());
    while i < names.len()
        invariant
            i <= names@.len(),
            ns == names.deep_view(),
            given_values(ns.take(i as int), columns@, body.deep_view()) == Some(out.deep_view()),
        decreases names.len() - i,
    {
        assert(ns.take(i + 1).drop_last() =~= ns.take(i as int));
        assert(ns[i as int] == names@[i as int]@);
        let v = body.get(names[i].as_str());
        if !given_value(v) {
            proof {
                lemma_given_values_none(ns, columns@, body.deep_view(), i + 1);
            }
            return None;
        }
        match v {
            Some(v) => {
                let meta = find_column(columns, names[i].as_str());
                let p = dbparam_from_value_and_type(v, meta);
                push_item(&mut out, (names[i].clone(), p));
            },
            None => {},
        }
        i += 1;
    }
    assert(ns.take(ns.len() as int) =~= ns);
    Some(out)
}

/// The checks of the unique indexes for which every value was given.
pub fn build_unique_checks(indexes: &Vec<Index>, columns: &Vec<Column>, body: &Json) -> (r: Vec<
    UniqueCheck,
>)
    ensures
        r.deep_view() == unique_checks(indexes@, columns@, body.deep_view()),
{
    let mut out: Vec<UniqueCheck> = Vec::new();
    let mut i: usize = 0;
    assert(out.deep_view() =~= Seq::empty());
    while i < indexes.len()
        invariant
            i <= indexes@.len(),
            out.deep_view() == unique_checks(indexes@.take(i as int), columns@, body.deep_view()),
        decreases indexes.len() - i,
    {
        assert(indexes@.take(i + 1).drop_last() =~= indexes@.take(i as int));
        if indexes[i].unique {
            match collect_values(&indexes[i].columns, columns, body) {
                Some(values) => {
                    push_item(
                        &mut out,
                        UniqueCheck { index_name: indexes[i].name.clone(), columns: values },
                    );
                },
                None => {},
            }
        }
        i += 1;
    }
    assert(indexes@.take(indexes@.len() as int) =~= indexes@);
    out
}

/// Columns that are compared with bound values.
pub open spec fn comparisons(columns: Seq<(Seq<char>, Scalar)>) -> Seq<Seq<char>> {
    Seq::new(columns.len(), |i: int| columns[i].0 + " = ?"@)
}

/// The query of one check.
pub open spec fn unique_query(table: Seq<char>, c: UniqueCheckV) -> Seq<char> {
    "SELECT '"@ + c.index_name + "' as _idx, EXISTS(SELECT 1 FROM "@ + table + " WHERE "@ + join(
        comparisons(c.columns),
        " AND "@,
    ) + ") as _dup"@
}

/// The queries of some checks.
pub open spec fn unique_queries(table: Seq<char>, checks: Seq<UniqueCheckV>) -> Seq<Seq<char>> {
    Seq::new(checks.len(), |i: int| unique_query(table, checks[i]))
}

/// One query for all checks.
pub open spec fn unique_batch_sql(table: Seq<char>, checks: Seq<UniqueCheckV>) -> Seq<char> {
    join(unique_queries(table, checks), " UNION ALL "@)
}

/// The values of some checks, which the query binds in order.
pub open spec fn unique_batch_params(checks: Seq<UniqueCheckV>) -> Seq<Scalar>
    decreases checks.len(),
{
    if checks.len() == 0 {
        Seq::empty()
    } else {
        unique_batch_params(checks.drop_last()) + values_of(checks.last().columns)
    }
}

/// The values of some columns.
pub open spec fn values_of(columns: Seq<(Seq<char>, Scalar)>) -> Seq<Scalar> {
    Seq::new(columns.len(), |i: int| columns[i].1)
}

fn write_unique_query(table: &str, c: &UniqueCheck) -> (r: String)
    ensures
        r@ == unique_query(table@, c.deep_view()),
{
    let ghost all = comparisons(c.columns.deep_view());
    let mut conds: Vec<String> = Vec::new();
    let mut i: usize = 0;
    while i < c.columns.len()
        invariant
            i <= c.columns@.len(),
            all == comparisons(c.columns.deep_view()),
            conds.deep_view() == all.take(i as int),
        decreases c.columns.len() - i,
    {
        let mut cond = c.columns[i].0.clone();
        cond.append(" = ?");
        push_item(&mut conds, cond);
        i += 1;
        assert(all.take(i as int) =~= all.take(i - 1).push(all[i - 1]));
    }
    assert(all.take(c.columns@.len() as int) =~= all);
    let mut q = "SELECT '".to_owned();
    q.append(c.index_name.as_str());
    q.append("' as _idx, EXISTS(SELECT 1 FROM ");
    q.append(table);
    q.append(" WHERE ");
    q.append(joined(&conds, " AND ").as_str());
    q.append(") as _dup");
    q
}

/// One query for all checks, with the values that it binds.
pub fn build_unique_batch(table: &str, checks: &Vec<UniqueCheck>) -> (r: (String, Vec<DbParam>))
    ensures
        r.0@ == unique_batch_sql(table@, checks.deep_view()),
        r.1.deep_view() == unique_batch_params(checks.deep_view()),
{
    let ghost cs = checks.deep_view();
    let mut queries: Vec<String> = Vec::new();
    let mut params: Vec<DbParam> = Vec::new();
    let mut i: usize = 0;
    assert(params.deep_view() =~= unique_batch_params(cs.take(0)));
    while i < checks.len()
        invariant
            i <= checks@.len(),
            cs == checks.deep_view(),
            queries.deep_view() == unique_queries(table@, cs).take(i as int),
            params.deep_view() == unique_batch_params(cs.take(i as int)),
        decreases checks.len() - i,
    {
        assert(cs.take(i + 1).drop_last() =~= cs.take(i as int));
        assert(cs[i as int] == checks@[i as int].deep_view());
        push_item(&mut queries, write_unique_query(table, &checks[i]));
        let ghost before = params.deep_view();
        let ghost more = values_of(cs[i as int].columns);
        let mut k: usize = 0;
        assert(before + more.take(0) =~= before);
        while k < checks[i].columns.len()
            invariant
                i < checks@.len(),
                k <= checks@[i as int].columns@.len(),
                more == values_of(checks@[i as int].columns.deep_view()),
                params.deep_view() == before + more.take(k as int),
            decreases checks@[i as int].columns@.len() - k,
        {
            push_item(&mut params, checks[i].columns[k].1.copy());
            k += 1;
            assert(more.take(k as int) =~= more.take(k - 1).push(more[k - 1]));
            assert(params.deep_view() =~= before + more.take(k as int));
        }
        assert(more.take(more.len() as int) =~= more);
        i += 1;
        assert(unique_queries(table@, cs).take(i as int) =~= unique_queries(table@, cs).take(
            i - 1,
        ).push(unique_queries(table@, cs)[i - 1]));
    }
    assert(unique_queries(table@, cs).take(cs.len() as int) =~= unique_queries(table@, cs));
    assert(cs.take(cs.len() as int) =~= cs);
    (joined(&queries, " UNION ALL "), params)
}

/// The columns of the last check with a name; none where there is no such check.
pub open spec fn columns_checked(checks: Seq<UniqueCheckV>, name: Seq<char>) -> Seq<Seq<char>>
    decreases checks.len(),
{
    if checks.len() == 0 {
        Seq::empty()
    } else if checks.last().index_name == name {
        Seq::new(checks.last().columns.len(), |i: int| checks.last().columns[i].0)
    } else {
        columns_checked(checks.drop_last(), name)
    }
}

fn find_columns_checked(checks: &Vec<UniqueCheck>, name: &str) -> (r: Vec<String>)
    ensures
        r.deep_view() == columns_checked(checks.deep_view(), name@),
{
    let ghost cs = checks.deep_view();
    let mut i: usize = checks.len();
    assert(cs.take(i as int) =~= cs);
    while 0 < i
        invariant
            i <= checks@.len(),
            cs == checks.deep_view(),
            columns_checked(cs, name@) == columns_checked(cs.take(i as int), name@),
        decreases i,
    {
        assert(cs.take(i as int).drop_last() =~= cs.take(i - 1));
        let c = &checks[i - 1];
        assert(cs[i - 1] == c.deep_view());
        if same(c.index_name.as_str(), name) {
            let ghost all = Seq::new(c.columns@.len(), |k: int| c.columns.deep_view()[k].0);
            let mut out: Vec<String> = Vec::new();
            let mut k: usize = 0;
            while k < c.columns.len()
                invariant
                    k <= c.columns@.len(),
                    all == Seq::new(c.columns@.len(), |k: int| c.columns.deep_view()[k].0),
                    out.deep_view() == all.take(k as int),
                decreases c.columns.len() - k,
            {
                push_item(&mut out, c.columns[k].0.clone());
                k += 1;
                assert(all.take(k as int) =~= all.take(k - 1).push(all[k - 1]));
            }
            assert(all.take(c.columns@.len() as int) =~= all);
            assert(all =~= columns_checked(cs.take(i as int), name@));
            return out;
        }
        i -= 1;
    }
    let out: Vec<String> = Vec::new();
    assert(out.deep_view() =~= Seq::empty());
    out
}

/// Which unique index would be violated, by the answers to the checks.
pub open spec fn unique_verdict(
    rows: Seq<JsonV>,
    checks: Seq<UniqueCheckV>,
    reading: Reading,
) -> Option<Seq<char>> {
    match first_answer(rows, "_dup"@, reading, true, 0) {
        Some(i) => Some(
            "Unique constraint violation on columns: "@ + join(
                columns_checked(checks, text_or(rows[i], "_idx"@, Seq::empty())),
                ", "@,
            ),
        ),
        None => None,
    }
}

/// Which unique index would be violated, by the answers to the checks.
pub fn validate_unique_constraints_batch(
    rows: &Vec<Json>,
    checks: &Vec<UniqueCheck>,
    reading: Reading,
) -> (r: Option<String>)
    ensures
        r.deep_view() == unique_verdict(rows.deep_view(), checks.deep_view(), reading),
{
    match find_answer(rows, "_dup", reading, true) {
        Some(i) => {
            assert(rows.deep_view()[i as int] == rows@[i as int].deep_view());
            proof {
                reveal_strlit("");
                assert(""@ =~= Seq::<char>::empty());
            }
            let idx = text_under(&rows[i], "_idx", "");
            let cols = find_columns_checked(checks, idx.as_str());
            let mut m = "Unique constraint violation on columns: ".to_owned();
            m.append(joined(&cols, ", ").as_str());
            Some(m)
        },
        None => None,
    }
}

// ---------------------------------------------------------------------------
// Laws
// ---------------------------------------------------------------------------

/// Whether a check is that of an index: it has the index's name and columns.
pub open spec fn is_check_of(c: UniqueCheckV, ix: Index) -> bool {
    &&& c.index_name == ix.name@
    &&& c.columns.len() == ix.columns@.len()
    &&& forall|j: int| 0 <= j < c.columns.len() ==> (#[trigger] c.columns[j]).0 == ix.columns@[j]@
}

/// Whether a value was given for every column of an index.
pub open spec fn is_complete(ix: Index, body: JsonV) -> bool {
    forall|j: int| 0 <= j < ix.columns@.len() ==> is_given(field(body, #[trigger] ix.columns@[j]@))
}

proof fn lemma_given_values(names: Seq<Seq<char>>, columns: Seq<Column>, body: JsonV)
    ensures
        given_values(names, columns, body) is Some <==> forall|j: int|
            0 <= j < names.len() ==> is_given(field(body, #[trigger] names[j])),
        given_values(names, columns, body) is Some ==> {
            let values = given_values(names, columns, body)->0;
            &&& values.len() == names.len()
            &&& forall|j: int| 0 <= j < names.len() ==> (#[trigger] values[j]).0 == names[j]
        },
    decreases names.len(),
{
    if names.len() > 0 {
        let before = names.drop_last();
        lemma_given_values(before, columns, body);
        assert(forall|j: int| 0 <= j < before.len() ==> before[j] == names[j]);
        if given_values(before, columns, body) is None {
            let j = choose|j: int| 0 <= j < before.len() && !is_given(field(body, before[j]));
            assert(!is_given(field(body, names[j])));
        } else if given_values(names, columns, body) is None {
            assert(!is_given(field(body, names[names.len() - 1])));
        }
    }
}

/// Every unique index for which all values are given is checked.
pub proof fn law_complete_indexes_are_checked(
    indexes: Seq<Index>,
    columns: Seq<Column>,
    body: JsonV,
    i: int,
)
    requires
        0 <= i < indexes.len(),
        indexes[i].unique,
        is_complete(indexes[i], body),
    ensures
        exists|k: int|
            0 <= k < unique_checks(indexes, columns, body).len() && is_check_of(
                #[trigger] unique_checks(indexes, columns, body)[k],
                indexes[i],
            ),
    decreases indexes.len(),
{
    let before = unique_checks(indexes.drop_last(), columns, body);
    let all = unique_checks(indexes, columns, body);
    if i < indexes.len() - 1 {
        law_complete_indexes_are_checked(indexes.drop_last(), columns, body, i);
        let k = choose|k: int|
            0 <= k < before.len() && is_check_of(#[trigger] before[k], indexes.drop_last()[i]);
        assert(all[k] == before[k]);
    } else {
        let ix = indexes.last();
        lemma_given_values(ix.columns.deep_view(), columns, body);
        assert(is_check_of(all[all.len() - 1], ix));
    }
}

/// Nothing else is checked: every check is that of a unique index for which all
/// values are given.
pub proof fn law_only_complete_indexes_are_checked(
    indexes: Seq<Index>,
    columns: Seq<Column>,
    body: JsonV,
    k: int,
)
    requires
        0 <= k < unique_checks(indexes, columns, body).len(),
    ensures
        exists|i: int|
            0 <= i < indexes.len() && (#[trigger] indexes[i]).unique && is_complete(
                indexes[i],
                body,
            ) && is_check_of(unique_checks(indexes, columns, body)[k], indexes[i]),
    decreases indexes.len(),
{
    let before = unique_checks(indexes.drop_last(), columns, body);
    let all = unique_checks(indexes, columns, body);
    if k < before.len() {
        law_only_complete_indexes_are_checked(indexes.drop_last(), columns, body, k);
        let i = choose|i: int|
            0 <= i < indexes.drop_last().len() && (#[trigger] indexes.drop_last()[i]).unique
                && is_complete(indexes.drop_last()[i], body) && is_check_of(
                before[k],
                indexes.drop_last()[i],
            );
        assert(indexes[i] == indexes.drop_last()[i]);
    } else {
        let ix = indexes[indexes.len() - 1];
        lemma_given_values(ix.columns.deep_view(), columns, body);
        assert(is_complete(ix, body)) by {
            assert forall|j: int| 0 <= j < ix.columns@.len() implies is_given(
                field(body, #[trigger] ix.columns@[j]@),
            ) by {
                assert(ix.columns.deep_view()[j] == ix.columns@[j]@);
            }
        }
    }
}

/// A check of foreign keys refuses where one is said to be invalid, and lets pass
/// where all are said to be valid.
pub proof fn law_invalid_keys_are_refused(rows: Seq<JsonV>, reading: Reading)
    ensures
        (exists|i: int|
            0 <= i < rows.len() && field(#[trigger] rows[i], "_valid"@) == Some(JsonV::Bool(false)))
            ==> fk_verdict(rows, reading) is Some,
        (forall|i: int|
            0 <= i < rows.len() ==> field(#[trigger] rows[i], "_valid"@) == Some(JsonV::Bool(true)))
            ==> fk_verdict(rows, reading) is None,
{
    lemma_first_answer(rows, "_valid"@, reading, false, 0);
}

/// A check of unique indexes refuses where one is said to have the values already,
/// and lets pass where none is.
pub proof fn law_taken_values_are_refused(
    rows: Seq<JsonV>,
    checks: Seq<UniqueCheckV>,
    reading: Reading,
)
    ensures
        (exists|i: int|
            0 <= i < rows.len() && field(#[trigger] rows[i], "_dup"@) == Some(JsonV::Bool(true)))
            ==> unique_verdict(rows, checks, reading) is Some,
        (forall|i: int|
            0 <= i < rows.len() ==> field(#[trigger] rows[i], "_dup"@) == Some(JsonV::Bool(false)))
            ==> unique_verdict(rows, checks, reading) is None,
{
    lemma_first_answer(rows, "_dup"@, reading, true, 0);
}

proof fn lemma_first_answer(
    rows: Seq<JsonV>,
    key: Seq<char>,
    reading: Reading,
    wanted: bool,
    from: int,
)
    requires
        0 <= from <= rows.len(),
    ensures
        first_answer(rows, key, reading, wanted, from) is Some <==> exists|i: int|
            from <= i < rows.len() && answer_of(#[trigger] rows[i], key, reading) == wanted,
    decreases rows.len() - from,
{
    if from < rows.len() {
        lemma_first_answer(rows, key, reading, wanted, from + 1);
    }
}

/// The queries of checks of foreign keys look where the keys refer to: there is one
/// for each, in the same order as the values that are bound, and each looks in the
/// column of the table for its value.
pub proof fn law_key_queries_look_where_the_keys_refer_to(checks: Seq<FkCheckV>, i: int)
    requires
        0 <= i < checks.len(),
    ensures
        fk_batch_params(checks).len() == checks.len(),
        fk_batch_params(checks)[i] == Scalar::Str(checks[i].value),
        exists|queries: Seq<Seq<char>>|
            {
                &&& fk_batch_sql(checks) == #[trigger] join(queries, " UNION ALL "@)
                &&& queries.len() == checks.len()
                &&& contains(
                    queries[i],
                    " FROM "@ + checks[i].table + " WHERE "@ + checks[i].ref_column + " = ?"@,
                )
                &&& starts_with(queries[i], "SELECT '"@ + checks[i].column + "' as _col"@)
            },
{
    let c = checks[i];
    let queries = fk_queries(checks);
    let head = "SELECT '"@ + c.column + "' as _col, '"@ + c.table + "' as _table, EXISTS(SELECT 1"@;
    let needle = " FROM "@ + c.table + " WHERE "@ + c.ref_column + " = ?"@;
    let tail = ") as _valid"@;
    reveal_strlit("' as _table, EXISTS(SELECT 1 FROM ");
    reveal_strlit("' as _table, EXISTS(SELECT 1");
    reveal_strlit(" FROM ");
    reveal_strlit(" = ?) as _valid");
    reveal_strlit(" = ?");
    reveal_strlit(") as _valid");
    reveal_strlit("' as _col, '");
    reveal_strlit("' as _col");
    assert("' as _table, EXISTS(SELECT 1 FROM "@ =~= "' as _table, EXISTS(SELECT 1"@ + " FROM "@);
    assert(" = ?) as _valid"@ =~= " = ?"@ + ") as _valid"@);
    assert(fk_query(c) =~= head + needle + tail);
    assert(fk_query(c).subrange(head.len() as int, (head.len() + needle.len()) as int) =~= needle);
    assert(occurs_at(queries[i], needle, head.len() as int));
    let front = "SELECT '"@ + c.column + "' as _col"@;
    assert("' as _col, '"@ =~= "' as _col"@ + ", '"@) by {
        reveal_strlit(", '");
    }
    assert(fk_query(c).subrange(0, front.len() as int) =~= front);
    assert(fk_batch_sql(checks) == join(queries, " UNION ALL "@));
}

/// The queries of checks of unique indexes look in the table for a row with the
/// values of the index: there is one for each check.
pub proof fn law_unique_queries_look_in_the_table(
    table: Seq<char>,
    checks: Seq<UniqueCheckV>,
    i: int,
)
    requires
        0 <= i < checks.len(),
    ensures
        exists|queries: Seq<Seq<char>>|
            {
                &&& unique_batch_sql(table, checks) == #[trigger] join(queries, " UNION ALL "@)
                &&& queries.len() == checks.len()
                &&& contains(
                    queries[i],
                    " FROM "@ + table + " WHERE "@ + join(
                        Seq::new(
                            checks[i].columns.len(),
                            |j: int| checks[i].columns[j].0 + " = ?"@,
                        ),
                        " AND "@,
                    ),
                )
            },
{
    let c = checks[i];
    let queries = unique_queries(table, checks);
    let head = "SELECT '"@ + c.index_name + "' as _idx, EXISTS(SELECT 1"@;
    let conditions = Seq::new(c.columns.len(), |j: int| c.columns[j].0 + " = ?"@);
    assert(conditions =~= comparisons(c.columns));
    let needle = " FROM "@ + table + " WHERE "@ + join(conditions, " AND "@);
    reveal_strlit("' as _idx, EXISTS(SELECT 1 FROM ");
    reveal_strlit("' as _idx, EXISTS(SELECT 1");
    reveal_strlit(" FROM ");
    assert("' as _idx, EXISTS(SELECT 1 FROM "@ =~= "' as _idx, EXISTS(SELECT 1"@ + " FROM "@);
    assert(unique_query(table, c) =~= head + needle + ") as _dup"@);
    assert(unique_query(table, c).subrange(
        head.len() as int,
        (head.len() + needle.len()) as int,
    ) =~= needle);
    assert(occurs_at(queries[i], needle, head.len() as int));
    assert(unique_batch_sql(table, checks) == join(queries, " UNION ALL "@));
}

proof fn lemma_batch_params_last(checks: Seq<UniqueCheckV>, j: int)
    requires
        checks.len() > 0,
        0 <= j < checks.last().columns.len(),
    ensures
        ({
            let all = unique_batch_params(checks);
            let n = checks.last().columns.len();
            &&& all.len() >= n
            &&& all[all.len() - n + j] == checks.last().columns[j].1
        }),
{
    let before = unique_batch_params(checks.drop_last());
    let own = values_of(checks.last().columns);
    assert(unique_batch_params(checks)[before.len() + j] == own[j]);
}

/// The values that checks of unique indexes bind are those of their columns, one
/// after the other: a check more adds its own values behind those before it.
pub proof fn law_unique_queries_bind_their_values(checks: Seq<UniqueCheckV>, j: int)
    requires
        checks.len() > 0,
        0 <= j < checks.last().columns.len(),
    ensures
        ({
            let all = unique_batch_params(checks);
            let before = unique_batch_params(checks.drop_last());
            &&& all.len() == before.len() + checks.last().columns.len()
            &&& all.take(before.len() as int) == before
            &&& all[before.len() + j] == checks.last().columns[j].1
        }),
{
    lemma_batch_params_last(checks, j);
    let all = unique_batch_params(checks);
    let before = unique_batch_params(checks.drop_last());
    assert(all.take(before.len() as int) =~= before);
}

/// A value is looked for as the column has it: an integer in a column of integers is
/// that integer, and a plain text in a column of texts is that text.
pub proof fn law_values_are_looked_for_as_given(v: JsonV, c: Column)
    ensures
        ({
            let t = lowercase(c.type_data@);
            let numeric = contains(t, "int"@) || contains(t, "float"@) || contains(t, "double"@)
                || contains(t, "decimal"@) || contains(t, "money"@);
            &&& v is Int && contains(t, "int"@) && !contains(t, "float"@) && !contains(
                t,
                "double"@,
            ) && !contains(t, "decimal"@) && !contains(t, "money"@) ==> value_for(v, Some(c))
                == Scalar::I64(v->Int_0)
            &&& v is Str && contains(t, "int"@) && i64_value(v->Str_0) is Some ==> value_for(
                v,
                Some(c),
            ) == Scalar::I64(i64_value(v->Str_0)->0)
            &&& v is Str && is_plain(v->Str_0) && !numeric ==> value_for(v, Some(c)) == Scalar::Str(
                v->Str_0,
            )
        }),
        v is Str ==> value_for(v, None) == Scalar::Str(v->Str_0),
{
    if let JsonV::Str(s) = v {
        if is_plain(s) {
            lemma_unquoted(s);
        }
    }
}

} // verus!
