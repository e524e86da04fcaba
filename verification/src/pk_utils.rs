//! Primary keys in paths, and values typed by their column.
use crate::ast::{
    lemma_and_view, lemma_meets_all, satisfies, Collation, DbParam, Filter, FilterV, RowV, Scalar, Val,
};
use crate::json::{Json, JsonV};
use crate::number::{
    finite_numeral, float_numeral, i64_value, int_text, is_finite, is_float, parse_i64, u64_text,
};
use crate::text::{
    ascii_lower, contains, has_text, join, law_join_undoes_split, push_item, split, split_text,
    to_ascii_lower,
};
use vstd::prelude::*;
use vstd::string::*;

verus! {

/// The values of a primary key in a path, which `~` separates.
pub fn parse_pk_values(id_raw: &str) -> (r: Vec<String>)
    ensures
        r.deep_view() == split(id_raw@, '~'),
        r@.len() >= 1,
{
    split_text(id_raw, '~')
}

/// The path of a row gives back the values of its primary key: writing them with
/// `~` between them gives the path.
pub proof fn law_pk_path_round_trip(id_raw: Seq<char>)
    ensures
        join(split(id_raw, '~'), seq!['~']) == id_raw,
{
    law_join_undoes_split(id_raw, '~');
}

/// The conditions that each column of a key equals its value.
pub open spec fn pk_terms(columns: Seq<Seq<char>>, values: Seq<Seq<char>>) -> Seq<FilterV> {
    Seq::new(columns.len(), |i: int| FilterV::Eq(columns[i], Scalar::Str(values[i])))
}

/// What is said of a key with the wrong number of values.
pub open spec fn mismatch_message(columns: int, values: int) -> Seq<char> {
    "Primary key mismatch: expected "@ + int_text(columns) + " values for "@ + int_text(values)
        + " columns"@
}

/// The condition that picks the row of a primary key, or why there is none.
pub open spec fn pk_filter(columns: Seq<Seq<char>>, values: Seq<Seq<char>>) -> Result<
    FilterV,
    Seq<char>,
> {
    if columns.len() == 0 {
        Err("No primary key columns defined"@)
    } else if columns.len() != values.len() {
        Err(mismatch_message(columns.len() as int, values.len() as int))
    } else if columns.len() == 1 {
        Ok(FilterV::Eq(columns[0], Scalar::Str(values[0])))
    } else {
        Ok(FilterV::And(pk_terms(columns, values)))
    }
}

/// What a result with a filter is.
pub open spec fn filter_result(r: Result<Filter, String>) -> Result<FilterV, Seq<char>> {
    match r {
        Ok(f) => Ok(f.deep_view()),
        Err(e) => Err(e@),
    }
}

/// The condition that picks the row of a primary key: on one column, or on all
/// columns of a composite key.
pub fn build_pk_filter(pk_columns: &[String], pk_values: &[String]) -> (r: Result<Filter, String>)
    ensures
        filter_result(r) == pk_filter(pk_columns.deep_view(), pk_values.deep_view()),
{
    broadcast use lemma_and_view;

    if pk_columns.len() == 0 {
        return Err("No primary key columns defined".to_owned());
    }
    if pk_columns.len() != pk_values.len() {
        let mut message = "Primary key mismatch: expected ".to_owned();
        message.append(u64_text(pk_columns.len() as u64).as_str());
        message.append(" values for ");
        message.append(u64_text(pk_values.len() as u64).as_str());
        message.append(" columns");
        return Err(message);
    }
    if pk_columns.len() == 1 {
        return Ok(Filter::Eq(pk_columns[0].clone(), Val::Str(pk_values[0].clone())));
    }
    let ghost all = pk_terms(pk_columns.deep_view(), pk_values.deep_view());
    let mut terms: Vec<Filter> = Vec::new();
    let mut i: usize = 0;
    while i < pk_columns.len()
        invariant
            i <= pk_columns@.len(),
            pk_columns@.len() == pk_values@.len(),
            all == pk_terms(pk_columns.deep_view(), pk_values.deep_view()),
            terms.deep_view() == all.take(i as int),
        decreases pk_columns.len() - i,
    {
        push_item(&mut terms, Filter::Eq(pk_columns[i].clone(), Val::Str(pk_values[i].clone())));
        i += 1;
        assert(all.take(i as int) =~= all.take(i - 1).push(all[i - 1]));
    }
    assert(all.take(pk_columns@.len() as int) =~= all);
    Ok(Filter::And(terms))
}

/// The condition of a primary key picks its row and no other: a row meets it
/// exactly if each column of the key has its value.
pub proof fn law_keys_pick_their_row(
    columns: Seq<Seq<char>>,
    values: Seq<Seq<char>>,
    row: RowV,
    by: Collation,
)
    ensures
        pk_filter(columns, values) is Ok <==> columns.len() > 0 && columns.len() == values.len(),
        pk_filter(columns, values) is Ok ==> (satisfies(row, pk_filter(columns, values)->Ok_0, by)
            <==> forall|i: int|
            0 <= i < columns.len() ==> row(#[trigger] columns[i]) == Scalar::Str(values[i])),
{
    if pk_filter(columns, values) is Ok && columns.len() > 1 {
        let terms = pk_terms(columns, values);
        let f = pk_filter(columns, values)->Ok_0;
        lemma_meets_all(row, terms, by);
        if satisfies(row, f, by) {
            assert forall|i: int| 0 <= i < columns.len() implies row(#[trigger] columns[i])
                == Scalar::Str(values[i]) by {
                assert(satisfies(row, terms[i], by));
            }
        }
        if forall|i: int|
            0 <= i < columns.len() ==> row(#[trigger] columns[i]) == Scalar::Str(values[i]) {
            assert forall|i: int| 0 <= i < terms.len() implies satisfies(
                row,
                #[trigger] terms[i],
                by,
            ) by {
                assert(row(columns[i]) == Scalar::Str(values[i]));
            }
        }
    }
}

/// Whether a type of a column is one of integers.
pub open spec fn is_int_type(t: Seq<char>) -> bool {
    contains(t, "int"@)
}

/// Whether a type of a column is one of numbers with a fraction.
pub open spec fn is_float_type(t: Seq<char>) -> bool {
    contains(t, "float"@) || contains(t, "double"@) || contains(t, "decimal"@) || contains(
        t,
        "money"@,
    )
}

/// Whether a type of a column is one of integers.
pub fn int_type(t: &str) -> (r: bool)
    ensures
        r == is_int_type(t@),
{
    has_text(t, "int")
}

/// Whether a type of a column is one of numbers with a fraction.
pub fn float_type(t: &str) -> (r: bool)
    ensures
        r == is_float_type(t@),
{
    has_text(t, "float") || has_text(t, "double") || has_text(t, "decimal") || has_text(t, "money")
}

/// A text as a value of a column of the type `t`; a text that is no numeral of
/// the type stays a text.
pub open spec fn typed(raw: Seq<char>, t: Seq<char>) -> Scalar {
    if is_int_type(t) {
        match i64_value(raw) {
            Some(n) => Scalar::I64(n),
            None => Scalar::Str(raw),
        }
    } else if is_float_type(t) && is_float(raw) {
        Scalar::F64(raw)
    } else {
        Scalar::Str(raw)
    }
}

/// A text as a value of a column of the type `t`.
pub fn typed_param(raw: &str, t: &str) -> (r: DbParam)
    ensures
        r.deep_view() == typed(raw@, t@),
{
    if int_type(t) {
        match parse_i64(raw) {
            Some(n) => DbParam::I64(n),
            None => DbParam::Str(raw.to_owned()),
        }
    } else if float_type(t) && float_numeral(raw) {
        DbParam::F64(raw.to_owned())
    } else {
        DbParam::Str(raw.to_owned())
    }
}

/// A bound value as a JSON value. JSON has no numeral for a float without a finite
/// value: it becomes null.
pub open spec fn as_json(v: Scalar) -> JsonV {
    match v {
        Scalar::Null => JsonV::Null,
        Scalar::Bool(b) => JsonV::Bool(b),
        Scalar::I64(n) => JsonV::Int(n),
        Scalar::F64(t) => if is_finite(t) {
            JsonV::Float(t)
        } else {
            JsonV::Null
        },
        Scalar::Str(s) => JsonV::Str(s),
    }
}

/// A bound value as a JSON value.
pub fn to_json(p: DbParam) -> (r: Json)
    ensures
        r.deep_view() == as_json(p.deep_view()),
{
    match p {
        DbParam::Null => Json::Null,
        DbParam::Bool(b) => Json::Bool(b),
        DbParam::I64(n) => Json::Int(n),
        DbParam::F64(t) => if finite_numeral(t.as_str()) {
            Json::Float(t)
        } else {
            Json::Null
        },
        DbParam::Str(s) => Json::Str(s),
    }
}

/// A text as a bound value of a column whose type is given in any case.
pub fn dbparam_from_str_and_type(raw: &str, type_data: &str) -> (r: DbParam)
    ensures
        r.deep_view() == typed(raw@, ascii_lower(type_data@)),
{
    let td = to_ascii_lower(type_data);
    typed_param(raw, td.as_str())
}

/// A text as a JSON value of a column whose type is given in any case.
pub fn json_value_from_str_and_type(raw: &str, type_data: &str) -> (r: Json)
    ensures
        r.deep_view() == as_json(typed(raw@, ascii_lower(type_data@))),
{
    to_json(dbparam_from_str_and_type(raw, type_data))
}

} // verus!
