//! Inserting a row and the rows of its details.
use crate::ast::{
    all_of, copy_field_values, copy_rows, lemma_meets_all, satisfies, Collation, DbParam, Filter,
    FilterV, InsertValue, InsertValueV, Query, QueryV, RowV, Scalar,
};
use crate::flow::{
    answers, failure, failure_in, rows_in, told, Action, ActionV, Outcome, Trigger, TriggerV, Work, WorkV,
};
use crate::giving::{is_typed, law_typing_tells_the_text, tells};
use crate::idgen::{
    build_highest_query, build_number_url, fetch_next_number_from_endpoint, highest_id,
    highest_query, id_with_number, next_number, number_in_answer, number_place, number_text,
    number_url, parts_of_tokens, plan_id, read_highest, read_next_number, Today,
};
use crate::json::{
    copy_fields, field, fields_of, get_in, json_text, lemma_array_view, lemma_object_view, lookup,
    set_in, with_field, Json, JsonV,
};
use crate::model::{column_named, find_column, TableSchema};
use crate::number::{i64_value, parse_i64};
use crate::pk_utils::{dbparam_from_str_and_type, int_type, is_int_type, typed};
use crate::post::{take_rows, Fields};
use crate::text::{
    ascii_lower, blank, contains, copy_texts, join, lowercase, push_item, starts_with, to_lowercase, trim,
};
use crate::validation::{
    build_unique_checks, fk_verdict, invalid_key, say_invalid_key, unique_checks, unique_verdict,
    validate_foreign_keys_batch, validate_unique_constraints_batch, FkCheck, FkCheckV, Reading,
    UniqueCheck, UniqueCheckV,
};
use crate::writing::{has_statement, holds_statement, judge_validation, validation_verdict};
use vstd::prelude::*;
use vstd::string::*;

verus! {

// ---------------------------------------------------------------------------
// Details
// ---------------------------------------------------------------------------

/// The rows of one detail, ready to be inserted once the key of the header is
/// known, and the items that the answer shows for them.
#[derive(Debug)]
pub struct PreparedDetailBatch {
    pub field: String,
    pub target_table: String,
    pub foreign_key_column: String,
    pub fk_type_data: String,
    pub columns: Vec<String>,
    pub fk_index: usize,
    pub rows: Vec<Vec<InsertValue>>,
    pub response_items: Vec<Vec<(String, Json)>>,
}

/// What such rows are.
pub struct PreparedDetailBatchV {
    pub field: Seq<char>,
    pub target_table: Seq<char>,
    pub foreign_key_column: Seq<char>,
    pub fk_type_data: Seq<char>,
    pub columns: Seq<Seq<char>>,
    pub fk_index: usize,
    pub rows: Seq<Seq<InsertValueV>>,
    pub response_items: Seq<Fields>,
}

impl DeepView for PreparedDetailBatch {
    type V = PreparedDetailBatchV;

    open spec fn deep_view(&self) -> PreparedDetailBatchV {
        PreparedDetailBatchV {
            field: self.field@,
            target_table: self.target_table@,
            foreign_key_column: self.foreign_key_column@,
            fk_type_data: self.fk_type_data@,
            columns: self.columns.deep_view(),
            fk_index: self.fk_index,
            rows: self.rows.deep_view(),
            response_items: self.response_items.deep_view(),
        }
    }
}

/// The key of a header as it is bound in the rows of a detail.
pub open spec fn header_key(id: JsonV, fk_type: Seq<char>) -> Scalar {
    match id {
        JsonV::Int(n) => Scalar::I64(n),
        JsonV::Str(s) => if is_int_type(lowercase(fk_type)) {
            match i64_value(s) {
                Some(n) => Scalar::I64(n),
                None => Scalar::Str(s),
            }
        } else {
            Scalar::Str(s)
        },
        _ => Scalar::Str(json_text(id)),
    }
}

/// The key of a header as it is bound in the rows of a detail.
pub fn build_header_key(id: &Json, fk_type: &str) -> (r: DbParam)
    ensures
        r.deep_view() == header_key(id.deep_view(), fk_type@),
{
    match id {
        Json::Int(n) => DbParam::I64(*n),
        Json::Str(s) => {
            let low = to_lowercase(fk_type);
            if int_type(low.as_str()) {
                match parse_i64(s.as_str()) {
                    Some(n) => DbParam::I64(n),
                    None => DbParam::Str(s.clone()),
                }
            } else {
                DbParam::Str(s.clone())
            }
        },
        _ => DbParam::Str(id.text()),
    }
}

/// A row with a bound value at a position, where it reaches that far.
pub open spec fn stamped_row(row: Seq<InsertValueV>, at: int, key: Scalar) -> Seq<InsertValueV> {
    if 0 <= at < row.len() {
        row.update(at, InsertValueV::Param(key))
    } else {
        row
    }
}

/// Rows with a bound value at a position.
pub open spec fn stamped_rows(rows: Seq<Seq<InsertValueV>>, at: int, key: Scalar) -> Seq<
    Seq<InsertValueV>,
> {
    Seq::new(rows.len(), |i: int| stamped_row(rows[i], at, key))
}

/// Items with a value under a key.
pub open spec fn stamped_items(items: Seq<Fields>, column: Seq<char>, id: JsonV) -> Seq<Fields> {
    Seq::new(items.len(), |i: int| with_field(items[i], column, id))
}

/// The rows of a detail with the key of their header: bound as `key` in the rows,
/// shown as `id` in the items.
pub open spec fn stamped_batch(b: PreparedDetailBatchV, key: Scalar, id: JsonV) -> PreparedDetailBatchV {
    PreparedDetailBatchV {
        rows: stamped_rows(b.rows, b.fk_index as int, key),
        response_items: stamped_items(b.response_items, b.foreign_key_column, id),
        ..b
    }
}

fn stamp_rows(rows: &mut Vec<Vec<InsertValue>>, at: usize, key: &DbParam)
    ensures
        final(rows).deep_view() == stamped_rows(old(rows).deep_view(), at as int, key.deep_view()),
{
    let ghost start = rows.deep_view();
    let mut out: Vec<Vec<InsertValue>> = Vec::new();
    let mut i: usize = 0;
    let ghost all = stamped_rows(start, at as int, key.deep_view());
    while i < rows.len()
        invariant
            i <= rows@.len(),
            start == rows.deep_view(),
            all == stamped_rows(start, at as int, key.deep_view()),
            out.deep_view() == all.take(i as int),
        decreases rows.len() - i,
    {
        let mut row: Vec<InsertValue> = Vec::new();
        let mut k: usize = 0;
        assert(row.deep_view() =~= all[i as int].take(0));
        while k < rows[i].len()
            invariant
                i < rows@.len(),
                k <= rows@[i as int]@.len(),
                start == rows.deep_view(),
                all == stamped_rows(start, at as int, key.deep_view()),
                row.deep_view() == all[i as int].take(k as int),
            decreases rows[i as int].len() - k,
        {
            assert(start[i as int] == rows@[i as int].deep_view());
            assert(start[i as int][k as int] == rows@[i as int]@[k as int].deep_view());
            if k == at {
                push_item(&mut row, InsertValue::Param(key.copy()));
            } else {
                push_item(&mut row, rows[i][k].copy());
            }
            k += 1;
            assert(all[i as int].take(k as int) =~= all[i as int].take(k - 1).push(
                all[i as int][k - 1],
            ));
        }
        assert(all[i as int].take(rows@[i as int]@.len() as int) =~= all[i as int]);
        push_item(&mut out, row);
        i += 1;
        assert(all.take(i as int) =~= all.take(i - 1).push(all[i - 1]));
    }
    assert(all.take(rows@.len() as int) =~= all);
    *rows = out;
}

fn stamp_items(items: &mut Vec<Vec<(String, Json)>>, column: &str, id: &Json)
    ensures
        final(items).deep_view() == stamped_items(old(items).deep_view(), column@, id.deep_view()),
{
    let ghost start = items.deep_view();
    let ghost all = stamped_items(start, column@, id.deep_view());
    let mut out: Vec<Vec<(String, Json)>> = Vec::new();
    let mut i: usize = 0;
    while i < items.len()
        invariant
            i <= items@.len(),
            start == items.deep_view(),
            all == stamped_items(start, column@, id.deep_view()),
            out.deep_view() == all.take(i as int),
        decreases items.len() - i,
    {
        assert(start[i as int] == items@[i as int].deep_view());
        let mut item = copy_fields(&items[i]);
        set_in(&mut item, column, id.copy());
        push_item(&mut out, item);
        i += 1;
        assert(all.take(i as int) =~= all.take(i - 1).push(all[i - 1]));
    }
    assert(all.take(items@.len() as int) =~= all);
    *items = out;
}

impl PreparedDetailBatch {
    /// Puts the key of the header into the rows of a detail, and into the items
    /// that are shown for them.
    pub fn stamp(&mut self, key: &DbParam, id: &Json)
        ensures
            final(self).deep_view() == stamped_batch(
                old(self).deep_view(),
                key.deep_view(),
                id.deep_view(),
            ),
    {
        stamp_rows(&mut self.rows, self.fk_index, key);
        stamp_items(&mut self.response_items, self.foreign_key_column.as_str(), id);
    }
}

/// Once the key of its header is put into the rows of a detail, it stands in
/// every row that reaches to its position, and in every item that is shown.
pub proof fn law_details_carry_their_header(
    b: PreparedDetailBatchV,
    key: Scalar,
    id: JsonV,
    i: int,
)
    ensures
        0 <= i < b.rows.len() && b.fk_index < b.rows[i].len() ==> stamped_batch(
            b,
            key,
            id,
        ).rows[i][b.fk_index as int] == InsertValueV::Param(key),
        0 <= i < b.response_items.len() ==> lookup(
            stamped_batch(b, key, id).response_items[i],
            b.foreign_key_column,
        ) == Some(id),
{
    if 0 <= i < b.response_items.len() {
        crate::json::law_set_then_get(
            b.response_items[i],
            b.foreign_key_column,
            id,
            b.foreign_key_column,
        );
    }
}

/// The items of a detail as JSON objects.
pub open spec fn objects(items: Seq<Fields>) -> Seq<JsonV> {
    Seq::new(items.len(), |i: int| JsonV::Object(items[i]))
}

/// The items of a detail as JSON objects.
pub fn build_objects(items: &Vec<Vec<(String, Json)>>) -> (r: Vec<Json>)
    ensures
        r.deep_view() == objects(items.deep_view()),
{
    let ghost start = items.deep_view();
    let ghost all = objects(start);
    let mut out: Vec<Json> = Vec::new();
    let mut i: usize = 0;
    while i < items.len()
        invariant
            i <= items@.len(),
            start == items.deep_view(),
            all == objects(start),
            out.deep_view() == all.take(i as int),
        decreases items.len() - i,
    {
        assert(start[i as int] == items@[i as int].deep_view());
        let fields = copy_fields(&items[i]);
        proof {
            lemma_object_view(fields);
        }
        push_item(&mut out, Json::Object(fields));
        i += 1;
        assert(all.take(i as int) =~= all.take(i - 1).push(all[i - 1]));
    }
    assert(all.take(items@.len() as int) =~= all);
    out
}

/// A document with the items of each detail under its field.
pub open spec fn with_details(doc: Fields, batches: Seq<PreparedDetailBatchV>) -> Fields
    decreases batches.len(),
{
    if batches.len() == 0 {
        doc
    } else {
        with_field(
            with_details(doc, batches.drop_last()),
            batches.last().field,
            JsonV::Array(objects(batches.last().response_items)),
        )
    }
}

/// Puts the items of each detail under its field.
pub fn add_details(doc: &mut Vec<(String, Json)>, batches: &Vec<PreparedDetailBatch>)
    ensures
        final(doc).deep_view() == with_details(old(doc).deep_view(), batches.deep_view()),
{
    let ghost bs = batches.deep_view();
    let ghost start = doc.deep_view();
    let mut i: usize = 0;
    while i < batches.len()
        invariant
            i <= batches@.len(),
            bs == batches.deep_view(),
            doc.deep_view() == with_details(start, bs.take(i as int)),
        decreases batches.len() - i,
    {
        assert(bs.take(i + 1).drop_last() =~= bs.take(i as int));
        assert(bs[i as int] == batches@[i as int].deep_view());
        let items = build_objects(&batches[i].response_items);
        proof {
            lemma_array_view(items);
        }
        set_in(doc, batches[i].field.as_str(), Json::Array(items));
        i += 1;
    }
    assert(bs.take(bs.len() as int) =~= bs);
}

// ---------------------------------------------------------------------------
// What is inserted
// ---------------------------------------------------------------------------

/// Where a row is inserted.
#[derive(Debug)]
pub struct RowTarget {
    pub route: String,
    pub schema: TableSchema,
    /// Whether the store is one without transactions.
    pub mongodb: bool,
    /// Whether the database is one that gives the last generated identifier.
    pub mysql: bool,
    /// The present day, in UTC.
    pub today: Today,
}

/// What a row is inserted from: the body of the request, the values of its
/// columns, the document that is stored or shown, the checks that its foreign
/// keys ask for, the tokens of its generated identifier, and its details.
#[derive(Debug)]
pub struct RowPlan {
    pub body: Json,
    pub fields: Vec<(String, InsertValue)>,
    pub doc: Vec<(String, Json)>,
    pub checks: Vec<FkCheck>,
    pub tokens: Vec<String>,
    pub details: Vec<PreparedDetailBatch>,
}

/// What such a plan is.
pub struct RowPlanV {
    pub body: JsonV,
    pub fields: Seq<(Seq<char>, InsertValueV)>,
    pub doc: Fields,
    pub checks: Seq<FkCheckV>,
    pub tokens: Seq<Seq<char>>,
    pub details: Seq<PreparedDetailBatchV>,
}

impl DeepView for RowPlan {
    type V = RowPlanV;

    open spec fn deep_view(&self) -> RowPlanV {
        RowPlanV {
            body: self.body.deep_view(),
            fields: self.fields.deep_view(),
            doc: self.doc.deep_view(),
            checks: self.checks.deep_view(),
            tokens: self.tokens.deep_view(),
            details: self.details.deep_view(),
        }
    }
}

/// Details with the key of their header in their items.
pub open spec fn shown_details(batches: Seq<PreparedDetailBatchV>, id: JsonV) -> Seq<
    PreparedDetailBatchV,
> {
    Seq::new(
        batches.len(),
        |i: int|
            PreparedDetailBatchV {
                response_items: stamped_items(
                    batches[i].response_items,
                    batches[i].foreign_key_column,
                    id,
                ),
                ..batches[i]
            },
    )
}

/// Details with the key of their header in their rows and items; one without
/// rows stays as it is.
pub open spec fn keyed_details(batches: Seq<PreparedDetailBatchV>, id: JsonV) -> Seq<
    PreparedDetailBatchV,
> {
    Seq::new(
        batches.len(),
        |i: int|
            if batches[i].rows.len() > 0 {
                stamped_batch(batches[i], header_key(id, batches[i].fk_type_data), id)
            } else {
                batches[i]
            },
    )
}

fn show_details(batches: Vec<PreparedDetailBatch>, id: &Json) -> (r: Vec<PreparedDetailBatch>)
    ensures
        r.deep_view() == shown_details(batches.deep_view(), id.deep_view()),
{
    let ghost start = batches.deep_view();
    let ghost all = shown_details(start, id.deep_view());
    let n: usize = batches.len();
    let mut rest = batches;
    let mut out: Vec<PreparedDetailBatch> = Vec::new();
    let mut i: usize = 0;
    assert(rest.deep_view() =~= start.skip(0));
    while i < n
        invariant
            i <= n,
            n == start.len(),
            rest.deep_view() == start.skip(i as int),
            rest@.len() == n - i,
            all == shown_details(start, id.deep_view()),
            out.deep_view() == all.take(i as int),
        decreases n - i,
    {
        let ghost rv = rest.deep_view();
        let mut b = rest.remove(0);
        assert(rv[0] == b.deep_view());
        assert forall|k: int| 0 <= k < rest@.len() implies rest.deep_view()[k] == start.skip(
            i + 1,
        )[k] by {
            assert(rv[k + 1] == rest@[k].deep_view());
            assert(start.skip(i as int)[k + 1] == start.skip(i + 1)[k]);
        }
        assert(rest.deep_view() =~= start.skip(i + 1));
        stamp_items(&mut b.response_items, b.foreign_key_column.as_str(), id);
        push_item(&mut out, b);
        i += 1;
        assert(all.take(i as int) =~= all.take(i - 1).push(all[i - 1]));
    }
    assert(all.take(n as int) =~= all);
    out
}

fn key_details(batches: Vec<PreparedDetailBatch>, id: &Json) -> (r: Vec<PreparedDetailBatch>)
    ensures
        r.deep_view() == keyed_details(batches.deep_view(), id.deep_view()),
{
    let ghost start = batches.deep_view();
    let ghost all = keyed_details(start, id.deep_view());
    let n: usize = batches.len();
    let mut rest = batches;
    let mut out: Vec<PreparedDetailBatch> = Vec::new();
    let mut i: usize = 0;
    assert(rest.deep_view() =~= start.skip(0));
    while i < n
        invariant
            i <= n,
            n == start.len(),
            rest.deep_view() == start.skip(i as int),
            rest@.len() == n - i,
            all == keyed_details(start, id.deep_view()),
            out.deep_view() == all.take(i as int),
        decreases n - i,
    {
        let ghost rv = rest.deep_view();
        let mut b = rest.remove(0);
        assert(rv[0] == b.deep_view());
        assert forall|k: int| 0 <= k < rest@.len() implies rest.deep_view()[k] == start.skip(
            i + 1,
        )[k] by {
            assert(rv[k + 1] == rest@[k].deep_view());
            assert(start.skip(i as int)[k + 1] == start.skip(i + 1)[k]);
        }
        assert(rest.deep_view() =~= start.skip(i + 1));
        assert(b.rows.deep_view().len() == b.rows@.len());
        if b.rows.len() > 0 {
            let key = build_header_key(id, b.fk_type_data.as_str());
            b.stamp(&key, id);
        }
        push_item(&mut out, b);
        i += 1;
        assert(all.take(i as int) =~= all.take(i - 1).push(all[i - 1]));
    }
    assert(all.take(n as int) =~= all);
    out
}

/// The query that checks whether the row of a foreign key is there.
pub open spec fn key_query(c: FkCheckV) -> QueryV {
    QueryV {
        columns: seq![c.ref_column],
        filter: Some(FilterV::Eq(c.ref_column, typed(c.value, ascii_lower(c.type_data)))),
        limit: Some(1),
        ..all_of(c.table)
    }
}

/// The query that checks whether the row of a foreign key is there.
pub fn build_key_query(c: &FkCheck) -> (r: Query)
    ensures
        r.deep_view() == key_query(c.deep_view()),
{
    let mut q = Query::of(c.table.as_str());
    let mut columns: Vec<String> = Vec::new();
    push_item(&mut columns, c.ref_column.clone());
    assert(columns.deep_view() =~= seq![c.ref_column@]);
    q.columns = columns;
    let value = dbparam_from_str_and_type(c.value.as_str(), c.type_data.as_str());
    q.filter = Some(Filter::Eq(c.ref_column.clone(), value.to_val()));
    q.limit = Some(1);
    q
}

/// The conditions that the columns of a check have their values.
pub open spec fn equalities(columns: Seq<(Seq<char>, Scalar)>) -> Seq<FilterV> {
    Seq::new(columns.len(), |i: int| FilterV::Eq(columns[i].0, columns[i].1))
}

/// The conditions that the columns of a check have their values.
pub fn build_equalities(columns: &Vec<(String, DbParam)>) -> (r: Vec<Filter>)
    ensures
        r.deep_view() == equalities(columns.deep_view()),
{
    let ghost all = equalities(columns.deep_view());
    let mut out: Vec<Filter> = Vec::new();
    let mut i: usize = 0;
    while i < columns.len()
        invariant
            i <= columns@.len(),
            all == equalities(columns.deep_view()),
            out.deep_view() == all.take(i as int),
        decreases columns.len() - i,
    {
        assert(columns.deep_view()[i as int] == columns@[i as int].deep_view());
        push_item(&mut out, Filter::Eq(columns[i].0.clone(), columns[i].1.to_val()));
        i += 1;
        assert(all.take(i as int) =~= all.take(i - 1).push(all[i - 1]));
    }
    assert(all.take(columns@.len() as int) =~= all);
    out
}

/// The query that looks for a document under some conditions.
pub open spec fn taken_query(table: Seq<char>, conditions: Seq<FilterV>) -> QueryV {
    QueryV {
        columns: seq!["_id"@],
        filter: Some(FilterV::And(conditions)),
        limit: Some(1),
        ..all_of(table)
    }
}

/// The query that looks for a document under some conditions.
pub fn build_taken_query(table: &str, conditions: Vec<Filter>) -> (r: Query)
    ensures
        r.deep_view() == taken_query(table@, conditions.deep_view()),
{
    broadcast use crate::ast::lemma_and_view;

    let mut q = Query::of(table);
    let mut columns: Vec<String> = Vec::new();
    push_item(&mut columns, "_id".to_owned());
    assert(columns.deep_view() =~= seq!["_id"@]);
    q.columns = columns;
    q.filter = Some(Filter::And(conditions));
    q.limit = Some(1);
    q
}

/// The first check, at or after `from`, that is on a column.
pub open spec fn next_check(checks: Seq<UniqueCheckV>, from: int) -> Option<int>
    decreases checks.len() - from,
{
    if from < 0 || from >= checks.len() {
        None
    } else if checks[from].columns.len() > 0 {
        Some(from)
    } else {
        next_check(checks, from + 1)
    }
}

/// The first check, at or after `from`, that is on a column.
pub fn find_next_check(checks: &Vec<UniqueCheck>, from: usize) -> (r: Option<usize>)
    ensures
        match r {
            Some(i) => i < checks@.len() && next_check(checks.deep_view(), from as int) == Some(
                i as int,
            ),
            None => next_check(checks.deep_view(), from as int) is None,
        },
{
    let ghost cs = checks.deep_view();
    let mut i: usize = from;
    while i < checks.len()
        invariant
            from <= i,
            cs == checks.deep_view(),
            next_check(cs, from as int) == next_check(cs, i as int),
        decreases checks.len() - i,
    {
        assert(cs[i as int] == checks@[i as int].deep_view());
        assert(checks@[i as int].columns.deep_view().len() == checks@[i as int].columns@.len());
        if checks[i].columns.len() > 0 {
            return Some(i);
        }
        i += 1;
    }
    None
}

/// The identifier of a row that was inserted: that of the first row that came
/// back, or its first value; where none came back, that of the document.
pub open spec fn row_id(rows: Seq<JsonV>, doc: Fields) -> JsonV {
    if rows.len() > 0 {
        match field(rows[0], "id"@) {
            Some(v) => v,
            None => match rows[0] {
                JsonV::Array(items) => if items.len() > 0 {
                    items[0]
                } else {
                    JsonV::Null
                },
                _ => JsonV::Null,
            },
        }
    } else {
        known_id(doc)
    }
}

/// The identifier in a document.
pub open spec fn known_id(doc: Fields) -> JsonV {
    match lookup(doc, "id"@) {
        Some(v) => v,
        None => JsonV::Null,
    }
}

fn read_known_id(doc: &Vec<(String, Json)>) -> (r: Json)
    ensures
        r.deep_view() == known_id(doc.deep_view()),
{
    match get_in(doc, "id") {
        Some(v) => v.copy(),
        None => Json::Null,
    }
}

/// The identifier of a row that was inserted.
pub fn read_row_id(rows: &Vec<Json>, doc: &Vec<(String, Json)>) -> (r: Json)
    ensures
        r.deep_view() == row_id(rows.deep_view(), doc.deep_view()),
{
    broadcast use lemma_array_view;

    assert(rows.deep_view().len() == rows@.len());
    if rows.len() > 0 {
        assert(rows.deep_view()[0] == rows@[0].deep_view());
        match rows[0].get("id") {
            Some(v) => v.copy(),
            None => match &rows[0] {
                Json::Array(items) => {
                    assert(items.deep_view().len() == items@.len());
                    if items.len() > 0 {
                        assert(items.deep_view()[0] == items@[0].deep_view());
                        items[0].copy()
                    } else {
                        Json::Null
                    }
                },
                _ => Json::Null,
            },
        }
    } else {
        read_known_id(doc)
    }
}

/// A document with an identifier, unless it has one or there is none to give.
pub open spec fn with_id(doc: Fields, id: JsonV) -> Fields {
    if id != JsonV::Null && lookup(doc, "id"@) is None {
        with_field(doc, "id"@, id)
    } else {
        doc
    }
}

fn add_id(doc: &mut Vec<(String, Json)>, id: &Json)
    ensures
        final(doc).deep_view() == with_id(old(doc).deep_view(), id.deep_view()),
{
    let null = match id {
        Json::Null => true,
        _ => false,
    };
    if !null && get_in(doc, "id").is_none() {
        set_in(doc, "id", id.copy());
    }
}

/// Fields with others put over them.
pub open spec fn overlaid(fields: Fields, more: Fields) -> Fields
    decreases more.len(),
{
    if more.len() == 0 {
        fields
    } else {
        with_field(overlaid(fields, more.drop_last()), more.last().0, more.last().1)
    }
}

/// Puts fields over others.
pub fn overlay(fields: &mut Vec<(String, Json)>, more: &Vec<(String, Json)>)
    ensures
        final(fields).deep_view() == overlaid(old(fields).deep_view(), more.deep_view()),
{
    let ghost ms = more.deep_view();
    let ghost start = fields.deep_view();
    let mut i: usize = 0;
    while i < more.len()
        invariant
            i <= more@.len(),
            ms == more.deep_view(),
            fields.deep_view() == overlaid(start, ms.take(i as int)),
        decreases more.len() - i,
    {
        assert(ms.take(i + 1).drop_last() =~= ms.take(i as int));
        assert(ms[i as int] == more@[i as int].deep_view());
        set_in(fields, more[i].0.as_str(), more[i].1.copy());
        i += 1;
    }
    assert(ms.take(ms.len() as int) =~= ms);
}

/// The body that a step after the insertion sees: that of the request with the
/// document over it, and the identifier as `id_new` too, unless there is one.
pub open spec fn merged_body(body: JsonV, doc: Fields) -> JsonV {
    let merged = overlaid(fields_of(body), doc);
    match lookup(merged, "id_new"@) {
        Some(_) => JsonV::Object(merged),
        None => match lookup(merged, "id"@) {
            Some(id) => JsonV::Object(with_field(merged, "id_new"@, id)),
            None => JsonV::Object(merged),
        },
    }
}

/// The body that a step after the insertion sees.
pub fn merge_body(body: &Json, doc: &Vec<(String, Json)>) -> (r: Json)
    ensures
        r.deep_view() == merged_body(body.deep_view(), doc.deep_view()),
{
    broadcast use lemma_object_view;

    let mut merged = match body {
        Json::Object(fields) => copy_fields(fields),
        _ => {
            let none: Vec<(String, Json)> = Vec::new();
            assert(none.deep_view() =~= Seq::empty());
            none
        },
    };
    overlay(&mut merged, doc);
    if get_in(&merged, "id_new").is_none() {
        let id = match get_in(&merged, "id") {
            Some(v) => Some(v.copy()),
            None => None,
        };
        match id {
            Some(v) => {
                set_in(&mut merged, "id_new", v);
            },
            None => {},
        }
    }
    Json::Object(merged)
}

/// The key of a row as triggers get it.
pub open spec fn key_text(doc: Fields) -> Seq<char> {
    match lookup(doc, "id"@) {
        Some(JsonV::Str(s)) => s,
        Some(v) => json_text(v),
        None => Seq::empty(),
    }
}

fn read_key_text(doc: &Vec<(String, Json)>) -> (r: String)
    ensures
        r@ == key_text(doc.deep_view()),
{
    match get_in(doc, "id") {
        Some(v) => match v {
            Json::Str(s) => s.clone(),
            _ => v.text(),
        },
        None => String::new(),
    }
}

// ---------------------------------------------------------------------------
// Where the running number comes from
// ---------------------------------------------------------------------------

/// The address that gives running numbers, where one is configured.
pub open spec fn number_endpoint(schema: TableSchema) -> Option<Seq<char>> {
    match column_named(schema.columns@, "id"@) {
        Some(c) => if trim(c.function_endpoint@).len() > 0 {
            Some(c.function_endpoint@)
        } else {
            None
        },
        None => None,
    }
}

/// Where the running number stands in the answer of that address.
pub open spec fn number_path(schema: TableSchema) -> Seq<char> {
    match column_named(schema.columns@, "id"@) {
        Some(c) => if trim(c.function_endpoint_path@).len() > 0 {
            c.function_endpoint_path@
        } else {
            "data"@
        },
        None => "data"@,
    }
}

fn find_endpoint(schema: &TableSchema) -> (r: Option<String>)
    ensures
        r.deep_view() == number_endpoint(*schema),
{
    match find_column(&schema.columns, "id") {
        Some(c) => if !blank(c.function_endpoint.as_str()) {
            Some(c.function_endpoint.clone())
        } else {
            None
        },
        None => None,
    }
}

fn find_path(schema: &TableSchema) -> (r: String)
    ensures
        r@ == number_path(*schema),
{
    match find_column(&schema.columns, "id") {
        Some(c) => if !blank(c.function_endpoint_path.as_str()) {
            c.function_endpoint_path.clone()
        } else {
            "data".to_owned()
        },
        None => "data".to_owned(),
    }
}

// ---------------------------------------------------------------------------
// The steps
// ---------------------------------------------------------------------------

/// Where an insertion stands.
#[derive(Debug, PartialEq, Eq, Clone, Copy, Structural)]
pub enum RowStage {
    Start,
    /// All foreign keys are checked at once.
    Keys,
    /// This foreign key is checked.
    Key(usize),
    /// All unique indexes are checked at once.
    Unique,
    /// This unique index is checked.
    Index(usize),
    Beginning,
    Address,
    Number,
    Highest,
    Storing,
    /// This item of this detail is stored.
    StoringItem(usize, usize),
    Asking,
    Validating,
    PreProcessing,
    Compiling,
    Running,
    LastId,
    /// The rows of this detail are compiled.
    CompilingRows(usize),
    /// The rows of this detail are inserted.
    RunningRows(usize),
    PostProcessing,
    Triggering,
    Committing,
    Ended,
}

/// An insertion under way: what is inserted changes as its identifier becomes
/// known.
#[derive(Debug)]
pub struct RowInsertion {
    pub target: RowTarget,
    pub stage: RowStage,
    pub plan: RowPlan,
}

/// What follows from a step: where the insertion stands, what is inserted and
/// what the step asks for.
pub type RowTurn = (RowStage, RowPlanV, WorkV);

/// The insertion ends.
pub open spec fn row_ends(p: RowPlanV, w: WorkV) -> RowTurn {
    (RowStage::Ended, p, w)
}

/// Something is asked for.
pub open spec fn row_asks(stage: RowStage, p: RowPlanV, a: ActionV) -> RowTurn {
    (stage, p, WorkV::Ask(a))
}

/// The insertion fails; a transaction that is open is dropped.
pub open spec fn row_drops(q: RowTarget, p: RowPlanV, message: Seq<char>) -> RowTurn {
    if q.mongodb {
        row_ends(p, WorkV::Fail(message))
    } else {
        row_ends(p, WorkV::Abandon(message))
    }
}

/// The row was inserted.
pub open spec fn row_done(p: RowPlanV) -> RowTurn {
    row_ends(p, WorkV::Finish("Data inserted successfully"@, 1, JsonV::Object(p.doc)))
}

/// The foreign keys are checked: all at once, or one after the other.
pub open spec fn row_keys(q: RowTarget, p: RowPlanV) -> RowTurn {
    if p.checks.len() > 0 && !q.mongodb {
        row_asks(RowStage::Keys, p, ActionV::CheckKeys(p.checks))
    } else {
        row_key(q, p, 0)
    }
}

/// The `k`-th foreign key is checked, or the unique indexes are.
pub open spec fn row_key(q: RowTarget, p: RowPlanV, k: int) -> RowTurn {
    if 0 <= k < p.checks.len() {
        row_asks(RowStage::Key(k as usize), p, ActionV::RunQuery(key_query(p.checks[k])))
    } else {
        row_unique(q, p)
    }
}

/// The checks of the unique indexes of a row.
pub open spec fn row_checks(q: RowTarget, p: RowPlanV) -> Seq<UniqueCheckV> {
    unique_checks(q.schema.indexes@, q.schema.columns@, p.body)
}

/// The unique indexes are checked: all at once, or one after the other.
pub open spec fn row_unique(q: RowTarget, p: RowPlanV) -> RowTurn {
    if row_checks(q, p).len() > 0 && !q.mongodb {
        row_asks(
            RowStage::Unique,
            p,
            ActionV::CheckUnique(q.schema.table@, row_checks(q, p), None),
        )
    } else if q.mongodb {
        row_index(q, p, 0)
    } else {
        row_asks(RowStage::Beginning, p, ActionV::Begin)
    }
}

/// The next unique index, at or after `k`, is checked.
pub open spec fn row_index(q: RowTarget, p: RowPlanV, k: int) -> RowTurn {
    match next_check(row_checks(q, p), k) {
        Some(i) => row_asks(
            RowStage::Index(i as usize),
            p,
            ActionV::RunQuery(
                taken_query(q.schema.table@, equalities(row_checks(q, p)[i].columns)),
            ),
        ),
        None => row_numbered(q, p),
    }
}

/// The parts of the identifier in front of the running number.
pub open spec fn row_prefix(q: RowTarget, p: RowPlanV) -> Seq<char> {
    join(parts_of_tokens(p.tokens, p.body, q.today, true), "/"@)
}

/// The identifier is generated, where it is to be.
pub open spec fn row_numbered(q: RowTarget, p: RowPlanV) -> RowTurn {
    if p.tokens.len() == 0 {
        row_written(q, p)
    } else {
        match number_endpoint(q.schema) {
            Some(url) => row_asks(
                RowStage::Address,
                p,
                ActionV::BuildUrl(url, p.body),
            ),
            None => row_asks(
                RowStage::Highest,
                p,
                ActionV::RunQuery(highest_query(q.schema.table@, row_prefix(q, p))),
            ),
        }
    }
}

/// The plan of a row with its generated identifier.
pub open spec fn identified(p: RowPlanV, id: Seq<char>) -> RowPlanV {
    RowPlanV {
        doc: with_field(p.doc, "id"@, JsonV::Str(id)),
        fields: p.fields.push(("id"@, InsertValueV::Param(Scalar::Str(id)))),
        ..p
    }
}

/// The identifier with this running number is given to the row.
pub open spec fn row_given(q: RowTarget, p: RowPlanV, n: i64) -> RowTurn {
    let (place, width) = number_place(p.tokens, true);
    match id_with_number(
        parts_of_tokens(p.tokens, p.body, q.today, true),
        place as int,
        number_text(n as int, width as int),
    ) {
        Some(id) => row_written(q, identified(p, id)),
        None => row_asks(RowStage::Ended, p, ActionV::Fault),
    }
}

/// The row is stored, or the configured checks of it begin.
pub open spec fn row_written(q: RowTarget, p: RowPlanV) -> RowTurn {
    if q.mongodb {
        row_asks(
            RowStage::Storing,
            p,
            ActionV::StoreInsert(q.schema.table@, JsonV::Object(p.doc)),
        )
    } else if starts_with(q.schema.post.validate_data@, "API:"@) {
        row_asks(
            RowStage::Asking,
            p,
            ActionV::ValidateApi(q.schema.post.validate_data@, p.body),
        )
    } else {
        row_validated(q, p)
    }
}

/// The plan of a row that was stored: its document and its details have its
/// identifier.
pub open spec fn stored_plan(p: RowPlanV, returned: JsonV) -> RowPlanV {
    let doc = with_id(p.doc, returned);
    let details = shown_details(p.details, known_id(doc));
    RowPlanV { doc: with_details(doc, details), details, ..p }
}

/// The next item, at or after the `i`-th of the `b`-th detail, is stored.
pub open spec fn row_item(q: RowTarget, p: RowPlanV, b: int, i: int) -> RowTurn
    decreases p.details.len() - b,
{
    if b < 0 || b >= p.details.len() {
        row_done(p)
    } else if 0 <= i < p.details[b].response_items.len() {
        row_asks(
            RowStage::StoringItem(b as usize, i as usize),
            p,
            ActionV::StoreInsert(
                p.details[b].target_table,
                JsonV::Object(p.details[b].response_items[i]),
            ),
        )
    } else {
        row_item(q, p, b + 1, 0)
    }
}

/// The configured validation is run, where there is one.
pub open spec fn row_validated(q: RowTarget, p: RowPlanV) -> RowTurn {
    if has_statement(q.schema.post.validate_data@) {
        row_asks(
            RowStage::Validating,
            p,
            ActionV::CheckFormula(q.schema.post.validate_data@, p.body),
        )
    } else {
        row_preprocessed(q, p)
    }
}

/// What is configured to run before the insertion is run.
pub open spec fn row_preprocessed(q: RowTarget, p: RowPlanV) -> RowTurn {
    if has_statement(q.schema.post.pre_process@) {
        row_asks(
            RowStage::PreProcessing,
            p,
            ActionV::RunFormula(q.schema.post.pre_process@, p.body),
        )
    } else {
        row_compiled(q, p)
    }
}

/// The insertion is compiled.
pub open spec fn row_compiled(q: RowTarget, p: RowPlanV) -> RowTurn {
    row_asks(
        RowStage::Compiling,
        p,
        ActionV::CompileInsert(q.schema.table@, p.fields, seq!["id"@]),
    )
}

/// The plan of a row that was inserted under an identifier: its document and its
/// details have the identifier.
pub open spec fn inserted_plan(p: RowPlanV, id: JsonV) -> RowPlanV {
    let details = keyed_details(p.details, id);
    RowPlanV { doc: with_details(with_id(p.doc, id), details), details, ..p }
}

/// The rows of the next detail, at or after the `b`-th, are compiled.
pub open spec fn row_detail(q: RowTarget, p: RowPlanV, b: int) -> RowTurn
    decreases p.details.len() - b,
{
    if b < 0 || b >= p.details.len() {
        row_postprocessed(q, p)
    } else if p.details[b].rows.len() > 0 {
        row_asks(
            RowStage::CompilingRows(b as usize),
            p,
            ActionV::CompileBulk(
                p.details[b].target_table,
                p.details[b].columns,
                p.details[b].rows,
            ),
        )
    } else {
        row_detail(q, p, b + 1)
    }
}

/// What is configured to run after the insertion is run.
pub open spec fn row_postprocessed(q: RowTarget, p: RowPlanV) -> RowTurn {
    if has_statement(q.schema.post.post_process@) {
        row_asks(
            RowStage::PostProcessing,
            p,
            ActionV::RunFormula(
                q.schema.post.post_process@,
                merged_body(p.body, p.doc),
            ),
        )
    } else {
        row_triggered(q, p)
    }
}

/// The triggers are run, where there are any.
pub open spec fn row_triggered(q: RowTarget, p: RowPlanV) -> RowTurn {
    if q.schema.action_triggers > 0 {
        row_asks(
            RowStage::Triggering,
            p,
            ActionV::RunTriggers(
                TriggerV {
                    event: "on_create"@,
                    action: "TRIGGER_CREATE"@,
                    key: key_text(p.doc),
                    actor: None,
                    old_record: Seq::empty(),
                    new_record: p.doc,
                    body: p.body,
                },
            ),
        )
    } else {
        row_asks(RowStage::Committing, p, ActionV::Commit)
    }
}

/// The value that a step gave.
pub open spec fn value_in(o: Outcome) -> JsonV {
    match o {
        Outcome::Value(v) => v.deep_view(),
        _ => JsonV::Null,
    }
}

/// The address that was built.
pub open spec fn url_in(o: Outcome) -> Seq<char> {
    match o {
        Outcome::Texts(ts) => if ts@.len() > 0 {
            ts@[0]@
        } else {
            Seq::empty()
        },
        _ => Seq::empty(),
    }
}

/// The running number that a service gave, or what is wrong with its answer.
pub open spec fn fetched_number(o: Outcome, path: Seq<char>, prefix: Seq<char>) -> Result<
    i64,
    Seq<char>,
> {
    match o {
        Outcome::Rejected(status, text) => Err(
            "ID endpoint returned "@ + status@ + ": "@ + text@,
        ),
        Outcome::NotBuilt(e) => Err("ID endpoint response is not valid JSON: "@ + e@),
        Outcome::Failed(e) => Err("ID endpoint request failed: "@ + e@),
        Outcome::Picked(v) => number_in_answer(v.deep_view(), path, prefix),
        _ => number_in_answer(None, path, prefix),
    }
}

/// The target table of a detail.
pub open spec fn detail_table(p: RowPlanV, b: int) -> Seq<char> {
    if 0 <= b < p.details.len() {
        p.details[b].target_table
    } else {
        Seq::empty()
    }
}

/// The next step of an insertion, before anything is written.
pub open spec fn row_next_checks(q: RowTarget, stage: RowStage, p: RowPlanV, o: Outcome) -> RowTurn {
    match stage {
        RowStage::Start => row_keys(q, p),
        RowStage::Keys => match o {
            Outcome::NotBuilt(e) => row_ends(
                p,
                WorkV::Fail("Error building FK check query: "@ + e@),
            ),
            Outcome::Failed(e) => row_ends(p, WorkV::Fail("FK batch validation failed: "@ + e@)),
            _ => match fk_verdict(rows_in(o), Reading::TrueOrOne) {
                Some(m) => row_ends(p, WorkV::Fail(m)),
                None => row_unique(q, p),
            },
        },
        RowStage::Key(k) => match failure_in(o) {
            Some(e) => row_ends(p, WorkV::Fail("Error validating FK (mongo): "@ + e)),
            None => if rows_in(o).len() == 0 && k < p.checks.len() {
                row_ends(
                    p,
                    WorkV::Fail(invalid_key(p.checks[k as int].column, p.checks[k as int].table)),
                )
            } else {
                row_key(q, p, k + 1)
            },
        },
        RowStage::Unique => match o {
            Outcome::NotBuilt(e) => row_ends(
                p,
                WorkV::Fail("Error building unique check query: "@ + e@),
            ),
            Outcome::Failed(e) => row_ends(
                p,
                WorkV::Fail("Unique batch validation failed: "@ + e@),
            ),
            _ => match unique_verdict(rows_in(o), row_checks(q, p), Reading::TrueOrOne) {
                Some(m) => row_ends(p, WorkV::Fail(m)),
                None => row_asks(RowStage::Beginning, p, ActionV::Begin),
            },
        },
        RowStage::Index(k) => match failure_in(o) {
            Some(e) => row_ends(p, WorkV::Fail("Error validating Unique (mongo): "@ + e)),
            None => if rows_in(o).len() > 0 && k < row_checks(q, p).len() {
                row_ends(
                    p,
                    WorkV::Fail(
                        "Unique constraint violation on index: "@ + row_checks(q, p)[k as int].index_name,
                    ),
                )
            } else {
                row_index(q, p, k + 1)
            },
        },
        RowStage::Beginning => match failure_in(o) {
            Some(e) => row_ends(p, WorkV::Fail("Error starting transaction: "@ + e)),
            None => row_numbered(q, p),
        },
        RowStage::Address => match failure_in(o) {
            Some(e) => row_drops(q, p, "ID endpoint URL build failed: "@ + e),
            None => row_asks(
                RowStage::Number,
                p,
                ActionV::FetchNumber(
                    number_url(url_in(o), row_prefix(q, p)),
                    number_path(q.schema),
                ),
            ),
        },
        RowStage::Number => match fetched_number(o, number_path(q.schema), row_prefix(q, p)) {
            Ok(n) => row_given(q, p, n),
            Err(m) => row_drops(q, p, m),
        },
        _ => match next_number(highest_id(rows_in(o)), number_place(p.tokens, true).1) {
            Some(n) => row_given(q, p, n),
            None => row_asks(RowStage::Ended, p, ActionV::Fault),
        },
    }
}

/// The next step of an insertion, once the row is written.
pub open spec fn row_next_writes(q: RowTarget, stage: RowStage, p: RowPlanV, o: Outcome) -> RowTurn {
    match stage {
        RowStage::Storing => match failure_in(o) {
            Some(e) => row_ends(p, WorkV::Fail("Error NCO-POST (mongo): "@ + e)),
            None => row_item(q, stored_plan(p, value_in(o)), 0, 0),
        },
        RowStage::StoringItem(b, i) => match failure_in(o) {
            Some(e) => row_ends(p, WorkV::Fail("Error inserting detail (mongo): "@ + e)),
            None => row_item(q, p, b as int, i + 1),
        },
        RowStage::Asking => match failure_in(o) {
            Some(e) => row_ends(p, WorkV::Abort(e)),
            None => row_validated(q, p),
        },
        RowStage::Validating => match o {
            Outcome::NotBuilt(e) => row_ends(
                p,
                WorkV::Abort("Error building validation SQL: "@ + e@),
            ),
            Outcome::Failed(e) => row_ends(p, WorkV::Abort("Error validating data: "@ + e@)),
            _ => match validation_verdict(rows_in(o)) {
                Some(m) => row_ends(p, WorkV::Abort(m)),
                None => row_preprocessed(q, p),
            },
        },
        RowStage::PreProcessing => match failure_in(o) {
            Some(e) => row_ends(p, WorkV::Abort("Error in pre-process: "@ + e)),
            None => row_compiled(q, p),
        },
        RowStage::Compiling => match failure_in(o) {
            Some(e) => row_ends(p, WorkV::Abort("Error compiling AST INSERT: "@ + e)),
            None => row_asks(RowStage::Running, p, ActionV::RunCompiled),
        },
        RowStage::Running => match failure_in(o) {
            Some(e) => row_ends(p, WorkV::Abort("Error executing insert: "@ + e)),
            None => {
                let id = row_id(rows_in(o), p.doc);
                if id == JsonV::Null && q.mysql {
                    row_asks(
                        RowStage::LastId,
                        p,
                        ActionV::RunSql("SELECT LAST_INSERT_ID() as id"@, Seq::empty()),
                    )
                } else {
                    row_detail(q, inserted_plan(p, id), 0)
                }
            },
        },
        RowStage::LastId => row_detail(
            q,
            inserted_plan(
                p,
                if rows_in(o).len() > 0 {
                    known_id(fields_of(rows_in(o)[0]))
                } else {
                    JsonV::Null
                },
            ),
            0,
        ),
        RowStage::CompilingRows(b) => match failure_in(o) {
            Some(e) => row_ends(
                p,
                WorkV::Abandon(
                    "Error building bulk insert for "@ + detail_table(p, b as int) + ": "@ + e,
                ),
            ),
            None => row_asks(RowStage::RunningRows(b), p, ActionV::RunCompiled),
        },
        RowStage::RunningRows(b) => match failure_in(o) {
            Some(e) => row_ends(
                p,
                WorkV::Abort(
                    "Error inserting detail items into "@ + detail_table(p, b as int) + ": "@ + e,
                ),
            ),
            None => row_detail(q, p, b + 1),
        },
        RowStage::PostProcessing => match failure_in(o) {
            Some(e) => row_ends(p, WorkV::Abort("Error in post-process: "@ + e)),
            None => row_triggered(q, p),
        },
        RowStage::Triggering => match failure_in(o) {
            Some(e) => row_ends(p, WorkV::Abort("Action trigger on_create failed: "@ + e)),
            None => row_asks(RowStage::Committing, p, ActionV::Commit),
        },
        RowStage::Committing => match failure_in(o) {
            Some(e) => row_ends(p, WorkV::Fail("Error committing transaction: "@ + e)),
            None => row_done(p),
        },
        _ => row_asks(RowStage::Ended, p, ActionV::Nothing),
    }
}

/// The stages before anything is written.
pub open spec fn is_checking(stage: RowStage) -> bool {
    match stage {
        RowStage::Start => true,
        RowStage::Keys => true,
        RowStage::Key(_) => true,
        RowStage::Unique => true,
        RowStage::Index(_) => true,
        RowStage::Beginning => true,
        RowStage::Address => true,
        RowStage::Number => true,
        RowStage::Highest => true,
        _ => false,
    }
}

/// The next step of an insertion.
pub open spec fn row_next(q: RowTarget, stage: RowStage, p: RowPlanV, o: Outcome) -> RowTurn {
    if is_checking(stage) {
        row_next_checks(q, stage, p, o)
    } else {
        row_next_writes(q, stage, p, o)
    }
}

/// A copy of some checks.
pub fn copy_checks(checks: &Vec<FkCheck>) -> (r: Vec<FkCheck>)
    ensures
        r.deep_view() == checks.deep_view(),
{
    let ghost cs = checks.deep_view();
    let mut out: Vec<FkCheck> = Vec::new();
    let mut i: usize = 0;
    assert(out.deep_view() =~= cs.take(0));
    while i < checks.len()
        invariant
            i <= checks@.len(),
            cs == checks.deep_view(),
            out.deep_view() == cs.take(i as int),
        decreases checks.len() - i,
    {
        let c = &checks[i];
        assert(cs[i as int] == c.deep_view());
        push_item(
            &mut out,
            FkCheck {
                column: c.column.clone(),
                table: c.table.clone(),
                ref_column: c.ref_column.clone(),
                value: c.value.clone(),
                type_data: c.type_data.clone(),
            },
        );
        i += 1;
        assert(cs.take(i as int) =~= cs.take(i - 1).push(cs[i - 1]));
    }
    assert(cs.take(cs.len() as int) =~= cs);
    out
}

/// An insertion that has not begun.
pub fn perform_insert(target: RowTarget, plan: RowPlan) -> (r: RowInsertion)
    ensures
        r.target == target,
        r.stage == RowStage::Start,
        r.plan == plan,
{
    RowInsertion { target, stage: RowStage::Start, plan }
}

impl RowInsertion {
    /// Where the insertion stands, what is inserted, and what it asks for.
    pub open spec fn turn(&self, w: Work) -> RowTurn {
        (self.stage, self.plan.deep_view(), w.deep_view())
    }

    /// Whether the insertion is over.
    pub fn ended(&self) -> (r: bool)
        ensures
            r == (self.stage == RowStage::Ended),
    {
        match self.stage {
            RowStage::Ended => true,
            _ => false,
        }
    }

    fn end(&mut self, w: Work) -> (r: Work)
        ensures
            final(self).target == old(self).target,
            final(self).turn(r) == row_ends(old(self).plan.deep_view(), w.deep_view()),
    {
        self.stage = RowStage::Ended;
        w
    }

    fn ask(&mut self, stage: RowStage, a: Action) -> (r: Work)
        ensures
            final(self).target == old(self).target,
            final(self).turn(r) == row_asks(stage, old(self).plan.deep_view(), a.deep_view()),
    {
        self.stage = stage;
        Work::Ask(a)
    }

    fn drop_it(&mut self, message: String) -> (r: Work)
        ensures
            final(self).target == old(self).target,
            final(self).turn(r) == row_drops(
                old(self).target,
                old(self).plan.deep_view(),
                message@,
            ),
    {
        if self.target.mongodb {
            self.end(Work::Fail(message))
        } else {
            self.end(Work::Abandon(message))
        }
    }

    fn done(&mut self) -> (r: Work)
        ensures
            final(self).target == old(self).target,
            final(self).turn(r) == row_done(old(self).plan.deep_view()),
    {
        let doc = copy_fields(&self.plan.doc);
        proof {
            lemma_object_view(doc);
        }
        self.end(Work::Finish("Data inserted successfully".to_owned(), 1, Json::Object(doc)))
    }

    fn keys(&mut self) -> (r: Work)
        ensures
            final(self).target == old(self).target,
            final(self).turn(r) == row_keys(old(self).target, old(self).plan.deep_view()),
    {
        assert(self.plan.checks.deep_view().len() == self.plan.checks@.len());
        if self.plan.checks.len() > 0 && !self.target.mongodb {
            let checks = copy_checks(&self.plan.checks);
            self.ask(RowStage::Keys, Action::CheckKeys(checks))
        } else {
            self.key(0)
        }
    }

    fn key(&mut self, k: usize) -> (r: Work)
        ensures
            final(self).target == old(self).target,
            final(self).turn(r) == row_key(
                old(self).target,
                old(self).plan.deep_view(),
                k as int,
            ),
    {
        assert(self.plan.checks.deep_view().len() == self.plan.checks@.len());
        if k < self.plan.checks.len() {
            assert(self.plan.checks.deep_view()[k as int]
                == self.plan.checks@[k as int].deep_view());
            let q = build_key_query(&self.plan.checks[k]);
            self.ask(RowStage::Key(k), Action::RunQuery(q))
        } else {
            self.unique()
        }
    }

    fn checks(&self) -> (r: Vec<UniqueCheck>)
        ensures
            r.deep_view() == row_checks(self.target, self.plan.deep_view()),
            r@.len() == row_checks(self.target, self.plan.deep_view()).len(),
    {
        let r = build_unique_checks(
            &self.target.schema.indexes,
            &self.target.schema.columns,
            &self.plan.body,
        );
        assert(r.deep_view().len() == r@.len());
        r
    }

    fn unique(&mut self) -> (r: Work)
        ensures
            final(self).target == old(self).target,
            final(self).turn(r) == row_unique(old(self).target, old(self).plan.deep_view()),
    {
        let checks = self.checks();
        if checks.len() > 0 && !self.target.mongodb {
            let table = self.target.schema.table.clone();
            self.ask(RowStage::Unique, Action::CheckUnique(table, checks, None))
        } else if self.target.mongodb {
            self.index(0)
        } else {
            self.ask(RowStage::Beginning, Action::Begin)
        }
    }

    fn index(&mut self, k: usize) -> (r: Work)
        ensures
            final(self).target == old(self).target,
            final(self).turn(r) == row_index(
                old(self).target,
                old(self).plan.deep_view(),
                k as int,
            ),
    {
        let checks = self.checks();
        match find_next_check(&checks, k) {
            Some(i) => {
                assert(checks.deep_view()[i as int] == checks@[i as int].deep_view());
                let conditions = build_equalities(&checks[i].columns);
                let q = build_taken_query(self.target.schema.table.as_str(), conditions);
                self.ask(RowStage::Index(i), Action::RunQuery(q))
            },
            None => self.numbered(),
        }
    }

    fn prefix(&self) -> (r: String)
        ensures
            r@ == row_prefix(self.target, self.plan.deep_view()),
    {
        let plan = plan_id(&self.plan.tokens, &self.plan.body, &self.target.today);
        plan.prefix()
    }

    fn numbered(&mut self) -> (r: Work)
        ensures
            final(self).target == old(self).target,
            final(self).turn(r) == row_numbered(old(self).target, old(self).plan.deep_view()),
    {
        assert(self.plan.tokens.deep_view().len() == self.plan.tokens@.len());
        if self.plan.tokens.len() == 0 {
            self.written()
        } else {
            match find_endpoint(&self.target.schema) {
                Some(url) => {
                    let body = self.plan.body.copy();
                    self.ask(RowStage::Address, Action::BuildUrl(url, body))
                },
                None => {
                    let prefix = self.prefix();
                    let q = build_highest_query(
                        self.target.schema.table.as_str(),
                        prefix.as_str(),
                    );
                    self.ask(RowStage::Highest, Action::RunQuery(q))
                },
            }
        }
    }

    fn given(&mut self, n: i64) -> (r: Work)
        ensures
            final(self).target == old(self).target,
            final(self).turn(r) == row_given(old(self).target, old(self).plan.deep_view(), n),
    {
        let plan = plan_id(&self.plan.tokens, &self.plan.body, &self.target.today);
        match plan.finish(n) {
            Some(id) => {
                let ghost before = self.plan.deep_view();
                set_in(&mut self.plan.doc, "id", Json::Str(id.clone()));
                push_item(
                    &mut self.plan.fields,
                    ("id".to_owned(), InsertValue::Param(DbParam::Str(id))),
                );
                assert(self.plan.deep_view() == identified(before, id@));
                self.written()
            },
            None => self.ask(RowStage::Ended, Action::Fault),
        }
    }

    fn written(&mut self) -> (r: Work)
        ensures
            final(self).target == old(self).target,
            final(self).turn(r) == row_written(old(self).target, old(self).plan.deep_view()),
    {
        if self.target.mongodb {
            let doc = copy_fields(&self.plan.doc);
            proof {
                lemma_object_view(doc);
            }
            let table = self.target.schema.table.clone();
            self.ask(RowStage::Storing, Action::StoreInsert(table, Json::Object(doc)))
        } else if crate::text::begins_with(self.target.schema.post.validate_data.as_str(), "API:") {
            let formula = self.target.schema.post.validate_data.clone();
            let body = self.plan.body.copy();
            self.ask(RowStage::Asking, Action::ValidateApi(formula, body))
        } else {
            self.validated()
        }
    }

    fn validated(&mut self) -> (r: Work)
        ensures
            final(self).target == old(self).target,
            final(self).turn(r) == row_validated(old(self).target, old(self).plan.deep_view()),
    {
        if holds_statement(self.target.schema.post.validate_data.as_str()) {
            let formula = self.target.schema.post.validate_data.clone();
            let body = self.plan.body.copy();
            self.ask(RowStage::Validating, Action::CheckFormula(formula, body))
        } else {
            self.preprocessed()
        }
    }

    fn preprocessed(&mut self) -> (r: Work)
        ensures
            final(self).target == old(self).target,
            final(self).turn(r) == row_preprocessed(old(self).target, old(self).plan.deep_view()),
    {
        if holds_statement(self.target.schema.post.pre_process.as_str()) {
            let formula = self.target.schema.post.pre_process.clone();
            let body = self.plan.body.copy();
            self.ask(RowStage::PreProcessing, Action::RunFormula(formula, body))
        } else {
            self.compiled()
        }
    }

    fn compiled(&mut self) -> (r: Work)
        ensures
            final(self).target == old(self).target,
            final(self).turn(r) == row_compiled(old(self).target, old(self).plan.deep_view()),
    {
        let table = self.target.schema.table.clone();
        let fields = copy_field_values(&self.plan.fields);
        let mut returning: Vec<String> = Vec::new();
        push_item(&mut returning, "id".to_owned());
        assert(returning.deep_view() =~= seq!["id"@]);
        self.ask(RowStage::Compiling, Action::CompileInsert(table, fields, returning))
    }

    fn stored(&mut self, returned: &Json)
        ensures
            final(self).target == old(self).target,
            final(self).stage == old(self).stage,
            final(self).plan.deep_view() == stored_plan(
                old(self).plan.deep_view(),
                returned.deep_view(),
            ),
    {
        add_id(&mut self.plan.doc, returned);
        let id = read_known_id(&self.plan.doc);
        let mut details: Vec<PreparedDetailBatch> = Vec::new();
        std::mem::swap(&mut details, &mut self.plan.details);
        let details = show_details(details, &id);
        add_details(&mut self.plan.doc, &details);
        self.plan.details = details;
    }

    fn item(&mut self, from: usize, at: usize) -> (r: Work)
        ensures
            final(self).target == old(self).target,
            final(self).turn(r) == row_item(
                old(self).target,
                old(self).plan.deep_view(),
                from as int,
                at as int,
            ),
    {
        let ghost p = self.plan.deep_view();
        let ghost q = self.target;
        let mut b: usize = from;
        let mut i: usize = at;
        let ghost goal = row_item(q, p, b as int, i as int);
        while b < self.plan.details.len()
            invariant
                p == self.plan.deep_view(),
                q == self.target,
                self.target == old(self).target,
                goal == row_item(q, p, b as int, i as int),
                goal == row_item(
                    old(self).target,
                    old(self).plan.deep_view(),
                    from as int,
                    at as int,
                ),
            decreases self.plan.details.len() - b,
        {
            let d = &self.plan.details[b];
            assert(p.details[b as int] == d.deep_view());
            assert(d.response_items.deep_view().len() == d.response_items@.len());
            if i < d.response_items.len() {
                assert(d.response_items.deep_view()[i as int]
                    == d.response_items@[i as int].deep_view());
                let item = copy_fields(&d.response_items[i]);
                proof {
                    lemma_object_view(item);
                }
                let table = d.target_table.clone();
                return self.ask(
                    RowStage::StoringItem(b, i),
                    Action::StoreInsert(table, Json::Object(item)),
                );
            }
            b += 1;
            i = 0;
        }
        assert(p.details.len() == self.plan.details@.len());
        self.done()
    }

    fn inserted(&mut self, id: &Json)
        ensures
            final(self).target == old(self).target,
            final(self).stage == old(self).stage,
            final(self).plan.deep_view() == inserted_plan(
                old(self).plan.deep_view(),
                id.deep_view(),
            ),
    {
        add_id(&mut self.plan.doc, id);
        let mut details: Vec<PreparedDetailBatch> = Vec::new();
        std::mem::swap(&mut details, &mut self.plan.details);
        let details = key_details(details, id);
        add_details(&mut self.plan.doc, &details);
        self.plan.details = details;
    }

    fn detail(&mut self, from: usize) -> (r: Work)
        ensures
            final(self).target == old(self).target,
            final(self).turn(r) == row_detail(
                old(self).target,
                old(self).plan.deep_view(),
                from as int,
            ),
    {
        let ghost p = self.plan.deep_view();
        let ghost q = self.target;
        let ghost goal = row_detail(q, p, from as int);
        let mut b: usize = from;
        while b < self.plan.details.len()
            invariant
                p == self.plan.deep_view(),
                q == self.target,
                self.target == old(self).target,
                goal == row_detail(q, p, b as int),
                goal == row_detail(
                    old(self).target,
                    old(self).plan.deep_view(),
                    from as int,
                ),
            decreases self.plan.details.len() - b,
        {
            let d = &self.plan.details[b];
            assert(p.details[b as int] == d.deep_view());
            assert(d.rows.deep_view().len() == d.rows@.len());
            if d.rows.len() > 0 {
                let table = d.target_table.clone();
                let columns = copy_texts(&d.columns);
                let rows = copy_rows(&d.rows);
                return self.ask(
                    RowStage::CompilingRows(b),
                    Action::CompileBulk(table, columns, rows),
                );
            }
            b += 1;
        }
        assert(p.details.len() == self.plan.details@.len());
        self.postprocessed()
    }

    fn postprocessed(&mut self) -> (r: Work)
        ensures
            final(self).target == old(self).target,
            final(self).turn(r) == row_postprocessed(old(self).target, old(self).plan.deep_view()),
    {
        if holds_statement(self.target.schema.post.post_process.as_str()) {
            let formula = self.target.schema.post.post_process.clone();
            let body = merge_body(&self.plan.body, &self.plan.doc);
            self.ask(RowStage::PostProcessing, Action::RunFormula(formula, body))
        } else {
            self.triggered()
        }
    }

    fn triggered(&mut self) -> (r: Work)
        ensures
            final(self).target == old(self).target,
            final(self).turn(r) == row_triggered(old(self).target, old(self).plan.deep_view()),
    {
        if self.target.schema.action_triggers > 0 {
            let none: Vec<(String, Json)> = Vec::new();
            assert(none.deep_view() =~= Seq::empty());
            let trigger = Trigger {
                event: "on_create".to_owned(),
                action: "TRIGGER_CREATE".to_owned(),
                key: read_key_text(&self.plan.doc),
                actor: None,
                old_record: none,
                new_record: copy_fields(&self.plan.doc),
                body: self.plan.body.copy(),
            };
            self.ask(RowStage::Triggering, Action::RunTriggers(trigger))
        } else {
            self.ask(RowStage::Committing, Action::Commit)
        }
    }
    fn step_checks(&mut self, outcome: Outcome) -> (r: Work)
        requires
            is_checking(old(self).stage),
        ensures
            final(self).target == old(self).target,
            final(self).turn(r) == row_next_checks(
                old(self).target,
                old(self).stage,
                old(self).plan.deep_view(),
                outcome,
            ),
    {
        match self.stage {
            RowStage::Start => self.keys(),
            RowStage::Keys => match outcome {
                Outcome::NotBuilt(e) => self.end(
                    Work::Fail(told("Error building FK check query: ", e.as_str())),
                ),
                Outcome::Failed(e) => self.end(
                    Work::Fail(told("FK batch validation failed: ", e.as_str())),
                ),
                _ => {
                    let rows = take_rows(outcome);
                    match validate_foreign_keys_batch(&rows, Reading::TrueOrOne) {
                        Some(m) => self.end(Work::Fail(m)),
                        None => self.unique(),
                    }
                },
            },
            RowStage::Key(k) => match failure(&outcome) {
                Some(e) => self.end(Work::Fail(told("Error validating FK (mongo): ", e))),
                None => {
                    let rows = take_rows(outcome);
                    assert(rows.deep_view().len() == rows@.len());
                    assert(self.plan.checks.deep_view().len() == self.plan.checks@.len());
                    if k < self.plan.checks.len() {
                        if rows.len() == 0 {
                            assert(self.plan.checks.deep_view()[k as int]
                                == self.plan.checks@[k as int].deep_view());
                            let c = &self.plan.checks[k];
                            let m = say_invalid_key(c.column.as_str(), c.table.as_str());
                            self.end(Work::Fail(m))
                        } else {
                            self.key(k + 1)
                        }
                    } else {
                        self.unique()
                    }
                },
            },
            RowStage::Unique => match outcome {
                Outcome::NotBuilt(e) => self.end(
                    Work::Fail(told("Error building unique check query: ", e.as_str())),
                ),
                Outcome::Failed(e) => self.end(
                    Work::Fail(told("Unique batch validation failed: ", e.as_str())),
                ),
                _ => {
                    let rows = take_rows(outcome);
                    let checks = self.checks();
                    match validate_unique_constraints_batch(&rows, &checks, Reading::TrueOrOne) {
                        Some(m) => self.end(Work::Fail(m)),
                        None => self.ask(RowStage::Beginning, Action::Begin),
                    }
                },
            },
            RowStage::Index(k) => match failure(&outcome) {
                Some(e) => self.end(Work::Fail(told("Error validating Unique (mongo): ", e))),
                None => {
                    let rows = take_rows(outcome);
                    assert(rows.deep_view().len() == rows@.len());
                    let checks = self.checks();
                    if k < checks.len() {
                        if rows.len() > 0 {
                            assert(checks.deep_view()[k as int] == checks@[k as int].deep_view());
                            self.end(
                                Work::Fail(
                                    told(
                                        "Unique constraint violation on index: ",
                                        checks[k].index_name.as_str(),
                                    ),
                                ),
                            )
                        } else {
                            self.index(k + 1)
                        }
                    } else {
                        self.numbered()
                    }
                },
            },
            RowStage::Beginning => match failure(&outcome) {
                Some(e) => self.end(Work::Fail(told("Error starting transaction: ", e))),
                None => self.numbered(),
            },
            RowStage::Address => match failure(&outcome) {
                Some(e) => self.drop_it(told("ID endpoint URL build failed: ", e)),
                None => {
                    let prefix = self.prefix();
                    let url = take_url(outcome);
                    let full = build_number_url(url.as_str(), prefix.as_str());
                    let path = find_path(&self.target.schema);
                    self.ask(RowStage::Number, Action::FetchNumber(full, path))
                },
            },
            RowStage::Number => {
                let prefix = self.prefix();
                let path = find_path(&self.target.schema);
                match read_fetched(&outcome, path.as_str(), prefix.as_str()) {
                    Ok(n) => self.given(n),
                    Err(m) => self.drop_it(m),
                }
            },
            _ => {
                let rows = take_rows(outcome);
                let highest = read_highest(&rows);
                let plan = plan_id(&self.plan.tokens, &self.plan.body, &self.target.today);
                match read_next_number(highest.as_str(), plan.width) {
                    Some(n) => self.given(n),
                    None => self.ask(RowStage::Ended, Action::Fault),
                }
            },
        }
    }

    fn table_of(&self, b: usize) -> (r: String)
        ensures
            r@ == detail_table(self.plan.deep_view(), b as int),
    {
        assert(self.plan.details.deep_view().len() == self.plan.details@.len());
        if b < self.plan.details.len() {
            assert(self.plan.details.deep_view()[b as int]
                == self.plan.details@[b as int].deep_view());
            self.plan.details[b].target_table.clone()
        } else {
            String::new()
        }
    }

    fn step_writes(&mut self, outcome: Outcome) -> (r: Work)
        requires
            !is_checking(old(self).stage),
        ensures
            final(self).target == old(self).target,
            final(self).turn(r) == row_next_writes(
                old(self).target,
                old(self).stage,
                old(self).plan.deep_view(),
                outcome,
            ),
    {
        match self.stage {
            RowStage::Storing => match failure(&outcome) {
                Some(e) => self.end(Work::Fail(told("Error NCO-POST (mongo): ", e))),
                None => {
                    let returned = take_value(outcome);
                    self.stored(&returned);
                    self.item(0, 0)
                },
            },
            RowStage::StoringItem(b, i) => match failure(&outcome) {
                Some(e) => self.end(Work::Fail(told("Error inserting detail (mongo): ", e))),
                None => {
                    assert(self.plan.details.deep_view().len() == self.plan.details@.len());
                    if b < self.plan.details.len() {
                        assert(self.plan.details.deep_view()[b as int]
                            == self.plan.details@[b as int].deep_view());
                        assert(self.plan.details@[b as int].response_items.deep_view().len()
                            == self.plan.details@[b as int].response_items@.len());
                        if i < self.plan.details[b].response_items.len() {
                            self.item(b, i + 1)
                        } else {
                            self.item(b + 1, 0)
                        }
                    } else {
                        self.done()
                    }
                },
            },
            RowStage::Asking => match failure(&outcome) {
                Some(e) => self.end(Work::Abort(e.to_owned())),
                None => self.validated(),
            },
            RowStage::Validating => match outcome {
                Outcome::NotBuilt(e) => self.end(
                    Work::Abort(told("Error building validation SQL: ", e.as_str())),
                ),
                Outcome::Failed(e) => self.end(
                    Work::Abort(told("Error validating data: ", e.as_str())),
                ),
                _ => {
                    let rows = take_rows(outcome);
                    match judge_validation(&rows) {
                        Some(m) => self.end(Work::Abort(m)),
                        None => self.preprocessed(),
                    }
                },
            },
            RowStage::PreProcessing => match failure(&outcome) {
                Some(e) => self.end(Work::Abort(told("Error in pre-process: ", e))),
                None => self.compiled(),
            },
            RowStage::Compiling => match failure(&outcome) {
                Some(e) => self.end(Work::Abort(told("Error compiling AST INSERT: ", e))),
                None => self.ask(RowStage::Running, Action::RunCompiled),
            },
            RowStage::Running => match failure(&outcome) {
                Some(e) => self.end(Work::Abort(told("Error executing insert: ", e))),
                None => {
                    let rows = take_rows(outcome);
                    let id = read_row_id(&rows, &self.plan.doc);
                    let null = match id {
                        Json::Null => true,
                        _ => false,
                    };
                    if null && self.target.mysql {
                        let none: Vec<DbParam> = Vec::new();
                        assert(none.deep_view() =~= Seq::empty());
                        self.ask(
                            RowStage::LastId,
                            Action::RunSql("SELECT LAST_INSERT_ID() as id".to_owned(), none),
                        )
                    } else {
                        self.inserted(&id);
                        self.detail(0)
                    }
                },
            },
            RowStage::LastId => {
                let rows = take_rows(outcome);
                let id = read_last_id(&rows);
                self.inserted(&id);
                self.detail(0)
            },
            RowStage::CompilingRows(b) => match failure(&outcome) {
                Some(e) => {
                    let mut m = told("Error building bulk insert for ", self.table_of(b).as_str());
                    m.append(": ");
                    m.append(e);
                    self.end(Work::Abandon(m))
                },
                None => self.ask(RowStage::RunningRows(b), Action::RunCompiled),
            },
            RowStage::RunningRows(b) => match failure(&outcome) {
                Some(e) => {
                    let mut m = told(
                        "Error inserting detail items into ",
                        self.table_of(b).as_str(),
                    );
                    m.append(": ");
                    m.append(e);
                    self.end(Work::Abort(m))
                },
                None => {
                    assert(self.plan.details.deep_view().len() == self.plan.details@.len());
                    if b < self.plan.details.len() {
                        self.detail(b + 1)
                    } else {
                        self.postprocessed()
                    }
                },
            },
            RowStage::PostProcessing => match failure(&outcome) {
                Some(e) => self.end(Work::Abort(told("Error in post-process: ", e))),
                None => self.triggered(),
            },
            RowStage::Triggering => match failure(&outcome) {
                Some(e) => self.end(Work::Abort(told("Action trigger on_create failed: ", e))),
                None => self.ask(RowStage::Committing, Action::Commit),
            },
            RowStage::Committing => match failure(&outcome) {
                Some(e) => self.end(Work::Fail(told("Error committing transaction: ", e))),
                None => self.done(),
            },
            _ => self.ask(RowStage::Ended, Action::Nothing),
        }
    }

    fn checking(&self) -> (r: bool)
        ensures
            r == is_checking(self.stage),
    {
        match self.stage {
            RowStage::Start => true,
            RowStage::Keys => true,
            RowStage::Key(_) => true,
            RowStage::Unique => true,
            RowStage::Index(_) => true,
            RowStage::Beginning => true,
            RowStage::Address => true,
            RowStage::Number => true,
            RowStage::Highest => true,
            _ => false,
        }
    }

    /// Takes the next step of the insertion, with what came of the last one.
    pub fn step(&mut self, outcome: Outcome) -> (r: Work)
        ensures
            final(self).target == old(self).target,
            (final(self).stage, final(self).plan.deep_view(), r.deep_view()) == row_next(
                old(self).target,
                old(self).stage,
                old(self).plan.deep_view(),
                outcome,
            ),
    {
        if self.checking() {
            self.step_checks(outcome)
        } else {
            self.step_writes(outcome)
        }
    }
}

fn take_url(o: Outcome) -> (r: String)
    ensures
        r@ == url_in(o),
{
    match o {
        Outcome::Texts(ts) => if ts.len() > 0 {
            ts[0].clone()
        } else {
            String::new()
        },
        _ => String::new(),
    }
}

fn take_value(o: Outcome) -> (r: Json)
    ensures
        r.deep_view() == value_in(o),
{
    match o {
        Outcome::Value(v) => v,
        _ => Json::Null,
    }
}

fn read_last_id(rows: &Vec<Json>) -> (r: Json)
    ensures
        r.deep_view() == if rows.deep_view().len() > 0 {
            known_id(fields_of(rows.deep_view()[0]))
        } else {
            JsonV::Null
        },
{
    assert(rows.deep_view().len() == rows@.len());
    if rows.len() > 0 {
        assert(rows.deep_view()[0] == rows@[0].deep_view());
        match rows[0].get("id") {
            Some(v) => v.copy(),
            None => Json::Null,
        }
    } else {
        Json::Null
    }
}

fn read_fetched(o: &Outcome, path: &str, prefix: &str) -> (r: Result<i64, String>)
    ensures
        match r {
            Ok(n) => fetched_number(*o, path@, prefix@) == Ok::<i64, Seq<char>>(n),
            Err(e) => fetched_number(*o, path@, prefix@) == Err::<i64, Seq<char>>(e@),
        },
{
    match o {
        Outcome::Rejected(status, text) => {
            let mut m = told("ID endpoint returned ", status.as_str());
            m.append(": ");
            m.append(text.as_str());
            Err(m)
        },
        Outcome::NotBuilt(e) => Err(
            told("ID endpoint response is not valid JSON: ", e.as_str()),
        ),
        Outcome::Failed(e) => Err(told("ID endpoint request failed: ", e.as_str())),
        Outcome::Picked(v) => match v {
            Some(v) => fetch_next_number_from_endpoint(Some(v), path, prefix),
            None => fetch_next_number_from_endpoint(None, path, prefix),
        },
        _ => fetch_next_number_from_endpoint(None, path, prefix),
    }
}

// ---------------------------------------------------------------------------
// Laws
// ---------------------------------------------------------------------------

/// The stages inside a transaction.
pub open spec fn row_in_transaction(q: RowTarget, stage: RowStage) -> bool {
    !q.mongodb && match stage {
        RowStage::Address => true,
        RowStage::Number => true,
        RowStage::Highest => true,
        RowStage::Asking => true,
        RowStage::Validating => true,
        RowStage::PreProcessing => true,
        RowStage::Compiling => true,
        RowStage::Running => true,
        RowStage::LastId => true,
        RowStage::CompilingRows(_) => true,
        RowStage::RunningRows(_) => true,
        RowStage::PostProcessing => true,
        RowStage::Triggering => true,
        RowStage::Committing => true,
        _ => false,
    }
}

/// The stages that belong to a store without transactions alone.
pub open spec fn row_without_transaction(stage: RowStage) -> bool {
    match stage {
        RowStage::Key(_) => true,
        RowStage::Index(_) => true,
        RowStage::Storing => true,
        RowStage::StoringItem(_, _) => true,
        _ => false,
    }
}

proof fn lemma_details_stay_inside(q: RowTarget, p: RowPlanV, b: int)
    requires
        !q.mongodb,
        b >= 0,
    ensures
        row_in_transaction(q, row_detail(q, p, b).0),
        row_detail(q, p, b).2 is Ask,
    decreases p.details.len() - b,
{
    if b < p.details.len() && p.details[b].rows.len() == 0 {
        lemma_details_stay_inside(q, p, b + 1);
    }
}

proof fn lemma_items_are_asked_for(q: RowTarget, p: RowPlanV, b: int, i: int)
    ensures
        row_item(q, p, b, i).2 is Ask ==> !answers(row_item(q, p, b, i).2->Ask_0),
    decreases p.details.len() - b,
{
    if 0 <= b < p.details.len() && !(0 <= i < p.details[b].response_items.len()) {
        lemma_items_are_asked_for(q, p, b + 1, 0);
    }
}

proof fn lemma_details_are_asked_for(q: RowTarget, p: RowPlanV, b: int)
    ensures
        row_detail(q, p, b).2 is Ask,
        !answers(row_detail(q, p, b).2->Ask_0),
    decreases p.details.len() - b,
{
    if 0 <= b < p.details.len() && p.details[b].rows.len() == 0 {
        lemma_details_are_asked_for(q, p, b + 1);
    }
}

/// What an insertion asks for is never an answer, and its first step asks for
/// something.
pub proof fn lemma_asking_is_no_answer(q: RowTarget, stage: RowStage, p: RowPlanV, o: Outcome)
    ensures
        row_next(q, stage, p, o).2 is Ask ==> !answers(row_next(q, stage, p, o).2->Ask_0),
        row_next(q, RowStage::Start, p, o).2 is Ask,
{
    match stage {
        RowStage::Storing => {
            lemma_items_are_asked_for(q, stored_plan(p, value_in(o)), 0, 0);
        },
        RowStage::StoringItem(b, i) => {
            lemma_items_are_asked_for(q, p, b as int, i + 1);
        },
        RowStage::Running => {
            lemma_details_are_asked_for(q, inserted_plan(p, row_id(rows_in(o), p.doc)), 0);
        },
        RowStage::LastId => {
            let id = if rows_in(o).len() > 0 {
                known_id(fields_of(rows_in(o)[0]))
            } else {
                JsonV::Null
            };
            lemma_details_are_asked_for(q, inserted_plan(p, id), 0);
        },
        RowStage::RunningRows(b) => {
            lemma_details_are_asked_for(q, p, b + 1);
        },
        _ => {},
    }
}

/// A failure inside a transaction rolls it back or drops it; the row counts as
/// inserted only once the transaction was committed; and what is rolled back,
/// dropped or committed was begun.
pub proof fn law_insertions_close_their_transaction(
    q: RowTarget,
    stage: RowStage,
    p: RowPlanV,
    o: Outcome,
)
    requires
        !q.mongodb,
        !row_without_transaction(stage),
    ensures
        ({
            let (s, _, w) = row_next(q, stage, p, o);
            &&& row_in_transaction(q, stage) && w is Fail ==> stage == RowStage::Committing
            &&& w is Finish ==> stage == RowStage::Committing && failure_in(o) is None
            &&& (w is Abort || w is Abandon) ==> row_in_transaction(q, stage)
            &&& row_in_transaction(q, s) && !row_in_transaction(q, stage) ==> stage
                == RowStage::Beginning && failure_in(o) is None
            &&& !row_without_transaction(s)
        }),
{
    match stage {
        RowStage::Running => {
            lemma_details_stay_inside(q, inserted_plan(p, row_id(rows_in(o), p.doc)), 0);
        },
        RowStage::LastId => {
            let id = if rows_in(o).len() > 0 {
                known_id(fields_of(rows_in(o)[0]))
            } else {
                JsonV::Null
            };
            lemma_details_stay_inside(q, inserted_plan(p, id), 0);
        },
        RowStage::RunningRows(b) => {
            lemma_details_stay_inside(q, p, b + 1);
        },
        _ => {},
    }
}

/// A row whose foreign key points nowhere is not inserted: the check ends the
/// insertion before a transaction is begun, or anything is stored.
pub proof fn law_dangling_keys_are_refused(q: RowTarget, p: RowPlanV, o: Outcome, k: usize)
    requires
        failure_in(o) is None,
    ensures
        fk_verdict(rows_in(o), Reading::TrueOrOne) is Some ==> row_next(
            q,
            RowStage::Keys,
            p,
            o,
        ).2 is Fail,
        rows_in(o).len() == 0 && k < p.checks.len() ==> row_next(q, RowStage::Key(k), p, o).2
            is Fail,
{
}

/// A running number that a service should give is never made up: where the
/// service cannot be asked, refuses, or gives no number, nothing is inserted.
pub proof fn law_numbers_are_not_made_up(q: RowTarget, p: RowPlanV, o: Outcome)
    ensures
        failure_in(o) is Some ==> {
            let (s, _, w) = row_next(q, RowStage::Address, p, o);
            s == RowStage::Ended && (w is Fail || w is Abandon)
        },
        fetched_number(o, number_path(q.schema), row_prefix(q, p)) is Err ==> {
            let (s, _, w) = row_next(q, RowStage::Number, p, o);
            s == RowStage::Ended && (w is Fail || w is Abandon)
        },
        o is Rejected || o is NotBuilt || o is Failed || o is Picked && o->Picked_0 is None
            ==> fetched_number(o, number_path(q.schema), row_prefix(q, p)) is Err,
{
}

/// Whether a row of a detail is another but for the value at one position.
pub open spec fn row_is_kept(a: Seq<InsertValueV>, b: Seq<InsertValueV>, at: int) -> bool {
    &&& a.len() == b.len()
    &&& forall|k: int| 0 <= k < a.len() && k != at ==> #[trigger] b[k] == a[k]
}

/// Whether the rows of a detail are those of another, but for the key of their
/// header.
pub open spec fn batch_is_kept(a: PreparedDetailBatchV, b: PreparedDetailBatchV) -> bool {
    &&& b.field == a.field
    &&& b.target_table == a.target_table
    &&& b.foreign_key_column == a.foreign_key_column
    &&& b.columns == a.columns
    &&& b.fk_index == a.fk_index
    &&& b.rows.len() == a.rows.len()
    &&& b.response_items.len() == a.response_items.len()
    &&& forall|i: int|
        0 <= i < a.rows.len() ==> row_is_kept(a.rows[i], #[trigger] b.rows[i], a.fk_index as int)
}

/// Whether a plan keeps what another has: its body, its fields, but for a generated
/// identifier that is added, and its details, but for the key of their header.
pub open spec fn plan_is_kept(a: RowPlanV, b: RowPlanV) -> bool {
    &&& b.body == a.body
    &&& b.fields == a.fields || a.tokens.len() > 0 && b.fields.len() == a.fields.len() + 1
        && b.fields.drop_last() == a.fields && b.fields.last().0 == "id"@ && b.fields.last().1
        is Param && b.fields.last().1->Param_0 is Str
    &&& b.details.len() == a.details.len()
    &&& forall|i: int|
        0 <= i < a.details.len() ==> batch_is_kept(a.details[i], #[trigger] b.details[i])
}

/// Whether what an insertion asks for writes its plan: the fields of the row, or its
/// document, into the table of the entity, and the rows or the items of a detail
/// into the table of the detail. It neither updates nor deletes.
pub open spec fn writes_plan(q: RowTarget, p: RowPlanV, w: WorkV) -> bool {
    match w {
        WorkV::Ask(a) => match a {
            ActionV::CompileInsert(t, fields, _) => t == q.schema.table@ && fields == p.fields,
            ActionV::StoreInsert(t, doc) => {
                ||| t == q.schema.table@ && doc == JsonV::Object(p.doc)
                ||| exists|b: int, i: int|
                    {
                        &&& 0 <= b < p.details.len()
                        &&& 0 <= i < p.details[b].response_items.len()
                        &&& t == p.details[b].target_table
                        &&& doc == JsonV::Object(#[trigger] p.details[b].response_items[i])
                    }
            },
            ActionV::CompileBulk(t, columns, rows) => exists|b: int|
                {
                    &&& 0 <= b < p.details.len()
                    &&& t == (#[trigger] p.details[b]).target_table
                    &&& columns == p.details[b].columns
                    &&& rows == p.details[b].rows
                },
            ActionV::CompileUpdate(_, _, _) => false,
            ActionV::CompileDelete(_, _) => false,
            ActionV::StoreUpdate(_, _, _) => false,
            ActionV::StoreDelete(_, _) => false,
            ActionV::UpdateRows(_, _, _) => false,
            _ => true,
        },
        _ => true,
    }
}

proof fn lemma_plan_is_kept(p: RowPlanV)
    ensures
        plan_is_kept(p, p),
{
    assert forall|i: int| 0 <= i < p.details.len() implies batch_is_kept(
        p.details[i],
        #[trigger] p.details[i],
    ) by {
        let b = p.details[i];
        assert forall|j: int| 0 <= j < b.rows.len() implies row_is_kept(
            b.rows[j],
            #[trigger] b.rows[j],
            b.fk_index as int,
        ) by {}
    }
}

proof fn lemma_details_are_kept(p: RowPlanV, id: JsonV)
    ensures
        plan_is_kept(p, inserted_plan(p, id)),
        plan_is_kept(p, stored_plan(p, id)),
{
    lemma_plan_is_kept(p);
    let a = inserted_plan(p, id);
    assert forall|i: int| 0 <= i < p.details.len() implies batch_is_kept(
        p.details[i],
        #[trigger] a.details[i],
    ) by {
        let b = p.details[i];
        let c = a.details[i];
        assert(batch_is_kept(b, p.details[i]));
        assert forall|j: int| 0 <= j < b.rows.len() implies row_is_kept(
            b.rows[j],
            #[trigger] c.rows[j],
            b.fk_index as int,
        ) by {}
    }
    let a = stored_plan(p, id);
    assert forall|i: int| 0 <= i < p.details.len() implies batch_is_kept(
        p.details[i],
        #[trigger] a.details[i],
    ) by {
        assert(batch_is_kept(p.details[i], p.details[i]));
        assert(a.details[i].rows == p.details[i].rows);
    }
}

proof fn lemma_detail_writes(q: RowTarget, p: RowPlanV, b: int)
    ensures
        writes_plan(q, row_detail(q, p, b).1, row_detail(q, p, b).2),
        row_detail(q, p, b).1 == p,
    decreases p.details.len() - b,
{
    if 0 <= b < p.details.len() {
        if p.details[b].rows.len() == 0 {
            lemma_detail_writes(q, p, b + 1);
        } else {
            assert(p.details[b].target_table == p.details[b].target_table);
        }
    }
}

proof fn lemma_item_writes(q: RowTarget, p: RowPlanV, b: int, i: int)
    ensures
        writes_plan(q, row_item(q, p, b, i).1, row_item(q, p, b, i).2),
        row_item(q, p, b, i).1 == p,
    decreases p.details.len() - b,
{
    if 0 <= b < p.details.len() {
        if 0 <= i < p.details[b].response_items.len() {
            assert(p.details[b].response_items[i] == p.details[b].response_items[i]);
        } else {
            lemma_item_writes(q, p, b + 1, 0);
        }
    }
}

proof fn lemma_written_keeps(q: RowTarget, p: RowPlanV)
    ensures
        row_written(q, p).1 == p,
        writes_plan(q, p, row_written(q, p).2),
        row_validated(q, p).1 == p,
        writes_plan(q, p, row_validated(q, p).2),
        row_preprocessed(q, p).1 == p,
        writes_plan(q, p, row_preprocessed(q, p).2),
{
}

proof fn lemma_given_keeps(q: RowTarget, p: RowPlanV, n: i64)
    requires
        p.tokens.len() > 0,
    ensures
        plan_is_kept(p, row_given(q, p, n).1),
        writes_plan(q, row_given(q, p, n).1, row_given(q, p, n).2),
{
    lemma_plan_is_kept(p);
    let (place, width) = number_place(p.tokens, true);
    if let Some(id) = id_with_number(
        parts_of_tokens(p.tokens, p.body, q.today, true),
        place as int,
        number_text(n as int, width as int),
    ) {
        lemma_written_keeps(q, identified(p, id));
        assert(identified(p, id).fields.drop_last() =~= p.fields);
    }
}

proof fn lemma_numbered_keeps(q: RowTarget, p: RowPlanV)
    ensures
        row_numbered(q, p).1 == p,
        writes_plan(q, p, row_numbered(q, p).2),
        forall|k: int|
            (#[trigger] row_index(q, p, k)).1 == p && writes_plan(q, p, row_index(q, p, k).2),
        row_unique(q, p).1 == p,
        writes_plan(q, p, row_unique(q, p).2),
        forall|k: int| (#[trigger] row_key(q, p, k)).1 == p && writes_plan(q, p, row_key(q, p, k).2),
        row_keys(q, p).1 == p,
        writes_plan(q, p, row_keys(q, p).2),
{
    lemma_written_keeps(q, p);
    assert forall|k: int|
        (#[trigger] row_index(q, p, k)).1 == p && writes_plan(q, p, row_index(q, p, k).2) by {
        assert(row_index(q, p, k) == row_numbered(q, p) || row_index(q, p, k).2->Ask_0 is RunQuery);
    }
    assert(row_index(q, p, 0).1 == p);
}

/// An insertion writes its plan and nothing else, and keeps it: whatever it writes, at
/// whatever step, is the row, with the fields of the plan, into the table of the
/// entity, or the rows of a detail into the table of the detail; and a step changes
/// neither the values of the row nor those of the details, but that it adds a
/// generated identifier, and the key of the header.
#[verifier::spinoff_prover]
#[verifier::rlimit(60)]
pub proof fn law_insertions_write_their_plan(q: RowTarget, stage: RowStage, p: RowPlanV, o: Outcome)
    requires
        p.tokens.len() > 0 || !(stage == RowStage::Address || stage == RowStage::Number || stage
            == RowStage::Highest),
    ensures
        plan_is_kept(p, row_next(q, stage, p, o).1),
        writes_plan(q, row_next(q, stage, p, o).1, row_next(q, stage, p, o).2),
{
    lemma_plan_is_kept(p);
    lemma_numbered_keeps(q, p);
    lemma_written_keeps(q, p);
    match stage {
        RowStage::Number => {
            if let Ok(n) = fetched_number(o, number_path(q.schema), row_prefix(q, p)) {
                lemma_given_keeps(q, p, n);
            }
        },
        RowStage::Highest => {
            if let Some(n) = next_number(
                highest_id(rows_in(o)),
                number_place(p.tokens, true).1,
            ) {
                lemma_given_keeps(q, p, n);
            }
        },
        RowStage::Storing => {
            lemma_details_are_kept(p, value_in(o));
            lemma_item_writes(q, stored_plan(p, value_in(o)), 0, 0);
        },
        RowStage::StoringItem(b, i) => {
            lemma_item_writes(q, p, b as int, i + 1);
        },
        RowStage::Running => {
            let id = row_id(rows_in(o), p.doc);
            lemma_details_are_kept(p, id);
            lemma_detail_writes(q, inserted_plan(p, id), 0);
        },
        RowStage::LastId => {
            let id = if rows_in(o).len() > 0 {
                known_id(fields_of(rows_in(o)[0]))
            } else {
                JsonV::Null
            };
            lemma_details_are_kept(p, id);
            lemma_detail_writes(q, inserted_plan(p, id), 0);
        },
        RowStage::RunningRows(b) => {
            lemma_detail_writes(q, p, b + 1);
        },
        _ => {},
    }
}

proof fn lemma_no_batch_is_skipped(q: RowTarget, p: RowPlanV, from: int, k: int)
    requires
        0 <= from <= k < p.details.len() <= usize::MAX,
        p.details[k].rows.len() > 0,
    ensures
        ({
            let (s, _, w) = row_detail(q, p, from);
            &&& w is Ask
            &&& w->Ask_0 is CompileBulk
            &&& s is CompilingRows
            &&& from <= s->CompilingRows_0 <= k
        }),
    decreases k - from,
{
    if p.details[from].rows.len() == 0 {
        lemma_no_batch_is_skipped(q, p, from + 1, k);
    }
}

/// No detail is left out: while one with rows is still to be inserted, the next
/// thing that is asked for is a batch of rows, and none with rows is passed over;
/// and what was compiled is run.
pub proof fn law_no_detail_is_left_out(
    q: RowTarget,
    p: RowPlanV,
    o: Outcome,
    b: usize,
    k: int,
)
    requires
        p.details.len() <= usize::MAX,
        failure_in(o) is None,
        b < k < p.details.len(),
        p.details[k].rows.len() > 0,
    ensures
        ({
            let (s, _, w) = row_next(q, RowStage::RunningRows(b), p, o);
            &&& w is Ask
            &&& w->Ask_0 is CompileBulk
            &&& s is CompilingRows
            &&& b < s->CompilingRows_0 <= k
        }),
        row_next(q, RowStage::CompilingRows(b), p, o) == (
            RowStage::RunningRows(b),
            p,
            WorkV::Ask(ActionV::RunCompiled),
        ),
{
    lemma_no_batch_is_skipped(q, p, b + 1, k);
}

/// The details get the key of the row that was inserted: where the database gives
/// an identifier, it stands in every row of every detail, at the position of the
/// column that points to the header; and the first detail with rows is inserted
/// next.
pub proof fn law_details_get_the_key_of_their_row(
    q: RowTarget,
    p: RowPlanV,
    o: Outcome,
    n: i64,
    b: int,
    i: int,
)
    requires
        failure_in(o) is None,
        rows_in(o).len() > 0,
        field(rows_in(o)[0], "id"@) == Some(JsonV::Int(n)),
        0 <= b < p.details.len() <= usize::MAX,
        0 <= i < p.details[b].rows.len(),
        p.details[b].fk_index < p.details[b].rows[i].len(),
    ensures
        ({
            let (s, plan, w) = row_next(q, RowStage::Running, p, o);
            &&& plan.details[b].rows[i][p.details[b].fk_index as int] == InsertValueV::Param(
                Scalar::I64(n),
            )
            &&& w is Ask
            &&& w->Ask_0 is CompileBulk
            &&& s is CompilingRows
            &&& s->CompilingRows_0 <= b
        }),
{
    let plan = inserted_plan(p, JsonV::Int(n));
    lemma_detail_writes(q, plan, 0);
    assert(plan.details[b].rows.len() == p.details[b].rows.len());
    lemma_no_batch_is_skipped(q, plan, 0, b);
}

/// A row whose statement has run is answered with its document, and nothing is
/// answered before the transaction is committed.
pub proof fn law_insertions_run_before_they_are_committed(
    q: RowTarget,
    stage: RowStage,
    p: RowPlanV,
    o: Outcome,
)
    requires
        !q.mongodb,
    ensures
        ({
            let (s, plan, w) = row_next(q, stage, p, o);
            &&& s == RowStage::Running ==> w == WorkV::Ask(ActionV::RunCompiled) && stage
                == RowStage::Compiling && failure_in(o) is None
            &&& s == RowStage::Compiling ==> w is Ask && w->Ask_0 is CompileInsert
            &&& s is CompilingRows ==> stage == RowStage::Running || stage == RowStage::LastId
                || stage is RunningRows
            &&& s is RunningRows ==> w == WorkV::Ask(ActionV::RunCompiled) && stage is CompilingRows
                && failure_in(o) is None
            &&& stage == RowStage::Committing && failure_in(o) is None ==> w is Finish
                && w->Finish_2 == JsonV::Object(p.doc)
            &&& s == RowStage::Committing ==> w == WorkV::Ask(ActionV::Commit) && (stage
                == RowStage::Running || stage == RowStage::LastId || stage is RunningRows || stage
                == RowStage::PostProcessing || stage == RowStage::Triggering)
        }),
{
    match stage {
        RowStage::Storing => {
            lemma_item_stages(q, stored_plan(p, value_in(o)), 0, 0);
        },
        RowStage::StoringItem(b, i) => {
            lemma_item_stages(q, p, b as int, i + 1);
        },
        RowStage::Running => {
            lemma_detail_stages(q, inserted_plan(p, row_id(rows_in(o), p.doc)), 0);
        },
        RowStage::LastId => {
            let id = if rows_in(o).len() > 0 {
                known_id(fields_of(rows_in(o)[0]))
            } else {
                JsonV::Null
            };
            lemma_detail_stages(q, inserted_plan(p, id), 0);
        },
        RowStage::RunningRows(b) => {
            lemma_detail_stages(q, p, b + 1);
        },
        _ => {},
    }
}

proof fn lemma_item_stages(q: RowTarget, p: RowPlanV, b: int, i: int)
    ensures
        row_item(q, p, b, i).0 is StoringItem || row_item(q, p, b, i).0 == RowStage::Ended,
    decreases p.details.len() - b,
{
    if 0 <= b < p.details.len() && !(0 <= i < p.details[b].response_items.len()) {
        lemma_item_stages(q, p, b + 1, 0);
    }
}

proof fn lemma_detail_stages(q: RowTarget, p: RowPlanV, b: int)
    ensures
        ({
            let (s, _, w) = row_detail(q, p, b);
            &&& w is Ask
            &&& s is CompilingRows && w->Ask_0 is CompileBulk || s == RowStage::PostProcessing || s
                == RowStage::Triggering || s == RowStage::Committing && w->Ask_0 is Commit
        }),
    decreases p.details.len() - b,
{
    if 0 <= b < p.details.len() && p.details[b].rows.len() == 0 {
        lemma_detail_stages(q, p, b + 1);
    }
}

/// The key of a header is bound as what it is: an integer as that integer, and a text as
/// itself, or as the number that it is a numeral of in a column of integers.
pub proof fn law_header_keys_are_bound_as_they_are(id: JsonV, fk_type: Seq<char>)
    ensures
        match id {
            JsonV::Int(n) => header_key(id, fk_type) == Scalar::I64(n),
            JsonV::Str(s) => tells(header_key(id, fk_type), s) && (contains(
                lowercase(fk_type),
                "int"@,
            ) && i64_value(s) is Some ==> header_key(id, fk_type) == Scalar::I64(i64_value(s)->0)),
            _ => true,
        },
{
}

/// A foreign key is looked for in the column of the table that it refers to, typed as its
/// own column is.
pub proof fn law_key_queries_find_the_key(c: FkCheckV, row: RowV, by: Collation)
    ensures
        ({
            let q = key_query(c);
            &&& q.table == c.table
            &&& q.filter is Some
            &&& satisfies(row, q.filter->0, by) ==> is_typed(
                row(c.ref_column),
                c.value,
                ascii_lower(c.type_data),
            )
            &&& is_typed(row(c.ref_column), c.value, ascii_lower(c.type_data)) ==> satisfies(
                row,
                q.filter->0,
                by,
            )
        }),
{
    law_typing_tells_the_text(c.value, ascii_lower(c.type_data));
}

/// A row counts as taken exactly if it has the value of each column of the index.
pub proof fn law_taken_rows_have_the_values(
    table: Seq<char>,
    columns: Seq<(Seq<char>, Scalar)>,
    row: RowV,
    by: Collation,
)
    ensures
        ({
            let q = taken_query(table, equalities(columns));
            &&& q.table == table
            &&& q.filter is Some
            &&& satisfies(row, q.filter->0, by) <==> forall|i: int|
                0 <= i < columns.len() ==> row((#[trigger] columns[i]).0) == columns[i].1
        }),
{
    let terms = equalities(columns);
    lemma_meets_all(row, terms, by);
    if forall|i: int| 0 <= i < terms.len() ==> satisfies(row, #[trigger] terms[i], by) {
        assert forall|i: int| 0 <= i < columns.len() implies row((#[trigger] columns[i]).0)
            == columns[i].1 by {
            assert(satisfies(row, terms[i], by));
        }
    }
    if forall|i: int| 0 <= i < columns.len() ==> row((#[trigger] columns[i]).0) == columns[i].1 {
        assert forall|i: int| 0 <= i < terms.len() implies satisfies(row, #[trigger] terms[i], by) by {
            assert(row(columns[i].0) == columns[i].1);
        }
    }
}

/// Nothing is inserted unchecked: a row whose values refer to other tables is checked
/// against them first, all at once in a database and one after the other in a store
/// without transactions, and a row with values of unique indexes against the rows that
/// are there.
pub proof fn law_insertions_are_checked_first(q: RowTarget, p: RowPlanV, o: Outcome, k: usize)
    requires
        p.checks.len() <= usize::MAX,
    ensures
        p.checks.len() > 0 && !q.mongodb ==> row_next(q, RowStage::Start, p, o) == (
            RowStage::Keys,
            p,
            WorkV::Ask(ActionV::CheckKeys(p.checks)),
        ),
        p.checks.len() > 0 && q.mongodb ==> row_next(q, RowStage::Start, p, o) == (
            RowStage::Key(0),
            p,
            WorkV::Ask(ActionV::RunQuery(key_query(p.checks[0]))),
        ),
        failure_in(o) is None && rows_in(o).len() > 0 && k + 1 < p.checks.len() ==> row_next(
            q,
            RowStage::Key(k),
            p,
            o,
        ) == (
            RowStage::Key((k + 1) as usize),
            p,
            WorkV::Ask(ActionV::RunQuery(key_query(p.checks[k + 1]))),
        ),
        !q.mongodb && unique_checks(q.schema.indexes@, q.schema.columns@, p.body).len() > 0
            ==> row_unique(q, p).2 == WorkV::Ask(
            ActionV::CheckUnique(
                q.schema.table@,
                unique_checks(q.schema.indexes@, q.schema.columns@, p.body),
                None,
            ),
        ),
        failure_in(o) is None && unique_verdict(
            rows_in(o),
            unique_checks(q.schema.indexes@, q.schema.columns@, p.body),
            Reading::TrueOrOne,
        ) is Some ==> row_next(q, RowStage::Unique, p, o).2 is Fail,
        failure_in(o) is Some ==> {
            &&& row_next(q, RowStage::Keys, p, o).2 is Fail || o is QueryFailed
            &&& row_next(q, RowStage::Key(k), p, o).2 is Fail
            &&& row_next(q, RowStage::Unique, p, o).2 is Fail || o is QueryFailed
            &&& row_next(q, RowStage::Index(k), p, o).2 is Fail
        },
        failure_in(o) is None && rows_in(o).len() > 0 && k < unique_checks(
            q.schema.indexes@,
            q.schema.columns@,
            p.body,
        ).len() ==> row_next(q, RowStage::Index(k), p, o).2 is Fail,
{
}

} // verus!
