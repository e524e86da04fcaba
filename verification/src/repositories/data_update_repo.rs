//! Updating a row and replacing the rows of its details.
use crate::ast::{
    all_of, copy_field_values, copy_rows, lemma_meets_all, satisfies, Collation, DbParam, Filter,
    FilterV, InsertValue, InsertValueV, Query, QueryV, RowV, Scalar,
};
use crate::flow::{
    answers, failure, failure_in, rows_in, told, Action, ActionV, Outcome, Trigger, TriggerV, Work,
    WorkV,
};
use crate::giving::{is_plain, law_typing_tells_the_text, lemma_unquoted, tells};
use crate::json::{
    copy_fields, fields_of, get_in, lemma_array_view, lemma_object_view, lookup, set_in, with_field,
    Json, JsonV,
};
use crate::model::{column_named, find_column, Column, Index, TableSchema};
use crate::pk_utils::{
    build_pk_filter, dbparam_from_str_and_type, filter_result, law_keys_pick_their_row,
    parse_pk_values, pk_filter, typed,
};
use crate::post::{take_rows, Fields};
use crate::put::{
    add_rows, any_affected, any_duplicate, build_needed_columns, found_duplicate, is_affected,
    is_any_affected, is_any_set, needed_columns, with_rows,
};
use crate::repositories::data_create_repo::{
    batch_is_kept, build_equalities, build_key_query, build_objects, build_taken_query, copy_checks,
    equalities, find_next_check, key_query, next_check, objects, overlaid, overlay, row_is_kept,
    stamped_batch, taken_query, PreparedDetailBatch, PreparedDetailBatchV,
};
use crate::text::{
    ascii_lower, begins_with, copy_texts, join, joined, push_item, split, starts_with,
};
use crate::validation::{
    dbparam_from_value_and_type, fk_verdict, invalid_key, is_check_of, say_invalid_key,
    validate_foreign_keys_batch, value_for, FkCheck, FkCheckV, Reading, UniqueCheck, UniqueCheckV,
};
use crate::writing::{has_statement, holds_statement, is_invalidated, judge_validation};
use vstd::prelude::*;
use vstd::string::*;

verus! {

/// Which row is updated.
#[derive(Debug)]
pub struct ChangeTarget {
    pub route: String,
    pub schema: TableSchema,
    pub id_raw: String,
    /// Whether the store is one without transactions of its own.
    pub mongodb: bool,
}

/// What a row is updated from, and what is found out of it on the way: the row as
/// it was, the values that its unique indexes will have, and how many rows were
/// changed.
#[derive(Debug)]
pub struct ChangePlan {
    pub body: Json,
    pub fields: Vec<(String, InsertValue)>,
    pub patch: Vec<(String, Json)>,
    pub checks: Vec<FkCheck>,
    pub details: Vec<PreparedDetailBatch>,
    pub old_record: Vec<(String, Json)>,
    pub values: Vec<(String, Json)>,
    pub count: i32,
}

/// What such a plan is.
pub struct ChangePlanV {
    pub body: JsonV,
    pub fields: Seq<(Seq<char>, InsertValueV)>,
    pub patch: Fields,
    pub checks: Seq<FkCheckV>,
    pub details: Seq<PreparedDetailBatchV>,
    pub old_record: Fields,
    pub values: Fields,
    pub count: i32,
}

impl DeepView for ChangePlan {
    type V = ChangePlanV;

    open spec fn deep_view(&self) -> ChangePlanV {
        ChangePlanV {
            body: self.body.deep_view(),
            fields: self.fields.deep_view(),
            patch: self.patch.deep_view(),
            checks: self.checks.deep_view(),
            details: self.details.deep_view(),
            old_record: self.old_record.deep_view(),
            values: self.values.deep_view(),
            count: self.count,
        }
    }
}

// ---------------------------------------------------------------------------
// The row
// ---------------------------------------------------------------------------

/// The first column of the primary key.
pub open spec fn leading_key(schema: TableSchema) -> Seq<char> {
    if schema.primary_key.deep_view().len() > 0 {
        schema.primary_key.deep_view()[0]
    } else {
        "id"@
    }
}

/// The first column of the primary key.
pub fn read_leading_key(schema: &TableSchema) -> (r: String)
    ensures
        r@ == leading_key(*schema),
{
    assert(schema.primary_key.deep_view().len() == schema.primary_key@.len());
    if schema.primary_key.len() > 0 {
        schema.primary_key[0].clone()
    } else {
        "id".to_owned()
    }
}

/// The key of a row as a value of that column.
pub open spec fn leading_value(schema: TableSchema, id_raw: Seq<char>) -> Scalar {
    match column_named(schema.columns@, leading_key(schema)) {
        Some(c) => value_for(JsonV::Str(id_raw), Some(c)),
        None => Scalar::Str(id_raw),
    }
}

/// The key of a row as a value of that column.
pub fn read_leading_value(schema: &TableSchema, id_raw: &str) -> (r: DbParam)
    ensures
        r.deep_view() == leading_value(*schema, id_raw@),
{
    let key = read_leading_key(schema);
    match find_column(&schema.columns, key.as_str()) {
        Some(c) => dbparam_from_value_and_type(&Json::Str(id_raw.to_owned()), Some(c)),
        None => DbParam::Str(id_raw.to_owned()),
    }
}

/// The filter that picks the row, unless it counts as deleted; or why there is
/// none.
pub open spec fn live_filter(schema: TableSchema, id_raw: Seq<char>) -> Result<FilterV, Seq<char>> {
    match pk_filter(schema.primary_key.deep_view(), split(id_raw, '~')) {
        Err(m) => Err(m),
        Ok(f) => if column_named(schema.columns@, "deleted_at"@) is Some {
            Ok(FilterV::And(seq![f, FilterV::IsNull("deleted_at"@)]))
        } else {
            Ok(f)
        },
    }
}

/// The filter that picks the row, unless it counts as deleted.
pub fn build_live_filter(schema: &TableSchema, id_raw: &str) -> (r: Result<Filter, String>)
    ensures
        filter_result(r) == live_filter(*schema, id_raw@),
{
    broadcast use crate::ast::lemma_and_view;

    let values = parse_pk_values(id_raw);
    match build_pk_filter(schema.primary_key.as_slice(), values.as_slice()) {
        Err(m) => Err(m),
        Ok(f) => if find_column(&schema.columns, "deleted_at").is_some() {
            let mut terms: Vec<Filter> = Vec::new();
            let ghost fv = f.deep_view();
            push_item(&mut terms, f);
            push_item(&mut terms, Filter::IsNull("deleted_at".to_owned()));
            assert(terms.deep_view() =~= seq![fv, FilterV::IsNull("deleted_at"@)]);
            Ok(Filter::And(terms))
        } else {
            Ok(f)
        },
    }
}

/// The statement that reads columns of the row.
pub open spec fn read_row_sql(columns: Seq<char>, schema: TableSchema) -> Seq<char> {
    "SELECT "@ + columns + " FROM "@ + schema.table@ + " WHERE "@ + leading_key(schema) + " = ?"@
}

/// The statement that reads columns of the row.
pub fn write_read_row(columns: &str, schema: &TableSchema) -> (r: String)
    ensures
        r@ == read_row_sql(columns@, *schema),
{
    let mut sql = "SELECT ".to_owned();
    sql.append(columns);
    sql.append(" FROM ");
    sql.append(schema.table.as_str());
    sql.append(" WHERE ");
    sql.append(read_leading_key(schema).as_str());
    sql.append(" = ?");
    sql
}

/// The first row of a result, where it is an object.
pub open spec fn first_record(rows: Seq<JsonV>) -> Fields {
    if rows.len() > 0 {
        fields_of(rows[0])
    } else {
        Seq::empty()
    }
}

/// The first row of a result, where it is an object.
pub fn take_record(rows: &Vec<Json>) -> (r: Vec<(String, Json)>)
    ensures
        r.deep_view() == first_record(rows.deep_view()),
{
    broadcast use lemma_object_view;

    let none: Vec<(String, Json)> = Vec::new();
    assert(none.deep_view() =~= Seq::empty());
    assert(rows.deep_view().len() == rows@.len());
    if rows.len() > 0 {
        assert(rows.deep_view()[0] == rows@[0].deep_view());
        match &rows[0] {
            Json::Object(fields) => copy_fields(fields),
            _ => none,
        }
    } else {
        none
    }
}

/// A list of one value.
pub fn single(p: DbParam) -> (r: Vec<DbParam>)
    ensures
        r.deep_view() == seq![p.deep_view()],
{
    let mut v: Vec<DbParam> = Vec::new();
    let ghost pv = p.deep_view();
    push_item(&mut v, p);
    assert(v.deep_view() =~= seq![pv]);
    v
}

// ---------------------------------------------------------------------------
// Unique indexes
// ---------------------------------------------------------------------------

/// The values of some columns, where each has one.
pub open spec fn values_under(
    names: Seq<Seq<char>>,
    columns: Seq<Column>,
    values: Fields,
) -> Option<Seq<(Seq<char>, Scalar)>>
    decreases names.len(),
{
    if names.len() == 0 {
        Some(Seq::empty())
    } else {
        match values_under(names.drop_last(), columns, values) {
            Some(before) => match lookup(values, names.last()) {
                Some(v) => Some(
                    before.push((names.last(), value_for(v, column_named(columns, names.last())))),
                ),
                None => None,
            },
            None => None,
        }
    }
}

proof fn lemma_values_missing(names: Seq<Seq<char>>, columns: Seq<Column>, values: Fields, k: int)
    requires
        0 <= k <= names.len(),
        values_under(names.take(k), columns, values) is None,
    ensures
        values_under(names, columns, values) is None,
    decreases names.len() - k,
{
    if k < names.len() {
        assert(names.take(k + 1).drop_last() =~= names.take(k));
        lemma_values_missing(names, columns, values, k + 1);
    } else {
        assert(names.take(k) =~= names);
    }
}

fn collect_values(names: &Vec<String>, columns: &Vec<Column>, values: &Vec<(String, Json)>) -> (r:
    Option<Vec<(String, DbParam)>>)
    ensures
        r.deep_view() == values_under(names.deep_view(), columns@, values.deep_view()),
{
    let ghost ns = names.deep_view();
    let ghost vs = values.deep_view();
    let mut out: Vec<(String, DbParam)> = Vec::new();
    let mut i: usize = 0;
    assert(out.deep_view() =~= Seq::empty());
    while i < names.len()
        invariant
            i <= names@.len(),
            ns == names.deep_view(),
            vs == values.deep_view(),
            values_under(ns.take(i as int), columns@, vs) == Some(out.deep_view()),
        decreases names.len() - i,
    {
        assert(ns.take(i + 1).drop_last() =~= ns.take(i as int));
        assert(ns[i as int] == names@[i as int]@);
        let name = names[i].as_str();
        match get_in(values, name) {
            Some(v) => {
                let p = dbparam_from_value_and_type(v, find_column(columns, name));
                push_item(&mut out, (names[i].clone(), p));
            },
            None => {
                proof {
                    lemma_values_missing(ns, columns@, vs, i + 1);
                }
                return None;
            },
        }
        i += 1;
    }
    assert(ns.take(ns.len() as int) =~= ns);
    Some(out)
}

/// The checks of the unique indexes that are touched and whose values are all
/// known.
pub open spec fn touched_checks(indexes: Seq<Index>, columns: Seq<Column>, values: Fields) -> Seq<
    UniqueCheckV,
>
    decreases indexes.len(),
{
    if indexes.len() == 0 {
        Seq::empty()
    } else {
        let before = touched_checks(indexes.drop_last(), columns, values);
        let ix = indexes.last();
        match values_under(ix.columns.deep_view(), columns, values) {
            Some(vs) => if is_affected(ix, values) {
                before.push(UniqueCheckV { index_name: ix.name@, columns: vs })
            } else {
                before
            },
            None => before,
        }
    }
}

/// The checks of the unique indexes that are touched and whose values are all
/// known.
pub fn build_touched_checks(
    indexes: &Vec<Index>,
    columns: &Vec<Column>,
    values: &Vec<(String, Json)>,
) -> (r: Vec<UniqueCheck>)
    ensures
        r.deep_view() == touched_checks(indexes@, columns@, values.deep_view()),
{
    let mut out: Vec<UniqueCheck> = Vec::new();
    let mut i: usize = 0;
    assert(out.deep_view() =~= Seq::empty());
    while i < indexes.len()
        invariant
            i <= indexes@.len(),
            out.deep_view() == touched_checks(
                indexes@.take(i as int),
                columns@,
                values.deep_view(),
            ),
        decreases indexes.len() - i,
    {
        assert(indexes@.take(i + 1).drop_last() =~= indexes@.take(i as int));
        let ix = &indexes[i];
        if ix.unique && is_any_set(&ix.columns, values) {
            match collect_values(&ix.columns, columns, values) {
                Some(vs) => {
                    push_item(
                        &mut out,
                        UniqueCheck { index_name: ix.name.clone(), columns: vs },
                    );
                },
                None => {},
            }
        }
        i += 1;
    }
    assert(indexes@.take(indexes@.len() as int) =~= indexes@);
    out
}

// ---------------------------------------------------------------------------
// Details
// ---------------------------------------------------------------------------

/// Whether the rows of a detail can be replaced.
pub open spec fn is_linked(b: PreparedDetailBatchV) -> bool {
    b.target_table.len() > 0 && b.foreign_key_column.len() > 0
}

/// Details with the key of the row in their rows and items; one without rows
/// stays as it is.
pub open spec fn linked_details(batches: Seq<PreparedDetailBatchV>, id_raw: Seq<char>) -> Seq<
    PreparedDetailBatchV,
> {
    Seq::new(
        batches.len(),
        |i: int|
            if is_linked(batches[i]) && batches[i].rows.len() > 0 {
                stamped_batch(
                    batches[i],
                    typed(id_raw, ascii_lower(batches[i].fk_type_data)),
                    JsonV::Str(id_raw),
                )
            } else {
                batches[i]
            },
    )
}

/// A document with the items of each detail that was replaced under its field.
pub open spec fn with_linked(doc: Fields, batches: Seq<PreparedDetailBatchV>) -> Fields
    decreases batches.len(),
{
    if batches.len() == 0 {
        doc
    } else {
        let before = with_linked(doc, batches.drop_last());
        if is_linked(batches.last()) {
            with_field(
                before,
                batches.last().field,
                JsonV::Array(objects(batches.last().response_items)),
            )
        } else {
            before
        }
    }
}

fn link_details(batches: Vec<PreparedDetailBatch>, id_raw: &str) -> (r: Vec<PreparedDetailBatch>)
    ensures
        r.deep_view() == linked_details(batches.deep_view(), id_raw@),
{
    let ghost start = batches.deep_view();
    let ghost all = linked_details(start, id_raw@);
    let n: usize = batches.len();
    let mut rest = batches;
    let mut out: Vec<PreparedDetailBatch> = Vec::new();
    let mut i: usize = 0;
    assert(rest.deep_view() =~= start.skip(0));
    while i < n
        invariant
            i <= n,
            n == start.len(),
            rest.deep_view() == start.skip(i as int),
            rest@.len() == n - i,
            all == linked_details(start, id_raw@),
            out.deep_view() == all.take(i as int),
        decreases n - i,
    {
        let ghost rv = rest.deep_view();
        let mut b = rest.remove(0);
        assert(rv[0] == b.deep_view());
        assert forall|k: int| 0 <= k < rest@.len() implies rest.deep_view()[k] == start.skip(
            i + 1,
        )[k] by {
            assert(rv[k + 1] == rest@[k].deep_view());
            assert(start.skip(i as int)[k + 1] == start.skip(i + 1)[k]);
        }
        assert(rest.deep_view() =~= start.skip(i + 1));
        assert(b.rows.deep_view().len() == b.rows@.len());
        if !b.target_table.as_str().is_empty() && !b.foreign_key_column.as_str().is_empty()
            && b.rows.len() > 0 {
            let key = dbparam_from_str_and_type(id_raw, b.fk_type_data.as_str());
            b.stamp(&key, &Json::Str(id_raw.to_owned()));
        }
        push_item(&mut out, b);
        i += 1;
        assert(all.take(i as int) =~= all.take(i - 1).push(all[i - 1]));
    }
    assert(all.take(n as int) =~= all);
    out
}

fn add_linked(doc: &mut Vec<(String, Json)>, batches: &Vec<PreparedDetailBatch>)
    ensures
        final(doc).deep_view() == with_linked(old(doc).deep_view(), batches.deep_view()),
{
    let ghost bs = batches.deep_view();
    let ghost start = doc.deep_view();
    let mut i: usize = 0;
    while i < batches.len()
        invariant
            i <= batches@.len(),
            bs == batches.deep_view(),
            doc.deep_view() == with_linked(start, bs.take(i as int)),
        decreases batches.len() - i,
    {
        assert(bs.take(i + 1).drop_last() =~= bs.take(i as int));
        assert(bs[i as int] == batches@[i as int].deep_view());
        let b = &batches[i];
        if !b.target_table.as_str().is_empty() && !b.foreign_key_column.as_str().is_empty() {
            let items = build_objects(&b.response_items);
            proof {
                lemma_array_view(items);
            }
            set_in(doc, b.field.as_str(), Json::Array(items));
        }
        i += 1;
    }
    assert(bs.take(bs.len() as int) =~= bs);
}

/// The statement that deletes the rows of a detail.
pub open spec fn clear_sql(b: PreparedDetailBatchV) -> Seq<char> {
    "DELETE FROM "@ + b.target_table + " WHERE "@ + b.foreign_key_column + " = ?"@
}

// ---------------------------------------------------------------------------
// The steps
// ---------------------------------------------------------------------------

/// Where an update stands.
#[derive(Debug, PartialEq, Eq, Clone, Copy, Structural)]
pub enum ChangeStage {
    Start,
    Compiling,
    Beginning,
    Reading,
    /// All foreign keys are checked at once.
    Keys,
    /// This foreign key is checked.
    Key(usize),
    Preloading,
    /// All unique indexes are checked at once.
    Unique,
    /// This unique index is checked.
    Index(usize),
    Asking,
    Validating,
    PreProcessing,
    Writing,
    /// The rows of this detail are deleted.
    Clearing(usize),
    /// The new rows of this detail are compiled.
    CompilingRows(usize),
    /// The new rows of this detail are inserted.
    RunningRows(usize),
    Triggering,
    PostProcessing,
    Committing,
    Ended,
}

/// An update under way.
#[derive(Debug)]
pub struct RowChange {
    pub target: ChangeTarget,
    pub stage: ChangeStage,
    pub plan: ChangePlan,
}

/// What follows from a step: where the update stands, what is known of it, and
/// what the step asks for.
pub type ChangeTurn = (ChangeStage, ChangePlanV, WorkV);

/// The update ends.
pub open spec fn change_ends(p: ChangePlanV, w: WorkV) -> ChangeTurn {
    (ChangeStage::Ended, p, w)
}

/// Something is asked for.
pub open spec fn change_asks(stage: ChangeStage, p: ChangePlanV, a: ActionV) -> ChangeTurn {
    (stage, p, WorkV::Ask(a))
}

/// The update begins: a row of a database is compiled first.
pub open spec fn change_starts(q: ChangeTarget, p: ChangePlanV) -> ChangeTurn {
    if q.mongodb {
        change_asks(ChangeStage::Beginning, p, ActionV::Begin)
    } else {
        match live_filter(q.schema, q.id_raw@) {
            Err(m) => change_ends(p, WorkV::Fail(m)),
            Ok(f) => change_asks(
                ChangeStage::Compiling,
                p,
                ActionV::CompileUpdate(q.schema.table@, f, p.fields),
            ),
        }
    }
}

/// The foreign keys are checked.
pub open spec fn change_keys(q: ChangeTarget, p: ChangePlanV) -> ChangeTurn {
    if p.checks.len() > 0 && !q.mongodb {
        change_asks(ChangeStage::Keys, p, ActionV::CheckKeys(p.checks))
    } else {
        change_key(q, p, 0)
    }
}

/// The `k`-th foreign key is checked, or the unique indexes are.
pub open spec fn change_key(q: ChangeTarget, p: ChangePlanV, k: int) -> ChangeTurn {
    if 0 <= k < p.checks.len() {
        change_asks(ChangeStage::Key(k as usize), p, ActionV::RunQuery(key_query(p.checks[k])))
    } else {
        change_indexes(q, p)
    }
}

/// The query that reads columns of a document.
pub open spec fn preload_query(q: ChangeTarget, f: FilterV, columns: Seq<Seq<char>>) -> QueryV {
    QueryV { columns, filter: Some(f), limit: Some(1), ..all_of(q.schema.table@) }
}

/// The unique indexes that the update touches are checked; what it does not set
/// of them is read first.
pub open spec fn change_indexes(q: ChangeTarget, p: ChangePlanV) -> ChangeTurn {
    if any_affected(q.schema.indexes@, p.patch) {
        let needed = needed_columns(q.schema.indexes@, p.patch);
        let set = ChangePlanV { values: p.patch, ..p };
        if needed.len() == 0 {
            change_unique(q, set)
        } else if !q.mongodb {
            change_asks(
                ChangeStage::Preloading,
                set,
                ActionV::RunSql(
                    read_row_sql(join(needed, ","@), q.schema),
                    seq![leading_value(q.schema, q.id_raw@)],
                ),
            )
        } else {
            match pk_filter(q.schema.primary_key.deep_view(), split(q.id_raw@, '~')) {
                Err(m) => change_ends(set, WorkV::Abandon(m)),
                Ok(f) => change_asks(
                    ChangeStage::Preloading,
                    set,
                    ActionV::RunQuery(preload_query(q, f, needed)),
                ),
            }
        }
    } else {
        change_validated(q, p)
    }
}

/// The checks of the unique indexes that the update touches.
pub open spec fn change_checks(q: ChangeTarget, p: ChangePlanV) -> Seq<UniqueCheckV> {
    touched_checks(q.schema.indexes@, q.schema.columns@, p.values)
}

/// The unique indexes are checked, with the values that they will have.
pub open spec fn change_unique(q: ChangeTarget, p: ChangePlanV) -> ChangeTurn {
    if q.mongodb {
        change_index(q, p, 0)
    } else if change_checks(q, p).len() > 0 {
        change_asks(
            ChangeStage::Unique,
            p,
            ActionV::CheckUnique(
                q.schema.table@,
                change_checks(q, p),
                Some((leading_key(q.schema), leading_value(q.schema, q.id_raw@))),
            ),
        )
    } else {
        change_validated(q, p)
    }
}

/// The conditions under which another document has the values of a check.
pub open spec fn other_conditions(q: ChangeTarget, c: UniqueCheckV) -> Seq<FilterV> {
    equalities(c.columns).push(
        FilterV::Ne(leading_key(q.schema), leading_value(q.schema, q.id_raw@)),
    )
}

/// The next unique index, at or after `k`, is checked.
pub open spec fn change_index(q: ChangeTarget, p: ChangePlanV, k: int) -> ChangeTurn {
    match next_check(change_checks(q, p), k) {
        Some(i) => change_asks(
            ChangeStage::Index(i as usize),
            p,
            ActionV::RunQuery(
                taken_query(q.schema.table@, other_conditions(q, change_checks(q, p)[i])),
            ),
        ),
        None => change_validated(q, p),
    }
}

/// The configured service validates the body, where there is one. A document is
/// written without any configured validation.
pub open spec fn change_validated(q: ChangeTarget, p: ChangePlanV) -> ChangeTurn {
    if q.mongodb {
        change_written(q, p)
    } else if starts_with(q.schema.put.validate_data@, "API:"@) {
        change_asks(
            ChangeStage::Asking,
            p,
            ActionV::ValidateApi(q.schema.put.validate_data@, p.body),
        )
    } else {
        change_checked(q, p)
    }
}

/// The configured validation is run, where there is one.
pub open spec fn change_checked(q: ChangeTarget, p: ChangePlanV) -> ChangeTurn {
    if has_statement(q.schema.put.validate_data@) {
        change_asks(
            ChangeStage::Validating,
            p,
            ActionV::CheckFormula(q.schema.put.validate_data@, p.body),
        )
    } else {
        change_preprocessed(q, p)
    }
}

/// What is configured to run before the update is run.
pub open spec fn change_preprocessed(q: ChangeTarget, p: ChangePlanV) -> ChangeTurn {
    if has_statement(q.schema.put.pre_process@) {
        change_asks(
            ChangeStage::PreProcessing,
            p,
            ActionV::RunFormula(q.schema.put.pre_process@, p.body),
        )
    } else {
        change_written(q, p)
    }
}

/// The row is updated.
pub open spec fn change_written(q: ChangeTarget, p: ChangePlanV) -> ChangeTurn {
    match live_filter(q.schema, q.id_raw@) {
        Err(m) => change_ends(p, WorkV::Abandon(m)),
        Ok(f) => change_asks(
            ChangeStage::Writing,
            p,
            ActionV::UpdateRows(q.schema.table@, f, JsonV::Object(p.patch)),
        ),
    }
}

/// What is known once a row was updated: its details have its key, and are shown.
pub open spec fn changed_plan(q: ChangeTarget, p: ChangePlanV) -> ChangePlanV {
    let details = linked_details(p.details, q.id_raw@);
    ChangePlanV { patch: with_linked(p.patch, details), details, count: 1, ..p }
}

/// The rows of the next detail, at or after the `b`-th, are replaced.
pub open spec fn change_detail(q: ChangeTarget, p: ChangePlanV, b: int) -> ChangeTurn
    decreases p.details.len() - b,
{
    if b < 0 || b >= p.details.len() {
        change_triggered(q, p)
    } else if is_linked(p.details[b]) {
        change_asks(
            ChangeStage::Clearing(b as usize),
            p,
            ActionV::RunNative(
                clear_sql(p.details[b]),
                seq![typed(q.id_raw@, ascii_lower(p.details[b].fk_type_data))],
            ),
        )
    } else {
        change_detail(q, p, b + 1)
    }
}

/// The new rows of a detail are inserted, where there are any.
pub open spec fn change_rows(q: ChangeTarget, p: ChangePlanV, b: int) -> ChangeTurn {
    if 0 <= b < p.details.len() && p.details[b].rows.len() > 0 {
        change_asks(
            ChangeStage::CompilingRows(b as usize),
            p,
            ActionV::CompileBulk(
                p.details[b].target_table,
                p.details[b].columns,
                p.details[b].rows,
            ),
        )
    } else {
        change_detail(q, p, b + 1)
    }
}

/// The triggers are run, where there are any.
pub open spec fn change_triggered(q: ChangeTarget, p: ChangePlanV) -> ChangeTurn {
    if q.schema.action_triggers > 0 {
        change_asks(
            ChangeStage::Triggering,
            p,
            ActionV::RunTriggers(
                TriggerV {
                    event: "on_update"@,
                    action: "TRIGGER"@,
                    key: q.id_raw@,
                    actor: None,
                    old_record: p.old_record,
                    new_record: overlaid(p.old_record, p.patch),
                    body: p.body,
                },
            ),
        )
    } else {
        change_postprocessed(q, p)
    }
}

/// What is configured to run after the update is run.
pub open spec fn change_postprocessed(q: ChangeTarget, p: ChangePlanV) -> ChangeTurn {
    if has_statement(q.schema.put.post_process@) {
        change_asks(
            ChangeStage::PostProcessing,
            p,
            ActionV::RunFormula(q.schema.put.post_process@, p.body),
        )
    } else {
        change_asks(ChangeStage::Committing, p, ActionV::Commit)
    }
}

/// A message about the table of a detail.
pub open spec fn about_detail(before: Seq<char>, p: ChangePlanV, b: int, e: Seq<char>) -> Seq<char> {
    before + (if 0 <= b < p.details.len() {
        p.details[b].target_table
    } else {
        Seq::empty()
    }) + ": "@ + e
}

/// How many rows a step changed.
pub open spec fn count_in(o: Outcome) -> i32 {
    match o {
        Outcome::Count(n) => n,
        _ => 0,
    }
}

/// The next step of an update, before the row is written.
pub open spec fn change_next_checks(
    q: ChangeTarget,
    stage: ChangeStage,
    p: ChangePlanV,
    o: Outcome,
) -> ChangeTurn {
    match stage {
        ChangeStage::Start => change_starts(q, p),
        ChangeStage::Compiling => match failure_in(o) {
            Some(e) => change_ends(p, WorkV::Fail("Error compiling AST UPDATE: "@ + e)),
            None => change_asks(ChangeStage::Beginning, p, ActionV::Begin),
        },
        ChangeStage::Beginning => match failure_in(o) {
            Some(e) => change_ends(p, WorkV::Fail("Error starting transaction: "@ + e)),
            None => if q.mongodb {
                change_keys(q, p)
            } else {
                change_asks(
                    ChangeStage::Reading,
                    p,
                    ActionV::RunNative(
                        read_row_sql("*"@, q.schema),
                        seq![leading_value(q.schema, q.id_raw@)],
                    ),
                )
            },
        },
        ChangeStage::Reading => change_keys(
            q,
            ChangePlanV { old_record: first_record(rows_in(o)), ..p },
        ),
        ChangeStage::Keys => match o {
            Outcome::NotBuilt(e) => change_ends(
                p,
                WorkV::Abort("Error building FK check query: "@ + e@),
            ),
            Outcome::Failed(e) => change_ends(
                p,
                WorkV::Abort("FK batch validation failed: "@ + e@),
            ),
            _ => match fk_verdict(rows_in(o), Reading::TrueOrOne) {
                Some(m) => change_ends(p, WorkV::Abort(m)),
                None => change_indexes(q, p),
            },
        },
        ChangeStage::Key(k) => match failure_in(o) {
            Some(e) => change_ends(p, WorkV::Abort("Error validating FK (mongo): "@ + e)),
            None => if rows_in(o).len() == 0 && k < p.checks.len() {
                change_ends(
                    p,
                    WorkV::Abort(invalid_key(p.checks[k as int].column, p.checks[k as int].table)),
                )
            } else {
                change_key(q, p, k + 1)
            },
        },
        ChangeStage::Preloading => match failure_in(o) {
            Some(e) => if q.mongodb {
                change_ends(p, WorkV::Abandon("Error preloading values: "@ + e))
            } else {
                change_ends(
                    p,
                    WorkV::Abort("Error preloading values for unique check: "@ + e),
                )
            },
            None => change_unique(
                q,
                ChangePlanV {
                    values: if q.mongodb {
                        overlaid(p.values, first_record(rows_in(o)))
                    } else {
                        with_rows(
                            p.values,
                            needed_columns(q.schema.indexes@, p.patch),
                            rows_in(o),
                        )
                    },
                    ..p
                },
            ),
        },
        ChangeStage::Unique => match o {
            Outcome::NotBuilt(e) => change_ends(
                p,
                WorkV::Abort("Error building unique check query: "@ + e@),
            ),
            Outcome::Failed(e) => change_ends(
                p,
                WorkV::Abort("Unique batch validation failed: "@ + e@),
            ),
            _ => if any_duplicate(rows_in(o), Reading::TrueOrOne) {
                change_ends(p, WorkV::Abort("Unique constraint violation"@))
            } else {
                change_validated(q, p)
            },
        },
        ChangeStage::Index(k) => match failure_in(o) {
            Some(e) => change_ends(p, WorkV::Abort("Error validating Unique (mongo): "@ + e)),
            None => if rows_in(o).len() > 0 && k < change_checks(q, p).len() {
                change_ends(
                    p,
                    WorkV::Abort(
                        "Unique constraint violation on index: "@ + change_checks(
                            q,
                            p,
                        )[k as int].index_name,
                    ),
                )
            } else {
                change_index(q, p, k + 1)
            },
        },
        _ => change_asks(ChangeStage::Ended, p, ActionV::Nothing),
    }
}

/// The next step of an update, from its configured validation on.
pub open spec fn change_next_writes(
    q: ChangeTarget,
    stage: ChangeStage,
    p: ChangePlanV,
    o: Outcome,
) -> ChangeTurn {
    match stage {
        ChangeStage::Asking => match failure_in(o) {
            Some(e) => change_ends(p, WorkV::Abort(e)),
            None => change_checked(q, p),
        },
        ChangeStage::Validating => match o {
            Outcome::NotBuilt(e) => change_ends(
                p,
                WorkV::Abort("Error building validation formula: "@ + e@),
            ),
            Outcome::Failed(e) => change_ends(p, WorkV::Abort("Error in validation_data: "@ + e@)),
            _ => if rows_in(o).len() == 0 || is_invalidated(rows_in(o)) {
                change_ends(
                    p,
                    WorkV::Abort("Validation data from table is not valid/empty"@),
                )
            } else {
                change_preprocessed(q, p)
            },
        },
        ChangeStage::PreProcessing => match failure_in(o) {
            Some(e) => change_ends(p, WorkV::Abort("Error in pre-process: "@ + e)),
            None => change_written(q, p),
        },
        ChangeStage::Writing => match failure_in(o) {
            Some(e) => change_ends(
                p,
                WorkV::Abort(
                    if q.mongodb {
                        "Error NCO-PUT (mongo): "@ + e
                    } else {
                        "Error NCO-PUT: "@ + e
                    },
                ),
            ),
            None => if q.mongodb {
                change_asks(
                    ChangeStage::Committing,
                    ChangePlanV { count: count_in(o), ..p },
                    ActionV::Commit,
                )
            } else {
                change_detail(q, changed_plan(q, p), 0)
            },
        },
        ChangeStage::Clearing(b) => match failure_in(o) {
            Some(e) => change_ends(
                p,
                WorkV::Abort(
                    about_detail("Error clearing old detail items for "@, p, b as int, e),
                ),
            ),
            None => change_rows(q, p, b as int),
        },
        ChangeStage::CompilingRows(b) => match failure_in(o) {
            Some(e) => change_ends(
                p,
                WorkV::Abandon(about_detail("Error building bulk insert for "@, p, b as int, e)),
            ),
            None => change_asks(ChangeStage::RunningRows(b), p, ActionV::RunCompiled),
        },
        ChangeStage::RunningRows(b) => match failure_in(o) {
            Some(e) => change_ends(
                p,
                WorkV::Abort(about_detail("Error inserting detail items into "@, p, b as int, e)),
            ),
            None => change_detail(q, p, b + 1),
        },
        ChangeStage::Triggering => match failure_in(o) {
            Some(e) => change_ends(p, WorkV::Abort("Action trigger failed: "@ + e)),
            None => change_postprocessed(q, p),
        },
        ChangeStage::PostProcessing => match failure_in(o) {
            Some(e) => change_ends(p, WorkV::Abort("Error in post-process: "@ + e)),
            None => change_asks(ChangeStage::Committing, p, ActionV::Commit),
        },
        ChangeStage::Committing => change_ends(
            p,
            WorkV::Finish("Data updated successfully"@, p.count, JsonV::Object(p.patch)),
        ),
        _ => change_asks(ChangeStage::Ended, p, ActionV::Nothing),
    }
}

/// The stages from the configured validation on.
pub open spec fn is_late(stage: ChangeStage) -> bool {
    match stage {
        ChangeStage::Asking => true,
        ChangeStage::Validating => true,
        ChangeStage::PreProcessing => true,
        ChangeStage::Writing => true,
        ChangeStage::Clearing(_) => true,
        ChangeStage::CompilingRows(_) => true,
        ChangeStage::RunningRows(_) => true,
        ChangeStage::Triggering => true,
        ChangeStage::PostProcessing => true,
        ChangeStage::Committing => true,
        _ => false,
    }
}

/// The next step of an update.
pub open spec fn change_next(q: ChangeTarget, stage: ChangeStage, p: ChangePlanV, o: Outcome) -> ChangeTurn {
    if is_late(stage) {
        change_next_writes(q, stage, p, o)
    } else {
        change_next_checks(q, stage, p, o)
    }
}

/// An update that has not begun.
pub fn perform_update(target: ChangeTarget, plan: ChangePlan) -> (r: RowChange)
    ensures
        r.target == target,
        r.stage == ChangeStage::Start,
        r.plan == plan,
{
    RowChange { target, stage: ChangeStage::Start, plan }
}

impl RowChange {
    /// Where the update stands, what is known of it, and what it asks for.
    pub open spec fn turn(&self, w: Work) -> ChangeTurn {
        (self.stage, self.plan.deep_view(), w.deep_view())
    }

    /// Whether the update is over.
    pub fn ended(&self) -> (r: bool)
        ensures
            r == (self.stage == ChangeStage::Ended),
    {
        match self.stage {
            ChangeStage::Ended => true,
            _ => false,
        }
    }

    fn end(&mut self, w: Work) -> (r: Work)
        ensures
            final(self).target == old(self).target,
            final(self).turn(r) == change_ends(old(self).plan.deep_view(), w.deep_view()),
    {
        self.stage = ChangeStage::Ended;
        w
    }

    fn ask(&mut self, stage: ChangeStage, a: Action) -> (r: Work)
        ensures
            final(self).target == old(self).target,
            final(self).turn(r) == change_asks(stage, old(self).plan.deep_view(), a.deep_view()),
    {
        self.stage = stage;
        Work::Ask(a)
    }

    fn starts(&mut self) -> (r: Work)
        ensures
            final(self).target == old(self).target,
            final(self).turn(r) == change_starts(old(self).target, old(self).plan.deep_view()),
    {
        if self.target.mongodb {
            self.ask(ChangeStage::Beginning, Action::Begin)
        } else {
            match build_live_filter(&self.target.schema, self.target.id_raw.as_str()) {
                Err(m) => self.end(Work::Fail(m)),
                Ok(f) => {
                    let table = self.target.schema.table.clone();
                    let fields = copy_field_values(&self.plan.fields);
                    self.ask(ChangeStage::Compiling, Action::CompileUpdate(table, f, fields))
                },
            }
        }
    }

    fn keys(&mut self) -> (r: Work)
        ensures
            final(self).target == old(self).target,
            final(self).turn(r) == change_keys(old(self).target, old(self).plan.deep_view()),
    {
        assert(self.plan.checks.deep_view().len() == self.plan.checks@.len());
        if self.plan.checks.len() > 0 && !self.target.mongodb {
            let checks = copy_checks(&self.plan.checks);
            self.ask(ChangeStage::Keys, Action::CheckKeys(checks))
        } else {
            self.key(0)
        }
    }

    fn key(&mut self, k: usize) -> (r: Work)
        ensures
            final(self).target == old(self).target,
            final(self).turn(r) == change_key(
                old(self).target,
                old(self).plan.deep_view(),
                k as int,
            ),
    {
        assert(self.plan.checks.deep_view().len() == self.plan.checks@.len());
        if k < self.plan.checks.len() {
            assert(self.plan.checks.deep_view()[k as int]
                == self.plan.checks@[k as int].deep_view());
            let q = build_key_query(&self.plan.checks[k]);
            self.ask(ChangeStage::Key(k), Action::RunQuery(q))
        } else {
            self.indexes()
        }
    }

    fn indexes(&mut self) -> (r: Work)
        ensures
            final(self).target == old(self).target,
            final(self).turn(r) == change_indexes(old(self).target, old(self).plan.deep_view()),
    {
        if is_any_affected(&self.target.schema.indexes, &self.plan.patch) {
            let needed = build_needed_columns(&self.target.schema.indexes, &self.plan.patch);
            assert(needed.deep_view().len() == needed@.len());
            self.plan.values = copy_fields(&self.plan.patch);
            if needed.len() == 0 {
                self.unique()
            } else if !self.target.mongodb {
                let list = joined(&needed, ",");
                let sql = write_read_row(list.as_str(), &self.target.schema);
                let key = read_leading_value(
                    &self.target.schema,
                    self.target.id_raw.as_str(),
                );
                self.ask(ChangeStage::Preloading, Action::RunSql(sql, single(key)))
            } else {
                let values = parse_pk_values(self.target.id_raw.as_str());
                match build_pk_filter(
                    self.target.schema.primary_key.as_slice(),
                    values.as_slice(),
                ) {
                    Err(m) => self.end(Work::Abandon(m)),
                    Ok(f) => {
                        let mut q = Query::of(self.target.schema.table.as_str());
                        q.columns = needed;
                        q.filter = Some(f);
                        q.limit = Some(1);
                        self.ask(ChangeStage::Preloading, Action::RunQuery(q))
                    },
                }
            }
        } else {
            self.validated()
        }
    }

    fn checks(&self) -> (r: Vec<UniqueCheck>)
        ensures
            r.deep_view() == change_checks(self.target, self.plan.deep_view()),
            r@.len() == change_checks(self.target, self.plan.deep_view()).len(),
    {
        let r = build_touched_checks(
            &self.target.schema.indexes,
            &self.target.schema.columns,
            &self.plan.values,
        );
        assert(r.deep_view().len() == r@.len());
        r
    }

    fn unique(&mut self) -> (r: Work)
        ensures
            final(self).target == old(self).target,
            final(self).turn(r) == change_unique(old(self).target, old(self).plan.deep_view()),
    {
        if self.target.mongodb {
            self.index(0)
        } else {
            let checks = self.checks();
            if checks.len() > 0 {
                let table = self.target.schema.table.clone();
                let key = read_leading_key(&self.target.schema);
                let value = read_leading_value(
                    &self.target.schema,
                    self.target.id_raw.as_str(),
                );
                self.ask(
                    ChangeStage::Unique,
                    Action::CheckUnique(table, checks, Some((key, value))),
                )
            } else {
                self.validated()
            }
        }
    }

    fn index(&mut self, k: usize) -> (r: Work)
        ensures
            final(self).target == old(self).target,
            final(self).turn(r) == change_index(
                old(self).target,
                old(self).plan.deep_view(),
                k as int,
            ),
    {
        let checks = self.checks();
        match find_next_check(&checks, k) {
            Some(i) => {
                assert(checks.deep_view()[i as int] == checks@[i as int].deep_view());
                let mut conditions = build_equalities(&checks[i].columns);
                let key = read_leading_key(&self.target.schema);
                let value = read_leading_value(
                    &self.target.schema,
                    self.target.id_raw.as_str(),
                );
                push_item(&mut conditions, Filter::Ne(key, value.to_val()));
                let q = build_taken_query(self.target.schema.table.as_str(), conditions);
                self.ask(ChangeStage::Index(i), Action::RunQuery(q))
            },
            None => self.validated(),
        }
    }

    fn validated(&mut self) -> (r: Work)
        ensures
            final(self).target == old(self).target,
            final(self).turn(r) == change_validated(old(self).target, old(self).plan.deep_view()),
    {
        if self.target.mongodb {
            self.written()
        } else if begins_with(self.target.schema.put.validate_data.as_str(), "API:") {
            let formula = self.target.schema.put.validate_data.clone();
            let body = self.plan.body.copy();
            self.ask(ChangeStage::Asking, Action::ValidateApi(formula, body))
        } else {
            self.checked()
        }
    }

    fn checked(&mut self) -> (r: Work)
        ensures
            final(self).target == old(self).target,
            final(self).turn(r) == change_checked(old(self).target, old(self).plan.deep_view()),
    {
        if holds_statement(self.target.schema.put.validate_data.as_str()) {
            let formula = self.target.schema.put.validate_data.clone();
            let body = self.plan.body.copy();
            self.ask(ChangeStage::Validating, Action::CheckFormula(formula, body))
        } else {
            self.preprocessed()
        }
    }

    fn preprocessed(&mut self) -> (r: Work)
        ensures
            final(self).target == old(self).target,
            final(self).turn(r) == change_preprocessed(
                old(self).target,
                old(self).plan.deep_view(),
            ),
    {
        if holds_statement(self.target.schema.put.pre_process.as_str()) {
            let formula = self.target.schema.put.pre_process.clone();
            let body = self.plan.body.copy();
            self.ask(ChangeStage::PreProcessing, Action::RunFormula(formula, body))
        } else {
            self.written()
        }
    }

    fn written(&mut self) -> (r: Work)
        ensures
            final(self).target == old(self).target,
            final(self).turn(r) == change_written(old(self).target, old(self).plan.deep_view()),
    {
        match build_live_filter(&self.target.schema, self.target.id_raw.as_str()) {
            Err(m) => self.end(Work::Abandon(m)),
            Ok(f) => {
                let table = self.target.schema.table.clone();
                let patch = copy_fields(&self.plan.patch);
                proof {
                    lemma_object_view(patch);
                }
                self.ask(ChangeStage::Writing, Action::UpdateRows(table, f, Json::Object(patch)))
            },
        }
    }

    fn changed(&mut self)
        ensures
            final(self).target == old(self).target,
            final(self).stage == old(self).stage,
            final(self).plan.deep_view() == changed_plan(
                old(self).target,
                old(self).plan.deep_view(),
            ),
    {
        let mut details: Vec<PreparedDetailBatch> = Vec::new();
        std::mem::swap(&mut details, &mut self.plan.details);
        let details = link_details(details, self.target.id_raw.as_str());
        add_linked(&mut self.plan.patch, &details);
        self.plan.details = details;
        self.plan.count = 1;
    }

    fn detail(&mut self, from: usize) -> (r: Work)
        ensures
            final(self).target == old(self).target,
            final(self).turn(r) == change_detail(
                old(self).target,
                old(self).plan.deep_view(),
                from as int,
            ),
    {
        let ghost p = self.plan.deep_view();
        let ghost q = self.target;
        let ghost goal = change_detail(q, p, from as int);
        let mut b: usize = from;
        while b < self.plan.details.len()
            invariant
                p == self.plan.deep_view(),
                q == self.target,
                self.target == old(self).target,
                goal == change_detail(q, p, b as int),
                goal == change_detail(
                    old(self).target,
                    old(self).plan.deep_view(),
                    from as int,
                ),
            decreases self.plan.details.len() - b,
        {
            let d = &self.plan.details[b];
            assert(p.details[b as int] == d.deep_view());
            if !d.target_table.as_str().is_empty() && !d.foreign_key_column.as_str().is_empty() {
                let mut sql = "DELETE FROM ".to_owned();
                sql.append(d.target_table.as_str());
                sql.append(" WHERE ");
                sql.append(d.foreign_key_column.as_str());
                sql.append(" = ?");
                let key = dbparam_from_str_and_type(
                    self.target.id_raw.as_str(),
                    d.fk_type_data.as_str(),
                );
                return self.ask(ChangeStage::Clearing(b), Action::RunNative(sql, single(key)));
            }
            b += 1;
        }
        assert(p.details.len() == self.plan.details@.len());
        self.triggered()
    }

    fn rows(&mut self, b: usize) -> (r: Work)
        ensures
            final(self).target == old(self).target,
            final(self).turn(r) == change_rows(
                old(self).target,
                old(self).plan.deep_view(),
                b as int,
            ),
    {
        assert(self.plan.details.deep_view().len() == self.plan.details@.len());
        if b < self.plan.details.len() {
            let d = &self.plan.details[b];
            assert(self.plan.details.deep_view()[b as int] == d.deep_view());
            assert(d.rows.deep_view().len() == d.rows@.len());
            if d.rows.len() > 0 {
                let table = d.target_table.clone();
                let columns = copy_texts(&d.columns);
                let rows = copy_rows(&d.rows);
                self.ask(
                    ChangeStage::CompilingRows(b),
                    Action::CompileBulk(table, columns, rows),
                )
            } else {
                self.detail(b + 1)
            }
        } else {
            self.triggered()
        }
    }

    fn triggered(&mut self) -> (r: Work)
        ensures
            final(self).target == old(self).target,
            final(self).turn(r) == change_triggered(old(self).target, old(self).plan.deep_view()),
    {
        if self.target.schema.action_triggers > 0 {
            let mut new_record = copy_fields(&self.plan.old_record);
            overlay(&mut new_record, &self.plan.patch);
            let trigger = Trigger {
                event: "on_update".to_owned(),
                action: "TRIGGER".to_owned(),
                key: self.target.id_raw.clone(),
                actor: None,
                old_record: copy_fields(&self.plan.old_record),
                new_record,
                body: self.plan.body.copy(),
            };
            self.ask(ChangeStage::Triggering, Action::RunTriggers(trigger))
        } else {
            self.postprocessed()
        }
    }

    fn postprocessed(&mut self) -> (r: Work)
        ensures
            final(self).target == old(self).target,
            final(self).turn(r) == change_postprocessed(
                old(self).target,
                old(self).plan.deep_view(),
            ),
    {
        if holds_statement(self.target.schema.put.post_process.as_str()) {
            let formula = self.target.schema.put.post_process.clone();
            let body = self.plan.body.copy();
            self.ask(ChangeStage::PostProcessing, Action::RunFormula(formula, body))
        } else {
            self.ask(ChangeStage::Committing, Action::Commit)
        }
    }

    fn about(&self, before: &str, b: usize, e: &str) -> (r: String)
        ensures
            r@ == about_detail(before@, self.plan.deep_view(), b as int, e@),
    {
        assert(self.plan.details.deep_view().len() == self.plan.details@.len());
        let mut m = before.to_owned();
        if b < self.plan.details.len() {
            assert(self.plan.details.deep_view()[b as int]
                == self.plan.details@[b as int].deep_view());
            m.append(self.plan.details[b].target_table.as_str());
        }
        assert(before@ + Seq::<char>::empty() =~= before@);
        m.append(": ");
        m.append(e);
        m
    }

    fn step_checks(&mut self, outcome: Outcome) -> (r: Work)
        requires
            !is_late(old(self).stage),
        ensures
            final(self).target == old(self).target,
            final(self).turn(r) == change_next_checks(
                old(self).target,
                old(self).stage,
                old(self).plan.deep_view(),
                outcome,
            ),
    {
        match self.stage {
            ChangeStage::Start => self.starts(),
            ChangeStage::Compiling => match failure(&outcome) {
                Some(e) => self.end(Work::Fail(told("Error compiling AST UPDATE: ", e))),
                None => self.ask(ChangeStage::Beginning, Action::Begin),
            },
            ChangeStage::Beginning => match failure(&outcome) {
                Some(e) => self.end(Work::Fail(told("Error starting transaction: ", e))),
                None => if self.target.mongodb {
                    self.keys()
                } else {
                    let sql = write_read_row("*", &self.target.schema);
                    let key = read_leading_value(
                        &self.target.schema,
                        self.target.id_raw.as_str(),
                    );
                    self.ask(ChangeStage::Reading, Action::RunNative(sql, single(key)))
                },
            },
            ChangeStage::Reading => {
                let rows = take_rows(outcome);
                self.plan.old_record = take_record(&rows);
                self.keys()
            },
            ChangeStage::Keys => match outcome {
                Outcome::NotBuilt(e) => self.end(
                    Work::Abort(told("Error building FK check query: ", e.as_str())),
                ),
                Outcome::Failed(e) => self.end(
                    Work::Abort(told("FK batch validation failed: ", e.as_str())),
                ),
                _ => {
                    let rows = take_rows(outcome);
                    match validate_foreign_keys_batch(&rows, Reading::TrueOrOne) {
                        Some(m) => self.end(Work::Abort(m)),
                        None => self.indexes(),
                    }
                },
            },
            ChangeStage::Key(k) => match failure(&outcome) {
                Some(e) => self.end(Work::Abort(told("Error validating FK (mongo): ", e))),
                None => {
                    let rows = take_rows(outcome);
                    assert(rows.deep_view().len() == rows@.len());
                    assert(self.plan.checks.deep_view().len() == self.plan.checks@.len());
                    if k < self.plan.checks.len() {
                        if rows.len() == 0 {
                            assert(self.plan.checks.deep_view()[k as int]
                                == self.plan.checks@[k as int].deep_view());
                            let c = &self.plan.checks[k];
                            let m = say_invalid_key(c.column.as_str(), c.table.as_str());
                            self.end(Work::Abort(m))
                        } else {
                            self.key(k + 1)
                        }
                    } else {
                        self.indexes()
                    }
                },
            },
            ChangeStage::Preloading => match failure(&outcome) {
                Some(e) => if self.target.mongodb {
                    self.end(Work::Abandon(told("Error preloading values: ", e)))
                } else {
                    self.end(Work::Abort(told("Error preloading values for unique check: ", e)))
                },
                None => {
                    let rows = take_rows(outcome);
                    if self.target.mongodb {
                        let record = take_record(&rows);
                        overlay(&mut self.plan.values, &record);
                    } else {
                        let needed = build_needed_columns(
                            &self.target.schema.indexes,
                            &self.plan.patch,
                        );
                        add_rows(&mut self.plan.values, &needed, &rows);
                    }
                    self.unique()
                },
            },
            ChangeStage::Unique => match outcome {
                Outcome::NotBuilt(e) => self.end(
                    Work::Abort(told("Error building unique check query: ", e.as_str())),
                ),
                Outcome::Failed(e) => self.end(
                    Work::Abort(told("Unique batch validation failed: ", e.as_str())),
                ),
                _ => {
                    let rows = take_rows(outcome);
                    if found_duplicate(&rows, Reading::TrueOrOne) {
                        self.end(Work::Abort("Unique constraint violation".to_owned()))
                    } else {
                        self.validated()
                    }
                },
            },
            ChangeStage::Index(k) => match failure(&outcome) {
                Some(e) => self.end(Work::Abort(told("Error validating Unique (mongo): ", e))),
                None => {
                    let rows = take_rows(outcome);
                    assert(rows.deep_view().len() == rows@.len());
                    let checks = self.checks();
                    if k < checks.len() {
                        if rows.len() > 0 {
                            assert(checks.deep_view()[k as int] == checks@[k as int].deep_view());
                            self.end(
                                Work::Abort(
                                    told(
                                        "Unique constraint violation on index: ",
                                        checks[k].index_name.as_str(),
                                    ),
                                ),
                            )
                        } else {
                            self.index(k + 1)
                        }
                    } else {
                        self.validated()
                    }
                },
            },
            _ => self.ask(ChangeStage::Ended, Action::Nothing),
        }
    }

    fn step_writes(&mut self, outcome: Outcome) -> (r: Work)
        requires
            is_late(old(self).stage),
        ensures
            final(self).target == old(self).target,
            final(self).turn(r) == change_next_writes(
                old(self).target,
                old(self).stage,
                old(self).plan.deep_view(),
                outcome,
            ),
    {
        match self.stage {
            ChangeStage::Asking => match failure(&outcome) {
                Some(e) => self.end(Work::Abort(e.to_owned())),
                None => self.checked(),
            },
            ChangeStage::Validating => match outcome {
                Outcome::NotBuilt(e) => self.end(
                    Work::Abort(told("Error building validation formula: ", e.as_str())),
                ),
                Outcome::Failed(e) => self.end(
                    Work::Abort(told("Error in validation_data: ", e.as_str())),
                ),
                _ => {
                    let rows = take_rows(outcome);
                    match judge_validation(&rows) {
                        Some(_) => self.end(
                            Work::Abort("Validation data from table is not valid/empty".to_owned()),
                        ),
                        None => self.preprocessed(),
                    }
                },
            },
            ChangeStage::PreProcessing => match failure(&outcome) {
                Some(e) => self.end(Work::Abort(told("Error in pre-process: ", e))),
                None => self.written(),
            },
            ChangeStage::Writing => match failure(&outcome) {
                Some(e) => if self.target.mongodb {
                    self.end(Work::Abort(told("Error NCO-PUT (mongo): ", e)))
                } else {
                    self.end(Work::Abort(told("Error NCO-PUT: ", e)))
                },
                None => if self.target.mongodb {
                    self.plan.count = match outcome {
                        Outcome::Count(n) => n,
                        _ => 0,
                    };
                    self.ask(ChangeStage::Committing, Action::Commit)
                } else {
                    self.changed();
                    self.detail(0)
                },
            },
            ChangeStage::Clearing(b) => match failure(&outcome) {
                Some(e) => {
                    let m = self.about("Error clearing old detail items for ", b, e);
                    self.end(Work::Abort(m))
                },
                None => self.rows(b),
            },
            ChangeStage::CompilingRows(b) => match failure(&outcome) {
                Some(e) => {
                    let m = self.about("Error building bulk insert for ", b, e);
                    self.end(Work::Abandon(m))
                },
                None => self.ask(ChangeStage::RunningRows(b), Action::RunCompiled),
            },
            ChangeStage::RunningRows(b) => match failure(&outcome) {
                Some(e) => {
                    let m = self.about("Error inserting detail items into ", b, e);
                    self.end(Work::Abort(m))
                },
                None => {
                    assert(self.plan.details.deep_view().len() == self.plan.details@.len());
                    if b < self.plan.details.len() {
                        self.detail(b + 1)
                    } else {
                        self.triggered()
                    }
                },
            },
            ChangeStage::Triggering => match failure(&outcome) {
                Some(e) => self.end(Work::Abort(told("Action trigger failed: ", e))),
                None => self.postprocessed(),
            },
            ChangeStage::PostProcessing => match failure(&outcome) {
                Some(e) => self.end(Work::Abort(told("Error in post-process: ", e))),
                None => self.ask(ChangeStage::Committing, Action::Commit),
            },
            ChangeStage::Committing => {
                let patch = copy_fields(&self.plan.patch);
                proof {
                    lemma_object_view(patch);
                }
                let count: i32 = self.plan.count;
                self.end(
                    Work::Finish(
                        "Data updated successfully".to_owned(),
                        count,
                        Json::Object(patch),
                    ),
                )
            },
            _ => self.ask(ChangeStage::Ended, Action::Nothing),
        }
    }

    fn late(&self) -> (r: bool)
        ensures
            r == is_late(self.stage),
    {
        match self.stage {
            ChangeStage::Asking => true,
            ChangeStage::Validating => true,
            ChangeStage::PreProcessing => true,
            ChangeStage::Writing => true,
            ChangeStage::Clearing(_) => true,
            ChangeStage::CompilingRows(_) => true,
            ChangeStage::RunningRows(_) => true,
            ChangeStage::Triggering => true,
            ChangeStage::PostProcessing => true,
            ChangeStage::Committing => true,
            _ => false,
        }
    }

    /// Takes the next step of the update, with what came of the last one.
    pub fn step(&mut self, outcome: Outcome) -> (r: Work)
        ensures
            final(self).target == old(self).target,
            (final(self).stage, final(self).plan.deep_view(), r.deep_view()) == change_next(
                old(self).target,
                old(self).stage,
                old(self).plan.deep_view(),
                outcome,
            ),
    {
        if self.late() {
            self.step_writes(outcome)
        } else {
            self.step_checks(outcome)
        }
    }
}

// ---------------------------------------------------------------------------
// Laws
// ---------------------------------------------------------------------------

/// The stages inside a transaction.
pub open spec fn change_in_transaction(stage: ChangeStage) -> bool {
    !(stage == ChangeStage::Start || stage == ChangeStage::Compiling || stage
        == ChangeStage::Beginning || stage == ChangeStage::Ended)
}

/// Whether a turn stays inside a transaction, or ends it.
pub open spec fn keeps_inside(t: ChangeTurn) -> bool {
    match t.2 {
        WorkV::Ask(a) => change_in_transaction(t.0) && !answers(a),
        WorkV::Abort(_) => true,
        WorkV::Abandon(_) => true,
        _ => false,
    }
}

proof fn lemma_replacing_stays_inside(q: ChangeTarget, p: ChangePlanV, b: int)
    requires
        b >= 0,
    ensures
        keeps_inside(change_detail(q, p, b)),
    decreases p.details.len() - b,
{
    if b < p.details.len() && !is_linked(p.details[b]) {
        lemma_replacing_stays_inside(q, p, b + 1);
    }
}

proof fn lemma_validating_stays_inside(q: ChangeTarget, p: ChangePlanV)
    ensures
        keeps_inside(change_written(q, p)),
        keeps_inside(change_preprocessed(q, p)),
        keeps_inside(change_checked(q, p)),
        keeps_inside(change_validated(q, p)),
{
}

proof fn lemma_checking_stays_inside(q: ChangeTarget, p: ChangePlanV, k: int)
    ensures
        keeps_inside(change_index(q, p, k)),
        keeps_inside(change_unique(q, p)),
{
    lemma_validating_stays_inside(q, p);
    assert(change_index(q, p, k).2 is Ask || change_index(q, p, k) == change_validated(q, p));
    assert(change_index(q, p, 0).2 is Ask || change_index(q, p, 0) == change_validated(q, p));
}

proof fn lemma_keys_stay_inside(q: ChangeTarget, p: ChangePlanV, k: int)
    ensures
        keeps_inside(change_indexes(q, p)),
        keeps_inside(change_key(q, p, k)),
        keeps_inside(change_keys(q, p)),
{
    lemma_validating_stays_inside(q, p);
    lemma_checking_stays_inside(q, ChangePlanV { values: p.patch, ..p }, 0);
    assert(keeps_inside(change_indexes(q, p)));
}

/// What a step may ask for, and lead to, with regard to the transaction: a
/// failure inside one rolls it back or drops it; the row counts as updated only
/// once the commit was tried; what is rolled back, dropped or committed was
/// begun; and what an update asks for is never an answer.
pub open spec fn is_orderly(stage: ChangeStage, o: Outcome, t: ChangeTurn) -> bool {
    &&& t.2 is Ask ==> !answers(t.2->Ask_0)
    &&& change_in_transaction(stage) ==> !(t.2 is Fail)
    &&& t.2 is Finish ==> stage == ChangeStage::Committing
    &&& (t.2 is Abort || t.2 is Abandon) ==> change_in_transaction(stage) || stage
        == ChangeStage::Beginning && failure_in(o) is None
    &&& change_in_transaction(t.0) && !change_in_transaction(stage) ==> stage
        == ChangeStage::Beginning && failure_in(o) is None
}

#[verifier::spinoff_prover]
#[verifier::rlimit(40)]
proof fn lemma_checks_are_orderly(q: ChangeTarget, stage: ChangeStage, p: ChangePlanV, o: Outcome)
    requires
        !is_late(stage),
    ensures
        is_orderly(stage, o, change_next_checks(q, stage, p, o)),
{
    match stage {
        ChangeStage::Beginning => {
            lemma_keys_stay_inside(q, p, 0);
        },
        ChangeStage::Reading => {
            lemma_keys_stay_inside(
                q,
                ChangePlanV { old_record: first_record(rows_in(o)), ..p },
                0,
            );
        },
        ChangeStage::Keys => {
            lemma_keys_stay_inside(q, p, 0);
        },
        ChangeStage::Key(k) => {
            lemma_keys_stay_inside(q, p, k + 1);
        },
        ChangeStage::Preloading => {
            let values = if q.mongodb {
                overlaid(p.values, first_record(rows_in(o)))
            } else {
                with_rows(p.values, needed_columns(q.schema.indexes@, p.patch), rows_in(o))
            };
            lemma_checking_stays_inside(q, ChangePlanV { values, ..p }, 0);
        },
        ChangeStage::Unique => {
            lemma_validating_stays_inside(q, p);
        },
        ChangeStage::Index(k) => {
            lemma_checking_stays_inside(q, p, k + 1);
        },
        _ => {},
    }
}

#[verifier::spinoff_prover]
#[verifier::rlimit(40)]
proof fn lemma_writes_are_orderly(q: ChangeTarget, stage: ChangeStage, p: ChangePlanV, o: Outcome)
    requires
        is_late(stage),
    ensures
        is_orderly(stage, o, change_next_writes(q, stage, p, o)),
{
    lemma_validating_stays_inside(q, p);
    match stage {
        ChangeStage::Writing => {
            lemma_replacing_stays_inside(q, changed_plan(q, p), 0);
        },
        ChangeStage::Clearing(b) => {
            lemma_replacing_stays_inside(q, p, b + 1);
        },
        ChangeStage::RunningRows(b) => {
            lemma_replacing_stays_inside(q, p, b + 1);
        },
        _ => {},
    }
}

/// No transaction of an update stays open.
pub proof fn law_changes_close_their_transaction(
    q: ChangeTarget,
    stage: ChangeStage,
    p: ChangePlanV,
    o: Outcome,
)
    ensures
        is_orderly(stage, o, change_next(q, stage, p, o)),
{
    if is_late(stage) {
        lemma_writes_are_orderly(q, stage, p, o);
    } else {
        lemma_checks_are_orderly(q, stage, p, o);
    }
}

/// A row that counts as deleted is not updated: where the entity has a column for
/// that, every filter of an update asks that it is not set.
pub proof fn law_deleted_rows_stay(schema: TableSchema, id_raw: Seq<char>)
    requires
        column_named(schema.columns@, "deleted_at"@) is Some,
        live_filter(schema, id_raw) is Ok,
    ensures
        ({
            let f = live_filter(schema, id_raw)->Ok_0;
            f is And && f->And_0.contains(FilterV::IsNull("deleted_at"@))
        }),
{
    let f = live_filter(schema, id_raw)->Ok_0;
    assert(f->And_0[1] == FilterV::IsNull("deleted_at"@));
}

proof fn lemma_values_under(names: Seq<Seq<char>>, columns: Seq<Column>, values: Fields)
    requires
        forall|j: int| 0 <= j < names.len() ==> lookup(values, #[trigger] names[j]) is Some,
    ensures
        values_under(names, columns, values) is Some,
        ({
            let vs = values_under(names, columns, values)->0;
            &&& vs.len() == names.len()
            &&& forall|j: int| 0 <= j < names.len() ==> (#[trigger] vs[j]).0 == names[j]
        }),
    decreases names.len(),
{
    if names.len() > 0 {
        let before = names.drop_last();
        assert forall|j: int| 0 <= j < before.len() implies lookup(
            values,
            #[trigger] before[j],
        ) is Some by {
            assert(before[j] == names[j]);
        }
        lemma_values_under(before, columns, values);
        assert(lookup(values, names[names.len() - 1]) is Some);
        assert(forall|j: int| 0 <= j < before.len() ==> before[j] == names[j]);
    }
}

/// Every unique index that an update touches is checked, once the values of all
/// its columns are known.
pub proof fn law_touched_indexes_are_checked(
    indexes: Seq<Index>,
    columns: Seq<Column>,
    values: Fields,
    i: int,
)
    requires
        0 <= i < indexes.len(),
        is_affected(indexes[i], values),
        forall|j: int|
            0 <= j < indexes[i].columns.deep_view().len() ==> lookup(
                values,
                #[trigger] indexes[i].columns.deep_view()[j],
            ) is Some,
    ensures
        exists|k: int|
            0 <= k < touched_checks(indexes, columns, values).len() && is_check_of(
                #[trigger] touched_checks(indexes, columns, values)[k],
                indexes[i],
            ),
    decreases indexes.len(),
{
    let before = touched_checks(indexes.drop_last(), columns, values);
    let all = touched_checks(indexes, columns, values);
    if i < indexes.len() - 1 {
        law_touched_indexes_are_checked(indexes.drop_last(), columns, values, i);
        let k = choose|k: int|
            0 <= k < before.len() && is_check_of(#[trigger] before[k], indexes.drop_last()[i]);
        assert(all[k] == before[k]);
    } else {
        lemma_values_under(indexes[i].columns.deep_view(), columns, values);
        assert(is_check_of(all[all.len() - 1], indexes[i]));
    }
}

/// Whether a row is the one that a change is for: each column of its primary key has
/// its value in the path, and it is not deleted, where the table has a column for
/// that.
pub open spec fn is_changed_row(q: ChangeTarget, row: RowV) -> bool {
    let key = q.schema.primary_key.deep_view();
    let values = split(q.id_raw@, '~');
    &&& key.len() == values.len()
    &&& forall|i: int| 0 <= i < key.len() ==> row(#[trigger] key[i]) == Scalar::Str(values[i])
    &&& column_named(q.schema.columns@, "deleted_at"@) is Some ==> row("deleted_at"@)
        == Scalar::Null
}

/// Whether what a change asks for writes its plan: the fields of the plan, or its
/// document, to the row of the path and to no other, or the rows of a detail into
/// the table of the detail.
pub open spec fn writes_change(
    q: ChangeTarget,
    p: ChangePlanV,
    w: WorkV,
    row: RowV,
    by: Collation,
) -> bool {
    match w {
        WorkV::Ask(a) => match a {
            ActionV::CompileUpdate(t, f, fields) => {
                &&& t == q.schema.table@
                &&& fields == p.fields
                &&& satisfies(row, f, by) <==> is_changed_row(q, row)
            },
            ActionV::UpdateRows(t, f, doc) => {
                &&& t == q.schema.table@
                &&& doc == JsonV::Object(p.patch)
                &&& satisfies(row, f, by) <==> is_changed_row(q, row)
            },
            ActionV::CompileBulk(t, columns, rows) => exists|b: int|
                {
                    &&& 0 <= b < p.details.len()
                    &&& t == (#[trigger] p.details[b]).target_table
                    &&& columns == p.details[b].columns
                    &&& rows == p.details[b].rows
                },
            ActionV::CompileInsert(_, _, _) => false,
            ActionV::CompileDelete(_, _) => false,
            ActionV::StoreInsert(_, _) => false,
            ActionV::StoreUpdate(_, _, _) => false,
            ActionV::StoreDelete(_, _) => false,
            _ => true,
        },
        _ => true,
    }
}

proof fn lemma_live_filter(q: ChangeTarget, row: RowV, by: Collation)
    ensures
        live_filter(q.schema, q.id_raw@) is Ok ==> (satisfies(
            row,
            live_filter(q.schema, q.id_raw@)->Ok_0,
            by,
        ) <==> is_changed_row(q, row)),
{
    let key = q.schema.primary_key.deep_view();
    let values = split(q.id_raw@, '~');
    law_keys_pick_their_row(key, values, row, by);
    if let Ok(f) = pk_filter(key, values) {
        let hidden = FilterV::IsNull("deleted_at"@);
        let both = seq![f, hidden];
        lemma_meets_all(row, both, by);
        assert(both[0] == f && both[1] == hidden);
        if forall|i: int| 0 <= i < both.len() ==> satisfies(row, #[trigger] both[i], by) {
            assert(satisfies(row, both[0], by) && satisfies(row, both[1], by));
        }
    }
}

proof fn lemma_late_writes(q: ChangeTarget, p: ChangePlanV, row: RowV, by: Collation)
    ensures
        change_written(q, p).1 == p,
        writes_change(q, p, change_written(q, p).2, row, by),
        change_preprocessed(q, p).1 == p,
        writes_change(q, p, change_preprocessed(q, p).2, row, by),
        change_checked(q, p).1 == p,
        writes_change(q, p, change_checked(q, p).2, row, by),
        change_validated(q, p).1 == p,
        writes_change(q, p, change_validated(q, p).2, row, by),
{
    lemma_live_filter(q, row, by);
}

/// Whether a plan of a change keeps what another has: its fields, its document and
/// the rows of its details.
pub open spec fn change_is_kept(a: ChangePlanV, b: ChangePlanV) -> bool {
    b.fields == a.fields && b.patch == a.patch && b.details == a.details && b.body == a.body
}

proof fn lemma_index_writes(q: ChangeTarget, p: ChangePlanV, row: RowV, by: Collation)
    ensures
        forall|k: int|
            (#[trigger] change_index(q, p, k)).1 == p && writes_change(
                q,
                p,
                change_index(q, p, k).2,
                row,
                by,
            ),
        change_unique(q, p).1 == p,
        writes_change(q, p, change_unique(q, p).2, row, by),
{
    lemma_late_writes(q, p, row, by);
    assert forall|k: int|
        (#[trigger] change_index(q, p, k)).1 == p && writes_change(
            q,
            p,
            change_index(q, p, k).2,
            row,
            by,
        ) by {
        assert(change_index(q, p, k) == change_validated(q, p) || change_index(q, p, k).2->Ask_0
            is RunQuery);
    }
    assert(change_index(q, p, 0).1 == p);
}

proof fn lemma_keys_write(q: ChangeTarget, p: ChangePlanV, row: RowV, by: Collation)
    ensures
        change_is_kept(p, change_indexes(q, p).1),
        writes_change(q, p, change_indexes(q, p).2, row, by),
        forall|k: int|
            change_is_kept(p, (#[trigger] change_key(q, p, k)).1) && writes_change(
                q,
                p,
                change_key(q, p, k).2,
                row,
                by,
            ),
        change_is_kept(p, change_keys(q, p).1),
        writes_change(q, p, change_keys(q, p).2, row, by),
{
    let set = ChangePlanV { values: p.patch, ..p };
    lemma_index_writes(q, set, row, by);
    lemma_late_writes(q, p, row, by);
    assert forall|k: int|
        change_is_kept(p, (#[trigger] change_key(q, p, k)).1) && writes_change(
            q,
            p,
            change_key(q, p, k).2,
            row,
            by,
        ) by {
        assert(change_key(q, p, k) == change_indexes(q, p) || change_key(q, p, k).2->Ask_0
            is RunQuery);
    }
    assert(change_is_kept(p, change_key(q, p, 0).1));
}

/// A change writes to its row and to no other, and writes its plan: whatever it
/// writes while it is checked and made, at whatever step, is the plan, and a row is
/// written to exactly if it is the one in the path and not deleted. No step alters
/// what is to be written.
#[verifier::spinoff_prover]
#[verifier::rlimit(60)]
pub proof fn law_changes_write_to_their_row(
    q: ChangeTarget,
    stage: ChangeStage,
    p: ChangePlanV,
    o: Outcome,
    row: RowV,
    by: Collation,
)
    requires
        !is_late(stage) || stage == ChangeStage::Asking || stage == ChangeStage::Validating
            || stage == ChangeStage::PreProcessing,
    ensures
        change_is_kept(p, change_next(q, stage, p, o).1),
        writes_change(q, p, change_next(q, stage, p, o).2, row, by),
{
    lemma_late_writes(q, p, row, by);
    lemma_keys_write(q, p, row, by);
    lemma_index_writes(q, p, row, by);
    lemma_live_filter(q, row, by);
    let read = ChangePlanV { old_record: first_record(rows_in(o)), ..p };
    lemma_keys_write(q, read, row, by);
    let loaded = ChangePlanV {
        values: if q.mongodb {
            overlaid(p.values, first_record(rows_in(o)))
        } else {
            with_rows(p.values, needed_columns(q.schema.indexes@, p.patch), rows_in(o))
        },
        ..p
    };
    lemma_index_writes(q, loaded, row, by);
}

proof fn lemma_change_detail(q: ChangeTarget, p: ChangePlanV, b: int, row: RowV, by: Collation)
    requires
        p.details.len() <= usize::MAX,
    ensures
        change_detail(q, p, b).1 == p,
        writes_change(q, p, change_detail(q, p, b).2, row, by),
        change_detail(q, p, b).0 is Clearing ==> {
            let k = change_detail(q, p, b).0->Clearing_0 as int;
            &&& b <= k < p.details.len()
            &&& clears_detail(q, p.details[k], change_detail(q, p, b).2)
            &&& forall|j: int| b <= j < k ==> !is_linked(#[trigger] p.details[j])
        },
        !(change_detail(q, p, b).0 is Clearing) ==> forall|j: int|
            0 <= b <= j < p.details.len() ==> !is_linked(#[trigger] p.details[j]),
    decreases p.details.len() - b,
{
    if 0 <= b < p.details.len() && !is_linked(p.details[b]) {
        lemma_change_detail(q, p, b + 1, row, by);
    }
    if 0 <= b < p.details.len() && is_linked(p.details[b]) {
        law_typing_tells_the_text(q.id_raw@, ascii_lower(p.details[b].fk_type_data));
    }
}

/// Whether what is asked for removes the rows of a detail that point to the row of
/// the path, and no others.
pub open spec fn clears_detail(q: ChangeTarget, b: PreparedDetailBatchV, w: WorkV) -> bool {
    match w {
        WorkV::Ask(ActionV::RunNative(sql, params)) => {
            &&& sql == "DELETE FROM "@ + b.target_table + " WHERE "@ + b.foreign_key_column
                + " = ?"@
            &&& params.len() == 1
            &&& tells(params[0], q.id_raw@)
        },
        _ => false,
    }
}

/// The details of a changed row are replaced: once the row is written, the rows of
/// each detail that point to it are removed, before its new rows are inserted, and
/// no detail that points to the row is passed over. Its new rows are those of the
/// plan, but that each points to the row.
pub proof fn law_changes_replace_their_details(
    q: ChangeTarget,
    p: ChangePlanV,
    o: Outcome,
    b: usize,
    row: RowV,
    by: Collation,
)
    requires
        !q.mongodb,
        failure_in(o) is None,
        p.details.len() <= usize::MAX,
        b < p.details.len(),
    ensures
        ({
            let (s, n, w) = change_next(q, ChangeStage::Writing, p, o);
            &&& n.details.len() == p.details.len()
            &&& forall|j: int|
                0 <= j < p.details.len() ==> batch_is_kept(p.details[j], #[trigger] n.details[j])
            &&& forall|i: int|
                is_linked(p.details[b as int]) && 0 <= i < p.details[b as int].rows.len()
                    && p.details[b as int].fk_index < p.details[b as int].rows[i].len()
                    ==> points_to(
                    #[trigger] n.details[b as int].rows[i],
                    p.details[b as int].fk_index as int,
                    q.id_raw@,
                )
            &&& is_linked(p.details[b as int]) ==> s is Clearing && s->Clearing_0 <= b
            &&& s is Clearing ==> clears_detail(q, n.details[s->Clearing_0 as int], w)
        }),
        p.details[b as int].rows.len() > 0 ==> change_next(q, ChangeStage::Clearing(b), p, o) == (
            ChangeStage::CompilingRows(b),
            p,
            WorkV::Ask(
                ActionV::CompileBulk(
                    p.details[b as int].target_table,
                    p.details[b as int].columns,
                    p.details[b as int].rows,
                ),
            ),
        ),
        change_next(q, ChangeStage::CompilingRows(b), p, o) == (
            ChangeStage::RunningRows(b),
            p,
            WorkV::Ask(ActionV::RunCompiled),
        ),
        forall|j: int|
            b < j < p.details.len() && is_linked(#[trigger] p.details[j]) ==> {
                let (s, _, w) = change_next(q, ChangeStage::RunningRows(b), p, o);
                s is Clearing && b < s->Clearing_0 <= j && clears_detail(
                    q,
                    p.details[s->Clearing_0 as int],
                    w,
                )
            },
{
    let n = changed_plan(q, p);
    let d = p.details[b as int];
    let e = n.details[b as int];
    lemma_change_detail(q, n, 0, row, by);
    lemma_change_detail(q, p, b + 1, row, by);
    law_typing_tells_the_text(q.id_raw@, ascii_lower(d.fk_type_data));
    assert forall|j: int| 0 <= j < p.details.len() implies batch_is_kept(
        p.details[j],
        #[trigger] n.details[j],
    ) by {
        let old_rows = p.details[j].rows;
        assert forall|i: int| 0 <= i < old_rows.len() implies row_is_kept(
            old_rows[i],
            #[trigger] n.details[j].rows[i],
            p.details[j].fk_index as int,
        ) by {}
    }
    assert(is_linked(d) == is_linked(e));
    assert forall|i: int|
        is_linked(d) && 0 <= i < d.rows.len() && d.fk_index < d.rows[i].len() implies points_to(
        #[trigger] e.rows[i],
        d.fk_index as int,
        q.id_raw@,
    ) by {}
}

/// Whether the value of a row at a position tells an identifier.
pub open spec fn points_to(row: Seq<InsertValueV>, at: int, id: Seq<char>) -> bool {
    0 <= at < row.len() && row[at] is Param && tells(row[at]->Param_0, id)
}

/// Another row counts as taken exactly if it has the value of each column of the index,
/// and another value in the first column of the key.
pub proof fn law_other_rows_are_told_apart(
    q: ChangeTarget,
    c: UniqueCheckV,
    row: RowV,
    by: Collation,
)
    ensures
        satisfies(row, FilterV::And(other_conditions(q, c)), by) <==> {
            &&& forall|i: int|
                0 <= i < c.columns.len() ==> row((#[trigger] c.columns[i]).0) == c.columns[i].1
            &&& row(leading_key(q.schema)) != leading_value(q.schema, q.id_raw@)
        },
{
    let terms = other_conditions(q, c);
    let own = equalities(c.columns);
    let last = FilterV::Ne(leading_key(q.schema), leading_value(q.schema, q.id_raw@));
    assert(terms == own.push(last));
    lemma_meets_all(row, terms, by);
    if forall|i: int| 0 <= i < terms.len() ==> satisfies(row, #[trigger] terms[i], by) {
        assert forall|i: int| 0 <= i < c.columns.len() implies row((#[trigger] c.columns[i]).0)
            == c.columns[i].1 by {
            assert(satisfies(row, terms[i], by));
        }
        assert(satisfies(row, terms[terms.len() - 1], by));
    }
    if (forall|i: int|
        0 <= i < c.columns.len() ==> row((#[trigger] c.columns[i]).0) == c.columns[i].1) && row(
        leading_key(q.schema),
    ) != leading_value(q.schema, q.id_raw@) {
        assert forall|i: int| 0 <= i < terms.len() implies satisfies(row, #[trigger] terms[i], by) by {
            if i < own.len() {
                assert(row(c.columns[i].0) == c.columns[i].1);
            }
        }
    }
}

/// The row of a path is known by the first column of its key, which has the path as its
/// value.
pub proof fn law_rows_are_known_by_their_key(schema: TableSchema, id_raw: Seq<char>)
    ensures
        schema.primary_key@.len() > 0 ==> leading_key(schema) == schema.primary_key@[0]@,
        schema.primary_key@.len() == 0 ==> leading_key(schema) == "id"@,
        column_named(schema.columns@, leading_key(schema)) is None ==> leading_value(schema, id_raw)
            == Scalar::Str(id_raw),
        column_named(schema.columns@, leading_key(schema)) is Some && is_plain(id_raw) ==> tells(
            leading_value(schema, id_raw),
            id_raw,
        ),
{
    assert(schema.primary_key.deep_view().len() == schema.primary_key@.len());
    if is_plain(id_raw) {
        lemma_unquoted(id_raw);
    }
}

/// Nothing is changed unchecked: new values that refer to other tables are checked
/// against them first, and a duplicate of a unique index, or a key that is not there,
/// ends the change.
pub proof fn law_changes_are_checked_first(q: ChangeTarget, p: ChangePlanV, o: Outcome, k: usize)
    requires
        p.checks.len() <= usize::MAX,
    ensures
        p.checks.len() > 0 && !q.mongodb ==> {
            let (s, n, w) = change_next(q, ChangeStage::Reading, p, o);
            s == ChangeStage::Keys && w == WorkV::Ask(ActionV::CheckKeys(p.checks))
        },
        p.checks.len() > 0 && q.mongodb && failure_in(o) is None ==> change_next(
            q,
            ChangeStage::Beginning,
            p,
            o,
        ) == (ChangeStage::Key(0), p, WorkV::Ask(ActionV::RunQuery(key_query(p.checks[0])))),
        failure_in(o) is None && rows_in(o).len() > 0 && k + 1 < p.checks.len() ==> change_next(
            q,
            ChangeStage::Key(k),
            p,
            o,
        ) == (
            ChangeStage::Key((k + 1) as usize),
            p,
            WorkV::Ask(ActionV::RunQuery(key_query(p.checks[k + 1]))),
        ),
        failure_in(o) is None && fk_verdict(rows_in(o), Reading::TrueOrOne) is Some
            ==> change_next(q, ChangeStage::Keys, p, o).2 is Abort,
        failure_in(o) is None && rows_in(o).len() == 0 && k < p.checks.len() ==> change_next(
            q,
            ChangeStage::Key(k),
            p,
            o,
        ).2 is Abort,
        failure_in(o) is None && any_duplicate(rows_in(o), Reading::TrueOrOne) ==> change_next(
            q,
            ChangeStage::Unique,
            p,
            o,
        ).2 is Abort,
        failure_in(o) is None && rows_in(o).len() > 0 && k < change_checks(q, p).len()
            ==> change_next(q, ChangeStage::Index(k), p, o).2 is Abort,
{
}

} // verus!
