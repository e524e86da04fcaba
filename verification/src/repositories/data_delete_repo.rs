//! Deleting a row, or marking it as deleted.
use crate::ast::{
    satisfies, Collation, DbParam, Filter, FilterV, InsertValue, InsertValueV, RowV, Scalar,
};
use crate::flow::{
    answers, delete_key, failure, failure_in, key_deleted, rows_in, told, Action, ActionV, Outcome,
    Trigger, TriggerV, Work, WorkV,
};
use crate::giving::tells;
use crate::json::{
    copy_fields, field, fields_of, get_in, key_at, lemma_array_view, lemma_object_view, lookup, set_in, with_field, Json,
    JsonV,
};
use crate::model::{column_named, column_type, find_column, type_or_int, TableSchema};
use crate::pk_utils::{
    as_json, build_pk_filter, dbparam_from_str_and_type, filter_result, law_keys_pick_their_row,
    parse_pk_values, pk_filter, to_json, typed,
};
use crate::post::{take_rows, Fields};
use crate::repositories::data_update_repo::{
    first_record, leading_key, read_leading_key, read_row_sql, single, take_record, write_read_row,
};
use crate::text::{ascii_lower, push_item, split};
use crate::writing::{has_statement, holds_statement};
use vstd::prelude::*;
use vstd::string::*;

verus! {

/// Which row is deleted, how, and by whom.
#[derive(Debug)]
pub struct EraseTarget {
    pub route: String,
    pub schema: TableSchema,
    pub id_raw: String,
    /// Whether the row is only marked as deleted.
    pub is_soft: bool,
    /// Whether the store is one without transactions.
    pub mongodb: bool,
    pub now_expr: String,
    pub now: String,
}

// ---------------------------------------------------------------------------
// What is deleted
// ---------------------------------------------------------------------------

/// The filter that picks the row, or why there is none.
pub open spec fn erase_filter(q: EraseTarget) -> Result<FilterV, Seq<char>> {
    match pk_filter(q.schema.primary_key.deep_view(), split(q.id_raw@, '~')) {
        Ok(f) => Ok(f),
        Err(e) => Err("Error building PK filter: "@ + e),
    }
}

fn build_erase_filter(q: &EraseTarget) -> (r: Result<Filter, String>)
    ensures
        filter_result(r) == erase_filter(*q),
{
    let values = parse_pk_values(q.id_raw.as_str());
    match build_pk_filter(q.schema.primary_key.as_slice(), values.as_slice()) {
        Ok(f) => Ok(f),
        Err(e) => Err(told("Error building PK filter: ", e.as_str())),
    }
}

/// The actor as a value of the column that names who deleted a row.
pub open spec fn eraser(schema: TableSchema, actor: Seq<char>) -> Scalar {
    typed(actor, ascii_lower(type_or_int(schema.columns@, "deleted_by_id"@)))
}

fn build_eraser(schema: &TableSchema, actor: &str) -> (r: DbParam)
    ensures
        r.deep_view() == eraser(*schema, actor@),
{
    let t = column_type(&schema.columns, "deleted_by_id");
    dbparam_from_str_and_type(actor, t.as_str())
}

/// What marks a row as deleted.
pub open spec fn erase_marks(q: EraseTarget, actor: Seq<char>) -> Seq<(Seq<char>, InsertValueV)> {
    seq![
        ("deleted_at"@, InsertValueV::Raw(q.now_expr@)),
        ("deleted_by_id"@, InsertValueV::Param(eraser(q.schema, actor))),
    ]
}

fn build_erase_marks(q: &EraseTarget, actor: &str) -> (r: Vec<(String, InsertValue)>)
    ensures
        r.deep_view() == erase_marks(*q, actor@),
{
    let mut out: Vec<(String, InsertValue)> = Vec::new();
    push_item(&mut out, ("deleted_at".to_owned(), InsertValue::Raw(q.now_expr.clone())));
    push_item(
        &mut out,
        ("deleted_by_id".to_owned(), InsertValue::Param(build_eraser(&q.schema, actor))),
    );
    assert(out.deep_view() =~= erase_marks(*q, actor@));
    out
}

/// What marks a document as deleted.
pub open spec fn erase_patch(q: EraseTarget, actor: Seq<char>) -> JsonV {
    JsonV::Object(
        seq![
            ("deleted_at"@, JsonV::Str(q.now@)),
            ("deleted_by_id"@, as_json(eraser(q.schema, actor))),
        ],
    )
}

fn build_erase_patch(q: &EraseTarget, actor: &str) -> (r: Json)
    ensures
        r.deep_view() == erase_patch(*q, actor@),
{
    broadcast use lemma_object_view;

    let mut out: Vec<(String, Json)> = Vec::new();
    push_item(&mut out, ("deleted_at".to_owned(), Json::Str(q.now.clone())));
    push_item(&mut out, ("deleted_by_id".to_owned(), to_json(build_eraser(&q.schema, actor))));
    assert(out.deep_view() =~= erase_patch(*q, actor@)->Object_0);
    Json::Object(out)
}

/// The fields of the first `n` columns of a key.
pub open spec fn key_fields(columns: Seq<Seq<char>>, values: Seq<Seq<char>>, n: int) -> Fields
    decreases n,
{
    if n <= 0 {
        Seq::empty()
    } else {
        with_field(key_fields(columns, values, n - 1), columns[n - 1], JsonV::Str(values[n - 1]))
    }
}

/// The smaller of two lengths.
pub open spec fn shorter(a: nat, b: nat) -> int {
    if a < b {
        a as int
    } else {
        b as int
    }
}

/// What configured steps see of the request: the key of the row.
pub open spec fn erase_body(q: EraseTarget) -> JsonV {
    let columns = q.schema.primary_key.deep_view();
    let values = split(q.id_raw@, '~');
    let fields = key_fields(columns, values, shorter(columns.len(), values.len()));
    if lookup(fields, "id"@) is None {
        JsonV::Object(with_field(fields, "id"@, JsonV::Str(q.id_raw@)))
    } else {
        JsonV::Object(fields)
    }
}

/// What configured steps see of the request.
pub fn build_erase_body(q: &EraseTarget) -> (r: Json)
    ensures
        r.deep_view() == erase_body(*q),
{
    broadcast use lemma_object_view;

    let values = parse_pk_values(q.id_raw.as_str());
    let ghost cv = q.schema.primary_key.deep_view();
    let ghost vv = values.deep_view();
    let mut fields: Vec<(String, Json)> = Vec::new();
    assert(fields.deep_view() =~= Seq::empty());
    let mut i: usize = 0;
    while i < q.schema.primary_key.len() && i < values.len()
        invariant
            i <= q.schema.primary_key@.len(),
            i <= values@.len(),
            cv == q.schema.primary_key.deep_view(),
            vv == values.deep_view(),
            fields.deep_view() == key_fields(cv, vv, i as int),
        decreases values.len() - i,
    {
        assert(cv[i as int] == q.schema.primary_key@[i as int]@);
        assert(vv[i as int] == values@[i as int]@);
        set_in(
            &mut fields,
            q.schema.primary_key[i].as_str(),
            Json::Str(values[i].clone()),
        );
        i += 1;
    }
    assert(cv.len() == q.schema.primary_key@.len() && vv.len() == values@.len());
    if get_in(&fields, "id").is_none() {
        set_in(&mut fields, "id", Json::Str(q.id_raw.clone()));
    }
    Json::Object(fields)
}

/// The key of the row as a value of its first column.
pub open spec fn erase_key(q: EraseTarget) -> Scalar {
    match column_named(q.schema.columns@, leading_key(q.schema)) {
        Some(c) => typed(q.id_raw@, ascii_lower(c.type_data@)),
        None => Scalar::Str(q.id_raw@),
    }
}

fn build_erase_key(q: &EraseTarget) -> (r: DbParam)
    ensures
        r.deep_view() == erase_key(*q),
{
    let key = read_leading_key(&q.schema);
    match find_column(&q.schema.columns, key.as_str()) {
        Some(c) => dbparam_from_str_and_type(q.id_raw.as_str(), c.type_data.as_str()),
        None => DbParam::Str(q.id_raw.clone()),
    }
}

// ---------------------------------------------------------------------------
// Locked rows
// ---------------------------------------------------------------------------

/// What one value is expected to be: one of several where they are listed.
pub open spec fn with_expected(
    before: Seq<(Seq<char>, JsonV, JsonV)>,
    name: Seq<char>,
    expected: JsonV,
    actual: JsonV,
) -> Seq<(Seq<char>, JsonV, JsonV)> {
    match expected {
        JsonV::Array(items) => before + Seq::new(
            items.len(),
            |i: int| (name, items[i], actual),
        ),
        single => before.push((name, single, actual)),
    }
}

/// The comparisons that decide whether a row is locked: for each condition on a
/// field that the row has, its name, what is expected, and what it is.
pub open spec fn lock_comparisons(conditions: Seq<(Seq<char>, JsonV)>, record: Fields) -> Seq<
    (Seq<char>, JsonV, JsonV),
>
    decreases conditions.len(),
{
    if conditions.len() == 0 {
        Seq::empty()
    } else {
        let before = lock_comparisons(conditions.drop_last(), record);
        let (name, expected) = conditions.last();
        match lookup(record, name) {
            Some(actual) => with_expected(before, name, expected, actual),
            None => before,
        }
    }
}

fn push_expected(
    out: &mut Vec<(String, Json, Json)>,
    name: &str,
    expected: &Json,
    actual: &Json,
)
    ensures
        final(out).deep_view() == with_expected(
            old(out).deep_view(),
            name@,
            expected.deep_view(),
            actual.deep_view(),
        ),
{
    let ghost start = out.deep_view();
    match expected {
        Json::Array(items) => {
            let ghost more = Seq::new(
                items@.len(),
                |i: int| (name@, items.deep_view()[i], actual.deep_view()),
            );
            let mut i: usize = 0;
            assert(start + more.take(0) =~= start);
            while i < items.len()
                invariant
                    i <= items@.len(),
                    more == Seq::new(
                        items@.len(),
                        |i: int| (name@, items.deep_view()[i], actual.deep_view()),
                    ),
                    out.deep_view() == start + more.take(i as int),
                decreases items.len() - i,
            {
                assert(items.deep_view()[i as int] == items@[i as int].deep_view());
                push_item(out, (name.to_owned(), items[i].copy(), actual.copy()));
                i += 1;
                assert(start + more.take(i as int) =~= (start + more.take(i - 1)).push(
                    more[i - 1],
                ));
            }
            assert(more.take(items@.len() as int) =~= more);
            proof {
                lemma_array_view(*items);
                assert(items.deep_view().len() == items@.len());
            }
            assert(out.deep_view() =~= with_expected(
                start,
                name@,
                expected.deep_view(),
                actual.deep_view(),
            ));
        },
        _ => {
            push_item(out, (name.to_owned(), expected.copy(), actual.copy()));
        },
    }
}

/// The comparisons that decide whether a row is locked.
pub fn build_lock_comparisons(
    conditions: &Vec<(String, Json)>,
    record: &Vec<(String, Json)>,
) -> (r: Vec<(String, Json, Json)>)
    ensures
        r.deep_view() == lock_comparisons(conditions.deep_view(), record.deep_view()),
{
    let ghost cs = conditions.deep_view();
    let mut out: Vec<(String, Json, Json)> = Vec::new();
    assert(out.deep_view() =~= Seq::empty());
    let mut i: usize = 0;
    while i < conditions.len()
        invariant
            i <= conditions@.len(),
            cs == conditions.deep_view(),
            out.deep_view() == lock_comparisons(cs.take(i as int), record.deep_view()),
        decreases conditions.len() - i,
    {
        assert(cs.take(i + 1).drop_last() =~= cs.take(i as int));
        assert(cs[i as int] == conditions@[i as int].deep_view());
        match get_in(record, conditions[i].0.as_str()) {
            Some(actual) => {
                push_expected(
                    &mut out,
                    conditions[i].0.as_str(),
                    &conditions[i].1,
                    actual,
                );
            },
            None => {},
        }
        i += 1;
    }
    assert(cs.take(cs.len() as int) =~= cs);
    out
}

/// The pairs of values that are compared.
pub open spec fn pairs_of(comparisons: Seq<(Seq<char>, JsonV, JsonV)>) -> Seq<(JsonV, JsonV)> {
    Seq::new(comparisons.len(), |i: int| (comparisons[i].1, comparisons[i].2))
}

fn build_pairs(comparisons: &Vec<(String, Json, Json)>) -> (r: Vec<(Json, Json)>)
    ensures
        r.deep_view() == pairs_of(comparisons.deep_view()),
{
    let ghost cs = comparisons.deep_view();
    let ghost all = pairs_of(cs);
    let mut out: Vec<(Json, Json)> = Vec::new();
    let mut i: usize = 0;
    while i < comparisons.len()
        invariant
            i <= comparisons@.len(),
            cs == comparisons.deep_view(),
            all == pairs_of(cs),
            out.deep_view() == all.take(i as int),
        decreases comparisons.len() - i,
    {
        assert(cs[i as int] == comparisons@[i as int].deep_view());
        push_item(&mut out, (comparisons[i].1.copy(), comparisons[i].2.copy()));
        i += 1;
        assert(all.take(i as int) =~= all.take(i - 1).push(all[i - 1]));
    }
    assert(all.take(comparisons@.len() as int) =~= all);
    out
}

/// The first comparison, at or after `from`, that matched.
pub open spec fn first_match(flags: Seq<bool>, n: int, from: int) -> Option<int>
    decreases n - from,
{
    if from < 0 || from >= n || from >= flags.len() {
        None
    } else if flags[from] {
        Some(from)
    } else {
        first_match(flags, n, from + 1)
    }
}

/// What is said of a locked row.
pub open spec fn locked(comparisons: Seq<(Seq<char>, JsonV, JsonV)>, flags: Seq<bool>) -> Option<
    Seq<char>,
> {
    match first_match(flags, comparisons.len() as int, 0) {
        Some(i) => Some(
            "Cannot delete locked record: field '"@ + comparisons[i].0 + "' is currently '"@ + (
            match comparisons[i].2 {
                JsonV::Str(s) => s,
                _ => "locked"@,
            }) + "'"@,
        ),
        None => None,
    }
}

/// What is said of a locked row.
pub fn judge_locks(comparisons: &Vec<(String, Json, Json)>, flags: &Vec<bool>) -> (r: Option<String>)
    ensures
        r.deep_view() == locked(comparisons.deep_view(), flags@),
{
    let ghost cs = comparisons.deep_view();
    let mut i: usize = 0;
    while i < comparisons.len() && i < flags.len()
        invariant
            i <= comparisons@.len(),
            i <= flags@.len(),
            cs == comparisons.deep_view(),
            cs == comparisons.deep_view(),
            first_match(flags@, cs.len() as int, 0) == first_match(
                flags@,
                cs.len() as int,
                i as int,
            ),
        decreases comparisons.len() - i,
    {
        assert(cs[i as int] == comparisons@[i as int].deep_view());
        assert(cs.len() == comparisons@.len());
        if flags[i] {
            let mut m = told(
                "Cannot delete locked record: field '",
                comparisons[i].0.as_str(),
            );
            m.append("' is currently '");
            match &comparisons[i].2 {
                Json::Str(s) => {
                    m.append(s.as_str());
                },
                _ => {
                    m.append("locked");
                },
            }
            m.append("'");
            return Some(m);
        }
        i += 1;
    }
    assert(cs.len() == comparisons@.len());
    None
}

// ---------------------------------------------------------------------------
// The steps
// ---------------------------------------------------------------------------

/// Where a deletion stands.
#[derive(Debug, PartialEq, Eq, Clone, Copy, Structural)]
pub enum EraseStage {
    Start,
    Storing,
    Compiling,
    Beginning,
    Reading,
    Comparing,
    PreProcessing,
    Running,
    Following,
    PostProcessing,
    Triggering,
    Committing,
    Ended,
}

/// A deletion under way: who makes it, and the row as it was.
#[derive(Debug)]
pub struct RowErasure {
    pub target: EraseTarget,
    pub stage: EraseStage,
    pub actor: String,
    pub old_record: Vec<(String, Json)>,
}

/// What a deletion remembers.
pub struct EraseMemoV {
    pub actor: Seq<char>,
    pub old_record: Fields,
}

/// What follows from a step: where the deletion stands, what it remembers, and
/// what it asks for.
pub type EraseTurn = (EraseStage, EraseMemoV, WorkV);

/// The deletion ends.
pub open spec fn erase_ends(m: EraseMemoV, w: WorkV) -> EraseTurn {
    (EraseStage::Ended, m, w)
}

/// Something is asked for.
pub open spec fn erase_asks(stage: EraseStage, m: EraseMemoV, a: ActionV) -> EraseTurn {
    (stage, m, WorkV::Ask(a))
}

/// The document is deleted, or the statement is compiled.
pub open spec fn erase_starts(q: EraseTarget, m: EraseMemoV) -> EraseTurn {
    match erase_filter(q) {
        Err(e) => erase_ends(m, WorkV::Fail(e)),
        Ok(f) => if q.mongodb {
            erase_asks(
                EraseStage::Storing,
                m,
                if q.is_soft {
                    ActionV::StoreUpdate(q.schema.table@, f, erase_patch(q, m.actor))
                } else {
                    ActionV::StoreDelete(q.schema.table@, f)
                },
            )
        } else {
            erase_asks(
                EraseStage::Compiling,
                m,
                if q.is_soft {
                    ActionV::CompileUpdate(q.schema.table@, f, erase_marks(q, m.actor))
                } else {
                    ActionV::CompileDelete(q.schema.table@, f)
                },
            )
        },
    }
}

/// The comparisons that decide whether the row is locked.
pub open spec fn erase_comparisons(q: EraseTarget, m: EraseMemoV) -> Seq<
    (Seq<char>, JsonV, JsonV),
> {
    lock_comparisons(q.schema.locked_when.deep_view(), m.old_record)
}

/// Whether the row is locked is found out.
pub open spec fn erase_read(q: EraseTarget, m: EraseMemoV) -> EraseTurn {
    if erase_comparisons(q, m).len() > 0 {
        erase_asks(
            EraseStage::Comparing,
            m,
            ActionV::CompareValues(pairs_of(erase_comparisons(q, m))),
        )
    } else {
        erase_unlocked(q, m)
    }
}

/// What is configured to run before the deletion is run.
pub open spec fn erase_unlocked(q: EraseTarget, m: EraseMemoV) -> EraseTurn {
    if has_statement(q.schema.del.pre_process@) {
        erase_asks(
            EraseStage::PreProcessing,
            m,
            ActionV::RunFormula(q.schema.del.pre_process@, erase_body(q)),
        )
    } else {
        erase_asks(EraseStage::Running, m, ActionV::RunCompiled)
    }
}

/// What is configured to run after the deletion is run.
pub open spec fn erase_followed(q: EraseTarget, m: EraseMemoV) -> EraseTurn {
    if has_statement(q.schema.del.post_process@) {
        erase_asks(
            EraseStage::PostProcessing,
            m,
            ActionV::RunFormula(q.schema.del.post_process@, erase_body(q)),
        )
    } else {
        erase_triggered(q, m)
    }
}

/// The triggers are run, where there are any.
pub open spec fn erase_triggered(q: EraseTarget, m: EraseMemoV) -> EraseTurn {
    if q.schema.action_triggers > 0 {
        erase_asks(
            EraseStage::Triggering,
            m,
            ActionV::RunTriggers(
                TriggerV {
                    event: "on_delete"@,
                    action: "TRIGGER_DELETE"@,
                    key: q.id_raw@,
                    actor: Some(m.actor),
                    old_record: m.old_record,
                    new_record: Seq::empty(),
                    body: erase_body(q),
                },
            ),
        )
    } else {
        erase_asks(EraseStage::Committing, m, ActionV::Commit)
    }
}

/// The flags that a step gave.
pub open spec fn flags_in(o: Outcome) -> Seq<bool> {
    match o {
        Outcome::Flags(f) => f@,
        _ => Seq::empty(),
    }
}

/// The deletion is done.
pub open spec fn erase_done(m: EraseMemoV) -> EraseTurn {
    erase_ends(m, WorkV::Finish(Seq::empty(), 1, JsonV::Null))
}

/// The next step of a deletion.
pub open spec fn erase_next(q: EraseTarget, stage: EraseStage, m: EraseMemoV, o: Outcome) -> EraseTurn {
    match stage {
        EraseStage::Start => erase_starts(q, m),
        EraseStage::Storing => match failure_in(o) {
            Some(e) => erase_ends(m, WorkV::Fail("Error NCO-DELETE (mongo): "@ + e)),
            None => erase_done(m),
        },
        EraseStage::Compiling => match failure_in(o) {
            Some(e) => erase_ends(
                m,
                WorkV::Fail(
                    if q.is_soft {
                        "Error compiling AST soft delete: "@ + e
                    } else {
                        "Error compiling AST hard delete: "@ + e
                    },
                ),
            ),
            None => erase_asks(EraseStage::Beginning, m, ActionV::Begin),
        },
        EraseStage::Beginning => match failure_in(o) {
            Some(e) => erase_ends(m, WorkV::Fail("Error starting transaction: "@ + e)),
            None => erase_asks(
                EraseStage::Reading,
                m,
                ActionV::RunNative(read_row_sql("*"@, q.schema), seq![erase_key(q)]),
            ),
        },
        EraseStage::Reading => erase_read(
            q,
            EraseMemoV { old_record: first_record(rows_in(o)), ..m },
        ),
        EraseStage::Comparing => match locked(erase_comparisons(q, m), flags_in(o)) {
            Some(message) => erase_ends(m, WorkV::Abort(message)),
            None => erase_unlocked(q, m),
        },
        EraseStage::PreProcessing => match failure_in(o) {
            Some(e) => erase_ends(m, WorkV::Abort("Error in pre-process: "@ + e)),
            None => erase_asks(EraseStage::Running, m, ActionV::RunCompiled),
        },
        EraseStage::Running => match failure_in(o) {
            Some(e) => erase_ends(m, WorkV::Abort("Error NCO-DELETE: "@ + e)),
            None => erase_asks(
                EraseStage::Following,
                m,
                ActionV::FollowKeys(key_deleted(q.route@, m.actor, q.id_raw@)),
            ),
        },
        EraseStage::Following => match failure_in(o) {
            Some(e) => erase_ends(
                m,
                WorkV::Abort("Transaction rolled back due to foreign key failures: "@ + e),
            ),
            None => erase_followed(q, m),
        },
        EraseStage::PostProcessing => match failure_in(o) {
            Some(e) => erase_ends(m, WorkV::Abort("Error in post-process: "@ + e)),
            None => erase_triggered(q, m),
        },
        EraseStage::Triggering => match failure_in(o) {
            Some(e) => erase_ends(m, WorkV::Abort("Action trigger on_delete failed: "@ + e)),
            None => erase_asks(EraseStage::Committing, m, ActionV::Commit),
        },
        EraseStage::Committing => match failure_in(o) {
            Some(e) => erase_ends(m, WorkV::Fail("Error committing transaction: "@ + e)),
            None => erase_done(m),
        },
        EraseStage::Ended => erase_asks(EraseStage::Ended, m, ActionV::Nothing),
    }
}

fn begin_erasing(target: EraseTarget, actor: String) -> (r: RowErasure)
    ensures
        r.target == target,
        r.stage == EraseStage::Start,
        r.memo() == (EraseMemoV { actor: actor@, old_record: Seq::empty() }),
{
    let old_record: Vec<(String, Json)> = Vec::new();
    assert(old_record.deep_view() =~= Seq::empty());
    RowErasure { target, stage: EraseStage::Start, actor, old_record }
}

/// A deletion from a database that has not begun.
pub fn perform_delete_sql(target: EraseTarget, actor: String) -> (r: RowErasure)
    requires
        !target.mongodb,
    ensures
        r.target == target,
        r.stage == EraseStage::Start,
        r.memo() == (EraseMemoV { actor: actor@, old_record: Seq::empty() }),
{
    begin_erasing(target, actor)
}

/// A deletion from a store without transactions that has not begun.
pub fn perform_delete_mongo(target: EraseTarget, actor: String) -> (r: RowErasure)
    requires
        target.mongodb,
    ensures
        r.target == target,
        r.stage == EraseStage::Start,
        r.memo() == (EraseMemoV { actor: actor@, old_record: Seq::empty() }),
{
    begin_erasing(target, actor)
}

impl RowErasure {
    /// What the deletion remembers.
    pub open spec fn memo(&self) -> EraseMemoV {
        EraseMemoV { actor: self.actor@, old_record: self.old_record.deep_view() }
    }

    /// Where the deletion stands, what it remembers, and what it asks for.
    pub open spec fn turn(&self, w: Work) -> EraseTurn {
        (self.stage, self.memo(), w.deep_view())
    }

    /// Whether the deletion is over.
    pub fn ended(&self) -> (r: bool)
        ensures
            r == (self.stage == EraseStage::Ended),
    {
        match self.stage {
            EraseStage::Ended => true,
            _ => false,
        }
    }

    fn end(&mut self, w: Work) -> (r: Work)
        ensures
            final(self).target == old(self).target,
            final(self).turn(r) == erase_ends(old(self).memo(), w.deep_view()),
    {
        self.stage = EraseStage::Ended;
        w
    }

    fn ask(&mut self, stage: EraseStage, a: Action) -> (r: Work)
        ensures
            final(self).target == old(self).target,
            final(self).turn(r) == erase_asks(stage, old(self).memo(), a.deep_view()),
    {
        self.stage = stage;
        Work::Ask(a)
    }

    fn done(&mut self) -> (r: Work)
        ensures
            final(self).target == old(self).target,
            final(self).turn(r) == erase_done(old(self).memo()),
    {
        self.end(Work::Finish(String::new(), 1, Json::Null))
    }

    fn starts(&mut self) -> (r: Work)
        ensures
            final(self).target == old(self).target,
            final(self).turn(r) == erase_starts(old(self).target, old(self).memo()),
    {
        match build_erase_filter(&self.target) {
            Err(e) => self.end(Work::Fail(e)),
            Ok(f) => {
                let table = self.target.schema.table.clone();
                if self.target.mongodb {
                    if self.target.is_soft {
                        let patch = build_erase_patch(&self.target, self.actor.as_str());
                        self.ask(EraseStage::Storing, Action::StoreUpdate(table, f, patch))
                    } else {
                        self.ask(EraseStage::Storing, Action::StoreDelete(table, f))
                    }
                } else if self.target.is_soft {
                    let marks = build_erase_marks(&self.target, self.actor.as_str());
                    self.ask(EraseStage::Compiling, Action::CompileUpdate(table, f, marks))
                } else {
                    self.ask(EraseStage::Compiling, Action::CompileDelete(table, f))
                }
            },
        }
    }

    fn comparisons(&self) -> (r: Vec<(String, Json, Json)>)
        ensures
            r.deep_view() == erase_comparisons(self.target, self.memo()),
    {
        build_lock_comparisons(&self.target.schema.locked_when, &self.old_record)
    }

    fn read(&mut self) -> (r: Work)
        ensures
            final(self).target == old(self).target,
            final(self).turn(r) == erase_read(old(self).target, old(self).memo()),
    {
        let comparisons = self.comparisons();
        assert(comparisons.deep_view().len() == comparisons@.len());
        if comparisons.len() > 0 {
            let pairs = build_pairs(&comparisons);
            self.ask(EraseStage::Comparing, Action::CompareValues(pairs))
        } else {
            self.unlocked()
        }
    }

    fn unlocked(&mut self) -> (r: Work)
        ensures
            final(self).target == old(self).target,
            final(self).turn(r) == erase_unlocked(old(self).target, old(self).memo()),
    {
        if holds_statement(self.target.schema.del.pre_process.as_str()) {
            let formula = self.target.schema.del.pre_process.clone();
            let body = build_erase_body(&self.target);
            self.ask(EraseStage::PreProcessing, Action::RunFormula(formula, body))
        } else {
            self.ask(EraseStage::Running, Action::RunCompiled)
        }
    }

    fn followed(&mut self) -> (r: Work)
        ensures
            final(self).target == old(self).target,
            final(self).turn(r) == erase_followed(old(self).target, old(self).memo()),
    {
        if holds_statement(self.target.schema.del.post_process.as_str()) {
            let formula = self.target.schema.del.post_process.clone();
            let body = build_erase_body(&self.target);
            self.ask(EraseStage::PostProcessing, Action::RunFormula(formula, body))
        } else {
            self.triggered()
        }
    }

    fn triggered(&mut self) -> (r: Work)
        ensures
            final(self).target == old(self).target,
            final(self).turn(r) == erase_triggered(old(self).target, old(self).memo()),
    {
        if self.target.schema.action_triggers > 0 {
            let none: Vec<(String, Json)> = Vec::new();
            assert(none.deep_view() =~= Seq::empty());
            let trigger = Trigger {
                event: "on_delete".to_owned(),
                action: "TRIGGER_DELETE".to_owned(),
                key: self.target.id_raw.clone(),
                actor: Some(self.actor.clone()),
                old_record: copy_fields(&self.old_record),
                new_record: none,
                body: build_erase_body(&self.target),
            };
            self.ask(EraseStage::Triggering, Action::RunTriggers(trigger))
        } else {
            self.ask(EraseStage::Committing, Action::Commit)
        }
    }

    /// Takes the next step of the deletion, with what came of the last one.
    pub fn step(&mut self, outcome: Outcome) -> (r: Work)
        ensures
            final(self).target == old(self).target,
            (final(self).stage, final(self).memo(), r.deep_view()) == erase_next(
                old(self).target,
                old(self).stage,
                old(self).memo(),
                outcome,
            ),
    {
        match self.stage {
            EraseStage::Start => self.starts(),
            EraseStage::Storing => match failure(&outcome) {
                Some(e) => self.end(Work::Fail(told("Error NCO-DELETE (mongo): ", e))),
                None => self.done(),
            },
            EraseStage::Compiling => match failure(&outcome) {
                Some(e) => if self.target.is_soft {
                    self.end(Work::Fail(told("Error compiling AST soft delete: ", e)))
                } else {
                    self.end(Work::Fail(told("Error compiling AST hard delete: ", e)))
                },
                None => self.ask(EraseStage::Beginning, Action::Begin),
            },
            EraseStage::Beginning => match failure(&outcome) {
                Some(e) => self.end(Work::Fail(told("Error starting transaction: ", e))),
                None => {
                    let sql = write_read_row("*", &self.target.schema);
                    let key = build_erase_key(&self.target);
                    self.ask(EraseStage::Reading, Action::RunNative(sql, single(key)))
                },
            },
            EraseStage::Reading => {
                let rows = take_rows(outcome);
                self.old_record = take_record(&rows);
                self.read()
            },
            EraseStage::Comparing => {
                let flags: Vec<bool> = match outcome {
                    Outcome::Flags(f) => f,
                    _ => Vec::new(),
                };
                let comparisons = self.comparisons();
                match judge_locks(&comparisons, &flags) {
                    Some(m) => self.end(Work::Abort(m)),
                    None => self.unlocked(),
                }
            },
            EraseStage::PreProcessing => match failure(&outcome) {
                Some(e) => self.end(Work::Abort(told("Error in pre-process: ", e))),
                None => self.ask(EraseStage::Running, Action::RunCompiled),
            },
            EraseStage::Running => match failure(&outcome) {
                Some(e) => self.end(Work::Abort(told("Error NCO-DELETE: ", e))),
                None => {
                    let change = delete_key(
                        self.target.route.as_str(),
                        self.actor.as_str(),
                        self.target.id_raw.as_str(),
                    );
                    self.ask(EraseStage::Following, Action::FollowKeys(change))
                },
            },
            EraseStage::Following => match failure(&outcome) {
                Some(e) => self.end(
                    Work::Abort(
                        told("Transaction rolled back due to foreign key failures: ", e),
                    ),
                ),
                None => self.followed(),
            },
            EraseStage::PostProcessing => match failure(&outcome) {
                Some(e) => self.end(Work::Abort(told("Error in post-process: ", e))),
                None => self.triggered(),
            },
            EraseStage::Triggering => match failure(&outcome) {
                Some(e) => self.end(Work::Abort(told("Action trigger on_delete failed: ", e))),
                None => self.ask(EraseStage::Committing, Action::Commit),
            },
            EraseStage::Committing => match failure(&outcome) {
                Some(e) => self.end(Work::Fail(told("Error committing transaction: ", e))),
                None => self.done(),
            },
            EraseStage::Ended => self.ask(EraseStage::Ended, Action::Nothing),
        }
    }
}

// ---------------------------------------------------------------------------
// Laws
// ---------------------------------------------------------------------------

/// The stages inside a transaction.
pub open spec fn erase_in_transaction(stage: EraseStage) -> bool {
    stage == EraseStage::Reading || stage == EraseStage::Comparing || stage
        == EraseStage::PreProcessing || stage == EraseStage::Running || stage
        == EraseStage::Following || stage == EraseStage::PostProcessing || stage
        == EraseStage::Triggering || stage == EraseStage::Committing
}

/// A failure inside a transaction rolls it back; the row counts as deleted only
/// once the transaction was committed or the store said so; what is rolled back
/// or committed was begun; and what a deletion asks for is never an answer.
pub proof fn law_erasures_close_their_transaction(
    q: EraseTarget,
    stage: EraseStage,
    m: EraseMemoV,
    o: Outcome,
)
    ensures
        ({
            let (s, _, w) = erase_next(q, stage, m, o);
            &&& w is Ask ==> !answers(w->Ask_0)
            &&& erase_in_transaction(stage) && w is Fail ==> stage == EraseStage::Committing
            &&& w is Finish ==> (stage == EraseStage::Committing || stage == EraseStage::Storing)
                && failure_in(o) is None
            &&& w is Abort ==> erase_in_transaction(stage)
            &&& !(w is Abandon)
            &&& erase_in_transaction(s) && !erase_in_transaction(stage) ==> stage
                == EraseStage::Beginning && failure_in(o) is None
        }),
{
}

/// A row with a locked field is not deleted: once a comparison matches, the
/// transaction is rolled back before the deletion is run.
pub proof fn law_locked_rows_stay(
    q: EraseTarget,
    m: EraseMemoV,
    flags: Vec<bool>,
    i: int,
)
    requires
        0 <= i < erase_comparisons(q, m).len(),
        i < flags@.len(),
        flags@[i],
    ensures
        erase_next(q, EraseStage::Comparing, m, Outcome::Flags(flags)).2 is Abort,
{
    lemma_first_match(flags@, erase_comparisons(q, m).len() as int, 0, i);
}

proof fn lemma_first_match(flags: Seq<bool>, n: int, from: int, i: int)
    requires
        0 <= from <= i < n,
        i < flags.len(),
        flags[i],
    ensures
        first_match(flags, n, from) is Some,
    decreases i - from,
{
    if !flags[from] {
        lemma_first_match(flags, n, from + 1, i);
    }
}

/// Whether a row is the one that a deletion is for: each column of its primary key
/// has its value in the path.
pub open spec fn is_erased_row(q: EraseTarget, row: RowV) -> bool {
    let key = q.schema.primary_key.deep_view();
    let values = split(q.id_raw@, '~');
    key.len() == values.len() && forall|i: int|
        0 <= i < key.len() ==> row(#[trigger] key[i]) == Scalar::Str(values[i])
}

/// A deletion touches its row and no other: whatever it writes, at whatever step, is
/// written to the table of the entity, and a row is removed or marked exactly if it
/// is the one in the path. It is removed only where deletions are not soft, and
/// else marked with who deleted it, and when.
pub proof fn law_erasure_touches_its_row(
    q: EraseTarget,
    stage: EraseStage,
    m: EraseMemoV,
    o: Outcome,
    row: RowV,
    by: Collation,
)
    ensures
        match erase_next(q, stage, m, o).2 {
            WorkV::Ask(a) => match a {
                ActionV::CompileDelete(t, f) => {
                    &&& t == q.schema.table@
                    &&& satisfies(row, f, by) <==> is_erased_row(q, row)
                    &&& !q.is_soft
                },
                ActionV::StoreDelete(t, f) => {
                    &&& t == q.schema.table@
                    &&& satisfies(row, f, by) <==> is_erased_row(q, row)
                    &&& !q.is_soft
                    &&& q.mongodb
                },
                ActionV::CompileUpdate(t, f, fields) => {
                    &&& t == q.schema.table@
                    &&& satisfies(row, f, by) <==> is_erased_row(q, row)
                    &&& q.is_soft
                    &&& fields.len() == 2
                    &&& fields[0] == ("deleted_at"@, InsertValueV::Raw(q.now_expr@))
                    &&& fields[1].0 == "deleted_by_id"@
                    &&& fields[1].1 is Param
                    &&& tells(fields[1].1->Param_0, m.actor)
                },
                ActionV::StoreUpdate(t, f, doc) => {
                    &&& t == q.schema.table@
                    &&& satisfies(row, f, by) <==> is_erased_row(q, row)
                    &&& q.is_soft
                    &&& q.mongodb
                    &&& field(doc, "deleted_at"@) == Some(JsonV::Str(q.now@))
                },
                ActionV::FollowKeys(k) => {
                    &&& k.process == "DELETE"@
                    &&& k.route == q.route@
                    &&& k.id == q.id_raw@
                },
                ActionV::CompileInsert(_, _, _) => false,
                ActionV::CompileBulk(_, _, _) => false,
                ActionV::StoreInsert(_, _) => false,
                ActionV::UpdateRows(_, _, _) => false,
                ActionV::RunSql(_, _) => false,
                _ => true,
            },
            _ => true,
        },
{
    law_keys_pick_their_row(q.schema.primary_key.deep_view(), split(q.id_raw@, '~'), row, by);
    let patch = fields_of(erase_patch(q, m.actor));
    assert(key_at(patch, "deleted_at"@, 0) == Some(0int));
}

/// A deletion whose path fits the key is made: it begins with a statement, or with
/// the store; and it goes through all of its steps before it is committed.
pub proof fn law_erasure_runs_before_it_is_committed(
    q: EraseTarget,
    stage: EraseStage,
    m: EraseMemoV,
    o: Outcome,
)
    ensures
        ({
            let (s, _, w) = erase_next(q, stage, m, o);
            &&& stage == EraseStage::Start && q.schema.primary_key@.len() > 0
                && q.schema.primary_key@.len() == split(q.id_raw@, '~').len() ==> {
                &&& w is Ask
                &&& q.mongodb && q.is_soft ==> w->Ask_0 is StoreUpdate
                &&& q.mongodb && !q.is_soft ==> w->Ask_0 is StoreDelete
                &&& !q.mongodb && q.is_soft ==> w->Ask_0 is CompileUpdate
                &&& !q.mongodb && !q.is_soft ==> w->Ask_0 is CompileDelete
            }
            &&& s == EraseStage::Running ==> w == WorkV::Ask(ActionV::RunCompiled)
            &&& s == EraseStage::Following ==> w is Ask && w->Ask_0 is FollowKeys && stage
                == EraseStage::Running && failure_in(o) is None
            &&& s == EraseStage::Committing ==> w == WorkV::Ask(ActionV::Commit) && (stage
                == EraseStage::Following || stage == EraseStage::PostProcessing || stage
                == EraseStage::Triggering) && failure_in(o) is None
            &&& w is Finish ==> (stage == EraseStage::Committing || stage == EraseStage::Storing)
                && failure_in(o) is None
        }),
{
    assert(q.schema.primary_key.deep_view().len() == q.schema.primary_key@.len());
}

/// A row is locked exactly if one of the comparisons with its fields came out true.
pub proof fn law_locks_hold(comparisons: Seq<(Seq<char>, JsonV, JsonV)>, flags: Seq<bool>)
    requires
        flags.len() == comparisons.len(),
    ensures
        locked(comparisons, flags) is Some <==> exists|i: int|
            0 <= i < flags.len() && #[trigger] flags[i],
{
    lemma_any_match(flags, comparisons.len() as int, 0);
}

proof fn lemma_any_match(flags: Seq<bool>, n: int, from: int)
    requires
        0 <= from,
        n == flags.len(),
    ensures
        first_match(flags, n, from) is Some <==> exists|i: int|
            from <= i < flags.len() && #[trigger] flags[i],
    decreases n - from,
{
    if from < n {
        lemma_any_match(flags, n, from + 1);
    }
}

/// Every configured lock on a field that the row has is compared: with the value, or
/// with each of the values, that lock it.
pub proof fn law_locks_are_compared(conditions: Seq<(Seq<char>, JsonV)>, record: Fields, i: int)
    requires
        0 <= i < conditions.len(),
        lookup(record, conditions[i].0) is Some,
        !(conditions[i].1 is Array),
    ensures
        lock_comparisons(conditions, record).contains(
            (conditions[i].0, conditions[i].1, lookup(record, conditions[i].0)->0),
        ),
    decreases conditions.len(),
{
    let all = lock_comparisons(conditions, record);
    let before = lock_comparisons(conditions.drop_last(), record);
    let c = (conditions[i].0, conditions[i].1, lookup(record, conditions[i].0)->0);
    if i < conditions.len() - 1 {
        law_locks_are_compared(conditions.drop_last(), record, i);
        let k = choose|k: int| 0 <= k < before.len() && before[k] == c;
        assert(all[k] == c);
    } else {
        assert(all[all.len() - 1] == c);
    }
}

} // verus!
