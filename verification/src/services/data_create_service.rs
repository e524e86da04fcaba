//! A request to insert a row with its details.
use crate::ast::{DbParam, InsertValue, InsertValueV, Scalar};
use crate::consumer::{job_of, make_job, WriteOpKind, WriteOpKindV};
use crate::flow::{
    answers_success, checks_access, failure, failure_in, missing_entity, queue_wanted, refusal,
    say_missing_entity, succeed, succeeded, told, touches_data, wants_queue, web_err, Action,
    ActionV, Audit, AuditV, Outcome, Preparation, Reply, ReplyV, Work, WorkV,
};
use crate::giving::{gives, law_values_are_read_as_given, tells};
use crate::handlers::post_handler::{failed_status, status_of_failure};
use crate::json::{
    field, get_in, law_set_then_get, lemma_array_view, lemma_object_view, lookup, set_in,
    with_field, with_key, Json, JsonV,
};
use crate::model::{
    column_named, column_type, find_column, type_or_int, Column, DetailConfig, TableSchema,
};
use crate::number::{float_numeral, i64_value, int_text, is_float, parse_i64, u64_text};
use crate::pk_utils::{as_json, int_type, is_int_type, to_json};
use crate::post::{document, document_value, entry_at, expressions_at, stored_at, Fields};
use crate::post::{read_entry, read_expressions};
use crate::repositories::data_create_repo::{
    copy_checks, law_insertions_write_their_plan, lemma_asking_is_no_answer, perform_insert,
    plan_is_kept, row_next, PreparedDetailBatch,
    PreparedDetailBatchV, RowInsertion, RowPlan, RowPlanV, RowStage, RowTarget,
};
use crate::text::{
    ascii_lower, contains, ends_with, finishes_with, has_text, listed, lowercase, push_item, same,
    same_but_case, same_ignoring_case, split, split_text, strip_back, stripped_back, to_ascii_lower,
    to_lowercase, trim, trimmed,
};
use crate::validation::{FkCheck, FkCheckV};
use crate::writing::{
    ask_columns, asked_columns, audit_column, build_formula_value, build_settable, check_of,
    find_own_id, formula_of, formula_value, given_text, is_audit_column, key_checks,
    law_configured_columns_are_set, law_given_keys_are_checked, own_id_at, push_key_checks, read_formula, read_given_text,
    settable,
};
use vstd::prelude::*;
use vstd::string::*;

verus! {

/// A request to insert a row: who may make it, and how it is carried out.
#[derive(Debug)]
pub struct CreateRequest {
    /// Whether the route is open to everyone.
    pub is_public: bool,
    /// Whether routes that are not open ask for a token.
    pub require_auth: bool,
    pub queue_enabled: bool,
    /// Whether a queued write is acknowledged before it is in the queue.
    pub fast_ack: bool,
    /// Whether answers are kept in a shared cache.
    pub shared_cache: bool,
    pub parameters: Json,
    /// The entities that details are written to, by their names.
    pub entities: Vec<(String, TableSchema)>,
    /// The present time, in UTC.
    pub now_utc: String,
}

// ---------------------------------------------------------------------------
// Values
// ---------------------------------------------------------------------------

/// The bearer of a token as a value of a column of the type `type_data`.
pub open spec fn actor_value(type_data: Seq<char>, actor: Seq<char>) -> Scalar {
    let t = lowercase(type_data);
    if is_int_type(t) {
        match i64_value(actor) {
            Some(n) => Scalar::I64(n),
            None => Scalar::Str(actor),
        }
    } else if is_fraction_type(t) && is_float(actor) {
        Scalar::F64(actor)
    } else {
        Scalar::Str(actor)
    }
}

/// Whether a type of a column is one of numbers with a fraction.
pub open spec fn is_fraction_type(t: Seq<char>) -> bool {
    contains(t, "float"@) || contains(t, "decimal"@)
}

/// Whether a type of a column is one of points in time.
pub open spec fn is_time_type(t: Seq<char>) -> bool {
    contains(t, "datetime"@) || contains(t, "timestamp"@) || contains(t, "date"@)
}

fn fraction_type(t: &str) -> (r: bool)
    ensures
        r == is_fraction_type(t@),
{
    has_text(t, "float") || has_text(t, "decimal")
}

fn time_type(t: &str) -> (r: bool)
    ensures
        r == is_time_type(t@),
{
    has_text(t, "datetime") || has_text(t, "timestamp") || has_text(t, "date")
}

/// The bearer of a token as a value of a column of the type `type_data`.
pub fn audit_actor_value(type_data: &str, actor: &str) -> (r: DbParam)
    ensures
        r.deep_view() == actor_value(type_data@, actor@),
{
    let t = to_lowercase(type_data);
    if int_type(t.as_str()) {
        match parse_i64(actor) {
            Some(n) => DbParam::I64(n),
            None => DbParam::Str(actor.to_owned()),
        }
    } else if fraction_type(t.as_str()) && float_numeral(actor) {
        DbParam::F64(actor.to_owned())
    } else {
        DbParam::Str(actor.to_owned())
    }
}

/// Whether a text stands for no value.
pub open spec fn is_void(s: Seq<char>) -> bool {
    trim(s).len() == 0 || same_but_case(trim(s), "null"@)
}

/// Whether a text stands for no value.
pub fn void(s: &str) -> (r: bool)
    ensures
        r == is_void(s@),
{
    let t = trimmed(s);
    t.as_str().is_empty() || same_ignoring_case(t.as_str(), "null")
}

/// Whether a field was given: neither null nor a text that stands for no value.
pub open spec fn is_filled(v: Option<JsonV>) -> bool {
    match v {
        None => false,
        Some(JsonV::Null) => false,
        Some(JsonV::Str(s)) => !is_void(s),
        Some(_) => true,
    }
}

/// Whether a field was given.
pub fn filled(v: Option<&Json>) -> (r: bool)
    ensures
        r == is_filled(v.deep_view()),
{
    match v {
        None => false,
        Some(v) => match v {
            Json::Null => false,
            Json::Str(s) => !void(s.as_str()),
            _ => true,
        },
    }
}

// ---------------------------------------------------------------------------
// Required fields
// ---------------------------------------------------------------------------

/// Configured names without the stars that mark the required ones.
pub open spec fn clean_names(names: Seq<Seq<char>>) -> Seq<Seq<char>> {
    Seq::new(names.len(), |i: int| strip_back(names[i], '*'))
}

/// Configured names without the stars that mark the required ones.
pub fn build_clean_names(names: &Vec<String>) -> (r: Vec<String>)
    ensures
        r.deep_view() == clean_names(names.deep_view()),
{
    let ghost all = clean_names(names.deep_view());
    let mut out: Vec<String> = Vec::new();
    let mut i: usize = 0;
    while i < names.len()
        invariant
            i <= names@.len(),
            all == clean_names(names.deep_view()),
            out.deep_view() == all.take(i as int),
        decreases names.len() - i,
    {
        push_item(&mut out, stripped_back(names[i].as_str(), '*'));
        i += 1;
        assert(all.take(i as int) =~= all.take(i - 1).push(all[i - 1]));
    }
    assert(all.take(names@.len() as int) =~= all);
    out
}

/// Whether a configured column has to be given: it is marked so, or the column
/// needs a value that the database does not set.
pub open spec fn is_mandatory(entry: Seq<char>, c: Column) -> bool {
    ends_with(entry, "*"@) || (!c.nullable && !c.auto_increment)
}

/// The body with a point in time that stands for no value made null.
pub open spec fn with_time_cleared(body: JsonV, name: Seq<char>, c: Column) -> JsonV {
    match field(body, name) {
        Some(JsonV::Str(s)) => if is_time_type(ascii_lower(c.type_data@)) && is_void(s) {
            with_key(body, name, JsonV::Null)
        } else {
            body
        },
        _ => body,
    }
}

/// The body of a request whose first `n` configured columns are all there, with
/// the points in time that stand for no value made null; or what is missing.
pub open spec fn checked_body(
    posted: Seq<Seq<char>>,
    columns: Seq<Column>,
    body: JsonV,
    n: int,
) -> Result<JsonV, Seq<char>>
    decreases n,
{
    if n <= 0 {
        Ok(body)
    } else {
        match checked_body(posted, columns, body, n - 1) {
            Err(m) => Err(m),
            Ok(b) => {
                let name = strip_back(posted[n - 1], '*');
                match column_named(columns, name) {
                    None => Ok(b),
                    Some(c) => {
                        let cleared = with_time_cleared(b, name, c);
                        if is_mandatory(posted[n - 1], c) && !is_filled(field(cleared, name)) {
                            Err("Missing required field: "@ + name)
                        } else {
                            Ok(cleared)
                        }
                    },
                }
            },
        }
    }
}

proof fn lemma_checked_body_fails(
    posted: Seq<Seq<char>>,
    columns: Seq<Column>,
    body: JsonV,
    k: int,
    n: int,
)
    requires
        k <= n,
        checked_body(posted, columns, body, k) is Err,
    ensures
        checked_body(posted, columns, body, n) == checked_body(posted, columns, body, k),
    decreases n - k,
{
    if k < n {
        lemma_checked_body_fails(posted, columns, body, k, n - 1);
    }
}

/// The body of a request whose configured columns are all there, or what is
/// missing.
pub fn check_body(posted: &Vec<String>, columns: &Vec<Column>, body: Json) -> (r: Result<
    Json,
    String,
>)
    ensures
        match r {
            Ok(b) => checked_body(
                posted.deep_view(),
                columns@,
                body.deep_view(),
                posted@.len() as int,
            ) == Ok::<JsonV, Seq<char>>(b.deep_view()),
            Err(m) => checked_body(
                posted.deep_view(),
                columns@,
                body.deep_view(),
                posted@.len() as int,
            ) == Err::<JsonV, Seq<char>>(m@),
        },
{
    let ghost ps = posted.deep_view();
    let ghost start = body.deep_view();
    let mut current = body;
    let mut i: usize = 0;
    while i < posted.len()
        invariant
            i <= posted@.len(),
            ps == posted.deep_view(),
            start == body.deep_view(),
            checked_body(ps, columns@, start, i as int) == Ok::<JsonV, Seq<char>>(
                current.deep_view(),
            ),
        decreases posted.len() - i,
    {
        assert(ps[i as int] == posted@[i as int]@);
        let entry = posted[i].as_str();
        let name = stripped_back(entry, '*');
        match find_column(columns, name.as_str()) {
            None => {},
            Some(c) => {
                let clear = match current.get(name.as_str()) {
                    Some(v) => match v {
                        Json::Str(s) => {
                            let t = to_ascii_lower(c.type_data.as_str());
                            time_type(t.as_str()) && void(s.as_str())
                        },
                        _ => false,
                    },
                    None => false,
                };
                if clear {
                    current.set(name.as_str(), Json::Null);
                }
                let mandatory = finishes_with(entry, "*") || (!c.nullable && !c.auto_increment);
                if mandatory && !filled(current.get(name.as_str())) {
                    proof {
                        lemma_checked_body_fails(
                            ps,
                            columns@,
                            start,
                            i + 1,
                            posted@.len() as int,
                        );
                    }
                    return Err(told("Missing required field: ", name.as_str()));
                }
            },
        }
        i += 1;
    }
    Ok(current)
}

// ---------------------------------------------------------------------------
// The row
// ---------------------------------------------------------------------------

/// The positions of the columns that are inserted: those that the request may
/// set, then the identifier where the database does not set it.
pub open spec fn create_columns(schema: TableSchema) -> Seq<usize> {
    let posted = clean_names(schema.post.columns.deep_view());
    let own = settable(schema.columns@, posted, schema.columns@.len() as int);
    match own_id_at(schema.columns@, 0) {
        Some(i) => if posted.contains("id"@) {
            own
        } else {
            own.push(i)
        },
        None => own,
    }
}

/// The positions of the columns that are inserted.
pub fn build_create_columns(schema: &TableSchema) -> (r: Vec<usize>)
    ensures
        r@ == create_columns(*schema),
        forall|k: int| 0 <= k < r@.len() ==> r@[k] < schema.columns@.len(),
{
    let posted = build_clean_names(&schema.post.columns);
    let mut out = build_settable(&schema.columns, &posted);
    match find_own_id(&schema.columns) {
        Some(i) => {
            if !listed(&posted, "id") {
                out.push(i);
            }
        },
        None => {},
    }
    out
}

/// A stored value as a bound value of a column: a number in a column of numbers;
/// null where such a column may be, and there is no value.
pub open spec fn create_bound(value: Seq<char>, t: Seq<char>, nullable: bool) -> Scalar {
    if is_int_type(t) {
        match i64_value(value) {
            Some(n) => Scalar::I64(n),
            None => if value.len() == 0 && nullable {
                Scalar::Null
            } else {
                Scalar::Str(value)
            },
        }
    } else if is_fraction_type(t) {
        if is_float(value) {
            Scalar::F64(value)
        } else if value.len() == 0 && nullable {
            Scalar::Null
        } else {
            Scalar::Str(value)
        }
    } else {
        Scalar::Str(value)
    }
}

fn bind_create(value: &str, t: &str, nullable: bool) -> (r: DbParam)
    ensures
        r.deep_view() == create_bound(value@, t@, nullable),
{
    if int_type(t) {
        match parse_i64(value) {
            Some(n) => DbParam::I64(n),
            None => if value.is_empty() && nullable {
                DbParam::Null
            } else {
                DbParam::Str(value.to_owned())
            },
        }
    } else if fraction_type(t) {
        if float_numeral(value) {
            DbParam::F64(value.to_owned())
        } else if value.is_empty() && nullable {
            DbParam::Null
        } else {
            DbParam::Str(value.to_owned())
        }
    } else {
        DbParam::Str(value.to_owned())
    }
}

/// The plan of a row with one column worked in.
pub open spec fn with_created(
    p: RowPlanV,
    schema: TableSchema,
    c: Column,
    prep: Preparation,
    k: int,
) -> RowPlanV {
    match formula_of(c.name@, entry_at(prep, k)) {
        Some(f) => {
            let (sql, params) = formula_value(f, expressions_at(prep, k), p.body);
            RowPlanV {
                fields: p.fields.push((c.name@, InsertValueV::RawWithParams { sql, params })),
                ..p
            }
        },
        None => if c.name@ == "id"@ && c.function@.len() > 0 {
            p
        } else {
            let given = field(p.body, c.name@);
            let text = given_text(given);
            let t = lowercase(c.type_data@);
            if is_time_type(t) && (text.len() == 0 || same_but_case(text, "null"@)) {
                RowPlanV {
                    fields: p.fields.push((c.name@, InsertValueV::Param(Scalar::Null))),
                    doc: with_field(p.doc, c.name@, JsonV::Null),
                    ..p
                }
            } else {
                let value = if c.encrypt && text.len() > 0 {
                    stored_at(prep, k)
                } else {
                    text
                };
                let bound = create_bound(value, t, c.nullable);
                RowPlanV {
                    fields: p.fields.push((c.name@, InsertValueV::Param(bound))),
                    doc: with_field(p.doc, c.name@, document_value(bound, given)),
                    checks: p.checks + key_checks(
                        schema.foreign_keys@,
                        c.name@,
                        text,
                        c.type_data@,
                    ),
                    ..p
                }
            }
        },
    }
}

/// The plan of the first `n` columns that are inserted.
pub open spec fn created_plan(
    start: RowPlanV,
    schema: TableSchema,
    prep: Preparation,
    n: int,
) -> RowPlanV
    decreases n,
{
    if n <= 0 {
        start
    } else {
        with_created(
            created_plan(start, schema, prep, n - 1),
            schema,
            schema.columns@[create_columns(schema)[n - 1] as int],
            prep,
            n - 1,
        )
    }
}

fn plan_created(
    p: &mut RowPlan,
    schema: &TableSchema,
    c: &Column,
    prep: &Preparation,
    k: usize,
)
    ensures
        final(p).deep_view() == with_created(old(p).deep_view(), *schema, *c, *prep, k as int),
{
    let name = c.name.as_str();
    match read_formula(name, read_entry(prep, k)) {
        Some(f) => {
            let exprs = read_expressions(prep, k);
            let (sql, params) = build_formula_value(f.as_str(), &exprs, &p.body);
            push_item(&mut p.fields, (c.name.clone(), InsertValue::RawWithParams { sql, params }));
        },
        None => {
            if same(name, "id") && !c.function.as_str().is_empty() {
                return ;
            }
            let text = read_given_text(p.body.get(name));
            let t = to_lowercase(c.type_data.as_str());
            if time_type(t.as_str()) && (text.as_str().is_empty() || same_ignoring_case(
                text.as_str(),
                "null",
            )) {
                set_in(&mut p.doc, name, Json::Null);
                push_item(&mut p.fields, (c.name.clone(), InsertValue::Param(DbParam::Null)));
                return ;
            }
            push_key_checks(
                &mut p.checks,
                &schema.foreign_keys,
                name,
                text.as_str(),
                c.type_data.as_str(),
            );
            let value = if c.encrypt && !text.as_str().is_empty() {
                if k < prep.stored.len() {
                    prep.stored[k].clone()
                } else {
                    String::new()
                }
            } else {
                text
            };
            let bound = bind_create(value.as_str(), t.as_str(), c.nullable);
            let shown = document(&bound, p.body.get(name));
            set_in(&mut p.doc, name, shown);
            push_item(&mut p.fields, (c.name.clone(), InsertValue::Param(bound)));
        },
    }
}

/// Works the columns that are inserted into a plan.
pub fn plan_create(p: &mut RowPlan, schema: &TableSchema, prep: &Preparation)
    ensures
        final(p).deep_view() == created_plan(
            old(p).deep_view(),
            *schema,
            *prep,
            create_columns(*schema).len() as int,
        ),
{
    let ghost sv = p.deep_view();
    let cols = build_create_columns(schema);
    let mut i: usize = 0;
    while i < cols.len()
        invariant
            i <= cols@.len(),
            cols@ == create_columns(*schema),
            forall|k: int| 0 <= k < cols@.len() ==> cols@[k] < schema.columns@.len(),
            p.deep_view() == created_plan(sv, *schema, *prep, i as int),
        decreases cols.len() - i,
    {
        plan_created(p, schema, &schema.columns[cols[i]], prep, i);
        i += 1;
    }
}

/// The plan of a row with the bearer of the token as its creator, where it has a
/// column for that which is not set yet.
pub open spec fn with_creator(p: RowPlanV, schema: TableSchema, actor: Option<Seq<char>>) -> RowPlanV {
    match actor {
        None => p,
        Some(a) => match column_named(schema.columns@, "created_by_id"@) {
            None => p,
            Some(c) => if lookup(p.doc, "created_by_id"@) is Some {
                p
            } else {
                let v = actor_value(c.type_data@, a);
                RowPlanV {
                    doc: with_field(p.doc, "created_by_id"@, as_json(v)),
                    fields: p.fields.push(("created_by_id"@, InsertValueV::Param(v))),
                    ..p
                }
            },
        },
    }
}

fn add_creator(p: &mut RowPlan, schema: &TableSchema, actor: &Option<String>)
    ensures
        final(p).deep_view() == with_creator(old(p).deep_view(), *schema, actor.deep_view()),
{
    match actor {
        None => {},
        Some(a) => match find_column(&schema.columns, "created_by_id") {
            None => {},
            Some(c) => {
                if get_in(&p.doc, "created_by_id").is_none() {
                    let v = audit_actor_value(c.type_data.as_str(), a.as_str());
                    set_in(&mut p.doc, "created_by_id", to_json(v.copy()));
                    push_item(
                        &mut p.fields,
                        ("created_by_id".to_owned(), InsertValue::Param(v)),
                    );
                }
            },
        },
    }
}

/// The position of the first column `id` with a function, at or after `from`.
pub open spec fn generated_at(columns: Seq<Column>, from: int) -> Option<int>
    decreases columns.len() - from,
{
    if from < 0 || from >= columns.len() {
        None
    } else if columns[from].name@ == "id"@ && columns[from].function@.len() > 0 {
        Some(from)
    } else {
        generated_at(columns, from + 1)
    }
}

/// The tokens of the generated identifier; none where it is not generated.
pub open spec fn id_tokens(columns: Seq<Column>) -> Seq<Seq<char>> {
    match generated_at(columns, 0) {
        Some(i) => split(columns[i].function@, '/'),
        None => Seq::empty(),
    }
}

/// The tokens of the generated identifier.
pub fn read_id_tokens(columns: &Vec<Column>) -> (r: Vec<String>)
    ensures
        r.deep_view() == id_tokens(columns@),
{
    let mut i: usize = 0;
    while i < columns.len()
        invariant
            i <= columns@.len(),
            generated_at(columns@, 0) == generated_at(columns@, i as int),
        decreases columns.len() - i,
    {
        if same(columns[i].name.as_str(), "id") && !columns[i].function.as_str().is_empty() {
            return split_text(columns[i].function.as_str(), '/');
        }
        i += 1;
    }
    let none: Vec<String> = Vec::new();
    assert(none.deep_view() =~= Seq::empty());
    none
}

// ---------------------------------------------------------------------------
// The details
// ---------------------------------------------------------------------------

/// The names of the first `n` columns that a detail sets: those that are
/// configured, or all of them where none is, without those that the database or
/// the audit trail sets.
pub open spec fn detail_settable(columns: Seq<Column>, posted: Seq<Seq<char>>, n: int) -> Seq<
    Seq<char>,
>
    decreases n,
{
    if n <= 0 {
        Seq::empty()
    } else {
        let before = detail_settable(columns, posted, n - 1);
        let c = columns[n - 1];
        if !c.auto_increment && !is_audit_column(c.name@) && (posted.len() == 0 || posted.contains(
            c.name@,
        )) {
            before.push(c.name@)
        } else {
            before
        }
    }
}

/// The names of the columns of the rows of a detail. The column that points to
/// the header stands first where it is not configured.
pub open spec fn detail_columns(schema: TableSchema, key: Seq<char>) -> Seq<Seq<char>> {
    let own = detail_settable(
        schema.columns@,
        clean_names(schema.post.columns.deep_view()),
        schema.columns@.len() as int,
    );
    if own.contains(key) {
        own
    } else {
        own.insert(0, key)
    }
}

/// The position of a name, at or after `from`; the first position where it is
/// not there.
pub open spec fn position_of(names: Seq<Seq<char>>, name: Seq<char>, from: int) -> int
    decreases names.len() - from,
{
    if from < 0 || from >= names.len() {
        0
    } else if names[from] == name {
        from
    } else {
        position_of(names, name, from + 1)
    }
}

/// The names of the columns of the rows of a detail.
pub fn build_detail_columns(schema: &TableSchema, key: &str) -> (r: Vec<String>)
    ensures
        r.deep_view() == detail_columns(*schema, key@),
{
    let posted = build_clean_names(&schema.post.columns);
    assert(posted.deep_view().len() == posted@.len());
    let mut out: Vec<String> = Vec::new();
    let mut i: usize = 0;
    assert(out.deep_view() =~= Seq::empty());
    while i < schema.columns.len()
        invariant
            i <= schema.columns@.len(),
            posted.deep_view().len() == posted@.len(),
            out.deep_view() == detail_settable(schema.columns@, posted.deep_view(), i as int),
        decreases schema.columns.len() - i,
    {
        let c = &schema.columns[i];
        if !c.auto_increment && !audit_column(c.name.as_str()) && (posted.len() == 0 || listed(
            &posted,
            c.name.as_str(),
        )) {
            push_item(&mut out, c.name.clone());
        }
        i += 1;
    }
    if !listed(&out, key) {
        let ghost own = out.deep_view();
        out.insert(0, key.to_owned());
        assert(out.deep_view() =~= own.insert(0, key@));
    }
    out
}

fn find_position(names: &Vec<String>, name: &str) -> (r: usize)
    ensures
        r == position_of(names.deep_view(), name@, 0),
{
    let mut i: usize = 0;
    while i < names.len()
        invariant
            i <= names@.len(),
            position_of(names.deep_view(), name@, 0) == position_of(
                names.deep_view(),
                name@,
                i as int,
            ),
        decreases names.len() - i,
    {
        assert(names.deep_view()[i as int] == names@[i as int]@);
        if same(names[i].as_str(), name) {
            return i;
        }
        i += 1;
    }
    0
}

/// Whether an item lacks what a configured column asks for. The column that
/// points to the header is set later.
pub open spec fn lacks(entry: Seq<char>, columns: Seq<Column>, item: Fields, key: Seq<char>) -> bool {
    let name = strip_back(entry, '*');
    name != key && match column_named(columns, name) {
        Some(c) => is_mandatory(entry, c) && !is_filled(lookup(item, name)),
        None => false,
    }
}

/// The position of the first configured column, at or after `from`, that an item
/// lacks.
pub open spec fn lacking_at(
    posted: Seq<Seq<char>>,
    columns: Seq<Column>,
    item: Fields,
    key: Seq<char>,
    from: int,
) -> Option<int>
    decreases posted.len() - from,
{
    if from < 0 || from >= posted.len() {
        None
    } else if lacks(posted[from], columns, item, key) {
        Some(from)
    } else {
        lacking_at(posted, columns, item, key, from + 1)
    }
}

fn find_lacking(
    posted: &Vec<String>,
    columns: &Vec<Column>,
    item: &Vec<(String, Json)>,
    key: &str,
) -> (r: Option<usize>)
    ensures
        match r {
            Some(i) => i < posted@.len() && lacking_at(
                posted.deep_view(),
                columns@,
                item.deep_view(),
                key@,
                0,
            ) == Some(i as int),
            None => lacking_at(posted.deep_view(), columns@, item.deep_view(), key@, 0) is None,
        },
{
    let mut i: usize = 0;
    while i < posted.len()
        invariant
            i <= posted@.len(),
            lacking_at(posted.deep_view(), columns@, item.deep_view(), key@, 0) == lacking_at(
                posted.deep_view(),
                columns@,
                item.deep_view(),
                key@,
                i as int,
            ),
        decreases posted.len() - i,
    {
        assert(posted.deep_view()[i as int] == posted@[i as int]@);
        let entry = posted[i].as_str();
        let name = stripped_back(entry, '*');
        if !same(name.as_str(), key) {
            match find_column(columns, name.as_str()) {
                Some(c) => {
                    let mandatory = finishes_with(entry, "*") || (!c.nullable
                        && !c.auto_increment);
                    if mandatory && !filled(get_in(item, name.as_str())) {
                        return Some(i);
                    }
                },
                None => {},
            }
        }
        i += 1;
    }
    None
}

/// What becomes of the items of a detail: the values that are to be encrypted,
/// the checks of foreign keys, the rows, and the items that are shown.
#[derive(Debug)]
pub struct Lines {
    pub secrets: Vec<String>,
    pub checks: Vec<FkCheck>,
    pub rows: Vec<Vec<InsertValue>>,
    pub items: Vec<Vec<(String, Json)>>,
}

/// What becomes of the items of a detail.
pub struct LinesV {
    pub secrets: Seq<Seq<char>>,
    pub checks: Seq<FkCheckV>,
    pub rows: Seq<Seq<InsertValueV>>,
    pub items: Seq<Fields>,
}

impl DeepView for Lines {
    type V = LinesV;

    open spec fn deep_view(&self) -> LinesV {
        LinesV {
            secrets: self.secrets.deep_view(),
            checks: self.checks.deep_view(),
            rows: self.rows.deep_view(),
            items: self.items.deep_view(),
        }
    }
}

/// What becomes of one item: as above, for a row that grows.
pub struct CellsV {
    pub secrets: Seq<Seq<char>>,
    pub checks: Seq<FkCheckV>,
    pub row: Seq<InsertValueV>,
    pub item: Fields,
}

/// The `k`-th of some encrypted values.
pub open spec fn stored_secret(stored: Seq<Seq<char>>, k: int) -> Seq<char> {
    if 0 <= k < stored.len() {
        stored[k]
    } else {
        Seq::empty()
    }
}

/// A value as a bound value of a column of a detail: null where it is no number
/// of a column of numbers.
pub open spec fn detail_bound(value: Seq<char>, t: Seq<char>) -> Scalar {
    if is_int_type(t) {
        match i64_value(value) {
            Some(n) => Scalar::I64(n),
            None => Scalar::Null,
        }
    } else if is_fraction_type(t) {
        if is_float(value) {
            Scalar::F64(value)
        } else {
            Scalar::Null
        }
    } else {
        Scalar::Str(value)
    }
}

fn bind_detail(value: &str, t: &str) -> (r: DbParam)
    ensures
        r.deep_view() == detail_bound(value@, t@),
{
    if int_type(t) {
        match parse_i64(value) {
            Some(n) => DbParam::I64(n),
            None => DbParam::Null,
        }
    } else if fraction_type(t) {
        if float_numeral(value) {
            DbParam::F64(value.to_owned())
        } else {
            DbParam::Null
        }
    } else {
        DbParam::Str(value.to_owned())
    }
}

/// A value of a detail as it is shown: the number that was bound, or what was
/// given.
pub open spec fn detail_shown(bound: Scalar, given: Option<JsonV>) -> JsonV {
    match bound {
        Scalar::Str(_) => match given {
            Some(v) => v,
            None => JsonV::Str(Seq::empty()),
        },
        Scalar::Null => match given {
            Some(v) => v,
            None => JsonV::Null,
        },
        _ => as_json(bound),
    }
}

fn show_detail(bound: &DbParam, given: Option<&Json>) -> (r: Json)
    ensures
        r.deep_view() == detail_shown(bound.deep_view(), given.deep_view()),
{
    match bound {
        DbParam::Str(_) => match given {
            Some(v) => v.copy(),
            None => Json::Str(String::new()),
        },
        DbParam::Null => match given {
            Some(v) => v.copy(),
            None => Json::Null,
        },
        _ => to_json(bound.copy()),
    }
}

/// The row of an item with one column worked in. A value that is to be encrypted
/// is the next of those in `stored`.
pub open spec fn with_cell(
    w: CellsV,
    schema: TableSchema,
    name: Seq<char>,
    key: Seq<char>,
    item: Fields,
    stored: Seq<Seq<char>>,
) -> CellsV {
    if name == key {
        CellsV { row: w.row.push(InsertValueV::Param(Scalar::Null)), ..w }
    } else {
        let given = lookup(item, name);
        let text = given_text(given);
        let column = column_named(schema.columns@, name);
        let checks = w.checks + key_checks(
            schema.foreign_keys@,
            name,
            text,
            match column {
                Some(c) => c.type_data@,
                None => "text"@,
            },
        );
        let secret = match column {
            Some(c) => c.encrypt && text.len() > 0,
            None => false,
        };
        let value = if secret {
            stored_secret(stored, w.secrets.len() as int)
        } else {
            text
        };
        let bound = detail_bound(
            value,
            match column {
                Some(c) => lowercase(c.type_data@),
                None => Seq::empty(),
            },
        );
        CellsV {
            secrets: if secret {
                w.secrets.push(text)
            } else {
                w.secrets
            },
            checks,
            row: w.row.push(InsertValueV::Param(bound)),
            item: with_field(w.item, name, detail_shown(bound, given)),
        }
    }
}

/// The row of an item with some columns worked in.
pub open spec fn with_cells(
    w: CellsV,
    schema: TableSchema,
    names: Seq<Seq<char>>,
    key: Seq<char>,
    item: Fields,
    stored: Seq<Seq<char>>,
) -> CellsV
    decreases names.len(),
{
    if names.len() == 0 {
        w
    } else {
        with_cell(
            with_cells(w, schema, names.drop_last(), key, item, stored),
            schema,
            names.last(),
            key,
            item,
            stored,
        )
    }
}

/// What becomes of some items with the row of one more.
pub open spec fn with_line(
    w: LinesV,
    schema: TableSchema,
    key: Seq<char>,
    item: Fields,
    stored: Seq<Seq<char>>,
) -> LinesV {
    let cells = with_cells(
        CellsV { secrets: w.secrets, checks: w.checks, row: Seq::empty(), item: Seq::empty() },
        schema,
        detail_columns(schema, key),
        key,
        item,
        stored,
    );
    LinesV {
        secrets: cells.secrets,
        checks: cells.checks,
        rows: w.rows.push(cells.row),
        items: w.items.push(cells.item),
    }
}

/// Works the columns of one item into a row.
pub fn plan_line(
    w: &mut Lines,
    schema: &TableSchema,
    names: &Vec<String>,
    key: &str,
    item: &Vec<(String, Json)>,
    stored: &Vec<String>,
)
    requires
        names.deep_view() == detail_columns(*schema, key@),
    ensures
        final(w).deep_view() == with_line(
            old(w).deep_view(),
            *schema,
            key@,
            item.deep_view(),
            stored.deep_view(),
        ),
{
    let ghost before = w.deep_view();
    let ghost start = CellsV {
        secrets: before.secrets,
        checks: before.checks,
        row: Seq::empty(),
        item: Seq::empty(),
    };
    let ghost ns = names.deep_view();
    let ghost iv = item.deep_view();
    let ghost sv = stored.deep_view();
    let mut row: Vec<InsertValue> = Vec::new();
    let mut shown: Vec<(String, Json)> = Vec::new();
    assert(row.deep_view() =~= Seq::empty());
    assert(shown.deep_view() =~= Seq::empty());
    proof {
        reveal_strlit("");
        assert(""@ =~= Seq::<char>::empty());
    }
    let mut i: usize = 0;
    while i < names.len()
        invariant
            i <= names@.len(),
            ns == names.deep_view(),
            iv == item.deep_view(),
            sv == stored.deep_view(),
            ""@ == Seq::<char>::empty(),
            w.rows.deep_view() == before.rows,
            w.items.deep_view() == before.items,
            (CellsV {
                secrets: w.secrets.deep_view(),
                checks: w.checks.deep_view(),
                row: row.deep_view(),
                item: shown.deep_view(),
            }) == with_cells(start, *schema, ns.take(i as int), key@, iv, sv),
        decreases names.len() - i,
    {
        assert(ns.take(i + 1).drop_last() =~= ns.take(i as int));
        assert(ns[i as int] == names@[i as int]@);
        let name = names[i].as_str();
        if same(name, key) {
            push_item(&mut row, InsertValue::Param(DbParam::Null));
        } else {
            let given = get_in(item, name);
            let text = read_given_text(given);
            let column = find_column(&schema.columns, name);
            let type_data = match column {
                Some(c) => c.type_data.as_str(),
                None => "text",
            };
            push_key_checks(
                &mut w.checks,
                &schema.foreign_keys,
                name,
                text.as_str(),
                type_data,
            );
            let secret = match column {
                Some(c) => c.encrypt && !text.as_str().is_empty(),
                None => false,
            };
            let value = if secret {
                assert(w.secrets.deep_view().len() == w.secrets@.len());
                let k: usize = w.secrets.len();
                let value = if k < stored.len() {
                    assert(sv[k as int] == stored@[k as int]@);
                    stored[k].clone()
                } else {
                    String::new()
                };
                push_item(&mut w.secrets, text);
                value
            } else {
                text
            };
            let t = match column {
                Some(c) => to_lowercase(c.type_data.as_str()),
                None => String::new(),
            };
            let bound = bind_detail(value.as_str(), t.as_str());
            set_in(&mut shown, name, show_detail(&bound, given));
            push_item(&mut row, InsertValue::Param(bound));
        }
        i += 1;
    }
    assert(ns.take(ns.len() as int) =~= ns);
    push_item(&mut w.rows, row);
    push_item(&mut w.items, shown);
}

/// What is said of an item that is no object.
pub open spec fn not_an_object(i: int, detail: Seq<char>) -> Seq<char> {
    "Detail item #"@ + int_text(i + 1) + " in '"@ + detail + "' must be a JSON object"@
}

/// What is said of an item that lacks a field.
pub open spec fn item_lacks(i: int, name: Seq<char>, detail: Seq<char>) -> Seq<char> {
    "Item #"@ + int_text(i + 1) + ": Missing required field '"@ + name + "' in detail '"@ + detail
        + "'"@
}

/// What becomes of the first `n` items of a detail, or what is wrong with one.
pub open spec fn lines_of(
    w: LinesV,
    schema: TableSchema,
    d: DetailConfig,
    items: Seq<JsonV>,
    stored: Seq<Seq<char>>,
    n: int,
) -> Result<LinesV, Seq<char>>
    decreases n,
{
    if n <= 0 {
        Ok(w)
    } else {
        match lines_of(w, schema, d, items, stored, n - 1) {
            Err(m) => Err(m),
            Ok(before) => match items[n - 1] {
                JsonV::Object(item) => match lacking_at(
                    schema.post.columns.deep_view(),
                    schema.columns@,
                    item,
                    d.foreign_key_column@,
                    0,
                ) {
                    Some(k) => Err(
                        item_lacks(
                            n - 1,
                            strip_back(schema.post.columns.deep_view()[k], '*'),
                            d.field@,
                        ),
                    ),
                    None => Ok(with_line(before, schema, d.foreign_key_column@, item, stored)),
                },
                _ => Err(not_an_object(n - 1, d.field@)),
            },
        }
    }
}

proof fn lemma_lines_fail(
    w: LinesV,
    schema: TableSchema,
    d: DetailConfig,
    items: Seq<JsonV>,
    stored: Seq<Seq<char>>,
    k: int,
    n: int,
)
    requires
        k <= n,
        lines_of(w, schema, d, items, stored, k) is Err,
    ensures
        lines_of(w, schema, d, items, stored, n) == lines_of(w, schema, d, items, stored, k),
    decreases n - k,
{
    if k < n {
        lemma_lines_fail(w, schema, d, items, stored, k, n - 1);
    }
}

/// What a result with a message is.
pub open spec fn lines_result(r: Result<Lines, String>) -> Result<LinesV, Seq<char>> {
    match r {
        Ok(w) => Ok(w.deep_view()),
        Err(m) => Err(m@),
    }
}

/// What becomes of the items of a detail, or what is wrong with one.
pub fn plan_lines(
    w: Lines,
    schema: &TableSchema,
    d: &DetailConfig,
    items: &Vec<Json>,
    stored: &Vec<String>,
) -> (r: Result<Lines, String>)
    ensures
        lines_result(r) == lines_of(
            w.deep_view(),
            *schema,
            *d,
            items.deep_view(),
            stored.deep_view(),
            items@.len() as int,
        ),
{
    let ghost start = w.deep_view();
    let ghost iv = items.deep_view();
    let ghost sv = stored.deep_view();
    let names = build_detail_columns(schema, d.foreign_key_column.as_str());
    let mut lines = w;
    let mut i: usize = 0;
    while i < items.len()
        invariant
            i <= items@.len(),
            start == w.deep_view(),
            iv == items.deep_view(),
            sv == stored.deep_view(),
            names.deep_view() == detail_columns(*schema, d.foreign_key_column@),
            lines_of(start, *schema, *d, iv, sv, i as int) == Ok::<LinesV, Seq<char>>(
                lines.deep_view(),
            ),
        decreases items.len() - i,
    {
        assert(iv[i as int] == items@[i as int].deep_view());
        let it = &items[i];
        match it {
            Json::Object(item) => {
                proof {
                    lemma_object_view(*item);
                }
                match find_lacking(
                    &schema.post.columns,
                    &schema.columns,
                    item,
                    d.foreign_key_column.as_str(),
                ) {
                    Some(k) => {
                        assert(schema.post.columns.deep_view()[k as int]
                            == schema.post.columns@[k as int]@);
                        proof {
                            lemma_lines_fail(
                                start,
                                *schema,
                                *d,
                                iv,
                                sv,
                                i + 1,
                                items@.len() as int,
                            );
                        }
                        let mut m = told("Item #", u64_text((i + 1) as u64).as_str());
                        m.append(": Missing required field '");
                        m.append(stripped_back(schema.post.columns[k].as_str(), '*').as_str());
                        m.append("' in detail '");
                        m.append(d.field.as_str());
                        m.append("'");
                        return Err(m);
                    },
                    None => {
                        plan_line(
                            &mut lines,
                            schema,
                            &names,
                            d.foreign_key_column.as_str(),
                            item,
                            stored,
                        );
                    },
                }
            },
            _ => {
                proof {
                    lemma_lines_fail(start, *schema, *d, iv, sv, i + 1, items@.len() as int);
                }
                let mut m = told("Detail item #", u64_text((i + 1) as u64).as_str());
                m.append(" in '");
                m.append(d.field.as_str());
                m.append("' must be a JSON object");
                return Err(m);
            },
        }
        i += 1;
    }
    Ok(lines)
}

/// The entity with a name, at or after `from`.
pub open spec fn entity_at(entities: Seq<(String, TableSchema)>, name: Seq<char>, from: int) -> Option<
    TableSchema,
>
    decreases entities.len() - from,
{
    if from < 0 || from >= entities.len() {
        None
    } else if entities[from].0@ == name {
        Some(entities[from].1)
    } else {
        entity_at(entities, name, from + 1)
    }
}

/// The entity with a name.
pub fn find_entity<'a>(entities: &'a Vec<(String, TableSchema)>, name: &str) -> (r: Option<
    &'a TableSchema,
>)
    ensures
        match r {
            Some(s) => entity_at(entities@, name@, 0) == Some(*s),
            None => entity_at(entities@, name@, 0) is None,
        },
{
    let mut i: usize = 0;
    while i < entities.len()
        invariant
            i <= entities@.len(),
            entity_at(entities@, name@, 0) == entity_at(entities@, name@, i as int),
        decreases entities.len() - i,
    {
        if same(entities[i].0.as_str(), name) {
            return Some(&entities[i].1);
        }
        i += 1;
    }
    None
}

/// What becomes of the details of a row: the values that are to be encrypted, the
/// checks of foreign keys, and the rows.
#[derive(Debug)]
pub struct Details {
    pub secrets: Vec<String>,
    pub checks: Vec<FkCheck>,
    pub batches: Vec<PreparedDetailBatch>,
}

/// What becomes of the details of a row.
pub struct DetailsV {
    pub secrets: Seq<Seq<char>>,
    pub checks: Seq<FkCheckV>,
    pub batches: Seq<PreparedDetailBatchV>,
}

impl DeepView for Details {
    type V = DetailsV;

    open spec fn deep_view(&self) -> DetailsV {
        DetailsV {
            secrets: self.secrets.deep_view(),
            checks: self.checks.deep_view(),
            batches: self.batches.deep_view(),
        }
    }
}

/// What a result with a message is.
pub open spec fn details_result(r: Result<Details, String>) -> Result<DetailsV, Seq<char>> {
    match r {
        Ok(w) => Ok(w.deep_view()),
        Err(m) => Err(m@),
    }
}

/// The rows of a detail whose lines are known.
pub open spec fn batch_of(d: DetailConfig, schema: TableSchema, lines: LinesV) -> PreparedDetailBatchV {
    let columns = detail_columns(schema, d.foreign_key_column@);
    PreparedDetailBatchV {
        field: d.field@,
        target_table: d.target_table@,
        foreign_key_column: d.foreign_key_column@,
        fk_type_data: type_or_int(schema.columns@, d.foreign_key_column@),
        columns,
        fk_index: position_of(columns, d.foreign_key_column@, 0) as usize,
        rows: lines.rows,
        response_items: lines.items,
    }
}

/// What becomes of some details with one more.
pub open spec fn with_detail(
    before: DetailsV,
    d: DetailConfig,
    entities: Seq<(String, TableSchema)>,
    body: JsonV,
    stored: Seq<Seq<char>>,
) -> Result<DetailsV, Seq<char>> {
    if d.field@.len() == 0 || d.target_table@.len() == 0 {
        Ok(before)
    } else {
        match field(body, d.field@) {
            None => Ok(before),
            Some(JsonV::Null) => Ok(before),
            Some(JsonV::Array(items)) => match entity_at(entities, d.target_table@, 0) {
                None => Ok(before),
                Some(schema) => match lines_of(
                    LinesV {
                        secrets: before.secrets,
                        checks: before.checks,
                        rows: Seq::empty(),
                        items: Seq::empty(),
                    },
                    schema,
                    d,
                    items,
                    stored,
                    items.len() as int,
                ) {
                    Err(m) => Err(m),
                    Ok(lines) => Ok(
                        DetailsV {
                            secrets: lines.secrets,
                            checks: lines.checks,
                            batches: before.batches.push(batch_of(d, schema, lines)),
                        },
                    ),
                },
            },
            Some(_) => Err("Field '"@ + d.field@ + "' must be an array of objects"@),
        }
    }
}

/// What becomes of the first `n` details of a row, or what is wrong with one.
pub open spec fn details_of(
    details: Seq<DetailConfig>,
    entities: Seq<(String, TableSchema)>,
    body: JsonV,
    stored: Seq<Seq<char>>,
    checks: Seq<FkCheckV>,
    n: int,
) -> Result<DetailsV, Seq<char>>
    decreases n,
{
    if n <= 0 {
        Ok(DetailsV { secrets: Seq::empty(), checks, batches: Seq::empty() })
    } else {
        match details_of(details, entities, body, stored, checks, n - 1) {
            Err(m) => Err(m),
            Ok(before) => with_detail(before, details[n - 1], entities, body, stored),
        }
    }
}

proof fn lemma_details_fail(
    details: Seq<DetailConfig>,
    entities: Seq<(String, TableSchema)>,
    body: JsonV,
    stored: Seq<Seq<char>>,
    checks: Seq<FkCheckV>,
    k: int,
    n: int,
)
    requires
        k <= n,
        details_of(details, entities, body, stored, checks, k) is Err,
    ensures
        details_of(details, entities, body, stored, checks, n) == details_of(
            details,
            entities,
            body,
            stored,
            checks,
            k,
        ),
    decreases n - k,
{
    if k < n {
        lemma_details_fail(details, entities, body, stored, checks, k, n - 1);
    }
}

fn plan_detail(
    before: Details,
    d: &DetailConfig,
    entities: &Vec<(String, TableSchema)>,
    body: &Json,
    stored: &Vec<String>,
) -> (r: Result<Details, String>)
    ensures
        details_result(r) == with_detail(
            before.deep_view(),
            *d,
            entities@,
            body.deep_view(),
            stored.deep_view(),
        ),
{
    if d.field.as_str().is_empty() || d.target_table.as_str().is_empty() {
        return Ok(before);
    }
    match body.get(d.field.as_str()) {
        None => Ok(before),
        Some(v) => match v {
            Json::Null => Ok(before),
            Json::Array(items) => {
                proof {
                    lemma_array_view(*items);
                    assert(items.deep_view().len() == items@.len());
                }
                match find_entity(entities, d.target_table.as_str()) {
                    None => Ok(before),
                    Some(schema) => {
                        let lines = Lines {
                            secrets: before.secrets,
                            checks: before.checks,
                            rows: Vec::new(),
                            items: Vec::new(),
                        };
                        assert(lines.rows.deep_view() =~= Seq::empty());
                        assert(lines.items.deep_view() =~= Seq::empty());
                        match plan_lines(lines, schema, d, items, stored) {
                            Err(m) => Err(m),
                            Ok(lines) => {
                                let key = d.foreign_key_column.as_str();
                                let columns = build_detail_columns(schema, key);
                                let fk_index: usize = find_position(&columns, key);
                                let mut batches = before.batches;
                                push_item(
                                    &mut batches,
                                    PreparedDetailBatch {
                                        field: d.field.clone(),
                                        target_table: d.target_table.clone(),
                                        foreign_key_column: d.foreign_key_column.clone(),
                                        fk_type_data: column_type(&schema.columns, key),
                                        columns,
                                        fk_index,
                                        rows: lines.rows,
                                        response_items: lines.items,
                                    },
                                );
                                Ok(
                                    Details {
                                        secrets: lines.secrets,
                                        checks: lines.checks,
                                        batches,
                                    },
                                )
                            },
                        }
                    },
                }
            },
            _ => {
                let mut m = told("Field '", d.field.as_str());
                m.append("' must be an array of objects");
                Err(m)
            },
        },
    }
}

/// What becomes of the details of a row, or what is wrong with one. The values
/// that are to be encrypted are taken from `stored`, in their order.
pub fn plan_details(
    details: &Vec<DetailConfig>,
    entities: &Vec<(String, TableSchema)>,
    body: &Json,
    stored: &Vec<String>,
    checks: Vec<FkCheck>,
) -> (r: Result<Details, String>)
    ensures
        details_result(r) == details_of(
            details@,
            entities@,
            body.deep_view(),
            stored.deep_view(),
            checks.deep_view(),
            details@.len() as int,
        ),
{
    let ghost cv = checks.deep_view();
    let ghost bv = body.deep_view();
    let ghost sv = stored.deep_view();
    let mut done = Details { secrets: Vec::new(), checks, batches: Vec::new() };
    assert(done.secrets.deep_view() =~= Seq::empty());
    assert(done.batches.deep_view() =~= Seq::empty());
    let mut i: usize = 0;
    while i < details.len()
        invariant
            i <= details@.len(),
            cv == checks.deep_view(),
            bv == body.deep_view(),
            sv == stored.deep_view(),
            details_of(details@, entities@, bv, sv, cv, i as int) == Ok::<DetailsV, Seq<char>>(
                done.deep_view(),
            ),
        decreases details.len() - i,
    {
        match plan_detail(done, &details[i], entities, body, stored) {
            Ok(more) => {
                done = more;
            },
            Err(m) => {
                proof {
                    lemma_details_fail(
                        details@,
                        entities@,
                        bv,
                        sv,
                        cv,
                        i + 1,
                        details@.len() as int,
                    );
                }
                return Err(m);
            },
        }
        i += 1;
    }
    Ok(done)
}

proof fn lemma_cells_grow(
    w: CellsV,
    schema: TableSchema,
    names: Seq<Seq<char>>,
    key: Seq<char>,
    item: Fields,
    stored: Seq<Seq<char>>,
)
    ensures
        with_cells(w, schema, names, key, item, stored).row.len() == w.row.len() + names.len(),
    decreases names.len(),
{
    if names.len() > 0 {
        lemma_cells_grow(w, schema, names.drop_last(), key, item, stored);
    }
}

/// Every row of a detail has as many values as it has columns, and there is one
/// item to show for each.
pub proof fn law_detail_rows_fit(
    w: LinesV,
    schema: TableSchema,
    d: DetailConfig,
    items: Seq<JsonV>,
    stored: Seq<Seq<char>>,
    n: int,
)
    requires
        w.rows.len() == 0,
        w.items.len() == 0,
        n >= 0,
        lines_of(w, schema, d, items, stored, n) is Ok,
    ensures
        ({
            let lines = lines_of(w, schema, d, items, stored, n)->Ok_0;
            &&& lines.rows.len() == n
            &&& lines.items.len() == n
            &&& forall|i: int|
                0 <= i < n ==> (#[trigger] lines.rows[i]).len() == detail_columns(
                    schema,
                    d.foreign_key_column@,
                ).len()
        }),
    decreases n,
{
    if n > 0 {
        law_detail_rows_fit(w, schema, d, items, stored, n - 1);
        let before = lines_of(w, schema, d, items, stored, n - 1)->Ok_0;
        lemma_cells_grow(
            CellsV {
                secrets: before.secrets,
                checks: before.checks,
                row: Seq::empty(),
                item: Seq::empty(),
            },
            schema,
            detail_columns(schema, d.foreign_key_column@),
            d.foreign_key_column@,
            items[n - 1]->Object_0,
            stored,
        );
    }
}

proof fn lemma_position(names: Seq<Seq<char>>, name: Seq<char>, from: int)
    requires
        0 <= from,
        exists|i: int| from <= i < names.len() && names[i] == name,
    ensures
        from <= position_of(names, name, from) < names.len(),
        names[position_of(names, name, from)] == name,
    decreases names.len() - from,
{
    if names[from] != name {
        lemma_position(names, name, from + 1);
    }
}

/// The rows of a detail have a column that points to the header, at the position
/// where the key of the header is put.
pub proof fn law_details_point_to_their_header(d: DetailConfig, schema: TableSchema, lines: LinesV)
    requires
        detail_columns(schema, d.foreign_key_column@).len() <= usize::MAX,
    ensures
        ({
            let b = batch_of(d, schema, lines);
            b.fk_index < b.columns.len() && b.columns[b.fk_index as int] == d.foreign_key_column@
        }),
{
    let key = d.foreign_key_column@;
    let columns = detail_columns(schema, key);
    let own = detail_settable(
        schema.columns@,
        clean_names(schema.post.columns.deep_view()),
        schema.columns@.len() as int,
    );
    if !own.contains(key) {
        assert(columns[0] == key);
    }
    lemma_position(columns, key, 0);
}

proof fn lemma_cells_secrets(
    a: CellsV,
    b: CellsV,
    schema: TableSchema,
    names: Seq<Seq<char>>,
    key: Seq<char>,
    item: Fields,
    sa: Seq<Seq<char>>,
    sb: Seq<Seq<char>>,
)
    requires
        a.secrets == b.secrets,
    ensures
        with_cells(a, schema, names, key, item, sa).secrets == with_cells(
            b,
            schema,
            names,
            key,
            item,
            sb,
        ).secrets,
    decreases names.len(),
{
    if names.len() > 0 {
        lemma_cells_secrets(a, b, schema, names.drop_last(), key, item, sa, sb);
    }
}

proof fn lemma_lines_secrets(
    a: LinesV,
    b: LinesV,
    schema: TableSchema,
    d: DetailConfig,
    items: Seq<JsonV>,
    sa: Seq<Seq<char>>,
    sb: Seq<Seq<char>>,
    n: int,
)
    requires
        a.secrets == b.secrets,
    ensures
        ({
            let ra = lines_of(a, schema, d, items, sa, n);
            let rb = lines_of(b, schema, d, items, sb, n);
            &&& ra is Ok <==> rb is Ok
            &&& ra is Ok ==> ra->Ok_0.secrets == rb->Ok_0.secrets
            &&& ra is Err ==> ra->Err_0 == rb->Err_0
        }),
    decreases n,
{
    if n > 0 {
        lemma_lines_secrets(a, b, schema, d, items, sa, sb, n - 1);
        let ra = lines_of(a, schema, d, items, sa, n - 1);
        let rb = lines_of(b, schema, d, items, sb, n - 1);
        if ra is Ok && items[n - 1] is Object {
            let wa = ra->Ok_0;
            let wb = rb->Ok_0;
            lemma_cells_secrets(
                CellsV {
                    secrets: wa.secrets,
                    checks: wa.checks,
                    row: Seq::empty(),
                    item: Seq::empty(),
                },
                CellsV {
                    secrets: wb.secrets,
                    checks: wb.checks,
                    row: Seq::empty(),
                    item: Seq::empty(),
                },
                schema,
                detail_columns(schema, d.foreign_key_column@),
                d.foreign_key_column@,
                items[n - 1]->Object_0,
                sa,
                sb,
            );
        }
    }
}

/// Which values of the details are to be encrypted, and whether the details are
/// accepted, does not depend on what they are encrypted to.
pub proof fn law_secrets_come_from_the_request(
    details: Seq<DetailConfig>,
    entities: Seq<(String, TableSchema)>,
    body: JsonV,
    checks: Seq<FkCheckV>,
    sa: Seq<Seq<char>>,
    sb: Seq<Seq<char>>,
    n: int,
)
    ensures
        ({
            let ra = details_of(details, entities, body, sa, checks, n);
            let rb = details_of(details, entities, body, sb, checks, n);
            &&& ra is Ok <==> rb is Ok
            &&& ra is Ok ==> ra->Ok_0.secrets == rb->Ok_0.secrets
            &&& ra is Err ==> ra->Err_0 == rb->Err_0
        }),
    decreases n,
{
    if n > 0 {
        law_secrets_come_from_the_request(details, entities, body, checks, sa, sb, n - 1);
        let ra = details_of(details, entities, body, sa, checks, n - 1);
        let rb = details_of(details, entities, body, sb, checks, n - 1);
        let d = details[n - 1];
        if ra is Ok && field(body, d.field@) is Some && field(body, d.field@)->0 is Array
            && entity_at(entities, d.target_table@, 0) is Some {
            let items = field(body, d.field@)->0->Array_0;
            lemma_lines_secrets(
                LinesV {
                    secrets: ra->Ok_0.secrets,
                    checks: ra->Ok_0.checks,
                    rows: Seq::empty(),
                    items: Seq::empty(),
                },
                LinesV {
                    secrets: rb->Ok_0.secrets,
                    checks: rb->Ok_0.checks,
                    rows: Seq::empty(),
                    items: Seq::empty(),
                },
                entity_at(entities, d.target_table@, 0)->0,
                d,
                items,
                sa,
                sb,
                items.len() as int,
            );
        }
    }
}

// ---------------------------------------------------------------------------
// The steps
// ---------------------------------------------------------------------------

/// Where the request stands.
#[derive(Debug, PartialEq, Eq, Clone, Copy, Structural)]
pub enum CreateStage {
    Start,
    Token,
    Access,
    Queueing,
    Preparing,
    Encrypting,
    Working,
    Ended,
}

/// A request to insert a row under way: who makes it, and the insertion.
#[derive(Debug)]
pub struct Creation {
    pub request: CreateRequest,
    pub stage: CreateStage,
    pub actor: Option<String>,
    pub work: RowInsertion,
}

/// What such a request remembers: the bearer of the token, where the insertion
/// stands, and what is inserted.
pub struct CreateMemoV {
    pub actor: Option<Seq<char>>,
    pub row: RowStage,
    pub plan: RowPlanV,
}

/// What follows from a step: where the request stands, what it remembers and
/// what it asks for.
pub type CreateTurn = (CreateStage, CreateMemoV, ActionV);

/// The answer to a request that failed.
pub open spec fn create_failure(message: Seq<char>) -> ReplyV {
    ReplyV { status: failed_status(message), body: refusal(message) }
}

/// The answer to a request that failed.
pub fn say_create_failure(message: String) -> (r: Reply)
    ensures
        r.deep_view() == create_failure(message@),
{
    let status: u16 = status_of_failure(message.as_str());
    Reply { status, body: web_err(message) }
}

/// The request fails, with no transaction open.
pub open spec fn create_fails(m: CreateMemoV, message: Seq<char>) -> CreateTurn {
    (CreateStage::Ended, m, ActionV::Answer(create_failure(message)))
}

/// The request cannot be carried out.
pub open spec fn create_faults(m: CreateMemoV) -> CreateTurn {
    (CreateStage::Ended, m, ActionV::Fault)
}

/// Whether the request needs a token.
pub open spec fn create_guarded(q: CreateRequest) -> bool {
    q.require_auth && !q.is_public
}

/// The body of a queued write: the bearer of the token is its creator, where the
/// entity has a column for that.
pub open spec fn queued_body(t: RowTarget, m: CreateMemoV) -> JsonV {
    match m.actor {
        None => m.plan.body,
        Some(a) => match column_named(t.schema.columns@, "created_by_id"@) {
            None => m.plan.body,
            Some(c) => with_key(
                m.plan.body,
                "created_by_id"@,
                as_json(actor_value(c.type_data@, a)),
            ),
        },
    }
}

/// The write is queued, or what it needs is checked.
pub open spec fn create_admitted(q: CreateRequest, t: RowTarget, m: CreateMemoV) -> CreateTurn {
    if q.queue_enabled && wants_queue(q.parameters.deep_view()) {
        let job = job_of(
            t.route@,
            WriteOpKindV::Post,
            queued_body(t, m),
            q.now_utc@,
            m.actor,
        );
        if q.fast_ack {
            (
                CreateStage::Ended,
                m,
                ActionV::EnqueueInBackground(job, succeeded("Enqueued"@, 0, JsonV::Null)),
            )
        } else {
            (CreateStage::Queueing, m, ActionV::Enqueue(job))
        }
    } else if t.schema.table@.len() == 0 {
        create_fails(m, missing_entity(t.route@))
    } else {
        match checked_body(
            t.schema.post.columns.deep_view(),
            t.schema.columns@,
            m.plan.body,
            t.schema.post.columns.deep_view().len() as int,
        ) {
            Err(e) => create_fails(m, e),
            Ok(b) => (
                CreateStage::Preparing,
                CreateMemoV { plan: RowPlanV { body: b, ..m.plan }, ..m },
                ActionV::Prepare(
                    asked_columns(
                        t.schema.columns@,
                        create_columns(t.schema),
                        clean_names(t.schema.post.columns.deep_view()),
                        b,
                        true,
                    ),
                ),
            ),
        }
    }
}

/// The plan of a row once its columns are prepared.
pub open spec fn prepared_plan(t: RowTarget, m: CreateMemoV, prep: Preparation) -> RowPlanV {
    with_creator(
        created_plan(m.plan, t.schema, prep, create_columns(t.schema).len() as int),
        t.schema,
        m.actor,
    )
}

/// What becomes of the details, with these encrypted values.
pub open spec fn create_details(
    q: CreateRequest,
    t: RowTarget,
    m: CreateMemoV,
    stored: Seq<Seq<char>>,
) -> Result<DetailsV, Seq<char>> {
    details_of(
        t.schema.details@,
        q.entities@,
        m.plan.body,
        stored,
        m.plan.checks,
        t.schema.details@.len() as int,
    )
}

/// Some values, all of which are to be encrypted.
pub open spec fn all_secret(values: Seq<Seq<char>>) -> Seq<(Seq<char>, bool)> {
    Seq::new(values.len(), |i: int| (values[i], true))
}

/// What is to be encrypted in the details is asked for.
pub open spec fn create_prepared(q: CreateRequest, t: RowTarget, m: CreateMemoV) -> CreateTurn {
    match create_details(q, t, m, Seq::empty()) {
        Err(e) => create_fails(m, e),
        Ok(ds) => (CreateStage::Encrypting, m, ActionV::Encrypt(all_secret(ds.secrets))),
    }
}

/// What follows from a step of the insertion.
pub open spec fn create_works(q: CreateRequest, t: RowTarget, m: CreateMemoV, w: WorkV) -> CreateTurn {
    match w {
        WorkV::Ask(a) => (
            if m.row == RowStage::Ended {
                CreateStage::Ended
            } else {
                CreateStage::Working
            },
            m,
            a,
        ),
        WorkV::Fail(e) => create_fails(m, e),
        WorkV::Abort(e) => (CreateStage::Ended, m, ActionV::Abort(create_failure(e))),
        WorkV::Abandon(e) => (CreateStage::Ended, m, ActionV::Abandon(create_failure(e))),
        WorkV::Finish(message, _, data) => (
            CreateStage::Ended,
            m,
            ActionV::Settle(
                if q.shared_cache {
                    Some(t.route@)
                } else {
                    None
                },
                match m.actor {
                    Some(a) => Some(AuditV { action: "POST"@, actor_id: a, id: None }),
                    None => None,
                },
                succeeded(message, 1, data),
            ),
        ),
    }
}

/// A step of the insertion is taken.
pub open spec fn create_steps(q: CreateRequest, t: RowTarget, m: CreateMemoV, o: Outcome) -> CreateTurn {
    let (row, plan, w) = row_next(t, m.row, m.plan, o);
    create_works(q, t, CreateMemoV { row, plan, ..m }, w)
}

/// The next step of a request.
pub open spec fn create_next(
    q: CreateRequest,
    t: RowTarget,
    stage: CreateStage,
    m: CreateMemoV,
    o: Outcome,
) -> CreateTurn {
    match stage {
        CreateStage::Start => if create_guarded(q) {
            (CreateStage::Token, m, ActionV::VerifyToken)
        } else {
            create_admitted(q, t, m)
        },
        CreateStage::Token => match o {
            Outcome::Identified(id) => (
                CreateStage::Access,
                CreateMemoV { actor: Some(id@), ..m },
                ActionV::CheckRequest,
            ),
            _ => create_fails(m, "Invalid token"@),
        },
        CreateStage::Access => match failure_in(o) {
            Some(e) => create_fails(m, "Unauthorized: "@ + e),
            None => create_admitted(q, t, m),
        },
        CreateStage::Queueing => match failure_in(o) {
            Some(e) => create_fails(m, "Queue error: "@ + e),
            None => (
                CreateStage::Ended,
                m,
                ActionV::Answer(succeeded("Enqueued"@, 0, JsonV::Null)),
            ),
        },
        CreateStage::Preparing => match o {
            Outcome::Prepared(prep) => create_prepared(
                q,
                t,
                CreateMemoV { plan: prepared_plan(t, m, prep), ..m },
            ),
            _ => create_faults(m),
        },
        CreateStage::Encrypting => match o {
            Outcome::Texts(stored) => match create_details(q, t, m, stored.deep_view()) {
                Err(e) => create_fails(m, e),
                Ok(ds) => create_steps(
                    q,
                    t,
                    CreateMemoV {
                        plan: RowPlanV { checks: ds.checks, details: ds.batches, ..m.plan },
                        row: RowStage::Start,
                        ..m
                    },
                    o,
                ),
            },
            _ => create_faults(m),
        },
        CreateStage::Working => create_steps(q, t, m, o),
        CreateStage::Ended => (CreateStage::Ended, m, ActionV::Nothing),
    }
}

/// The plan of a row before anything of it is known.
pub open spec fn bare_plan(t: RowTarget, body: JsonV) -> RowPlanV {
    RowPlanV {
        body,
        fields: Seq::empty(),
        doc: Seq::empty(),
        checks: Seq::empty(),
        tokens: id_tokens(t.schema.columns@),
        details: Seq::empty(),
    }
}

/// A request that has not begun.
pub fn process_insert_request(request: CreateRequest, target: RowTarget, body: Json) -> (r: Creation)
    ensures
        r.request == request,
        r.stage == CreateStage::Start,
        r.actor is None,
        r.work.target == target,
        r.work.stage == RowStage::Start,
        r.work.plan.deep_view() == bare_plan(target, body.deep_view()),
{
    let tokens = read_id_tokens(&target.schema.columns);
    let plan = RowPlan {
        body,
        fields: Vec::new(),
        doc: Vec::new(),
        checks: Vec::new(),
        tokens,
        details: Vec::new(),
    };
    assert(plan.fields.deep_view() =~= Seq::empty());
    assert(plan.doc.deep_view() =~= Seq::empty());
    assert(plan.checks.deep_view() =~= Seq::empty());
    assert(plan.details.deep_view() =~= Seq::empty());
    Creation {
        request,
        stage: CreateStage::Start,
        actor: None,
        work: perform_insert(target, plan),
    }
}

/// Some values, all of which are to be encrypted.
pub fn mark_secret(values: Vec<String>) -> (r: Vec<(String, bool)>)
    ensures
        r.deep_view() == all_secret(values.deep_view()),
{
    let ghost all = all_secret(values.deep_view());
    let mut out: Vec<(String, bool)> = Vec::new();
    let mut i: usize = 0;
    while i < values.len()
        invariant
            i <= values@.len(),
            all == all_secret(values.deep_view()),
            out.deep_view() == all.take(i as int),
        decreases values.len() - i,
    {
        push_item(&mut out, (values[i].clone(), true));
        i += 1;
        assert(all.take(i as int) =~= all.take(i - 1).push(all[i - 1]));
    }
    assert(all.take(values@.len() as int) =~= all);
    out
}

impl Creation {
    /// What the request remembers.
    pub open spec fn memo(&self) -> CreateMemoV {
        CreateMemoV {
            actor: self.actor.deep_view(),
            row: self.work.stage,
            plan: self.work.plan.deep_view(),
        }
    }

    /// Where the request stands, what it remembers, and what it asks for.
    pub open spec fn turn(&self, a: Action) -> CreateTurn {
        (self.stage, self.memo(), a.deep_view())
    }

    fn fail(&mut self, message: String) -> (r: Action)
        ensures
            final(self).request == old(self).request,
            final(self).work.target == old(self).work.target,
            final(self).turn(r) == create_fails(old(self).memo(), message@),
    {
        self.stage = CreateStage::Ended;
        Action::Answer(say_create_failure(message))
    }

    fn fault(&mut self) -> (r: Action)
        ensures
            final(self).request == old(self).request,
            final(self).work.target == old(self).work.target,
            final(self).turn(r) == create_faults(old(self).memo()),
    {
        self.stage = CreateStage::Ended;
        Action::Fault
    }

    fn body_to_queue(&self) -> (r: Json)
        ensures
            r.deep_view() == queued_body(self.work.target, self.memo()),
    {
        let mut body = self.work.plan.body.copy();
        match &self.actor {
            None => {},
            Some(a) => match find_column(&self.work.target.schema.columns, "created_by_id") {
                None => {},
                Some(c) => {
                    let v = audit_actor_value(c.type_data.as_str(), a.as_str());
                    body.set("created_by_id", to_json(v));
                },
            },
        }
        body
    }

    fn admitted(&mut self) -> (r: Action)
        ensures
            final(self).request == old(self).request,
            final(self).work.target == old(self).work.target,
            final(self).turn(r) == create_admitted(
                old(self).request,
                old(self).work.target,
                old(self).memo(),
            ),
    {
        if self.request.queue_enabled && queue_wanted(&self.request.parameters) {
            let body = self.body_to_queue();
            let actor: Option<String> = match &self.actor {
                Some(a) => Some(a.clone()),
                None => None,
            };
            let job = make_job(
                self.work.target.route.as_str(),
                WriteOpKind::Post,
                body,
                self.request.now_utc.as_str(),
                actor,
            );
            if self.request.fast_ack {
                self.stage = CreateStage::Ended;
                Action::EnqueueInBackground(job, succeed("Enqueued", 0, Json::Null))
            } else {
                self.stage = CreateStage::Queueing;
                Action::Enqueue(job)
            }
        } else if self.work.target.schema.table.as_str().is_empty() {
            let m = say_missing_entity(self.work.target.route.as_str());
            self.fail(m)
        } else {
            let body = self.work.plan.body.copy();
            assert(self.work.target.schema.post.columns.deep_view().len()
                == self.work.target.schema.post.columns@.len());
            match check_body(
                &self.work.target.schema.post.columns,
                &self.work.target.schema.columns,
                body,
            ) {
                Err(m) => self.fail(m),
                Ok(b) => {
                    let schema = &self.work.target.schema;
                    let picked = build_create_columns(schema);
                    let entries = build_clean_names(&schema.post.columns);
                    let asked = ask_columns(&schema.columns, &picked, &entries, &b, true);
                    self.work.plan.body = b;
                    self.stage = CreateStage::Preparing;
                    Action::Prepare(asked)
                },
            }
        }
    }

    fn details(&self, stored: &Vec<String>) -> (r: Result<Details, String>)
        ensures
            details_result(r) == create_details(
                self.request,
                self.work.target,
                self.memo(),
                stored.deep_view(),
            ),
    {
        let checks = copy_checks(&self.work.plan.checks);
        plan_details(
            &self.work.target.schema.details,
            &self.request.entities,
            &self.work.plan.body,
            stored,
            checks,
        )
    }

    fn prepared(&mut self) -> (r: Action)
        ensures
            final(self).request == old(self).request,
            final(self).work.target == old(self).work.target,
            final(self).turn(r) == create_prepared(
                old(self).request,
                old(self).work.target,
                old(self).memo(),
            ),
    {
        let none: Vec<String> = Vec::new();
        assert(none.deep_view() =~= Seq::<Seq<char>>::empty());
        match self.details(&none) {
            Err(m) => self.fail(m),
            Ok(ds) => {
                self.stage = CreateStage::Encrypting;
                Action::Encrypt(mark_secret(ds.secrets))
            },
        }
    }

    fn works(&mut self, w: Work) -> (r: Action)
        ensures
            final(self).request == old(self).request,
            final(self).work.target == old(self).work.target,
            final(self).turn(r) == create_works(
                old(self).request,
                old(self).work.target,
                old(self).memo(),
                w.deep_view(),
            ),
    {
        match w {
            Work::Ask(a) => {
                self.stage = if self.work.ended() {
                    CreateStage::Ended
                } else {
                    CreateStage::Working
                };
                a
            },
            Work::Fail(e) => self.fail(e),
            Work::Abort(e) => {
                self.stage = CreateStage::Ended;
                Action::Abort(say_create_failure(e))
            },
            Work::Abandon(e) => {
                self.stage = CreateStage::Ended;
                Action::Abandon(say_create_failure(e))
            },
            Work::Finish(message, _, data) => {
                self.stage = CreateStage::Ended;
                let route: Option<String> = if self.request.shared_cache {
                    Some(self.work.target.route.clone())
                } else {
                    None
                };
                let audit: Option<Audit> = match &self.actor {
                    Some(a) => Some(
                        Audit { action: "POST".to_owned(), actor_id: a.clone(), id: None },
                    ),
                    None => None,
                };
                Action::Settle(route, audit, succeed(message.as_str(), 1, data))
            },
        }
    }

    fn steps(&mut self, outcome: Outcome) -> (r: Action)
        ensures
            final(self).request == old(self).request,
            final(self).work.target == old(self).work.target,
            final(self).turn(r) == create_steps(
                old(self).request,
                old(self).work.target,
                old(self).memo(),
                outcome,
            ),
    {
        let w = self.work.step(outcome);
        self.works(w)
    }

    /// Takes the next step of the request, with what came of the last one.
    pub fn step(&mut self, outcome: Outcome) -> (r: Action)
        ensures
            final(self).request == old(self).request,
            final(self).work.target == old(self).work.target,
            (final(self).stage, final(self).memo(), r.deep_view()) == create_next(
                old(self).request,
                old(self).work.target,
                old(self).stage,
                old(self).memo(),
                outcome,
            ),
    {
        match self.stage {
            CreateStage::Start => {
                if self.request.require_auth && !self.request.is_public {
                    self.stage = CreateStage::Token;
                    Action::VerifyToken
                } else {
                    self.admitted()
                }
            },
            CreateStage::Token => match outcome {
                Outcome::Identified(id) => {
                    self.actor = Some(id);
                    self.stage = CreateStage::Access;
                    Action::CheckRequest
                },
                _ => self.fail("Invalid token".to_owned()),
            },
            CreateStage::Access => match failure(&outcome) {
                Some(e) => self.fail(told("Unauthorized: ", e)),
                None => self.admitted(),
            },
            CreateStage::Queueing => match failure(&outcome) {
                Some(e) => self.fail(told("Queue error: ", e)),
                None => {
                    self.stage = CreateStage::Ended;
                    Action::Answer(succeed("Enqueued", 0, Json::Null))
                },
            },
            CreateStage::Preparing => match outcome {
                Outcome::Prepared(prep) => {
                    plan_create(&mut self.work.plan, &self.work.target.schema, &prep);
                    add_creator(&mut self.work.plan, &self.work.target.schema, &self.actor);
                    self.prepared()
                },
                _ => self.fault(),
            },
            CreateStage::Encrypting => match outcome {
                Outcome::Texts(stored) => match self.details(&stored) {
                    Err(m) => self.fail(m),
                    Ok(ds) => {
                        self.work.plan.checks = ds.checks;
                        self.work.plan.details = ds.batches;
                        self.work.stage = RowStage::Start;
                        self.steps(Outcome::Texts(stored))
                    },
                },
                _ => self.fault(),
            },
            CreateStage::Working => self.steps(outcome),
            CreateStage::Ended => Action::Nothing,
        }
    }
}

// ---------------------------------------------------------------------------
// Laws
// ---------------------------------------------------------------------------

/// Where a request stands, and what it remembers, after some outcomes.
pub open spec fn create_after(
    q: CreateRequest,
    t: RowTarget,
    m: CreateMemoV,
    outcomes: Seq<Outcome>,
) -> (CreateStage, CreateMemoV)
    decreases outcomes.len(),
{
    if outcomes.len() == 0 {
        (CreateStage::Start, m)
    } else {
        let (stage, before) = create_after(q, t, m, outcomes.drop_last());
        let (s, after, _) = create_next(q, t, stage, before, outcomes.last());
        (s, after)
    }
}

/// What a request asks for after some outcomes.
pub open spec fn create_asks(
    q: CreateRequest,
    t: RowTarget,
    m: CreateMemoV,
    outcomes: Seq<Outcome>,
) -> ActionV {
    let (stage, before) = create_after(q, t, m, outcomes.drop_last());
    create_next(q, t, stage, before, outcomes.last()).2
}

/// Whether the outcome at `k` answered a check of access, and granted it.
pub open spec fn create_granted_at(
    q: CreateRequest,
    t: RowTarget,
    m: CreateMemoV,
    outcomes: Seq<Outcome>,
    k: int,
) -> bool {
    &&& 0 < k < outcomes.len()
    &&& checks_access(create_asks(q, t, m, outcomes.take(k)))
    &&& failure_in(outcomes[k]) is None
}

/// The stages that come before access is granted.
pub open spec fn create_before_access(stage: CreateStage) -> bool {
    stage == CreateStage::Start || stage == CreateStage::Token || stage == CreateStage::Access
        || stage == CreateStage::Ended
}

proof fn lemma_create_granted(
    q: CreateRequest,
    t: RowTarget,
    m: CreateMemoV,
    outcomes: Seq<Outcome>,
)
    requires
        create_guarded(q),
    ensures
        !create_before_access(create_after(q, t, m, outcomes).0) ==> exists|k: int|
            create_granted_at(q, t, m, outcomes, k),
        create_after(q, t, m, outcomes).0 == CreateStage::Access ==> outcomes.len() > 0
            && checks_access(create_asks(q, t, m, outcomes)),
    decreases outcomes.len(),
{
    if outcomes.len() > 0 {
        let before = outcomes.drop_last();
        lemma_create_granted(q, t, m, before);
        let stage = create_after(q, t, m, before).0;
        if !create_before_access(create_after(q, t, m, outcomes).0) {
            if create_before_access(stage) {
                let k = outcomes.len() - 1;
                assert(outcomes.take(k) =~= before);
                assert(create_granted_at(q, t, m, outcomes, k));
            } else {
                let k = choose|k: int| create_granted_at(q, t, m, before, k);
                assert(before.take(k) =~= outcomes.take(k));
                assert(before[k] == outcomes[k]);
                assert(create_granted_at(q, t, m, outcomes, k));
            }
        }
    }
}

/// Where a request needs a token, nothing is stored, queued or read unless access
/// was checked and granted before.
pub proof fn law_create_is_guarded(
    q: CreateRequest,
    t: RowTarget,
    m: CreateMemoV,
    outcomes: Seq<Outcome>,
)
    requires
        create_guarded(q),
        outcomes.len() > 0,
        touches_data(create_asks(q, t, m, outcomes)),
    ensures
        exists|k: int| create_granted_at(q, t, m, outcomes, k),
{
    let before = outcomes.drop_last();
    lemma_create_granted(q, t, m, before);
    let stage = create_after(q, t, m, before).0;
    if create_before_access(stage) {
        assert(stage == CreateStage::Access);
        let k = outcomes.len() - 1;
        assert(outcomes.take(k) =~= before);
        assert(create_granted_at(q, t, m, outcomes, k));
    } else {
        let k = choose|k: int| create_granted_at(q, t, m, before, k);
        assert(before.take(k) =~= outcomes.take(k));
        assert(before[k] == outcomes[k]);
        assert(create_granted_at(q, t, m, outcomes, k));
    }
}

/// A success is answered only once the insertion is finished, or the write was
/// queued.
pub proof fn law_create_success_is_real(
    q: CreateRequest,
    t: RowTarget,
    stage: CreateStage,
    m: CreateMemoV,
    o: Outcome,
)
    requires
        answers_success(create_next(q, t, stage, m, o).2),
    ensures
        ({
            ||| create_next(q, t, stage, m, o).2 is EnqueueInBackground
            ||| stage == CreateStage::Queueing && failure_in(o) is None
            ||| stage == CreateStage::Working && row_next(t, m.row, m.plan, o).2 is Finish
        }),
{
    if stage == CreateStage::Working {
        lemma_asking_is_no_answer(t, m.row, m.plan, o);
    } else if stage == CreateStage::Encrypting && o is Texts {
        let stored = o->Texts_0;
        let details = create_details(q, t, m, stored.deep_view());
        if details is Ok {
            let plan = RowPlanV {
                checks: details->Ok_0.checks,
                details: details->Ok_0.batches,
                ..m.plan
            };
            lemma_asking_is_no_answer(t, RowStage::Start, plan, o);
        }
    }
}

proof fn lemma_created_body(start: RowPlanV, schema: TableSchema, prep: Preparation, n: int)
    ensures
        created_plan(start, schema, prep, n).body == start.body,
    decreases n,
{
    if n > 0 {
        lemma_created_body(start, schema, prep, n - 1);
    }
}

/// Every value that refers to another table is checked before the row is
/// inserted, unless a formula computes it.
pub proof fn law_created_keys_are_checked(
    start: RowPlanV,
    schema: TableSchema,
    prep: Preparation,
    n: int,
    k: int,
    i: int,
)
    requires
        0 <= k < n <= create_columns(schema).len(),
        0 <= i < schema.foreign_keys@.len(),
        ({
            let c = schema.columns@[create_columns(schema)[k] as int];
            let text = given_text(field(start.body, c.name@));
            &&& formula_of(c.name@, entry_at(prep, k)) is None
            &&& !(c.name@ == "id"@ && c.function@.len() > 0)
            &&& !(is_time_type(lowercase(c.type_data@)) && same_but_case(text, "null"@))
            &&& schema.foreign_keys@[i].column@ == c.name@
            &&& text.len() > 0
        }),
    ensures
        ({
            let c = schema.columns@[create_columns(schema)[k] as int];
            created_plan(start, schema, prep, n).checks.contains(
                check_of(
                    schema.foreign_keys@[i],
                    c.name@,
                    given_text(field(start.body, c.name@)),
                    c.type_data@,
                ),
            )
        }),
    decreases n,
{
    let c = schema.columns@[create_columns(schema)[k] as int];
    let text = given_text(field(start.body, c.name@));
    let check = check_of(schema.foreign_keys@[i], c.name@, text, c.type_data@);
    let before = created_plan(start, schema, prep, n - 1).checks;
    let all = created_plan(start, schema, prep, n).checks;
    lemma_created_body(start, schema, prep, n - 1);
    if k < n - 1 {
        law_created_keys_are_checked(start, schema, prep, n - 1, k, i);
        let j = choose|j: int| 0 <= j < before.len() && before[j] == check;
        assert(all[j] == check);
    } else {
        law_given_keys_are_checked(schema.foreign_keys@, c.name@, text, c.type_data@, i);
        let own = key_checks(schema.foreign_keys@, c.name@, text, c.type_data@);
        let j = choose|j: int| 0 <= j < own.len() && own[j] == check;
        assert(all[before.len() + j] == check);
    }
}

// ---------------------------------------------------------------------------
// What is inserted
// ---------------------------------------------------------------------------

/// Whether a bound value of a detail is what a text gives for a column of a type:
/// the integer of a numeral in a column of integers, the float of one in a column
/// of fractions, and the text itself in any other.
pub open spec fn carries_detail(v: InsertValueV, text: Seq<char>, t: Seq<char>) -> bool {
    match v {
        InsertValueV::Param(x) => if contains(t, "int"@) {
            i64_value(text) is Some ==> x == Scalar::I64(i64_value(text)->0)
        } else if contains(t, "float"@) || contains(t, "decimal"@) {
            is_float(text) ==> x == Scalar::F64(text)
        } else {
            x == Scalar::Str(text)
        },
        _ => false,
    }
}

/// Whether the value of a column that is to be encrypted is what it was encrypted
/// to: it stands where the text stands among those that are to be encrypted.
pub open spec fn carries_secret(
    v: InsertValueV,
    text: Seq<char>,
    t: Seq<char>,
    secrets: Seq<Seq<char>>,
    stored: Seq<Seq<char>>,
) -> bool {
    exists|j: int|
        {
            &&& 0 <= j < secrets.len()
            &&& #[trigger] secrets[j] == text
            &&& j < stored.len() ==> carries_detail(v, stored[j], t)
        }
}

/// Whether a row of a detail holds, under a name, what an item gives for it.
pub open spec fn cell_is_given(
    v: InsertValueV,
    schema: TableSchema,
    name: Seq<char>,
    item: Fields,
    secrets: Seq<Seq<char>>,
    stored: Seq<Seq<char>>,
) -> bool {
    match (column_named(schema.columns@, name), lookup(item, name)) {
        (Some(c), Some(given)) => match gives(given) {
            Some(text) => if c.encrypt {
                carries_secret(v, text, lowercase(c.type_data@), secrets, stored)
            } else {
                carries_detail(v, text, lowercase(c.type_data@))
            },
            None => true,
        },
        _ => true,
    }
}

/// Whether an item that is shown has, under a name, what was given for it.
pub open spec fn item_is_given(
    shown: Fields,
    schema: TableSchema,
    name: Seq<char>,
    item: Fields,
) -> bool {
    match (column_named(schema.columns@, name), lookup(item, name)) {
        (Some(c), Some(given)) => match gives(given) {
            Some(text) => {
                let t = lowercase(c.type_data@);
                &&& lookup(shown, name) is Some
                &&& !c.encrypt && contains(t, "int"@) && i64_value(text) is Some ==> lookup(
                    shown,
                    name,
                ) == Some(JsonV::Int(i64_value(text)->0))
                &&& !contains(t, "int"@) && !contains(t, "float"@) && !contains(t, "decimal"@)
                    ==> lookup(shown, name) == Some(given)
            },
            None => true,
        },
        _ => true,
    }
}

proof fn lemma_secrets_grow(
    w: CellsV,
    schema: TableSchema,
    names: Seq<Seq<char>>,
    key: Seq<char>,
    item: Fields,
    stored: Seq<Seq<char>>,
)
    ensures
        w.secrets.len() <= with_cells(w, schema, names, key, item, stored).secrets.len(),
        with_cells(w, schema, names, key, item, stored).secrets.take(w.secrets.len() as int)
            == w.secrets,
    decreases names.len(),
{
    let all = with_cells(w, schema, names, key, item, stored).secrets;
    if names.len() > 0 {
        lemma_secrets_grow(w, schema, names.drop_last(), key, item, stored);
        let before = with_cells(w, schema, names.drop_last(), key, item, stored).secrets;
        assert(all.take(w.secrets.len() as int) =~= before.take(w.secrets.len() as int));
    } else {
        assert(all.take(w.secrets.len() as int) =~= w.secrets);
    }
}

proof fn lemma_cell_grows(
    v: InsertValueV,
    schema: TableSchema,
    name: Seq<char>,
    item: Fields,
    secrets: Seq<Seq<char>>,
    more: Seq<Seq<char>>,
    stored: Seq<Seq<char>>,
)
    requires
        cell_is_given(v, schema, name, item, secrets, stored),
        secrets.len() <= more.len(),
        more.take(secrets.len() as int) == secrets,
    ensures
        cell_is_given(v, schema, name, item, more, stored),
{
    if let (Some(c), Some(given)) = (column_named(schema.columns@, name), lookup(item, name)) {
        if let Some(text) = gives(given) {
            if c.encrypt {
                let t = lowercase(c.type_data@);
                let j = choose|j: int|
                    {
                        &&& 0 <= j < secrets.len()
                        &&& #[trigger] secrets[j] == text
                        &&& j < stored.len() ==> carries_detail(v, stored[j], t)
                    };
                assert(more.take(secrets.len() as int)[j] == more[j]);
                assert(more[j] == text);
            }
        }
    }
}

#[verifier::spinoff_prover]
proof fn lemma_cells_are_given(
    w: CellsV,
    schema: TableSchema,
    names: Seq<Seq<char>>,
    key: Seq<char>,
    item: Fields,
    stored: Seq<Seq<char>>,
    k: int,
)
    requires
        w.row.len() == 0,
        w.item.len() == 0,
        0 <= k < names.len(),
    ensures
        ({
            let r = with_cells(w, schema, names, key, item, stored);
            &&& r.row.len() == names.len()
            &&& names[k] == key ==> r.row[k] == InsertValueV::Param(Scalar::Null)
            &&& names[k] != key ==> cell_is_given(
                r.row[k],
                schema,
                names[k],
                item,
                r.secrets,
                stored,
            )
            &&& names[k] != key ==> item_is_given(r.item, schema, names[k], item)
        }),
    decreases names.len(),
{
    let before = with_cells(w, schema, names.drop_last(), key, item, stored);
    let r = with_cells(w, schema, names, key, item, stored);
    let last = names.last();
    lemma_cells_grow(w, schema, names.drop_last(), key, item, stored);
    let one = seq![last];
    assert(one.drop_last() =~= Seq::<Seq<char>>::empty());
    assert(with_cells(before, schema, one.drop_last(), key, item, stored) == before);
    assert(with_cells(before, schema, one, key, item, stored) == r);
    lemma_secrets_grow(before, schema, one, key, item, stored);
    let given = lookup(item, last);
    if given is Some && gives(given->0) is Some {
        law_values_are_read_as_given(given->0);
    }
    if k < names.len() - 1 {
        assert(names.drop_last()[k] == names[k]);
        lemma_cells_are_given(w, schema, names.drop_last(), key, item, stored, k);
        assert(r.row[k] == before.row[k]);
        if names[k] != key {
            lemma_cell_grows(
                r.row[k],
                schema,
                names[k],
                item,
                before.secrets,
                r.secrets,
                stored,
            );
            if last != key {
                let bound = r.row[names.len() - 1]->Param_0;
                law_set_then_get(before.item, last, detail_shown(bound, given), names[k]);
            }
        }
    } else if last != key {
        let bound = r.row[names.len() - 1]->Param_0;
        law_set_then_get(before.item, last, detail_shown(bound, given), last);
        if let (Some(c), Some(v)) = (column_named(schema.columns@, last), given) {
            if let Some(text) = gives(v) {
                if c.encrypt {
                    let j = before.secrets.len() as int;
                    assert(r.secrets[j] == text);
                    assert(j < stored.len() ==> stored_secret(stored, j) == stored[j]);
                    assert(carries_secret(
                        r.row[k],
                        text,
                        lowercase(c.type_data@),
                        r.secrets,
                        stored,
                    ));
                }
            }
        }
    }
}

/// Whether a row of a detail, and the item that is shown for it, hold under a name
/// what its item gives for it.
pub open spec fn column_is_given(
    v: InsertValueV,
    shown: Fields,
    schema: TableSchema,
    name: Seq<char>,
    item: Fields,
    secrets: Seq<Seq<char>>,
    stored: Seq<Seq<char>>,
) -> bool {
    &&& cell_is_given(v, schema, name, item, secrets, stored)
    &&& item_is_given(shown, schema, name, item)
}

/// Whether a row of a detail, and the item that is shown for it, hold what its item
/// gives, in each column but the one that points to the header.
pub open spec fn line_is_given(
    row: Seq<InsertValueV>,
    shown: Fields,
    columns: Seq<Seq<char>>,
    schema: TableSchema,
    key: Seq<char>,
    item: JsonV,
    secrets: Seq<Seq<char>>,
    stored: Seq<Seq<char>>,
) -> bool {
    &&& item is Object
    &&& row.len() == columns.len()
    &&& forall|k: int|
        0 <= k < columns.len() && columns[k] != key ==> column_is_given(
            #[trigger] row[k],
            shown,
            schema,
            columns[k],
            item->Object_0,
            secrets,
            stored,
        )
}

proof fn lemma_line_grows(
    row: Seq<InsertValueV>,
    shown: Fields,
    columns: Seq<Seq<char>>,
    schema: TableSchema,
    key: Seq<char>,
    item: JsonV,
    secrets: Seq<Seq<char>>,
    more: Seq<Seq<char>>,
    stored: Seq<Seq<char>>,
)
    requires
        line_is_given(row, shown, columns, schema, key, item, secrets, stored),
        secrets.len() <= more.len(),
        more.take(secrets.len() as int) == secrets,
    ensures
        line_is_given(row, shown, columns, schema, key, item, more, stored),
{
    assert forall|k: int| 0 <= k < columns.len() && columns[k] != key implies column_is_given(
        #[trigger] row[k],
        shown,
        schema,
        columns[k],
        item->Object_0,
        more,
        stored,
    ) by {
        lemma_cell_grows(row[k], schema, columns[k], item->Object_0, secrets, more, stored);
    }
}

/// Whether the rows of a detail, and the items that are shown for them, hold what
/// its items give.
pub open spec fn lines_are_given(
    rows: Seq<Seq<InsertValueV>>,
    shown: Seq<Fields>,
    columns: Seq<Seq<char>>,
    schema: TableSchema,
    key: Seq<char>,
    items: Seq<JsonV>,
    secrets: Seq<Seq<char>>,
    stored: Seq<Seq<char>>,
    n: int,
) -> bool {
    &&& rows.len() == n
    &&& shown.len() == n
    &&& forall|i: int|
        0 <= i < n ==> line_is_given(
            #[trigger] rows[i],
            shown[i],
            columns,
            schema,
            key,
            items[i],
            secrets,
            stored,
        )
}

proof fn lemma_line_is_given(
    start: CellsV,
    schema: TableSchema,
    key: Seq<char>,
    item: JsonV,
    stored: Seq<Seq<char>>,
)
    requires
        start.row.len() == 0,
        start.item.len() == 0,
        item is Object,
    ensures
        ({
            let columns = detail_columns(schema, key);
            let cells = with_cells(start, schema, columns, key, item->Object_0, stored);
            line_is_given(
                cells.row,
                cells.item,
                columns,
                schema,
                key,
                item,
                cells.secrets,
                stored,
            )
        }),
{
    let columns = detail_columns(schema, key);
    let cells = with_cells(start, schema, columns, key, item->Object_0, stored);
    lemma_cells_grow(start, schema, columns, key, item->Object_0, stored);
    assert forall|k: int| 0 <= k < columns.len() && columns[k] != key implies column_is_given(
        #[trigger] cells.row[k],
        cells.item,
        schema,
        columns[k],
        item->Object_0,
        cells.secrets,
        stored,
    ) by {
        lemma_cells_are_given(start, schema, columns, key, item->Object_0, stored, k);
    }
}

proof fn lemma_lines_are_given(
    w: LinesV,
    schema: TableSchema,
    d: DetailConfig,
    items: Seq<JsonV>,
    stored: Seq<Seq<char>>,
    n: int,
)
    requires
        w.rows.len() == 0,
        w.items.len() == 0,
        n >= 0,
        lines_of(w, schema, d, items, stored, n) is Ok,
    ensures
        ({
            let lines = lines_of(w, schema, d, items, stored, n)->Ok_0;
            &&& w.secrets.len() <= lines.secrets.len()
            &&& lines.secrets.take(w.secrets.len() as int) == w.secrets
            &&& lines_are_given(
                lines.rows,
                lines.items,
                detail_columns(schema, d.foreign_key_column@),
                schema,
                d.foreign_key_column@,
                items,
                lines.secrets,
                stored,
                n,
            )
        }),
    decreases n,
{
    let key = d.foreign_key_column@;
    let columns = detail_columns(schema, key);
    let lines = lines_of(w, schema, d, items, stored, n)->Ok_0;
    if n > 0 {
        lemma_lines_are_given(w, schema, d, items, stored, n - 1);
        let before = lines_of(w, schema, d, items, stored, n - 1)->Ok_0;
        let item = items[n - 1]->Object_0;
        let start = CellsV {
            secrets: before.secrets,
            checks: before.checks,
            row: Seq::empty(),
            item: Seq::empty(),
        };
        let cells = with_cells(start, schema, columns, key, item, stored);
        lemma_secrets_grow(start, schema, columns, key, item, stored);
        lemma_line_is_given(start, schema, key, items[n - 1], stored);
        assert(lines.secrets.take(w.secrets.len() as int) =~= before.secrets.take(
            w.secrets.len() as int,
        ));
        assert(lines.rows == before.rows.push(cells.row));
        assert(lines.items == before.items.push(cells.item));
        assert forall|i: int| 0 <= i < n implies line_is_given(
            #[trigger] lines.rows[i],
            lines.items[i],
            columns,
            schema,
            key,
            items[i],
            lines.secrets,
            stored,
        ) by {
            if i < n - 1 {
                assert(lines.rows[i] == before.rows[i]);
                lemma_line_grows(
                    before.rows[i],
                    before.items[i],
                    columns,
                    schema,
                    key,
                    items[i],
                    before.secrets,
                    lines.secrets,
                    stored,
                );
            }
        }
    } else {
        assert(lines.secrets.take(w.secrets.len() as int) =~= w.secrets);
    }
}

/// Whether the rows of a batch are those of the items of a detail: one for each,
/// for the table of the detail, and with what the item gives in each column but
/// the one that points to the header.
pub open spec fn batch_is_given(
    b: PreparedDetailBatchV,
    d: DetailConfig,
    schema: TableSchema,
    items: Seq<JsonV>,
    secrets: Seq<Seq<char>>,
    stored: Seq<Seq<char>>,
) -> bool {
    &&& b.field == d.field@
    &&& b.target_table == d.target_table@
    &&& b.foreign_key_column == d.foreign_key_column@
    &&& lines_are_given(
        b.rows,
        b.response_items,
        b.columns,
        schema,
        d.foreign_key_column@,
        items,
        secrets,
        stored,
        items.len() as int,
    )
}

proof fn lemma_batch_grows(
    b: PreparedDetailBatchV,
    d: DetailConfig,
    schema: TableSchema,
    items: Seq<JsonV>,
    secrets: Seq<Seq<char>>,
    more: Seq<Seq<char>>,
    stored: Seq<Seq<char>>,
)
    requires
        batch_is_given(b, d, schema, items, secrets, stored),
        secrets.len() <= more.len(),
        more.take(secrets.len() as int) == secrets,
    ensures
        batch_is_given(b, d, schema, items, more, stored),
{
    assert forall|i: int| 0 <= i < items.len() implies line_is_given(
        #[trigger] b.rows[i],
        b.response_items[i],
        b.columns,
        schema,
        d.foreign_key_column@,
        items[i],
        more,
        stored,
    ) by {
        lemma_line_grows(
            b.rows[i],
            b.response_items[i],
            b.columns,
            schema,
            d.foreign_key_column@,
            items[i],
            secrets,
            more,
            stored,
        );
    }
}

/// The rows of a detail hold what the request gives. Where the details of a request
/// are accepted, each that is given, and whose table is known, has a batch of rows,
/// one for each of its items and in their order, and in each row stands, under
/// each column but the one that points to the header, what the item gives for it:
/// the integer of a numeral in a column of integers, the text itself in a column of
/// texts, and what it was encrypted to where the column asks for that.
pub proof fn law_detail_rows_hold_what_is_given(
    details: Seq<DetailConfig>,
    entities: Seq<(String, TableSchema)>,
    body: JsonV,
    stored: Seq<Seq<char>>,
    checks: Seq<FkCheckV>,
    n: int,
    di: int,
)
    requires
        0 <= di < n <= details.len(),
        details_of(details, entities, body, stored, checks, n) is Ok,
        details[di].field@.len() > 0,
        details[di].target_table@.len() > 0,
        field(body, details[di].field@) is Some,
        field(body, details[di].field@)->0 is Array,
        entity_at(entities, details[di].target_table@, 0) is Some,
    ensures
        ({
            let ds = details_of(details, entities, body, stored, checks, n)->Ok_0;
            exists|b: int|
                0 <= b < ds.batches.len() && batch_is_given(
                    #[trigger] ds.batches[b],
                    details[di],
                    entity_at(entities, details[di].target_table@, 0)->0,
                    field(body, details[di].field@)->0->Array_0,
                    ds.secrets,
                    stored,
                )
        }),
    decreases n,
{
    let d = details[di];
    let schema = entity_at(entities, d.target_table@, 0)->0;
    let items = field(body, d.field@)->0->Array_0;
    let before = details_of(details, entities, body, stored, checks, n - 1)->Ok_0;
    let ds = details_of(details, entities, body, stored, checks, n)->Ok_0;
    if di < n - 1 {
        law_detail_rows_hold_what_is_given(details, entities, body, stored, checks, n - 1, di);
        let b = choose|b: int|
            0 <= b < before.batches.len() && batch_is_given(
                #[trigger] before.batches[b],
                d,
                schema,
                items,
                before.secrets,
                stored,
            );
        assert(ds.batches[b] == before.batches[b]);
        lemma_details_secrets_grow(before, details[n - 1], entities, body, stored);
        lemma_batch_grows(ds.batches[b], d, schema, items, before.secrets, ds.secrets, stored);
    } else {
        let w = LinesV {
            secrets: before.secrets,
            checks: before.checks,
            rows: Seq::empty(),
            items: Seq::empty(),
        };
        lemma_lines_are_given(w, schema, d, items, stored, items.len() as int);
        let b = ds.batches.len() - 1;
        assert(batch_is_given(ds.batches[b], d, schema, items, ds.secrets, stored));
    }
}

proof fn lemma_details_secrets_grow(
    before: DetailsV,
    d: DetailConfig,
    entities: Seq<(String, TableSchema)>,
    body: JsonV,
    stored: Seq<Seq<char>>,
)
    requires
        with_detail(before, d, entities, body, stored) is Ok,
    ensures
        ({
            let ds = with_detail(before, d, entities, body, stored)->Ok_0;
            &&& before.secrets.len() <= ds.secrets.len()
            &&& ds.secrets.take(before.secrets.len() as int) == before.secrets
            &&& before.batches.len() <= ds.batches.len()
            &&& forall|b: int|
                0 <= b < before.batches.len() ==> #[trigger] ds.batches[b] == before.batches[b]
        }),
{
    let ds = with_detail(before, d, entities, body, stored)->Ok_0;
    if ds != before {
        let items = field(body, d.field@)->0->Array_0;
        let schema = entity_at(entities, d.target_table@, 0)->0;
        lemma_lines_are_given(
            LinesV {
                secrets: before.secrets,
                checks: before.checks,
                rows: Seq::empty(),
                items: Seq::empty(),
            },
            schema,
            d,
            items,
            stored,
            items.len() as int,
        );
    } else {
        assert(ds.secrets.take(before.secrets.len() as int) =~= before.secrets);
    }
}

proof fn lemma_detail_settable(columns: Seq<Column>, posted: Seq<Seq<char>>, n: int, j: int)
    requires
        0 <= j < n <= columns.len(),
        !columns[j].auto_increment,
        !is_audit_column(columns[j].name@),
        posted.len() == 0 || posted.contains(columns[j].name@),
    ensures
        detail_settable(columns, posted, n).contains(columns[j].name@),
    decreases n,
{
    let all = detail_settable(columns, posted, n);
    let before = detail_settable(columns, posted, n - 1);
    if j < n - 1 {
        lemma_detail_settable(columns, posted, n - 1, j);
        let i = choose|i: int| 0 <= i < before.len() && before[i] == columns[j].name@;
        assert(all[i] == columns[j].name@);
    } else {
        assert(all[all.len() - 1] == columns[j].name@);
    }
}

/// No column that a detail may set is left out of its rows: each that is
/// configured, or any where none is, stands among their columns, unless the
/// database or the audit trail sets it.
pub proof fn law_detail_rows_have_every_column(schema: TableSchema, key: Seq<char>, j: int)
    requires
        0 <= j < schema.columns@.len(),
        !schema.columns@[j].auto_increment,
        !is_audit_column(schema.columns@[j].name@),
        schema.post.columns@.len() == 0 || clean_names(schema.post.columns.deep_view()).contains(
            schema.columns@[j].name@,
        ),
    ensures
        detail_columns(schema, key).contains(schema.columns@[j].name@),
        detail_columns(schema, key).contains(key),
{
    let posted = clean_names(schema.post.columns.deep_view());
    let n = schema.columns@.len() as int;
    let name = schema.columns@[j].name@;
    lemma_detail_settable(schema.columns@, posted, n, j);
    let own = detail_settable(schema.columns@, posted, n);
    let i = choose|i: int| 0 <= i < own.len() && own[i] == name;
    let all = detail_columns(schema, key);
    if !own.contains(key) {
        assert(all[i + 1] == name);
        assert(all[0] == key);
    } else {
        assert(all[i] == name);
    }
}

/// Whether a bound value of a row is what a text gives for a column of a type: the
/// integer of a numeral in a column of integers, the float of one in a column of
/// fractions, and the text itself where it is no numeral, or in any other column.
pub open spec fn carries_created(v: InsertValueV, text: Seq<char>, t: Seq<char>) -> bool {
    match v {
        InsertValueV::Param(x) => if contains(t, "int"@) {
            match i64_value(text) {
                Some(n) => x == Scalar::I64(n),
                None => text.len() > 0 ==> x == Scalar::Str(text),
            }
        } else if (contains(t, "float"@) || contains(t, "decimal"@)) && is_float(text) {
            x == Scalar::F64(text)
        } else {
            text.len() > 0 ==> x == Scalar::Str(text)
        },
        _ => false,
    }
}

/// The row that is inserted holds what the request gives: for each column that is
/// inserted, that no formula computes and no function generates, the plan has a
/// field of its name with what the body gives for it, or with what that was
/// encrypted to.
pub proof fn law_created_rows_hold_what_is_given(
    start: RowPlanV,
    schema: TableSchema,
    prep: Preparation,
    n: int,
    k: int,
)
    requires
        0 <= k < n <= create_columns(schema).len(),
        ({
            let c = schema.columns@[create_columns(schema)[k] as int];
            &&& formula_of(c.name@, entry_at(prep, k)) is None
            &&& !(c.name@ == "id"@ && c.function@.len() > 0)
            &&& field(start.body, c.name@) is Some
            &&& gives(field(start.body, c.name@)->0) is Some
            &&& !same_but_case(gives(field(start.body, c.name@)->0)->0, "null"@)
            &&& c.encrypt ==> k < prep.stored@.len()
        }),
    ensures
        ({
            let c = schema.columns@[create_columns(schema)[k] as int];
            let text = if c.encrypt {
                prep.stored@[k]@
            } else {
                gives(field(start.body, c.name@)->0)->0
            };
            let p = created_plan(start, schema, prep, n);
            &&& p.body == start.body
            &&& start.fields.len() <= p.fields.len()
            &&& exists|j: int|
                0 <= j < p.fields.len() && (#[trigger] p.fields[j]).0 == c.name@ && carries_created(
                    p.fields[j].1,
                    text,
                    lowercase(c.type_data@),
                )
        }),
    decreases n,
{
    let c = schema.columns@[create_columns(schema)[k] as int];
    let v = field(start.body, c.name@)->0;
    law_values_are_read_as_given(v);
    lemma_created_body(start, schema, prep, n - 1);
    lemma_created_body(start, schema, prep, n);
    let text = if c.encrypt {
        prep.stored@[k]@
    } else {
        gives(v)->0
    };
    let t = lowercase(c.type_data@);
    let before = created_plan(start, schema, prep, n - 1);
    let p = created_plan(start, schema, prep, n);
    lemma_created_grows(start, schema, prep, n);
    if k < n - 1 {
        law_created_rows_hold_what_is_given(start, schema, prep, n - 1, k);
        let j = choose|j: int|
            0 <= j < before.fields.len() && (#[trigger] before.fields[j]).0 == c.name@
                && carries_created(before.fields[j].1, text, t);
        assert(p.fields[j] == before.fields[j]);
    } else {
        assert(p.fields[p.fields.len() - 1].0 == c.name@);
        assert(carries_created(p.fields[p.fields.len() - 1].1, text, t));
    }
}

proof fn lemma_created_grows(start: RowPlanV, schema: TableSchema, prep: Preparation, n: int)
    ensures
        start.fields.len() <= created_plan(start, schema, prep, n).fields.len(),
    decreases n,
{
    if n > 0 {
        lemma_created_grows(start, schema, prep, n - 1);
    }
}

/// A request hands on what its insertion asks for, and answers what came of it: what the
/// row asks for is asked for as it is, a finished row is answered with a success and
/// its data, and a failed one is refused.
pub proof fn law_create_hands_its_row_on(q: CreateRequest, t: RowTarget, m: CreateMemoV, o: Outcome)
    ensures
        ({
            let (row, plan, w) = row_next(t, m.row, m.plan, o);
            let (s, n, a) = create_next(q, t, CreateStage::Working, m, o);
            &&& n.row == row
            &&& n.plan == plan
            &&& n.actor == m.actor
            &&& match w {
                WorkV::Ask(x) => a == x,
                WorkV::Finish(message, _, data) => match a {
                    ActionV::Settle(_, _, r) => r.status == 200 && r.body.success && r.body.data
                        == data,
                    _ => false,
                },
                WorkV::Fail(_) => a is Answer && !a->Answer_0.body.success,
                WorkV::Abort(_) => a is Abort && !a->Abort_0.body.success,
                WorkV::Abandon(_) => a is Abandon && !a->Abandon_0.body.success,
            }
        }),
{
}

/// Once its columns are prepared, a row is planned from its body: its fields are those of
/// the columns that are inserted, and, where the table has a column for it and it is not
/// set, who created the row.
pub proof fn law_create_plans_its_body(
    q: CreateRequest,
    t: RowTarget,
    m: CreateMemoV,
    o: Outcome,
)
    requires
        o is Prepared,
        create_next(q, t, CreateStage::Preparing, m, o).2 is Encrypt,
    ensures
        ({
            let n = create_next(q, t, CreateStage::Preparing, m, o).1;
            let p = created_plan(
                m.plan,
                t.schema,
                o->Prepared_0,
                create_columns(t.schema).len() as int,
            );
            &&& n.plan.body == p.body
            &&& n.plan.fields == p.fields || m.actor is Some && n.plan.fields.len()
                == p.fields.len() + 1 && n.plan.fields.drop_last() == p.fields
                && n.plan.fields.last().0 == "created_by_id"@ && n.plan.fields.last().1 is Param
                && tells(n.plan.fields.last().1->Param_0, m.actor->0)
            &&& n.plan.checks == p.checks
            &&& n.actor == m.actor
        }),
{
    let p = created_plan(m.plan, t.schema, o->Prepared_0, create_columns(t.schema).len() as int);
    if let Some(a) = m.actor {
        if let Some(c) = column_named(t.schema.columns@, "created_by_id"@) {
            let f = ("created_by_id"@, InsertValueV::Param(actor_value(c.type_data@, a)));
            assert(p.fields.push(f).drop_last() =~= p.fields);
        }
    }
}

/// Once the secrets of its details are encrypted, the insertion of a row begins with its
/// plan, the rows of its details, and the checks of both.
pub proof fn law_create_begins_with_its_details(
    q: CreateRequest,
    t: RowTarget,
    m: CreateMemoV,
    o: Outcome,
)
    requires
        o is Texts,
        details_of(
            t.schema.details@,
            q.entities@,
            m.plan.body,
            o->Texts_0.deep_view(),
            m.plan.checks,
            t.schema.details@.len() as int,
        ) is Ok,
    ensures
        ({
            let ds = details_of(
                t.schema.details@,
                q.entities@,
                m.plan.body,
                o->Texts_0.deep_view(),
                m.plan.checks,
                t.schema.details@.len() as int,
            )->Ok_0;
            let n = create_next(q, t, CreateStage::Encrypting, m, o).1;
            let start = RowPlanV { checks: ds.checks, details: ds.batches, ..m.plan };
            plan_is_kept(start, n.plan)
        }),
{
    let ds = create_details(q, t, m, o->Texts_0.deep_view())->Ok_0;
    let start = RowPlanV { checks: ds.checks, details: ds.batches, ..m.plan };
    law_insertions_write_their_plan(t, RowStage::Start, start, o);
}

/// Whether a field was given: it is there, and neither null nor blank, nor the word for
/// null.
pub open spec fn is_there(v: Option<JsonV>) -> bool {
    match v {
        None => false,
        Some(JsonV::Null) => false,
        Some(JsonV::Str(s)) => trim(s).len() > 0 && !same_but_case(trim(s), "null"@),
        Some(_) => true,
    }
}

proof fn lemma_clearing_adds_nothing(
    posted: Seq<Seq<char>>,
    columns: Seq<Column>,
    body: JsonV,
    n: int,
    name: Seq<char>,
)
    requires
        checked_body(posted, columns, body, n) is Ok,
        !is_there(field(body, name)),
    ensures
        !is_there(field(checked_body(posted, columns, body, n)->Ok_0, name)),
    decreases n,
{
    if n > 0 {
        lemma_clearing_adds_nothing(posted, columns, body, n - 1, name);
        let b = checked_body(posted, columns, body, n - 1)->Ok_0;
        let last = strip_back(posted[n - 1], '*');
        if let JsonV::Object(fields) = b {
            law_set_then_get(fields, last, JsonV::Null, name);
        }
    }
}

/// A row that lacks a field that has to be given is refused: one that is marked so, or
/// whose column may not be null and is not set by the database.
pub proof fn law_created_rows_need_their_fields(
    posted: Seq<Seq<char>>,
    columns: Seq<Column>,
    body: JsonV,
    n: int,
    k: int,
)
    requires
        0 <= k < n <= posted.len(),
        ({
            let name = strip_back(posted[k], '*');
            &&& column_named(columns, name) is Some
            &&& ends_with(posted[k], "*"@) || !column_named(columns, name)->0.nullable
                && !column_named(columns, name)->0.auto_increment
            &&& !is_there(field(body, name))
        }),
    ensures
        checked_body(posted, columns, body, n) is Err,
    decreases n,
{
    if k < n - 1 {
        law_created_rows_need_their_fields(posted, columns, body, n - 1, k);
    } else if checked_body(posted, columns, body, n - 1) is Ok {
        let name = strip_back(posted[k], '*');
        lemma_clearing_adds_nothing(posted, columns, body, n - 1, name);
        let b = checked_body(posted, columns, body, n - 1)->Ok_0;
        if let JsonV::Object(fields) = b {
            law_set_then_get(fields, name, JsonV::Null, name);
        }
    }
}

/// No posted column is left out of a row: each is inserted, unless the database or the
/// audit trail sets it.
pub proof fn law_posted_columns_are_created(schema: TableSchema, j: int)
    requires
        0 <= j < schema.columns@.len() <= usize::MAX,
        !schema.columns@[j].auto_increment,
        !is_audit_column(schema.columns@[j].name@),
        exists|i: int|
            0 <= i < schema.post.columns@.len() && strip_back(
                (#[trigger] schema.post.columns@[i])@,
                '*',
            ) == schema.columns@[j].name@,
    ensures
        create_columns(schema).contains(j as usize),
{
    let posted = clean_names(schema.post.columns.deep_view());
    let name = schema.columns@[j].name@;
    let i = choose|i: int|
        0 <= i < schema.post.columns@.len() && strip_back(
            (#[trigger] schema.post.columns@[i])@,
            '*',
        ) == name;
    assert(posted[i] == name);
    let own = settable(schema.columns@, posted, schema.columns@.len() as int);
    law_configured_columns_are_set(schema.columns@, posted, schema.columns@.len() as int, j);
    let k = choose|k: int| 0 <= k < own.len() && own[k] == j as usize;
    assert(create_columns(schema)[k] == j as usize);
}

/// A queued creation is that of the request: on its route, as a new row, by its actor, and
/// with its body, but that its actor is put in.
pub proof fn law_queued_creations_carry_the_body(
    q: CreateRequest,
    t: RowTarget,
    m: CreateMemoV,
    name: Seq<char>,
)
    requires
        q.queue_enabled,
        wants_queue(q.parameters.deep_view()),
        name != "created_by_id"@,
    ensures
        ({
            let job = match create_admitted(q, t, m).2 {
                ActionV::Enqueue(job) => Some(job),
                ActionV::EnqueueInBackground(job, _) => Some(job),
                _ => None,
            };
            &&& job is Some
            &&& job->0.route == t.route@
            &&& job->0.op == WriteOpKindV::Post
            &&& job->0.actor_id == m.actor
            &&& field(job->0.body, name) == field(m.plan.body, name)
        }),
{
    if let Some(a) = m.actor {
        if let Some(c) = column_named(t.schema.columns@, "created_by_id"@) {
            if let JsonV::Object(fields) = m.plan.body {
                law_set_then_get(
                    fields,
                    "created_by_id"@,
                    as_json(actor_value(c.type_data@, a)),
                    name,
                );
            }
        }
    }
}

} // verus!
