//! Inserting a row.
use crate::ast::{
    all_of, copy_field_values, DbParam, Filter, FilterV, InsertValue, InsertValueV, Query, QueryV,
    Scalar,
};
use crate::consumer::{job_of, make_job, WriteOpKind, WriteOpKindV};
use crate::filters::{infer_param, number_or_text};
use crate::flow::{
    answers, answers_success, enqueued, failure, failure_in, missing_entity, queue_wanted, refuse,
    refused, rows_in, say_enqueued, say_missing_entity, succeed, succeeded, told, touches_data,
    wants_queue, Action, ActionV, Audit, AuditV, Outcome, Preparation,
};
use crate::giving::{binds, gives, law_values_are_read_as_given, tells};
use crate::idgen::{
    build_highest_query, highest_id, highest_query, is_number_token, law_numbers_go_up, next_number,
    number_text,
    number_token, number_width, part_of, push_part, read_highest, read_next_number, width_of,
    write_number, Today,
};
use crate::json::{
    copy_fields, field, get_in, json_text, key_at, law_set_then_get, lemma_object_view, lookup,
    plain_field, plain_or_empty, set_in, with_field, with_key, Json, JsonV,
};
use crate::model::{column_named, column_type, find_column, type_or_int, Column, TableSchema};
use crate::number::{i64_value, nat_text};
use crate::pk_utils::{as_json, is_int_type, to_json, typed, typed_param};
use crate::text::{
    contains, drop_char, has_text, join, joined, lowercase, push_item, same, split, split_text,
    to_lowercase, trim, trimmed, without_char,
};
use crate::validation::{
    build_fk_batch, build_unique_batch, build_unique_checks, fk_batch_params, fk_batch_sql,
    fk_verdict, unique_batch_params, unique_batch_sql, unique_checks, unique_verdict,
    validate_foreign_keys_batch, validate_unique_constraints_batch, FkCheck, FkCheckV, Reading,
};
use crate::writing::{
    ask_columns, asked_columns, build_formula_value, build_settable, check_of, find_own_id,
    formula_of, formula_value, has_statement, holds_statement, is_audit_column, judge_validation,
    key_checks, law_configured_columns_are_set, law_given_keys_are_checked, own_id_at, push_key_checks, read_formula, settable,
    validation_verdict,
};
use vstd::prelude::*;
use vstd::string::*;
use vstd::utf8::is_ascii_chars;

verus! {

/// The fields of a JSON object.
pub type Fields = Seq<(Seq<char>, JsonV)>;

/// A request to insert a row.
#[derive(Debug)]
pub struct InsertRequest {
    pub route: String,
    /// Whether the route is open to everyone.
    pub is_public: bool,
    /// Whether every route asks for a token.
    pub require_auth: bool,
    pub queue_enabled: bool,
    /// Whether a queued write is acknowledged before it is in the queue.
    pub fast_ack: bool,
    pub parameters: Json,
    pub schema: TableSchema,
    /// Whether the store is one without transactions.
    pub mongodb: bool,
    /// Whether the database is one that gives the last generated identifier.
    pub mysql: bool,
    /// The database's expression for the present time.
    pub now_expr: String,
    /// The present time, local and in UTC.
    pub now: String,
    pub now_utc: String,
    pub today: Today,
}

// ---------------------------------------------------------------------------
// Required fields
// ---------------------------------------------------------------------------

/// Whether a field was given: its text without quotes is not blank.
pub open spec fn is_present(v: Option<JsonV>) -> bool {
    match v {
        Some(v) => trim(without_char(json_text(v), '"')).len() > 0,
        None => false,
    }
}

/// Whether a configured column has to be given.
pub open spec fn is_required(columns: Seq<Column>, name: Seq<char>) -> bool {
    match column_named(columns, name) {
        Some(c) => !c.nullable && !c.auto_increment,
        None => false,
    }
}

/// The position of the first configured column, at or after `from`, that has to
/// be given and was not.
pub open spec fn missing_at(
    posted: Seq<Seq<char>>,
    columns: Seq<Column>,
    body: JsonV,
    from: int,
) -> Option<int>
    decreases posted.len() - from,
{
    if from < 0 || from >= posted.len() {
        None
    } else if is_required(columns, posted[from]) && !is_present(field(body, posted[from])) {
        Some(from)
    } else {
        missing_at(posted, columns, body, from + 1)
    }
}

fn find_missing(posted: &Vec<String>, columns: &Vec<Column>, body: &Json) -> (r: Option<usize>)
    ensures
        match r {
            Some(i) => i < posted@.len() && missing_at(
                posted.deep_view(),
                columns@,
                body.deep_view(),
                0,
            ) == Some(i as int),
            None => missing_at(posted.deep_view(), columns@, body.deep_view(), 0) is None,
        },
{
    let mut i: usize = 0;
    while i < posted.len()
        invariant
            i <= posted@.len(),
            missing_at(posted.deep_view(), columns@, body.deep_view(), 0) == missing_at(
                posted.deep_view(),
                columns@,
                body.deep_view(),
                i as int,
            ),
        decreases posted.len() - i,
    {
        assert(posted.deep_view()[i as int] == posted@[i as int]@);
        let name = posted[i].as_str();
        let required = match find_column(columns, name) {
            Some(c) => !c.nullable && !c.auto_increment,
            None => false,
        };
        if required {
            let present = match body.get(name) {
                Some(v) => {
                    let t = v.text();
                    let u = drop_char(t.as_str(), '"');
                    !crate::text::blank(u.as_str())
                },
                None => false,
            };
            if !present {
                return Some(i);
            }
        }
        i += 1;
    }
    None
}

// ---------------------------------------------------------------------------
// What is inserted
// ---------------------------------------------------------------------------

/// The positions of the columns that are inserted: those that the request may
/// set, then the identifier where the database does not set it.
pub open spec fn insert_columns(schema: TableSchema) -> Seq<usize> {
    let own = settable(schema.columns@, schema.post.columns.deep_view(), schema.columns@.len() as int);
    match own_id_at(schema.columns@, 0) {
        Some(i) => own.push(i),
        None => own,
    }
}

/// The positions of the columns that are inserted.
pub fn build_insert_columns(schema: &TableSchema) -> (r: Vec<usize>)
    ensures
        r@ == insert_columns(*schema),
        forall|k: int| 0 <= k < r@.len() ==> r@[k] < schema.columns@.len(),
{
    let mut out = build_settable(&schema.columns, &schema.post.columns);
    match find_own_id(&schema.columns) {
        Some(i) => {
            out.push(i);
        },
        None => {},
    }
    out
}

/// The entry that the `k`-th column matches.
pub open spec fn entry_at(prep: Preparation, k: int) -> Option<Seq<char>> {
    if 0 <= k < prep.matches@.len() {
        prep.matches@[k].deep_view()
    } else {
        None
    }
}

/// The expressions of the formula of the `k`-th column.
pub open spec fn expressions_at(prep: Preparation, k: int) -> Seq<(Seq<char>, Seq<char>)> {
    if 0 <= k < prep.expressions@.len() {
        prep.expressions@[k].deep_view()
    } else {
        Seq::empty()
    }
}

/// The value of the `k`-th column as it is stored.
pub open spec fn stored_at(prep: Preparation, k: int) -> Seq<char> {
    if 0 <= k < prep.stored@.len() {
        prep.stored@[k]@
    } else {
        Seq::empty()
    }
}

/// What a row is inserted from: the values of its columns, the document for a
/// store without transactions, the checks that its foreign keys ask for, and the
/// tokens of its generated identifier.
#[derive(Debug)]
pub struct InsertPlan {
    pub fields: Vec<(String, InsertValue)>,
    pub doc: Vec<(String, Json)>,
    pub checks: Vec<FkCheck>,
    pub tokens: Vec<String>,
}

/// What such a plan is.
pub struct InsertPlanV {
    pub fields: Seq<(Seq<char>, InsertValueV)>,
    pub doc: Fields,
    pub checks: Seq<FkCheckV>,
    pub tokens: Seq<Seq<char>>,
}

impl DeepView for InsertPlan {
    type V = InsertPlanV;

    open spec fn deep_view(&self) -> InsertPlanV {
        InsertPlanV {
            fields: self.fields.deep_view(),
            doc: self.doc.deep_view(),
            checks: self.checks.deep_view(),
            tokens: self.tokens.deep_view(),
        }
    }
}

/// The plan of a row without columns.
pub open spec fn empty_plan() -> InsertPlanV {
    InsertPlanV {
        fields: Seq::empty(),
        doc: Seq::empty(),
        checks: Seq::empty(),
        tokens: Seq::empty(),
    }
}

/// A stored value as a bound value of a column: a number only in a column of
/// numbers.
pub open spec fn bound_value(value: Seq<char>, type_data: Seq<char>) -> Scalar {
    if is_int_type(type_data) || contains(type_data, "float"@) {
        number_or_text(value)
    } else {
        Scalar::Str(value)
    }
}

/// A value in the document: the number that was bound, or what was given.
pub open spec fn document_value(bound: Scalar, given: Option<JsonV>) -> JsonV {
    match bound {
        Scalar::Str(_) => match given {
            Some(v) => v,
            None => JsonV::Str(Seq::empty()),
        },
        _ => as_json(bound),
    }
}

/// A formula as the value of a column.
pub open spec fn formula_field(f: (Seq<char>, Seq<Scalar>)) -> InsertValueV {
    if f.1.len() == 0 {
        InsertValueV::Raw(f.0)
    } else {
        InsertValueV::RawWithParams { sql: f.0, params: f.1 }
    }
}

/// A plan with one column worked in.
pub open spec fn with_column(
    p: InsertPlanV,
    schema: TableSchema,
    c: Column,
    body: JsonV,
    prep: Preparation,
    k: int,
) -> InsertPlanV {
    if c.auto_increment {
        p
    } else {
        let generated = c.name@ == "id"@ && c.function@.len() > 0;
        let tokens = if generated {
            split(c.function@, '/')
        } else {
            p.tokens
        };
        match formula_of(c.name@, entry_at(prep, k)) {
            Some(f) => InsertPlanV {
                fields: p.fields.push(
                    (c.name@, formula_field(formula_value(f, expressions_at(prep, k), body))),
                ),
                tokens,
                ..p
            },
            None => if generated {
                InsertPlanV { tokens, ..p }
            } else {
                let raw = plain_or_empty(field(body, c.name@));
                let value = if c.encrypt {
                    stored_at(prep, k)
                } else {
                    raw
                };
                let bound = bound_value(value, c.type_data@);
                InsertPlanV {
                    fields: p.fields.push((c.name@, InsertValueV::Param(bound))),
                    doc: with_field(
                        p.doc,
                        c.name@,
                        document_value(bound, field(body, c.name@)),
                    ),
                    checks: p.checks + key_checks(
                        schema.foreign_keys@,
                        c.name@,
                        raw,
                        c.type_data@,
                    ),
                    tokens,
                }
            },
        }
    }
}

/// The plan of the first `n` columns that are inserted.
pub open spec fn plan_of(schema: TableSchema, body: JsonV, prep: Preparation, n: int) -> InsertPlanV
    decreases n,
{
    if n <= 0 {
        empty_plan()
    } else {
        with_column(
            plan_of(schema, body, prep, n - 1),
            schema,
            schema.columns@[insert_columns(schema)[n - 1] as int],
            body,
            prep,
            n - 1,
        )
    }
}

/// The entry that the `k`-th column matches.
pub fn read_entry<'a>(prep: &'a Preparation, k: usize) -> (r: Option<&'a str>)
    ensures
        r.deep_view() == entry_at(*prep, k as int),
{
    if k < prep.matches.len() {
        match &prep.matches[k] {
            Some(m) => Some(m.as_str()),
            None => None,
        }
    } else {
        None
    }
}

/// The expressions of the formula of the `k`-th column.
pub fn read_expressions(prep: &Preparation, k: usize) -> (r: Vec<(String, String)>)
    ensures
        r.deep_view() == expressions_at(*prep, k as int),
{
    let mut out: Vec<(String, String)> = Vec::new();
    assert(out.deep_view() =~= Seq::empty());
    if k < prep.expressions.len() {
        let all = &prep.expressions[k];
        let ghost es = all.deep_view();
        assert(out.deep_view() =~= es.take(0));
        let mut i: usize = 0;
        while i < all.len()
            invariant
                i <= all@.len(),
                es == all.deep_view(),
                out.deep_view() == es.take(i as int),
            decreases all.len() - i,
        {
            push_item(&mut out, (all[i].0.clone(), all[i].1.clone()));
            i += 1;
            assert(es.take(i as int) =~= es.take(i - 1).push(es[i - 1]));
        }
        assert(es.take(es.len() as int) =~= es);
    }
    out
}

fn plan_formula(f: &str, prep: &Preparation, k: usize, body: &Json) -> (r: InsertValue)
    ensures
        r.deep_view() == formula_field(
            formula_value(f@, expressions_at(*prep, k as int), body.deep_view()),
        ),
{
    let exprs = read_expressions(prep, k);
    let (sql, params) = build_formula_value(f, &exprs, body);
    assert(params.deep_view().len() == params@.len());
    if params.len() == 0 {
        InsertValue::Raw(sql)
    } else {
        InsertValue::RawWithParams { sql, params }
    }
}

fn bind_value(value: &str, type_data: &str) -> (r: DbParam)
    ensures
        r.deep_view() == bound_value(value@, type_data@),
{
    if has_text(type_data, "int") || has_text(type_data, "float") {
        infer_param(value)
    } else {
        DbParam::Str(value.to_owned())
    }
}

/// A value in the document.
pub fn document(bound: &DbParam, given: Option<&Json>) -> (r: Json)
    ensures
        r.deep_view() == document_value(bound.deep_view(), given.deep_view()),
{
    match bound {
        DbParam::Str(_) => match given {
            Some(v) => v.copy(),
            None => Json::Str(String::new()),
        },
        _ => to_json(bound.copy()),
    }
}

fn plan_column(
    p: &mut InsertPlan,
    schema: &TableSchema,
    c: &Column,
    body: &Json,
    prep: &Preparation,
    k: usize,
)
    ensures
        final(p).deep_view() == with_column(
            old(p).deep_view(),
            *schema,
            *c,
            body.deep_view(),
            *prep,
            k as int,
        ),
{
    if c.auto_increment {
        return ;
    }
    let name = c.name.as_str();
    let generated = same(name, "id") && !c.function.as_str().is_empty();
    if generated {
        p.tokens = split_text(c.function.as_str(), '/');
    }
    match read_formula(name, read_entry(prep, k)) {
        Some(f) => {
            let v = plan_formula(f.as_str(), prep, k, body);
            push_item(&mut p.fields, (c.name.clone(), v));
        },
        None => {
            if !generated {
                let raw = plain_field(body, name);
                push_key_checks(
                    &mut p.checks,
                    &schema.foreign_keys,
                    name,
                    raw.as_str(),
                    c.type_data.as_str(),
                );
                let value = if c.encrypt {
                    if k < prep.stored.len() {
                        prep.stored[k].clone()
                    } else {
                        String::new()
                    }
                } else {
                    raw
                };
                let bound = bind_value(value.as_str(), c.type_data.as_str());
                let shown = document(&bound, body.get(name));
                set_in(&mut p.doc, name, shown);
                push_item(&mut p.fields, (c.name.clone(), InsertValue::Param(bound)));
            }
        },
    }
}

/// What a row is inserted from.
pub fn plan_insert(schema: &TableSchema, body: &Json, prep: &Preparation) -> (r: InsertPlan)
    ensures
        r.deep_view() == plan_of(
            *schema,
            body.deep_view(),
            *prep,
            insert_columns(*schema).len() as int,
        ),
{
    let cols = build_insert_columns(schema);
    let mut p = InsertPlan {
        fields: Vec::new(),
        doc: Vec::new(),
        checks: Vec::new(),
        tokens: Vec::new(),
    };
    assert(p.fields.deep_view() =~= Seq::empty());
    assert(p.doc.deep_view() =~= Seq::empty());
    assert(p.checks.deep_view() =~= Seq::empty());
    assert(p.tokens.deep_view() =~= Seq::empty());
    let mut i: usize = 0;
    while i < cols.len()
        invariant
            i <= cols@.len(),
            cols@ == insert_columns(*schema),
            forall|k: int| 0 <= k < cols@.len() ==> cols@[k] < schema.columns@.len(),
            p.deep_view() == plan_of(*schema, body.deep_view(), *prep, i as int),
        decreases cols.len() - i,
    {
        plan_column(&mut p, schema, &schema.columns[cols[i]], body, prep, i);
        i += 1;
    }
    p
}

// ---------------------------------------------------------------------------
// After an insertion into a store without transactions
// ---------------------------------------------------------------------------

/// The groups that a regular expression captures in a text, as the `regex` crate
/// does: the whole match, then each group; None for a group without a match.
pub uninterp spec fn regex_groups(pattern: Seq<char>, text: Seq<char>) -> Option<
    Seq<Option<Seq<char>>>,
>;

/// What stands before the first match of a regular expression in a text, as the
/// `regex` crate splits it.
pub uninterp spec fn regex_first_piece(pattern: Seq<char>, text: Seq<char>) -> Seq<char>;

/// `regex::Regex::captures`: what it returns depends on the pattern and the text
/// alone. None stands for no match, and for a pattern that is not one.
#[verifier::external_body]
fn captures(pattern: &str, text: &str) -> (r: Option<Vec<Option<String>>>)
    ensures
        r.deep_view() == regex_groups(pattern@, text@),
{
    let re = regex::Regex::new(pattern).ok()?;
    let groups = re.captures(text)?;
    Some(groups.iter().map(|g| g.map(|m| m.as_str().to_owned())).collect())
}

/// The first piece of `regex::Regex::split`: it depends on the pattern and the
/// text alone. The text itself stands for a pattern that is not one.
#[verifier::external_body]
fn first_piece(pattern: &str, text: &str) -> (r: String)
    ensures
        r@ == regex_first_piece(pattern@, text@),
{
    let re = regex::Regex::new(pattern);
    re.ok().and_then(|re| re.split(text).next().map(|s| s.to_owned())).unwrap_or(text.to_owned())
}

/// A statement that selects: its columns, its table, and what follows `where`.
pub const SELECT_PATTERN: &'static str = "(?is)^\\s*select\\s+(?P<cols>.+?)\\s+from\\s+(?P<table>[A-Za-z_][A-Za-z0-9_]*)\\s*(?:where\\s+(?P<where>.+?))?\\s*;?\\s*$";

/// A comparison of a column for equality with a bound value.
pub const EQ_PATTERN: &'static str = "(?i)^\\s*([A-Za-z_][A-Za-z0-9_]*)\\s*=\\s*\\?\\s*$";

/// A comparison of a column with a bound pattern.
pub const LIKE_PATTERN: &'static str = "(?i)^\\s*([A-Za-z_][A-Za-z0-9_]*)\\s+like\\s*\\?\\s*$";

/// A comparison of a column with a bound pattern, in any case.
pub const ILIKE_PATTERN: &'static str = "(?i)^\\s*([A-Za-z_][A-Za-z0-9_]*)\\s+ilike\\s*\\?\\s*$";

/// What stands between conditions.
pub const AND_PATTERN: &'static str = "(?i)\\s+AND\\s+";

/// The text of a captured group; the empty one where there is none.
pub open spec fn group(groups: Seq<Option<Seq<char>>>, k: int) -> Option<Seq<char>> {
    if 0 <= k < groups.len() {
        groups[k]
    } else {
        None
    }
}

/// The entries of a list of columns that are not blank, trimmed.
pub open spec fn column_list(tokens: Seq<Seq<char>>) -> Seq<Seq<char>>
    decreases tokens.len(),
{
    if tokens.len() == 0 {
        Seq::empty()
    } else if trim(tokens.last()).len() == 0 {
        column_list(tokens.drop_last())
    } else {
        column_list(tokens.drop_last()).push(trim(tokens.last()))
    }
}

/// The columns of a statement: all of them for `*`.
pub open spec fn selected_columns(cols: Seq<char>) -> Seq<Seq<char>> {
    if trim(cols) == "*"@ {
        Seq::empty()
    } else {
        column_list(split(trim(cols), ','))
    }
}

/// What the patterns of comparisons find in a condition.
pub struct Comparisons {
    pub eq: Option<Seq<Option<Seq<char>>>>,
    pub ilike: Option<Seq<Option<Seq<char>>>>,
    pub like: Option<Seq<Option<Seq<char>>>>,
}

/// The name of the compared column.
pub open spec fn compared(groups: Seq<Option<Seq<char>>>) -> Seq<char> {
    match group(groups, 1) {
        Some(c) => c,
        None => Seq::empty(),
    }
}

/// The condition of a comparison with the first bound value.
pub open spec fn comparison(found: Comparisons, params: Seq<Scalar>) -> Option<FilterV> {
    if params.len() == 0 {
        None
    } else if found.eq is Some {
        Some(FilterV::Eq(compared(found.eq->0), params[0]))
    } else if found.ilike is Some {
        match params[0] {
            Scalar::Str(s) => Some(FilterV::ILike(compared(found.ilike->0), s)),
            _ => None,
        }
    } else if found.like is Some {
        match params[0] {
            Scalar::Str(s) => Some(FilterV::Like(compared(found.like->0), s)),
            _ => None,
        }
    } else {
        None
    }
}

/// The first condition of several.
pub open spec fn first_condition(w: Seq<char>) -> Seq<char> {
    trim(trim(regex_first_piece(AND_PATTERN@, trim(w))))
}

/// The condition behind `where`: its first comparison.
pub open spec fn where_condition(w: Option<Seq<char>>, params: Seq<Scalar>) -> Option<FilterV> {
    match w {
        Some(w) => comparison(
            Comparisons {
                eq: regex_groups(EQ_PATTERN@, first_condition(w)),
                ilike: regex_groups(ILIKE_PATTERN@, first_condition(w)),
                like: regex_groups(LIKE_PATTERN@, first_condition(w)),
            },
            params,
        ),
        None => None,
    }
}

/// The query of a statement whose parts are known.
pub open spec fn simple_query(
    cols: Seq<char>,
    table: Seq<char>,
    condition: Option<FilterV>,
) -> QueryV {
    QueryV { columns: selected_columns(cols), filter: condition, ..all_of(table) }
}

/// The query of a statement that selects from one table.
pub open spec fn select_query(sql: Seq<char>, params: Seq<Scalar>) -> Option<QueryV> {
    match regex_groups(SELECT_PATTERN@, sql) {
        Some(groups) => Some(
            simple_query(
                match group(groups, 1) {
                    Some(c) => c,
                    None => Seq::empty(),
                },
                match group(groups, 2) {
                    Some(t) => t,
                    None => Seq::empty(),
                },
                where_condition(group(groups, 3), params),
            ),
        ),
        None => None,
    }
}

fn read_group<'a>(groups: &'a Vec<Option<String>>, k: usize) -> (r: Option<&'a str>)
    ensures
        r.deep_view() == group(groups.deep_view(), k as int),
{
    if k < groups.len() {
        assert(groups.deep_view()[k as int] == groups@[k as int].deep_view());
        match &groups[k] {
            Some(s) => Some(s.as_str()),
            None => None,
        }
    } else {
        None
    }
}

fn list_columns(cols: &str) -> (r: Vec<String>)
    ensures
        r.deep_view() == selected_columns(cols@),
{
    let t = trimmed(cols);
    let mut out: Vec<String> = Vec::new();
    assert(out.deep_view() =~= Seq::empty());
    if same(t.as_str(), "*") {
        return out;
    }
    let tokens = split_text(t.as_str(), ',');
    let ghost ts = tokens.deep_view();
    let mut i: usize = 0;
    while i < tokens.len()
        invariant
            i <= tokens@.len(),
            ts == tokens.deep_view(),
            out.deep_view() == column_list(ts.take(i as int)),
        decreases tokens.len() - i,
    {
        assert(ts.take(i + 1).drop_last() =~= ts.take(i as int));
        assert(ts[i as int] == tokens@[i as int]@);
        let u = trimmed(tokens[i].as_str());
        if !u.as_str().is_empty() {
            push_item(&mut out, u);
        }
        i += 1;
    }
    assert(ts.take(ts.len() as int) =~= ts);
    out
}

/// What the patterns of comparisons found in a condition.
#[derive(Debug)]
pub struct Found {
    pub eq: Option<Vec<Option<String>>>,
    pub ilike: Option<Vec<Option<String>>>,
    pub like: Option<Vec<Option<String>>>,
}

/// What was found, as a comparison speaks of it.
pub open spec fn as_comparisons(f: Found) -> Comparisons {
    Comparisons {
        eq: f.eq.deep_view(),
        ilike: f.ilike.deep_view(),
        like: f.like.deep_view(),
    }
}

fn column_in(groups: &Vec<Option<String>>) -> (r: String)
    ensures
        r@ == compared(groups.deep_view()),
{
    match read_group(groups, 1) {
        Some(c) => c.to_owned(),
        None => String::new(),
    }
}

/// The condition of a comparison with the first bound value.
pub fn build_comparison(found: &Found, params: &Vec<DbParam>) -> (r: Option<Filter>)
    ensures
        r.deep_view() == comparison(as_comparisons(*found), params.deep_view()),
{
    assert(params.deep_view().len() == params@.len());
    if params.len() == 0 {
        return None;
    }
    assert(params.deep_view()[0] == params@[0].deep_view());
    match &found.eq {
        Some(g) => Some(Filter::Eq(column_in(g), params[0].to_val())),
        None => match &found.ilike {
            Some(g) => match &params[0] {
                DbParam::Str(s) => Some(Filter::ILike(column_in(g), s.clone())),
                _ => None,
            },
            None => match &found.like {
                Some(g) => match &params[0] {
                    DbParam::Str(s) => Some(Filter::Like(column_in(g), s.clone())),
                    _ => None,
                },
                None => None,
            },
        },
    }
}

/// The query of a statement whose parts are known.
pub fn build_simple_query(cols: &str, table: &str, condition: Option<Filter>) -> (r: Query)
    ensures
        r.deep_view() == simple_query(cols@, table@, condition.deep_view()),
{
    let mut q = Query::of(table);
    q.columns = list_columns(cols);
    q.filter = condition;
    q
}

/// The query of a statement that selects from one table. None for any other
/// statement.
pub fn build_select_query(sql: &str, params: &Vec<DbParam>) -> (r: Option<Query>)
    ensures
        r.deep_view() == select_query(sql@, params.deep_view()),
{
    match captures(SELECT_PATTERN, sql) {
        Some(groups) => {
            let condition = match read_group(&groups, 3) {
                Some(w) => {
                    let t = trimmed(w);
                    let piece = first_piece(AND_PATTERN, t.as_str());
                    let u = trimmed(piece.as_str());
                    let first = trimmed(u.as_str());
                    let found = Found {
                        eq: captures(EQ_PATTERN, first.as_str()),
                        ilike: captures(ILIKE_PATTERN, first.as_str()),
                        like: captures(LIKE_PATTERN, first.as_str()),
                    };
                    build_comparison(&found, params)
                },
                None => None,
            };
            let cols = match read_group(&groups, 1) {
                Some(c) => c.to_owned(),
                None => String::new(),
            };
            let table = match read_group(&groups, 2) {
                Some(t) => t.to_owned(),
                None => String::new(),
            };
            Some(build_simple_query(cols.as_str(), table.as_str(), condition))
        },
        None => None,
    }
}

// ---------------------------------------------------------------------------
// An insertion under way
// ---------------------------------------------------------------------------

/// Where an insertion stands.
#[derive(Debug, PartialEq, Eq, Clone, Copy, Structural)]
pub enum InsertStage {
    Start,
    Token,
    Access,
    Body,
    QueueToken,
    QueueAccess,
    Queueing,
    Preparing,
    CheckingKeys,
    CheckingUnique,
    Beginning,
    Numbering,
    Compiling,
    Validating,
    PreProcessing,
    Storing,
    BuildingAfter,
    QueryingAfter,
    Running,
    LastId,
    PostProcessing,
    Ended,
}

/// What an insertion remembers.
#[derive(Debug)]
pub struct InsertMemo {
    /// The bearer of the token.
    pub actor: String,
    /// The body of the request.
    pub body: Json,
    pub plan: InsertPlan,
    /// The parts of the generated identifier so far, and the token that is next.
    pub parts: Vec<String>,
    pub next: usize,
    /// The identifier that the database gave.
    pub returned: Json,
}

/// What an insertion remembers.
pub struct InsertMemoV {
    pub actor: Seq<char>,
    pub body: JsonV,
    pub plan: InsertPlanV,
    pub parts: Seq<Seq<char>>,
    pub next: int,
    pub returned: JsonV,
}

impl DeepView for InsertMemo {
    type V = InsertMemoV;

    open spec fn deep_view(&self) -> InsertMemoV {
        InsertMemoV {
            actor: self.actor@,
            body: self.body.deep_view(),
            plan: self.plan.deep_view(),
            parts: self.parts.deep_view(),
            next: self.next as int,
            returned: self.returned.deep_view(),
        }
    }
}

/// An insertion under way.
#[derive(Debug)]
pub struct Insertion {
    pub request: InsertRequest,
    pub stage: InsertStage,
    pub memo: InsertMemo,
}

/// What a new insertion remembers.
pub open spec fn blank_memo() -> InsertMemoV {
    InsertMemoV {
        actor: Seq::empty(),
        body: JsonV::Object(Seq::empty()),
        plan: empty_plan(),
        parts: Seq::empty(),
        next: 0,
        returned: JsonV::Null,
    }
}

/// What follows from a step: where the insertion stands, what it remembers and
/// what it asks for.
pub type InsertTurn = (InsertStage, InsertMemoV, ActionV);

/// The request is answered.
pub open spec fn insert_ends(m: InsertMemoV, a: ActionV) -> InsertTurn {
    (InsertStage::Ended, m, a)
}

/// Whether the request needs a token.
pub open spec fn insert_guarded(q: InsertRequest) -> bool {
    !q.is_public || q.require_auth
}

/// The entry of the audit log for an insertion.
pub open spec fn insert_audit(actor: Seq<char>) -> AuditV {
    AuditV { action: "POST"@, actor_id: actor, id: None }
}

/// The answer to an insertion.
pub open spec fn inserted(id: JsonV) -> crate::flow::ReplyV {
    succeeded("Data inserted"@, 1, JsonV::Object(seq![("id"@, id)]))
}

/// The body of a queued write names who made it, where the table has a column
/// for that.
pub open spec fn queued_body(schema: TableSchema, body: JsonV, actor: Seq<char>) -> JsonV {
    match column_named(schema.columns@, "created_by_id"@) {
        Some(c) => with_key(body, "created_by_id"@, as_json(typed(actor, c.type_data@))),
        None => body,
    }
}

/// How the write is queued.
pub open spec fn queue_insert(q: InsertRequest, m: InsertMemoV, guarded: bool) -> InsertTurn {
    let known = column_named(q.schema.columns@, "created_by_id"@) is Some;
    let job = job_of(
        q.route@,
        WriteOpKindV::Post,
        if guarded {
            queued_body(q.schema, m.body, m.actor)
        } else {
            m.body
        },
        q.now_utc@,
        if guarded && known {
            Some(m.actor)
        } else {
            None
        },
    );
    if q.fast_ack {
        insert_ends(m, ActionV::EnqueueInBackground(job, enqueued()))
    } else {
        (InsertStage::Queueing, m, ActionV::Enqueue(job))
    }
}

/// What follows once the body is there: the write is queued or made.
pub open spec fn body_read(q: InsertRequest, m: InsertMemoV) -> InsertTurn {
    if q.queue_enabled && wants_queue(q.parameters.deep_view()) {
        if insert_guarded(q) {
            (InsertStage::QueueToken, m, ActionV::VerifyToken)
        } else {
            queue_insert(q, m, false)
        }
    } else if q.schema.table@.len() == 0 {
        insert_ends(m, ActionV::Answer(refused(424, missing_entity(q.route@))))
    } else {
        match missing_at(q.schema.post.columns.deep_view(), q.schema.columns@, m.body, 0) {
            Some(i) => insert_ends(
                m,
                ActionV::Answer(
                    refused(400, "Missing required field: "@ + q.schema.post.columns@[i]@),
                ),
            ),
            None => (
                InsertStage::Preparing,
                m,
                ActionV::Prepare(
                    asked_columns(
                        q.schema.columns@,
                        insert_columns(q.schema),
                        q.schema.post.columns.deep_view(),
                        m.body,
                        false,
                    ),
                ),
            ),
        }
    }
}

/// What follows once the row is planned: its foreign keys are checked.
pub open spec fn check_keys(q: InsertRequest, m: InsertMemoV) -> InsertTurn {
    if m.plan.checks.len() > 0 {
        (
            InsertStage::CheckingKeys,
            m,
            ActionV::QueryDb(fk_batch_sql(m.plan.checks), fk_batch_params(m.plan.checks)),
        )
    } else {
        check_unique(q, m)
    }
}

/// The checks of the unique indexes.
pub open spec fn insert_unique_checks(q: InsertRequest, m: InsertMemoV) -> Seq<
    crate::validation::UniqueCheckV,
> {
    unique_checks(q.schema.indexes@, q.schema.columns@, m.body)
}

/// What follows once the foreign keys are checked: so are the unique indexes.
pub open spec fn check_unique(q: InsertRequest, m: InsertMemoV) -> InsertTurn {
    let checks = insert_unique_checks(q, m);
    if !q.mongodb && checks.len() > 0 {
        (
            InsertStage::CheckingUnique,
            m,
            ActionV::QueryDb(
                unique_batch_sql(q.schema.table@, checks),
                unique_batch_params(checks),
            ),
        )
    } else {
        begin_insert(q, m)
    }
}

/// What follows once everything is checked.
pub open spec fn begin_insert(q: InsertRequest, m: InsertMemoV) -> InsertTurn {
    if q.mongodb {
        number_insert(q, m)
    } else {
        (InsertStage::Beginning, m, ActionV::Begin)
    }
}

/// The parts of the tokens up to the next one for a running number.
pub open spec fn advanced(q: InsertRequest, m: InsertMemoV) -> InsertMemoV
    decreases m.plan.tokens.len() - m.next,
{
    if m.next < 0 || m.next >= m.plan.tokens.len() || is_number_token(
        m.plan.tokens[m.next],
        false,
    ) {
        m
    } else {
        advanced(
            q,
            InsertMemoV {
                parts: m.parts + part_of(m.plan.tokens[m.next], m.body, q.today, false),
                next: m.next + 1,
                ..m
            },
        )
    }
}

/// What follows while the identifier is generated: a running number is looked
/// up, or the identifier is there.
pub open spec fn number_insert(q: InsertRequest, m: InsertMemoV) -> InsertTurn {
    let n = advanced(q, m);
    if n.next < n.plan.tokens.len() {
        (
            InsertStage::Numbering,
            n,
            ActionV::RunQuery(highest_query(q.schema.table@, join(n.parts, "/"@))),
        )
    } else {
        complete_insert(q, n)
    }
}

/// What follows once the highest identifier is known. Nothing can, where no
/// number follows that one.
pub open spec fn numbered(q: InsertRequest, m: InsertMemoV, rows: Seq<JsonV>) -> InsertTurn {
    let width = if 0 <= m.next < m.plan.tokens.len() {
        number_width(m.plan.tokens[m.next])
    } else {
        0
    };
    match next_number(highest_id(rows), width) {
        Some(n) => if m.next >= m.plan.tokens.len() {
            insert_ends(m, ActionV::Fault)
        } else {
            number_insert(
                q,
                InsertMemoV {
                    parts: m.parts.push(number_text(n as int, width as int)),
                    next: m.next + 1,
                    ..m
                },
            )
        },
        None => insert_ends(m, ActionV::Fault),
    }
}

/// A plan with the generated identifier, where there is one.
pub open spec fn with_identifier(m: InsertMemoV) -> InsertPlanV {
    if m.plan.tokens.len() > 0 {
        let id = join(m.parts, "/"@);
        InsertPlanV {
            fields: m.plan.fields.push(("id"@, InsertValueV::Param(Scalar::Str(id)))),
            doc: with_field(m.plan.doc, "id"@, JsonV::Str(id)),
            ..m.plan
        }
    } else {
        m.plan
    }
}

/// A plan with the columns of the audit trail.
pub open spec fn with_creation(q: InsertRequest, p: InsertPlanV, actor: Seq<char>) -> InsertPlanV {
    let by = typed(actor, type_or_int(q.schema.columns@, "created_by_id"@));
    InsertPlanV {
        fields: p.fields.push(("created_at"@, InsertValueV::Raw(q.now_expr@))).push(
            ("created_by_id"@, InsertValueV::Param(by)),
        ),
        doc: with_field(
            with_field(p.doc, "created_at"@, JsonV::Str(q.now@)),
            "created_by_id"@,
            as_json(by),
        ),
        ..p
    }
}

/// What follows once the identifier is there: the document is stored, or the
/// statement compiled.
pub open spec fn complete_insert(q: InsertRequest, m: InsertMemoV) -> InsertTurn {
    let plan = with_creation(q, with_identifier(m), m.actor);
    let n = InsertMemoV { plan, ..m };
    if q.mongodb {
        (
            InsertStage::Storing,
            n,
            ActionV::StoreInsert(q.schema.table@, JsonV::Object(plan.doc)),
        )
    } else {
        (
            InsertStage::Compiling,
            n,
            ActionV::CompileInsert(q.schema.table@, plan.fields, seq!["id"@]),
        )
    }
}

/// What follows once the statement is compiled: the data is validated.
pub open spec fn validate_insert(q: InsertRequest, m: InsertMemoV) -> InsertTurn {
    if has_statement(q.schema.post.validate_data@) {
        (
            InsertStage::Validating,
            m,
            ActionV::CheckFormula(q.schema.post.validate_data@, m.body),
        )
    } else {
        preprocess_insert(q, m)
    }
}

/// What follows once the data is valid.
pub open spec fn preprocess_insert(q: InsertRequest, m: InsertMemoV) -> InsertTurn {
    if has_statement(q.schema.post.pre_process@) {
        (
            InsertStage::PreProcessing,
            m,
            ActionV::RunFormula(q.schema.post.pre_process@, m.body),
        )
    } else {
        (InsertStage::Running, m, ActionV::RunCompiled)
    }
}

/// The identifier in the first of some rows.
pub open spec fn id_in_rows(rows: Seq<JsonV>) -> Option<JsonV> {
    if rows.len() > 0 {
        field(rows[0], "id"@)
    } else {
        None
    }
}

/// The identifier of the row: the one that the database gave, unless it is zero,
/// else the one that was inserted.
pub open spec fn settled_id(given: Option<JsonV>, doc: Fields) -> JsonV {
    let own = match lookup(doc, "id"@) {
        Some(v) => v,
        None => JsonV::Null,
    };
    match given {
        Some(v) => if v == JsonV::Int(0) {
            own
        } else {
            v
        },
        None => own,
    }
}

/// What follows once the row is there and its identifier known.
pub open spec fn settle_insert(q: InsertRequest, m: InsertMemoV, given: Option<JsonV>) -> InsertTurn {
    let id = settled_id(given, m.plan.doc);
    let n = InsertMemoV { body: with_key(m.body, "id_new"@, id), returned: id, ..m };
    if has_statement(q.schema.post.post_process@) {
        (
            InsertStage::PostProcessing,
            n,
            ActionV::RunFormula(q.schema.post.post_process@, n.body),
        )
    } else {
        insert_ends(n, ActionV::CommitAndConclude(insert_audit(n.actor), inserted(id)))
    }
}

/// The identifier that a store without transactions gave.
pub open spec fn stored_id(result: JsonV) -> JsonV {
    match field(result, "inserted_id"@) {
        Some(v) => match field(v, "$oid"@) {
            Some(id) => id,
            None => JsonV::Null,
        },
        None => JsonV::Null,
    }
}

/// The value that a step gave.
pub open spec fn value_in(o: Outcome) -> JsonV {
    match o {
        Outcome::Value(v) => v.deep_view(),
        _ => JsonV::Null,
    }
}

/// What follows once the document is stored.
pub open spec fn settle_stored(q: InsertRequest, m: InsertMemoV, result: JsonV) -> InsertTurn {
    let id = stored_id(result);
    let n = InsertMemoV { body: with_key(m.body, "id_new"@, id), returned: id, ..m };
    if has_statement(q.schema.post.post_process@) {
        (
            InsertStage::BuildingAfter,
            n,
            ActionV::BuildFormula(q.schema.post.post_process@, n.body),
        )
    } else {
        stored_concludes(n)
    }
}

/// The insertion of a document is answered.
pub open spec fn stored_concludes(m: InsertMemoV) -> InsertTurn {
    insert_ends(m, ActionV::Conclude(insert_audit(m.actor), inserted(m.returned)))
}

/// What is said of an insertion that failed.
pub open spec fn insert_failure(e: Seq<char>, actor: Seq<char>) -> Seq<char> {
    let low = lowercase(e);
    "Error NCO-POST: "@ + if contains(low, "created_by_id"@) {
        low + " \n id user from token : `"@ + actor + "`"@
    } else {
        low
    }
}

/// What follows from a failed step that was not in a transaction.
pub open spec fn insert_answers(m: InsertMemoV, status: u16, message: Seq<char>) -> InsertTurn {
    insert_ends(m, ActionV::Answer(refused(status, message)))
}

/// What follows from a failed step in a transaction.
pub open spec fn insert_aborts(m: InsertMemoV, status: u16, message: Seq<char>) -> InsertTurn {
    insert_ends(m, ActionV::Abort(refused(status, message)))
}

/// The next step of an insertion.
pub open spec fn insert_next(
    q: InsertRequest,
    stage: InsertStage,
    m: InsertMemoV,
    outcome: Outcome,
) -> InsertTurn {
    match stage {
        InsertStage::Start => if insert_guarded(q) {
            (InsertStage::Token, m, ActionV::VerifyToken)
        } else {
            (InsertStage::Body, m, ActionV::ReadBody)
        },
        InsertStage::Token => match outcome {
            Outcome::Identified(id) => (
                InsertStage::Access,
                InsertMemoV { actor: id@, ..m },
                ActionV::CheckAccess("write"@),
            ),
            _ => insert_answers(m, 401, "Invalid token"@),
        },
        InsertStage::Access => match failure_in(outcome) {
            Some(_) => insert_answers(m, 401, "Unauthorized"@),
            None => (InsertStage::Body, m, ActionV::ReadBody),
        },
        InsertStage::Body => match failure_in(outcome) {
            Some(e) => insert_answers(m, 400, "Failed to parse multipart data: "@ + e),
            None => match outcome {
                Outcome::Body(fields) => body_read(
                    q,
                    InsertMemoV { body: JsonV::Object(fields.deep_view()), ..m },
                ),
                _ => body_read(q, m),
            },
        },
        InsertStage::QueueToken => match outcome {
            Outcome::Identified(id) => (
                InsertStage::QueueAccess,
                InsertMemoV { actor: id@, ..m },
                ActionV::CheckAccess("write"@),
            ),
            _ => insert_answers(m, 401, "Invalid token"@),
        },
        InsertStage::QueueAccess => match failure_in(outcome) {
            Some(_) => insert_answers(m, 401, "Unauthorized"@),
            None => queue_insert(q, m, true),
        },
        InsertStage::Queueing => match failure_in(outcome) {
            Some(e) => insert_answers(m, 500, "Queue error: "@ + e),
            None => insert_ends(m, ActionV::Answer(enqueued())),
        },
        InsertStage::Preparing => match outcome {
            Outcome::Prepared(prep) => check_keys(
                q,
                InsertMemoV {
                    plan: plan_of(
                        q.schema,
                        m.body,
                        prep,
                        insert_columns(q.schema).len() as int,
                    ),
                    ..m
                },
            ),
            _ => insert_ends(m, ActionV::Fault),
        },
        InsertStage::CheckingKeys => match failure_in(outcome) {
            Some(e) => insert_answers(m, 400, "FK batch validation failed: "@ + e),
            None => match fk_verdict(rows_in(outcome), Reading::NotFalse) {
                Some(message) => insert_answers(m, 400, message),
                None => check_unique(q, m),
            },
        },
        InsertStage::CheckingUnique => match failure_in(outcome) {
            Some(e) => insert_answers(m, 400, "Unique batch validation failed: "@ + e),
            None => match unique_verdict(
                rows_in(outcome),
                insert_unique_checks(q, m),
                Reading::OnlyTrue,
            ) {
                Some(message) => insert_answers(m, 400, message),
                None => begin_insert(q, m),
            },
        },
        InsertStage::Beginning => match failure_in(outcome) {
            Some(e) => insert_answers(m, 500, "Error starting transaction: "@ + e),
            None => number_insert(q, m),
        },
        InsertStage::Numbering => numbered(q, m, rows_in(outcome)),
        InsertStage::Compiling => match failure_in(outcome) {
            Some(e) => insert_answers(m, 500, "Error compiling AST INSERT: "@ + e),
            None => validate_insert(q, m),
        },
        InsertStage::Validating => match outcome {
            Outcome::NotBuilt(e) => insert_aborts(
                m,
                400,
                "Error building validation formula: "@ + e@,
            ),
            Outcome::Failed(e) => insert_aborts(m, 400, "Error in validation_data: "@ + e@),
            _ => match validation_verdict(rows_in(outcome)) {
                Some(message) => insert_aborts(m, 400, message),
                None => preprocess_insert(q, m),
            },
        },
        InsertStage::PreProcessing => match failure_in(outcome) {
            Some(e) => insert_aborts(m, 500, "Error in pre-process: "@ + e),
            None => (InsertStage::Running, m, ActionV::RunCompiled),
        },
        InsertStage::Storing => match failure_in(outcome) {
            Some(e) => insert_answers(m, 500, "Error NCO-POST (mongo): "@ + e),
            None => settle_stored(q, m, value_in(outcome)),
        },
        InsertStage::BuildingAfter => match outcome {
            Outcome::Built(sql, params) => match select_query(sql@, params.deep_view()) {
                Some(query) => (InsertStage::QueryingAfter, m, ActionV::RunQuery(query)),
                None => stored_concludes(m),
            },
            _ => stored_concludes(m),
        },
        InsertStage::QueryingAfter => stored_concludes(m),
        InsertStage::Running => match failure_in(outcome) {
            Some(e) => insert_aborts(m, 500, insert_failure(e, m.actor)),
            None => {
                let given = id_in_rows(rows_in(outcome));
                if given is None && q.mysql {
                    (
                        InsertStage::LastId,
                        m,
                        ActionV::RunSql("SELECT LAST_INSERT_ID() AS id"@, Seq::empty()),
                    )
                } else {
                    settle_insert(q, m, given)
                }
            },
        },
        InsertStage::LastId => settle_insert(q, m, id_in_rows(rows_in(outcome))),
        InsertStage::PostProcessing => match failure_in(outcome) {
            Some(e) => insert_aborts(m, 500, "Error executing post-process SQL: "@ + e),
            None => insert_ends(
                m,
                ActionV::CommitAndConclude(insert_audit(m.actor), inserted(m.returned)),
            ),
        },
        InsertStage::Ended => insert_ends(m, ActionV::Nothing),
    }
}

/// An insertion that has not begun.
pub fn insert(request: InsertRequest) -> (r: Insertion)
    ensures
        r.request == request,
        r.stage == InsertStage::Start,
        r.memo.deep_view() == blank_memo(),
{
    broadcast use lemma_object_view;

    let memo = InsertMemo {
        actor: String::new(),
        body: Json::Object(Vec::new()),
        plan: InsertPlan {
            fields: Vec::new(),
            doc: Vec::new(),
            checks: Vec::new(),
            tokens: Vec::new(),
        },
        parts: Vec::new(),
        next: 0,
        returned: Json::Null,
    };
    let none: Vec<(String, Json)> = Vec::new();
    assert(memo.body.deep_view()->Object_0 =~= Seq::empty());
    assert(memo.plan.fields.deep_view() =~= Seq::empty());
    assert(memo.plan.doc.deep_view() =~= Seq::empty());
    assert(memo.plan.checks.deep_view() =~= Seq::empty());
    assert(memo.plan.tokens.deep_view() =~= Seq::empty());
    assert(memo.parts.deep_view() =~= Seq::empty());
    Insertion { request, stage: InsertStage::Start, memo }
}

/// The answer to an insertion.
fn say_inserted(id: &Json) -> (r: crate::flow::Reply)
    ensures
        r.deep_view() == inserted(id.deep_view()),
{
    broadcast use lemma_object_view;

    let mut data: Vec<(String, Json)> = Vec::new();
    push_item(&mut data, ("id".to_owned(), id.copy()));
    assert(data.deep_view() =~= seq![("id"@, id.deep_view())]);
    succeed("Data inserted", 1, Json::Object(data))
}

/// The identifier in the first of some rows.
pub fn find_id(rows: &Vec<Json>) -> (r: Option<Json>)
    ensures
        r.deep_view() == id_in_rows(rows.deep_view()),
{
    if rows.len() > 0 {
        assert(rows.deep_view()[0] == rows@[0].deep_view());
        match rows[0].get("id") {
            Some(v) => Some(v.copy()),
            None => None,
        }
    } else {
        None
    }
}

/// The rows that a step gave.
pub fn take_rows(o: Outcome) -> (r: Vec<Json>)
    ensures
        r.deep_view() == rows_in(o),
{
    let none: Vec<Json> = Vec::new();
    assert(none.deep_view() =~= Seq::empty());
    match o {
        Outcome::Rows(rows) => rows,
        _ => none,
    }
}

impl Insertion {
    fn answer(&mut self, status: u16, message: String) -> (r: Action)
        ensures
            final(self).request == old(self).request,
            (final(self).stage, final(self).memo.deep_view(), r.deep_view()) == insert_answers(
                old(self).memo.deep_view(),
                status,
                message@,
            ),
    {
        self.stage = InsertStage::Ended;
        Action::Answer(refuse(status, message))
    }

    fn abort(&mut self, status: u16, message: String) -> (r: Action)
        ensures
            final(self).request == old(self).request,
            (final(self).stage, final(self).memo.deep_view(), r.deep_view()) == insert_aborts(
                old(self).memo.deep_view(),
                status,
                message@,
            ),
    {
        self.stage = InsertStage::Ended;
        Action::Abort(refuse(status, message))
    }

    fn fault(&mut self) -> (r: Action)
        ensures
            final(self).request == old(self).request,
            (final(self).stage, final(self).memo.deep_view(), r.deep_view()) == insert_ends(
                old(self).memo.deep_view(),
                ActionV::Fault,
            ),
    {
        self.stage = InsertStage::Ended;
        Action::Fault
    }

    fn ask(&mut self, stage: InsertStage, action: Action) -> (r: Action)
        ensures
            final(self).request == old(self).request,
            final(self).stage == stage,
            final(self).memo == old(self).memo,
            r == action,
    {
        self.stage = stage;
        action
    }

    fn audit(&self) -> (r: Audit)
        ensures
            r.deep_view() == insert_audit(self.memo.actor@),
    {
        Audit { action: "POST".to_owned(), actor_id: self.memo.actor.clone(), id: None }
    }

    fn queue(&mut self, guarded: bool) -> (r: Action)
        ensures
            final(self).request == old(self).request,
            (final(self).stage, final(self).memo.deep_view(), r.deep_view()) == queue_insert(
                old(self).request,
                old(self).memo.deep_view(),
                guarded,
            ),
    {
        let mut body = self.memo.body.copy();
        let mut actor: Option<String> = None;
        if guarded {
            match find_column(&self.request.schema.columns, "created_by_id") {
                Some(c) => {
                    let by = typed_param(self.memo.actor.as_str(), c.type_data.as_str());
                    body.set("created_by_id", to_json(by));
                    actor = Some(self.memo.actor.clone());
                },
                None => {},
            }
        }
        let job = make_job(
            self.request.route.as_str(),
            WriteOpKind::Post,
            body,
            self.request.now_utc.as_str(),
            actor,
        );
        if self.request.fast_ack {
            self.ask(InsertStage::Ended, Action::EnqueueInBackground(job, say_enqueued()))
        } else {
            self.ask(InsertStage::Queueing, Action::Enqueue(job))
        }
    }

    fn body_read(&mut self) -> (r: Action)
        ensures
            final(self).request == old(self).request,
            (final(self).stage, final(self).memo.deep_view(), r.deep_view()) == body_read(
                old(self).request,
                old(self).memo.deep_view(),
            ),
    {
        if self.request.queue_enabled && queue_wanted(&self.request.parameters) {
            if !self.request.is_public || self.request.require_auth {
                self.ask(InsertStage::QueueToken, Action::VerifyToken)
            } else {
                self.queue(false)
            }
        } else if self.request.schema.table.as_str().is_empty() {
            let message = say_missing_entity(self.request.route.as_str());
            self.answer(424, message)
        } else {
            match find_missing(
                &self.request.schema.post.columns,
                &self.request.schema.columns,
                &self.memo.body,
            ) {
                Some(i) => {
                    let message = told(
                        "Missing required field: ",
                        self.request.schema.post.columns[i].as_str(),
                    );
                    self.answer(400, message)
                },
                None => {
                    let picked = build_insert_columns(&self.request.schema);
                    let asked = ask_columns(
                        &self.request.schema.columns,
                        &picked,
                        &self.request.schema.post.columns,
                        &self.memo.body,
                        false,
                    );
                    self.ask(InsertStage::Preparing, Action::Prepare(asked))
                },
            }
        }
    }

    fn check_keys(&mut self) -> (r: Action)
        ensures
            final(self).request == old(self).request,
            (final(self).stage, final(self).memo.deep_view(), r.deep_view()) == check_keys(
                old(self).request,
                old(self).memo.deep_view(),
            ),
    {
        assert(self.memo.plan.checks.deep_view().len() == self.memo.plan.checks@.len());
        if self.memo.plan.checks.len() > 0 {
            let (sql, params) = build_fk_batch(&self.memo.plan.checks);
            self.ask(InsertStage::CheckingKeys, Action::QueryDb(sql, params))
        } else {
            self.check_unique()
        }
    }

    fn check_unique(&mut self) -> (r: Action)
        ensures
            final(self).request == old(self).request,
            (final(self).stage, final(self).memo.deep_view(), r.deep_view()) == check_unique(
                old(self).request,
                old(self).memo.deep_view(),
            ),
    {
        let checks = build_unique_checks(
            &self.request.schema.indexes,
            &self.request.schema.columns,
            &self.memo.body,
        );
        assert(checks.deep_view().len() == checks@.len());
        if !self.request.mongodb && checks.len() > 0 {
            let (sql, params) = build_unique_batch(self.request.schema.table.as_str(), &checks);
            self.ask(InsertStage::CheckingUnique, Action::QueryDb(sql, params))
        } else {
            self.begin()
        }
    }

    fn begin(&mut self) -> (r: Action)
        ensures
            final(self).request == old(self).request,
            (final(self).stage, final(self).memo.deep_view(), r.deep_view()) == begin_insert(
                old(self).request,
                old(self).memo.deep_view(),
            ),
    {
        if self.request.mongodb {
            self.number()
        } else {
            self.ask(InsertStage::Beginning, Action::Begin)
        }
    }

    fn number(&mut self) -> (r: Action)
        ensures
            final(self).request == old(self).request,
            (final(self).stage, final(self).memo.deep_view(), r.deep_view()) == number_insert(
                old(self).request,
                old(self).memo.deep_view(),
            ),
    {
        let ghost q = self.request;
        let ghost start = self.memo.deep_view();
        while self.memo.next < self.memo.plan.tokens.len() && !number_token(
            self.memo.plan.tokens[self.memo.next].as_str(),
            false,
        )
            invariant
                self.request == q,
                advanced(q, start) == advanced(q, self.memo.deep_view()),
            decreases self.memo.plan.tokens@.len() - self.memo.next,
        {
            let ghost before = self.memo.deep_view();
            let token = self.memo.plan.tokens[self.memo.next].clone();
            assert(before.plan.tokens[before.next] == token@);
            push_part(
                &mut self.memo.parts,
                token.as_str(),
                &self.memo.body,
                &self.request.today,
                false,
            );
            self.memo.next = self.memo.next + 1;
            assert(self.memo.deep_view() == (InsertMemoV {
                parts: before.parts + part_of(
                    before.plan.tokens[before.next],
                    before.body,
                    q.today,
                    false,
                ),
                next: before.next + 1,
                ..before
            }));
        }
        let ghost n = self.memo.deep_view();
        assert(n.plan.tokens.len() == self.memo.plan.tokens@.len());
        assert(n.next < n.plan.tokens.len() ==> n.plan.tokens[n.next]
            == self.memo.plan.tokens@[n.next]@);
        assert(advanced(q, n) == n);
        if self.memo.next < self.memo.plan.tokens.len() {
            let prefix = joined(&self.memo.parts, "/");
            let query = build_highest_query(self.request.schema.table.as_str(), prefix.as_str());
            self.ask(InsertStage::Numbering, Action::RunQuery(query))
        } else {
            self.complete()
        }
    }

    fn numbered(&mut self, rows: Vec<Json>) -> (r: Action)
        ensures
            final(self).request == old(self).request,
            (final(self).stage, final(self).memo.deep_view(), r.deep_view()) == numbered(
                old(self).request,
                old(self).memo.deep_view(),
                rows.deep_view(),
            ),
    {
        let ghost before = self.memo.deep_view();
        assert(before.plan.tokens.len() == self.memo.plan.tokens@.len());
        if self.memo.next >= self.memo.plan.tokens.len() {
            return self.fault();
        }
        assert(before.plan.tokens[before.next] == self.memo.plan.tokens@[before.next]@);
        let width: usize = width_of(self.memo.plan.tokens[self.memo.next].as_str());
        let highest = read_highest(&rows);
        match read_next_number(highest.as_str(), width) {
            Some(n) => {
                push_item(&mut self.memo.parts, write_number(n, width));
                self.memo.next = self.memo.next + 1;
                self.number()
            },
            None => self.fault(),
        }
    }

    fn complete(&mut self) -> (r: Action)
        ensures
            final(self).request == old(self).request,
            (final(self).stage, final(self).memo.deep_view(), r.deep_view()) == complete_insert(
                old(self).request,
                old(self).memo.deep_view(),
            ),
    {
        broadcast use lemma_object_view;

        let ghost before = self.memo.deep_view();
        assert(before.plan.tokens.len() == self.memo.plan.tokens@.len());
        if self.memo.plan.tokens.len() > 0 {
            let id = joined(&self.memo.parts, "/");
            set_in(&mut self.memo.plan.doc, "id", Json::Str(id.clone()));
            push_item(
                &mut self.memo.plan.fields,
                ("id".to_owned(), InsertValue::Param(DbParam::Str(id))),
            );
        }
        assert(self.memo.plan.deep_view() == with_identifier(before));
        let t = column_type(&self.request.schema.columns, "created_by_id");
        let by = typed_param(self.memo.actor.as_str(), t.as_str());
        push_item(
            &mut self.memo.plan.fields,
            ("created_at".to_owned(), InsertValue::Raw(self.request.now_expr.clone())),
        );
        set_in(&mut self.memo.plan.doc, "created_at", Json::Str(self.request.now.clone()));
        set_in(&mut self.memo.plan.doc, "created_by_id", to_json(by.copy()));
        push_item(
            &mut self.memo.plan.fields,
            ("created_by_id".to_owned(), InsertValue::Param(by)),
        );
        let table = self.request.schema.table.clone();
        if self.request.mongodb {
            let doc = copy_fields(&self.memo.plan.doc);
            self.ask(InsertStage::Storing, Action::StoreInsert(table, Json::Object(doc)))
        } else {
            let fields = copy_field_values(&self.memo.plan.fields);
            let mut returning: Vec<String> = Vec::new();
            push_item(&mut returning, "id".to_owned());
            assert(returning.deep_view() =~= seq!["id"@]);
            self.ask(InsertStage::Compiling, Action::CompileInsert(table, fields, returning))
        }
    }

    fn validate(&mut self) -> (r: Action)
        ensures
            final(self).request == old(self).request,
            (final(self).stage, final(self).memo.deep_view(), r.deep_view()) == validate_insert(
                old(self).request,
                old(self).memo.deep_view(),
            ),
    {
        if holds_statement(self.request.schema.post.validate_data.as_str()) {
            let action = Action::CheckFormula(
                self.request.schema.post.validate_data.clone(),
                self.memo.body.copy(),
            );
            self.ask(InsertStage::Validating, action)
        } else {
            self.preprocess()
        }
    }

    fn preprocess(&mut self) -> (r: Action)
        ensures
            final(self).request == old(self).request,
            (final(self).stage, final(self).memo.deep_view(), r.deep_view()) == preprocess_insert(
                old(self).request,
                old(self).memo.deep_view(),
            ),
    {
        if holds_statement(self.request.schema.post.pre_process.as_str()) {
            let action = Action::RunFormula(
                self.request.schema.post.pre_process.clone(),
                self.memo.body.copy(),
            );
            self.ask(InsertStage::PreProcessing, action)
        } else {
            self.ask(InsertStage::Running, Action::RunCompiled)
        }
    }

    fn commit(&mut self) -> (r: Action)
        ensures
            final(self).request == old(self).request,
            (final(self).stage, final(self).memo.deep_view(), r.deep_view()) == insert_ends(
                old(self).memo.deep_view(),
                ActionV::CommitAndConclude(
                    insert_audit(old(self).memo.actor@),
                    inserted(old(self).memo.returned.deep_view()),
                ),
            ),
    {
        let action = Action::CommitAndConclude(self.audit(), say_inserted(&self.memo.returned));
        self.ask(InsertStage::Ended, action)
    }

    fn settle(&mut self, given: Option<Json>) -> (r: Action)
        ensures
            final(self).request == old(self).request,
            (final(self).stage, final(self).memo.deep_view(), r.deep_view()) == settle_insert(
                old(self).request,
                old(self).memo.deep_view(),
                given.deep_view(),
            ),
    {
        let own = match get_in(&self.memo.plan.doc, "id") {
            Some(v) => v.copy(),
            None => Json::Null,
        };
        let id = match given {
            Some(v) => match v {
                Json::Int(n) => if n == 0 {
                    own
                } else {
                    Json::Int(n)
                },
                other => other,
            },
            None => own,
        };
        assert(id.deep_view() == settled_id(given.deep_view(), self.memo.plan.doc.deep_view()));
        self.memo.body.set("id_new", id.copy());
        self.memo.returned = id;
        if holds_statement(self.request.schema.post.post_process.as_str()) {
            let action = Action::RunFormula(
                self.request.schema.post.post_process.clone(),
                self.memo.body.copy(),
            );
            self.ask(InsertStage::PostProcessing, action)
        } else {
            self.commit()
        }
    }

    fn conclude_stored(&mut self) -> (r: Action)
        ensures
            final(self).request == old(self).request,
            (final(self).stage, final(self).memo.deep_view(), r.deep_view()) == stored_concludes(
                old(self).memo.deep_view(),
            ),
    {
        let action = Action::Conclude(self.audit(), say_inserted(&self.memo.returned));
        self.ask(InsertStage::Ended, action)
    }

    fn settle_stored(&mut self, result: Json) -> (r: Action)
        ensures
            final(self).request == old(self).request,
            (final(self).stage, final(self).memo.deep_view(), r.deep_view()) == settle_stored(
                old(self).request,
                old(self).memo.deep_view(),
                result.deep_view(),
            ),
    {
        let id = match result.get("inserted_id") {
            Some(v) => match v.get("$oid") {
                Some(id) => id.copy(),
                None => Json::Null,
            },
            None => Json::Null,
        };
        self.memo.body.set("id_new", id.copy());
        self.memo.returned = id;
        if holds_statement(self.request.schema.post.post_process.as_str()) {
            let action = Action::BuildFormula(
                self.request.schema.post.post_process.clone(),
                self.memo.body.copy(),
            );
            self.ask(InsertStage::BuildingAfter, action)
        } else {
            self.conclude_stored()
        }
    }

    /// Takes the next step of the insertion, with what came of the last one.
    pub fn step(&mut self, outcome: Outcome) -> (r: Action)
        ensures
            final(self).request == old(self).request,
            (final(self).stage, final(self).memo.deep_view(), r.deep_view()) == insert_next(
                old(self).request,
                old(self).stage,
                old(self).memo.deep_view(),
                outcome,
            ),
    {
        broadcast use lemma_object_view;

        match self.stage {
            InsertStage::Start => {
                if !self.request.is_public || self.request.require_auth {
                    self.ask(InsertStage::Token, Action::VerifyToken)
                } else {
                    self.ask(InsertStage::Body, Action::ReadBody)
                }
            },
            InsertStage::Token => match outcome {
                Outcome::Identified(id) => {
                    self.memo.actor = id;
                    self.ask(InsertStage::Access, Action::CheckAccess("write".to_owned()))
                },
                _ => self.answer(401, "Invalid token".to_owned()),
            },
            InsertStage::Access => match failure(&outcome) {
                Some(_) => self.answer(401, "Unauthorized".to_owned()),
                None => self.ask(InsertStage::Body, Action::ReadBody),
            },
            InsertStage::Body => match failure(&outcome) {
                Some(e) => self.answer(400, told("Failed to parse multipart data: ", e)),
                None => {
                    match outcome {
                        Outcome::Body(fields) => {
                            self.memo.body = Json::Object(fields);
                        },
                        _ => {},
                    }
                    self.body_read()
                },
            },
            InsertStage::QueueToken => match outcome {
                Outcome::Identified(id) => {
                    self.memo.actor = id;
                    self.ask(InsertStage::QueueAccess, Action::CheckAccess("write".to_owned()))
                },
                _ => self.answer(401, "Invalid token".to_owned()),
            },
            InsertStage::QueueAccess => match failure(&outcome) {
                Some(_) => self.answer(401, "Unauthorized".to_owned()),
                None => self.queue(true),
            },
            InsertStage::Queueing => match failure(&outcome) {
                Some(e) => self.answer(500, told("Queue error: ", e)),
                None => self.ask(InsertStage::Ended, Action::Answer(say_enqueued())),
            },
            InsertStage::Preparing => match outcome {
                Outcome::Prepared(prep) => {
                    self.memo.plan = plan_insert(&self.request.schema, &self.memo.body, &prep);
                    self.check_keys()
                },
                _ => self.fault(),
            },
            InsertStage::CheckingKeys => match failure(&outcome) {
                Some(e) => self.answer(400, told("FK batch validation failed: ", e)),
                None => {
                    let rows = take_rows(outcome);
                    match validate_foreign_keys_batch(&rows, Reading::NotFalse) {
                        Some(message) => self.answer(400, message),
                        None => self.check_unique(),
                    }
                },
            },
            InsertStage::CheckingUnique => match failure(&outcome) {
                Some(e) => self.answer(400, told("Unique batch validation failed: ", e)),
                None => {
                    let rows = take_rows(outcome);
                    let checks = build_unique_checks(
                        &self.request.schema.indexes,
                        &self.request.schema.columns,
                        &self.memo.body,
                    );
                    match validate_unique_constraints_batch(&rows, &checks, Reading::OnlyTrue) {
                        Some(message) => self.answer(400, message),
                        None => self.begin(),
                    }
                },
            },
            InsertStage::Beginning => match failure(&outcome) {
                Some(e) => self.answer(500, told("Error starting transaction: ", e)),
                None => self.number(),
            },
            InsertStage::Numbering => {
                let rows = take_rows(outcome);
                self.numbered(rows)
            },
            InsertStage::Compiling => match failure(&outcome) {
                Some(e) => self.answer(500, told("Error compiling AST INSERT: ", e)),
                None => self.validate(),
            },
            InsertStage::Validating => match outcome {
                Outcome::NotBuilt(e) => self.abort(
                    400,
                    told("Error building validation formula: ", e.as_str()),
                ),
                Outcome::Failed(e) => self.abort(400, told("Error in validation_data: ", e.as_str())),
                other => {
                    let rows = take_rows(other);
                    match judge_validation(&rows) {
                        Some(message) => self.abort(400, message),
                        None => self.preprocess(),
                    }
                },
            },
            InsertStage::PreProcessing => match failure(&outcome) {
                Some(e) => self.abort(500, told("Error in pre-process: ", e)),
                None => self.ask(InsertStage::Running, Action::RunCompiled),
            },
            InsertStage::Storing => match failure(&outcome) {
                Some(e) => self.answer(500, told("Error NCO-POST (mongo): ", e)),
                None => match outcome {
                    Outcome::Value(v) => self.settle_stored(v),
                    _ => self.settle_stored(Json::Null),
                },
            },
            InsertStage::BuildingAfter => match outcome {
                Outcome::Built(sql, params) => match build_select_query(sql.as_str(), &params) {
                    Some(query) => self.ask(
                        InsertStage::QueryingAfter,
                        Action::RunQuery(query),
                    ),
                    None => self.conclude_stored(),
                },
                _ => self.conclude_stored(),
            },
            InsertStage::QueryingAfter => self.conclude_stored(),
            InsertStage::Running => match failure(&outcome) {
                Some(e) => {
                    let message = say_insert_failure(e, self.memo.actor.as_str());
                    self.abort(500, message)
                },
                None => {
                    let rows = take_rows(outcome);
                    match find_id(&rows) {
                        Some(id) => self.settle(Some(id)),
                        None => if self.request.mysql {
                            let none: Vec<DbParam> = Vec::new();
                            assert(none.deep_view() =~= Seq::empty());
                            self.ask(
                                InsertStage::LastId,
                                Action::RunSql("SELECT LAST_INSERT_ID() AS id".to_owned(), none),
                            )
                        } else {
                            self.settle(None)
                        },
                    }
                },
            },
            InsertStage::LastId => {
                let rows = take_rows(outcome);
                let given = find_id(&rows);
                self.settle(given)
            },
            InsertStage::PostProcessing => match failure(&outcome) {
                Some(e) => self.abort(500, told("Error executing post-process SQL: ", e)),
                None => self.commit(),
            },
            InsertStage::Ended => Action::Nothing,
        }
    }
}

/// What is said of an insertion that failed.
pub fn say_insert_failure(e: &str, actor: &str) -> (r: String)
    ensures
        r@ == insert_failure(e@, actor@),
{
    let mut low = to_lowercase(e);
    if has_text(low.as_str(), "created_by_id") {
        low.append(" \n id user from token : `");
        low.append(actor);
        low.append("`");
    }
    told("Error NCO-POST: ", low.as_str())
}

// ---------------------------------------------------------------------------
// Laws
// ---------------------------------------------------------------------------

/// Where an insertion stands, and what it remembers, after some outcomes, one
/// after the other.
pub open spec fn insert_after(q: InsertRequest, outcomes: Seq<Outcome>) -> (InsertStage, InsertMemoV)
    decreases outcomes.len(),
{
    if outcomes.len() == 0 {
        (InsertStage::Start, blank_memo())
    } else {
        let (stage, m) = insert_after(q, outcomes.drop_last());
        let (s, n, _) = insert_next(q, stage, m, outcomes.last());
        (s, n)
    }
}

/// What an insertion asks for after some outcomes.
pub open spec fn insert_asks(q: InsertRequest, outcomes: Seq<Outcome>) -> ActionV {
    let (stage, m) = insert_after(q, outcomes.drop_last());
    insert_next(q, stage, m, outcomes.last()).2
}

/// Whether the outcome at `k` answered a check of access, and granted it.
pub open spec fn insert_granted_at(q: InsertRequest, outcomes: Seq<Outcome>, k: int) -> bool {
    &&& 0 < k < outcomes.len()
    &&& insert_asks(q, outcomes.take(k)) is CheckAccess
    &&& failure_in(outcomes[k]) is None
}

/// The stages that come before access is granted.
pub open spec fn insert_before_access(stage: InsertStage) -> bool {
    stage == InsertStage::Start || stage == InsertStage::Token || stage == InsertStage::Access
        || stage == InsertStage::Ended
}

proof fn lemma_insert_granted(q: InsertRequest, outcomes: Seq<Outcome>)
    requires
        insert_guarded(q),
    ensures
        !insert_before_access(insert_after(q, outcomes).0) ==> exists|k: int|
            insert_granted_at(q, outcomes, k),
        insert_after(q, outcomes).0 == InsertStage::Access ==> outcomes.len() > 0 && insert_asks(
            q,
            outcomes,
        ) is CheckAccess,
    decreases outcomes.len(),
{
    if outcomes.len() > 0 {
        let before = outcomes.drop_last();
        lemma_insert_granted(q, before);
        let (stage, m) = insert_after(q, before);
        if !insert_before_access(insert_after(q, outcomes).0) {
            if insert_before_access(stage) {
                let k = outcomes.len() - 1;
                assert(outcomes.take(k) =~= before);
                assert(insert_granted_at(q, outcomes, k));
            } else {
                let k = choose|k: int| insert_granted_at(q, before, k);
                assert(before.take(k) =~= outcomes.take(k));
                assert(before[k] == outcomes[k]);
                assert(insert_granted_at(q, outcomes, k));
            }
        }
    }
}

/// Where a request needs a token, no stored data and no queue is touched unless
/// access was checked and granted before.
pub proof fn law_insert_is_guarded(q: InsertRequest, outcomes: Seq<Outcome>)
    requires
        insert_guarded(q),
        outcomes.len() > 0,
        touches_data(insert_asks(q, outcomes)),
    ensures
        exists|k: int| insert_granted_at(q, outcomes, k),
{
    let before = outcomes.drop_last();
    lemma_insert_granted(q, before);
    let (stage, m) = insert_after(q, before);
    assert(!insert_before_access(stage));
    let k = choose|k: int| insert_granted_at(q, before, k);
    assert(before.take(k) =~= outcomes.take(k));
    assert(before[k] == outcomes[k]);
    assert(insert_granted_at(q, outcomes, k));
}

/// Whether a transaction is open in a stage.
pub open spec fn insert_in_transaction(q: InsertRequest, stage: InsertStage) -> bool {
    !q.mongodb && (stage == InsertStage::Numbering || stage == InsertStage::Compiling || stage
        == InsertStage::Validating || stage == InsertStage::PreProcessing || stage
        == InsertStage::Running || stage == InsertStage::LastId || stage
        == InsertStage::PostProcessing)
}

proof fn lemma_number_turn(q: InsertRequest, m: InsertMemoV)
    ensures
        ({
            let (s, _, a) = number_insert(q, m);
            &&& !answers(a)
            &&& q.mongodb ==> s == InsertStage::Numbering && a is RunQuery || s
                == InsertStage::Storing && a is StoreInsert
            &&& !q.mongodb ==> s == InsertStage::Numbering && a is RunQuery || s
                == InsertStage::Compiling && a is CompileInsert
        }),
{
}

/// None of the transactions stays open: inside one a request is answered only by
/// rolling back or by committing, unless the statement could not be compiled.
/// What runs in a transaction runs after one was begun.
#[verifier::spinoff_prover]
#[verifier::rlimit(60)]
pub proof fn law_insert_closes_its_transaction(
    q: InsertRequest,
    stage: InsertStage,
    m: InsertMemoV,
    outcome: Outcome,
)
    requires
        !q.mongodb,
        stage != InsertStage::Storing && stage != InsertStage::BuildingAfter && stage
            != InsertStage::QueryingAfter,
    ensures
        ({
            let (s, _, a) = insert_next(q, stage, m, outcome);
            &&& answers(a) ==> s == InsertStage::Ended
            &&& answers(a) && insert_in_transaction(q, stage) ==> a is Abort || a
                is CommitAndConclude || stage == InsertStage::Compiling
            &&& (a is Abort || a is CommitAndConclude) ==> insert_in_transaction(q, stage)
            &&& (a is RunCompiled || a is RunSql || a is RunFormula || a is CheckFormula || a
                is CompileInsert || a is RunQuery) ==> insert_in_transaction(q, s)
            &&& insert_in_transaction(q, s) && !insert_in_transaction(q, stage) ==> stage
                == InsertStage::Beginning && failure_in(outcome) is None
        }),
{
    lemma_number_turn(q, m);
    if let InsertStage::Numbering = stage {
        let width = if 0 <= m.next < m.plan.tokens.len() {
            number_width(m.plan.tokens[m.next])
        } else {
            0
        };
        match next_number(highest_id(rows_in(outcome)), width) {
            Some(n) => {
                lemma_number_turn(
                    q,
                    InsertMemoV {
                        parts: m.parts.push(number_text(n as int, width as int)),
                        next: m.next + 1,
                        ..m
                    },
                );
            },
            None => {},
        }
    }
}

/// A store without transactions never sees one.
#[verifier::spinoff_prover]
#[verifier::rlimit(60)]
pub proof fn law_insert_without_transactions(
    q: InsertRequest,
    stage: InsertStage,
    m: InsertMemoV,
    outcome: Outcome,
)
    requires
        q.mongodb,
        stage != InsertStage::Beginning && stage != InsertStage::CheckingUnique && stage
            != InsertStage::Compiling && stage != InsertStage::Validating && stage
            != InsertStage::PreProcessing && stage != InsertStage::Running && stage
            != InsertStage::LastId && stage != InsertStage::PostProcessing,
    ensures
        ({
            let (s, _, a) = insert_next(q, stage, m, outcome);
            &&& !(a is Begin || a is Commit || a is Abort || a is CommitAndConclude || a
                is RunCompiled || a is RunSql || a is RunFormula || a is CheckFormula)
            &&& s != InsertStage::Beginning && s != InsertStage::CheckingUnique && s
                != InsertStage::Compiling && s != InsertStage::Validating && s
                != InsertStage::PreProcessing && s != InsertStage::Running && s
                != InsertStage::LastId && s != InsertStage::PostProcessing
        }),
{
    lemma_number_turn(q, m);
    if let InsertStage::Numbering = stage {
        let width = if 0 <= m.next < m.plan.tokens.len() {
            number_width(m.plan.tokens[m.next])
        } else {
            0
        };
        match next_number(highest_id(rows_in(outcome)), width) {
            Some(n) => {
                lemma_number_turn(
                    q,
                    InsertMemoV {
                        parts: m.parts.push(number_text(n as int, width as int)),
                        next: m.next + 1,
                        ..m
                    },
                );
            },
            None => {},
        }
    }
    if let InsertStage::Preparing = stage {
        if let Outcome::Prepared(prep) = outcome {
            lemma_number_turn(
                q,
                InsertMemoV {
                    plan: plan_of(q.schema, m.body, prep, insert_columns(q.schema).len() as int),
                    ..m
                },
            );
        }
    }
}

/// A row is reported as inserted only when the insertion was committed, the
/// document was stored, or the write was queued.
#[verifier::spinoff_prover]
#[verifier::rlimit(60)]
pub proof fn law_insert_success_is_real(
    q: InsertRequest,
    stage: InsertStage,
    m: InsertMemoV,
    outcome: Outcome,
)
    requires
        answers_success(insert_next(q, stage, m, outcome).2),
    ensures
        ({
            let a = insert_next(q, stage, m, outcome).2;
            ||| a is EnqueueInBackground
            ||| a is CommitAndConclude
            ||| stage == InsertStage::Queueing && failure_in(outcome) is None
            ||| stage == InsertStage::Storing && failure_in(outcome) is None
            ||| stage == InsertStage::BuildingAfter
            ||| stage == InsertStage::QueryingAfter
        }),
{
    lemma_number_turn(q, m);
    if let InsertStage::Numbering = stage {
        let width = if 0 <= m.next < m.plan.tokens.len() {
            number_width(m.plan.tokens[m.next])
        } else {
            0
        };
        match next_number(highest_id(rows_in(outcome)), width) {
            Some(n) => {
                lemma_number_turn(
                    q,
                    InsertMemoV {
                        parts: m.parts.push(number_text(n as int, width as int)),
                        next: m.next + 1,
                        ..m
                    },
                );
            },
            None => {},
        }
    }
    if let InsertStage::Preparing = stage {
        if let Outcome::Prepared(prep) = outcome {
            lemma_number_turn(
                q,
                InsertMemoV {
                    plan: plan_of(q.schema, m.body, prep, insert_columns(q.schema).len() as int),
                    ..m
                },
            );
        }
    }
}

proof fn lemma_settable_not_audit(columns: Seq<Column>, posted: Seq<Seq<char>>, n: int, k: int)
    requires
        n <= columns.len() <= usize::MAX,
        0 <= k < settable(columns, posted, n).len(),
    ensures
        settable(columns, posted, n)[k] < columns.len(),
        !is_audit_column(columns[settable(columns, posted, n)[k] as int].name@),
    decreases n,
{
    let before = settable(columns, posted, n - 1);
    if k < before.len() {
        lemma_settable_not_audit(columns, posted, n - 1, k);
    }
}

proof fn lemma_own_id(columns: Seq<Column>, from: int)
    requires
        0 <= from,
        columns.len() <= usize::MAX,
        own_id_at(columns, from) is Some,
    ensures
        own_id_at(columns, from)->0 < columns.len(),
        columns[own_id_at(columns, from)->0 as int].name@ == "id"@,
    decreases columns.len() - from,
{
    if !(columns[from].name@ == "id"@ && !columns[from].auto_increment) {
        lemma_own_id(columns, from + 1);
    }
}

/// None of the columns that are inserted belongs to the audit trail.
pub proof fn lemma_insert_column_not_audit(schema: TableSchema, k: int)
    requires
        0 <= k < insert_columns(schema).len(),
    ensures
        !is_audit_column(schema.columns@[insert_columns(schema)[k] as int].name@),
{
    assert(schema.columns.len() == schema.columns@.len());
    let own = settable(
        schema.columns@,
        schema.post.columns.deep_view(),
        schema.columns@.len() as int,
    );
    if k < own.len() {
        lemma_settable_not_audit(
            schema.columns@,
            schema.post.columns.deep_view(),
            schema.columns@.len() as int,
            k,
        );
    } else {
        lemma_own_id(schema.columns@, 0);
        reveal_strlit("id");
        reveal_strlit("created_at");
        reveal_strlit("created_by_id");
        reveal_strlit("updated_at");
        reveal_strlit("updated_by_id");
        reveal_strlit("deleted_at");
        reveal_strlit("deleted_by_id");
        assert("id"@.len() == 2);
    }
}

/// A request cannot set the columns of the audit trail: none of the columns that
/// it sets is one of them, whatever its body holds.
pub proof fn law_request_cannot_set_audit_columns(
    schema: TableSchema,
    body: JsonV,
    prep: Preparation,
    n: int,
    i: int,
)
    requires
        n <= insert_columns(schema).len(),
        0 <= i < plan_of(schema, body, prep, n).fields.len(),
    ensures
        !is_audit_column(plan_of(schema, body, prep, n).fields[i].0),
    decreases n,
{
    let before = plan_of(schema, body, prep, n - 1);
    if i < before.fields.len() {
        law_request_cannot_set_audit_columns(schema, body, prep, n - 1, i);
    }
    lemma_insert_column_not_audit(schema, n - 1);
}

/// Every value that refers to another table is checked before the row is
/// inserted, unless a formula computes it.
pub proof fn law_inserted_keys_are_checked(
    schema: TableSchema,
    body: JsonV,
    prep: Preparation,
    n: int,
    k: int,
    i: int,
)
    requires
        0 <= k < n <= insert_columns(schema).len(),
        0 <= i < schema.foreign_keys@.len(),
        ({
            let c = schema.columns@[insert_columns(schema)[k] as int];
            &&& !c.auto_increment
            &&& !(c.name@ == "id"@ && c.function@.len() > 0)
            &&& formula_of(c.name@, entry_at(prep, k)) is None
            &&& schema.foreign_keys@[i].column@ == c.name@
            &&& plain_or_empty(field(body, c.name@)).len() > 0
        }),
    ensures
        ({
            let c = schema.columns@[insert_columns(schema)[k] as int];
            plan_of(schema, body, prep, n).checks.contains(
                check_of(
                    schema.foreign_keys@[i],
                    c.name@,
                    plain_or_empty(field(body, c.name@)),
                    c.type_data@,
                ),
            )
        }),
    decreases n,
{
    let c = schema.columns@[insert_columns(schema)[k] as int];
    let raw = plain_or_empty(field(body, c.name@));
    let check = check_of(schema.foreign_keys@[i], c.name@, raw, c.type_data@);
    let before = plan_of(schema, body, prep, n - 1).checks;
    let all = plan_of(schema, body, prep, n).checks;
    if k < n - 1 {
        law_inserted_keys_are_checked(schema, body, prep, n - 1, k, i);
        let j = choose|j: int| 0 <= j < before.len() && before[j] == check;
        assert(all[j] == check);
    } else {
        law_given_keys_are_checked(schema.foreign_keys@, c.name@, raw, c.type_data@, i);
        let own = key_checks(schema.foreign_keys@, c.name@, raw, c.type_data@);
        let j = choose|j: int| 0 <= j < own.len() && own[j] == check;
        assert(all[before.len() + j] == check);
    }
}

/// A row is not inserted where a value refers to nothing, nor where a unique
/// index has its values already.
pub proof fn law_invalid_rows_are_refused(q: InsertRequest, m: InsertMemoV, outcome: Outcome)
    requires
        failure_in(outcome) is None,
    ensures
        fk_verdict(rows_in(outcome), Reading::NotFalse) is Some ==> insert_next(
            q,
            InsertStage::CheckingKeys,
            m,
            outcome,
        ) == insert_answers(m, 400, fk_verdict(rows_in(outcome), Reading::NotFalse)->0),
        unique_verdict(rows_in(outcome), insert_unique_checks(q, m), Reading::OnlyTrue) is Some
            ==> insert_next(q, InsertStage::CheckingUnique, m, outcome) == insert_answers(
            m,
            400,
            unique_verdict(rows_in(outcome), insert_unique_checks(q, m), Reading::OnlyTrue)->0,
        ),
{
}

// ---------------------------------------------------------------------------
// What is inserted
// ---------------------------------------------------------------------------

/// The row that is inserted holds what the request gives: for each column that is
/// inserted, that no formula computes and no function generates, the plan has a
/// field of its name with what the body gives for it: the integer or the float of
/// a numeral in a column of numbers, the text itself in any other, or what the
/// value was encrypted to.
pub proof fn law_inserted_rows_hold_what_is_given(
    schema: TableSchema,
    body: JsonV,
    prep: Preparation,
    n: int,
    k: int,
)
    requires
        0 <= k < n <= insert_columns(schema).len(),
        ({
            let c = schema.columns@[insert_columns(schema)[k] as int];
            &&& !c.auto_increment
            &&& formula_of(c.name@, entry_at(prep, k)) is None
            &&& !(c.name@ == "id"@ && c.function@.len() > 0)
            &&& field(body, c.name@) is Some
            &&& gives(field(body, c.name@)->0) is Some
            &&& c.encrypt ==> k < prep.stored@.len()
        }),
    ensures
        ({
            let c = schema.columns@[insert_columns(schema)[k] as int];
            let text = if c.encrypt {
                prep.stored@[k]@
            } else {
                gives(field(body, c.name@)->0)->0
            };
            let p = plan_of(schema, body, prep, n);
            exists|j: int|
                0 <= j < p.fields.len() && (#[trigger] p.fields[j]).0 == c.name@ && binds(
                    p.fields[j].1,
                    text,
                    contains(c.type_data@, "int"@) || contains(c.type_data@, "float"@),
                )
        }),
    decreases n,
{
    let c = schema.columns@[insert_columns(schema)[k] as int];
    law_values_are_read_as_given(field(body, c.name@)->0);
    let text = if c.encrypt {
        prep.stored@[k]@
    } else {
        gives(field(body, c.name@)->0)->0
    };
    let numeric = contains(c.type_data@, "int"@) || contains(c.type_data@, "float"@);
    let before = plan_of(schema, body, prep, n - 1);
    let p = plan_of(schema, body, prep, n);
    if k < n - 1 {
        law_inserted_rows_hold_what_is_given(schema, body, prep, n - 1, k);
        let j = choose|j: int|
            0 <= j < before.fields.len() && (#[trigger] before.fields[j]).0 == c.name@ && binds(
                before.fields[j].1,
                text,
                numeric,
            );
        assert(p.fields[j] == before.fields[j]);
    } else {
        assert(p.fields[p.fields.len() - 1].0 == c.name@);
        assert(binds(p.fields[p.fields.len() - 1].1, text, numeric));
    }
}

/// The document that is inserted holds what the request gives: under the name of
/// each such column that is not encrypted stands the number of a numeral in a
/// column of numbers, and in any other what was given.
pub proof fn law_inserted_documents_hold_what_is_given(
    schema: TableSchema,
    body: JsonV,
    prep: Preparation,
    n: int,
    k: int,
)
    requires
        0 <= k < n <= insert_columns(schema).len(),
        ({
            let c = schema.columns@[insert_columns(schema)[k] as int];
            &&& !c.auto_increment
            &&& !c.encrypt
            &&& formula_of(c.name@, entry_at(prep, k)) is None
            &&& !(c.name@ == "id"@ && c.function@.len() > 0)
            &&& field(body, c.name@) is Some
            &&& gives(field(body, c.name@)->0) is Some
            &&& forall|j: int|
                k < j < n ==> (#[trigger] schema.columns@[insert_columns(schema)[j] as int]).name@
                    != c.name@
        }),
    ensures
        ({
            let c = schema.columns@[insert_columns(schema)[k] as int];
            let given = field(body, c.name@)->0;
            let doc = plan_of(schema, body, prep, n).doc;
            let numeric = contains(c.type_data@, "int"@) || contains(c.type_data@, "float"@);
            &&& lookup(doc, c.name@) is Some
            &&& if numeric && i64_value(gives(given)->0) is Some {
                lookup(doc, c.name@) == Some(JsonV::Int(i64_value(gives(given)->0)->0))
            } else if !numeric {
                lookup(doc, c.name@) == Some(given)
            } else {
                true
            }
        }),
    decreases n,
{
    let c = schema.columns@[insert_columns(schema)[k] as int];
    let given = field(body, c.name@)->0;
    law_values_are_read_as_given(given);
    let before = plan_of(schema, body, prep, n - 1).doc;
    let last = schema.columns@[insert_columns(schema)[n - 1] as int];
    let raw = plain_or_empty(field(body, last.name@));
    let value = if last.encrypt {
        stored_at(prep, n - 1)
    } else {
        raw
    };
    law_set_then_get(
        before,
        last.name@,
        document_value(bound_value(value, last.type_data@), field(body, last.name@)),
        c.name@,
    );
    if k < n - 1 {
        assert(schema.columns@[insert_columns(schema)[n - 1] as int].name@ != c.name@);
        law_inserted_documents_hold_what_is_given(schema, body, prep, n - 1, k);
    }
}

/// Whether fields are those of a plan, with what an insertion adds: an identifier,
/// where it is generated, when the row was created, and by whom.
pub open spec fn adds_to_plan(
    q: InsertRequest,
    m: InsertMemoV,
    fields: Seq<(Seq<char>, InsertValueV)>,
) -> bool {
    let n = m.plan.fields.len() as int;
    let more = if m.plan.tokens.len() > 0 {
        1int
    } else {
        0
    };
    &&& fields.len() == n + more + 2
    &&& fields.take(n) == m.plan.fields
    &&& more == 1 ==> fields[n].0 == "id"@ && fields[n].1 is Param && fields[n].1->Param_0 is Str
    &&& fields[n + more] == ("created_at"@, InsertValueV::Raw(q.now_expr@))
    &&& fields[n + more + 1].0 == "created_by_id"@
    &&& fields[n + more + 1].1 is Param
    &&& tells(fields[n + more + 1].1->Param_0, m.actor)
}

/// Whether what an insertion asks for writes its plan: into the table of the entity,
/// with the fields of the plan, and with no others but an identifier and the audit
/// trail. It neither updates nor deletes.
pub open spec fn writes_insert(q: InsertRequest, m: InsertMemoV, a: ActionV, name: Seq<char>) -> bool {
    match a {
        ActionV::CompileInsert(t, fields, _) => t == q.schema.table@ && adds_to_plan(q, m, fields),
        ActionV::StoreInsert(t, doc) => {
            &&& t == q.schema.table@
            &&& name != "id"@ && name != "created_at"@ && name != "created_by_id"@ ==> field(
                doc,
                name,
            ) == lookup(m.plan.doc, name)
            &&& field(doc, "created_at"@) == Some(JsonV::Str(q.now@))
        },
        ActionV::CompileBulk(_, _, _) => false,
        ActionV::CompileUpdate(_, _, _) => false,
        ActionV::CompileDelete(_, _) => false,
        ActionV::StoreUpdate(_, _, _) => false,
        ActionV::StoreDelete(_, _) => false,
        ActionV::UpdateRows(_, _, _) => false,
        _ => true,
    }
}

proof fn lemma_complete_writes(q: InsertRequest, m: InsertMemoV, name: Seq<char>)
    ensures
        writes_insert(q, m, complete_insert(q, m).2, name),
{
    let p = with_identifier(m);
    let by = typed(m.actor, type_or_int(q.schema.columns@, "created_by_id"@));
    let plan = with_creation(q, p, m.actor);
    assert(plan.fields.take(m.plan.fields.len() as int) =~= m.plan.fields);
    law_set_then_get(m.plan.doc, "id"@, JsonV::Str(join(m.parts, "/"@)), name);
    law_set_then_get(p.doc, "created_at"@, JsonV::Str(q.now@), name);
    law_set_then_get(
        with_field(p.doc, "created_at"@, JsonV::Str(q.now@)),
        "created_by_id"@,
        as_json(by),
        name,
    );
    reveal_strlit("created_at");
    reveal_strlit("created_by_id");
    assert("created_at"@.len() != "created_by_id"@.len());
    law_set_then_get(p.doc, "created_at"@, JsonV::Str(q.now@), "created_at"@);
    law_set_then_get(
        with_field(p.doc, "created_at"@, JsonV::Str(q.now@)),
        "created_by_id"@,
        as_json(by),
        "created_at"@,
    );
}

proof fn lemma_advanced_keeps(q: InsertRequest, m: InsertMemoV)
    ensures
        advanced(q, m).plan == m.plan,
        advanced(q, m).actor == m.actor,
    decreases m.plan.tokens.len() - m.next,
{
    if !(m.next < 0 || m.next >= m.plan.tokens.len() || is_number_token(
        m.plan.tokens[m.next],
        false,
    )) {
        lemma_advanced_keeps(
            q,
            InsertMemoV {
                parts: m.parts + part_of(m.plan.tokens[m.next], m.body, q.today, false),
                next: m.next + 1,
                ..m
            },
        );
    }
}

proof fn lemma_number_writes(q: InsertRequest, m: InsertMemoV, name: Seq<char>)
    ensures
        writes_insert(q, m, number_insert(q, m).2, name),
        writes_insert(q, m, begin_insert(q, m).2, name),
        writes_insert(q, m, check_unique(q, m).2, name),
        writes_insert(q, m, check_keys(q, m).2, name),
{
    lemma_advanced_keeps(q, m);
    lemma_complete_writes(q, advanced(q, m), name);
}

/// An insertion writes its plan and nothing else: whatever it writes, at whatever
/// step, goes into the table of the entity, and has the fields of the plan and no
/// others but a generated identifier and the audit trail.
#[verifier::spinoff_prover]
#[verifier::rlimit(60)]
pub proof fn law_insert_writes_its_plan(
    q: InsertRequest,
    stage: InsertStage,
    m: InsertMemoV,
    outcome: Outcome,
    name: Seq<char>,
)
    requires
        stage != InsertStage::Preparing,
    ensures
        writes_insert(q, m, insert_next(q, stage, m, outcome).2, name),
{
    lemma_number_writes(q, m, name);
    if stage == InsertStage::Numbering {
        let width = if 0 <= m.next < m.plan.tokens.len() {
            number_width(m.plan.tokens[m.next])
        } else {
            0
        };
        if let Some(n) = next_number(highest_id(rows_in(outcome)), width) {
            lemma_number_writes(
                q,
                InsertMemoV {
                    parts: m.parts.push(number_text(n as int, width as int)),
                    next: m.next + 1,
                    ..m
                },
                name,
            );
        }
    }
}

/// Once a row is prepared, its plan is that of the body, and what is written at once
/// is this plan.
pub proof fn law_insert_plans_its_body(
    q: InsertRequest,
    m: InsertMemoV,
    outcome: Outcome,
    name: Seq<char>,
)
    requires
        outcome is Prepared,
    ensures
        ({
            let plan = plan_of(
                q.schema,
                m.body,
                outcome->Prepared_0,
                insert_columns(q.schema).len() as int,
            );
            writes_insert(
                q,
                InsertMemoV { plan, ..m },
                insert_next(q, InsertStage::Preparing, m, outcome).2,
                name,
            )
        }),
{
    let plan = plan_of(
        q.schema,
        m.body,
        outcome->Prepared_0,
        insert_columns(q.schema).len() as int,
    );
    lemma_number_writes(q, InsertMemoV { plan, ..m }, name);
}

/// The answer to an insertion shows the identifier that the database gave, and tells
/// of a success only once the row was inserted and the transaction committed, or
/// the document stored.
pub proof fn law_insert_answers_the_identifier(
    q: InsertRequest,
    m: InsertMemoV,
    outcome: Outcome,
    id: JsonV,
)
    requires
        failure_in(outcome) is None,
        rows_in(outcome).len() > 0,
        field(rows_in(outcome)[0], "id"@) == Some(id),
        id != JsonV::Int(0),
    ensures
        match insert_next(q, InsertStage::Running, m, outcome).2 {
            ActionV::CommitAndConclude(audit, r) => {
                &&& audit.action == "POST"@
                &&& audit.actor_id == m.actor
                &&& r.status == 200
                &&& r.body.success
                &&& field(r.body.data, "id"@) == Some(id)
            },
            ActionV::RunFormula(_, body) => m.body is Object ==> field(body, "id_new"@) == Some(id),
            _ => false,
        },
{
    let shown = seq![("id"@, id)];
    assert(key_at(shown, "id"@, 0) == Some(0int));
    if let JsonV::Object(fields) = m.body {
        law_set_then_get(fields, "id_new"@, id, "id_new"@);
    }
}

/// A row that lacks what its table needs is refused before anything else is done: it is
/// accepted exactly if each posted column that may not be null, and that the database
/// does not set, is given.
pub proof fn law_rows_need_their_columns(
    posted: Seq<Seq<char>>,
    columns: Seq<Column>,
    body: JsonV,
    from: int,
)
    requires
        0 <= from,
    ensures
        missing_at(posted, columns, body, from) is None <==> forall|i: int|
            from <= i < posted.len() ==> is_supplied(#[trigger] posted[i], columns, body),
        missing_at(posted, columns, body, from) is Some ==> {
            let i = missing_at(posted, columns, body, from)->0;
            from <= i < posted.len() && !is_supplied(posted[i], columns, body)
        },
    decreases posted.len() - from,
{
    if from < posted.len() {
        law_rows_need_their_columns(posted, columns, body, from + 1);
    }
}

/// Whether a posted column is given, or need not be.
pub open spec fn is_supplied(name: Seq<char>, columns: Seq<Column>, body: JsonV) -> bool {
    match column_named(columns, name) {
        Some(c) => c.nullable || c.auto_increment || match field(body, name) {
            Some(v) => trim(without_char(json_text(v), '"')).len() > 0,
            None => false,
        },
        None => true,
    }
}

/// No posted column is left out of a row: each is inserted, unless the database or the
/// audit trail sets it.
pub proof fn law_posted_columns_are_inserted(schema: TableSchema, j: int)
    requires
        0 <= j < schema.columns@.len() <= usize::MAX,
        !schema.columns@[j].auto_increment,
        !is_audit_column(schema.columns@[j].name@),
        schema.post.columns.deep_view().contains(schema.columns@[j].name@),
    ensures
        insert_columns(schema).contains(j as usize),
{
    let posted = schema.post.columns.deep_view();
    let own = settable(schema.columns@, posted, schema.columns@.len() as int);
    law_configured_columns_are_set(schema.columns@, posted, schema.columns@.len() as int, j);
    let i = choose|i: int| 0 <= i < own.len() && own[i] == j as usize;
    assert(insert_columns(schema)[i] == j as usize);
}

/// A queued insertion is that of the request: on its route, with its body, but that its
/// creator is set, and by its actor.
pub proof fn law_queued_inserts_carry_the_body(
    q: InsertRequest,
    stage: InsertStage,
    m: InsertMemoV,
    outcome: Outcome,
    name: Seq<char>,
)
    requires
        stage == InsertStage::QueueAccess,
        failure_in(outcome) is None,
        name != "created_by_id"@,
    ensures
        ({
            let job = match insert_next(q, stage, m, outcome).2 {
                ActionV::Enqueue(job) => Some(job),
                ActionV::EnqueueInBackground(job, _) => Some(job),
                _ => None,
            };
            &&& job is Some
            &&& job->0.route == q.route@
            &&& job->0.op == WriteOpKindV::Post
            &&& field(job->0.body, name) == field(m.body, name)
        }),
{
    if let Some(c) = column_named(q.schema.columns@, "created_by_id"@) {
        if let JsonV::Object(fields) = m.body {
            law_set_then_get(
                fields,
                "created_by_id"@,
                as_json(typed(m.actor, c.type_data@)),
                name,
            );
        }
    }
}

/// Nothing is inserted unchecked: a row whose values refer to other tables is checked
/// against them first, and a row with values of unique indexes, in a database, against
/// the rows that are there; only then a transaction is begun.
pub proof fn law_inserts_are_checked_first(q: InsertRequest, m: InsertMemoV, outcome: Outcome)
    ensures
        outcome is Prepared ==> {
            let checks = plan_of(
                q.schema,
                m.body,
                outcome->Prepared_0,
                insert_columns(q.schema).len() as int,
            ).checks;
            checks.len() > 0 ==> insert_next(q, InsertStage::Preparing, m, outcome).2
                == ActionV::QueryDb(fk_batch_sql(checks), fk_batch_params(checks))
        },
        failure_in(outcome) is Some ==> {
            &&& answers(insert_next(q, InsertStage::CheckingKeys, m, outcome).2)
            &&& answers(insert_next(q, InsertStage::CheckingUnique, m, outcome).2)
            &&& !answers_success(insert_next(q, InsertStage::CheckingKeys, m, outcome).2)
            &&& !answers_success(insert_next(q, InsertStage::CheckingUnique, m, outcome).2)
        },
        failure_in(outcome) is None && fk_verdict(rows_in(outcome), Reading::NotFalse) is None
            && !q.mongodb && unique_checks(q.schema.indexes@, q.schema.columns@, m.body).len() > 0
            ==> {
            let checks = unique_checks(q.schema.indexes@, q.schema.columns@, m.body);
            insert_next(q, InsertStage::CheckingKeys, m, outcome).2 == ActionV::QueryDb(
                unique_batch_sql(q.schema.table@, checks),
                unique_batch_params(checks),
            )
        },
        failure_in(outcome) is None && has_statement(q.schema.post.validate_data@) ==> insert_next(
            q,
            InsertStage::Compiling,
            m,
            outcome,
        ).2 == ActionV::CheckFormula(q.schema.post.validate_data@, m.body),
{
}

proof fn lemma_advanced_appends(q: InsertRequest, m: InsertMemoV)
    ensures
        m.parts.len() <= advanced(q, m).parts.len(),
        advanced(q, m).parts.take(m.parts.len() as int) == m.parts,
    decreases m.plan.tokens.len() - m.next,
{
    if !(m.next < 0 || m.next >= m.plan.tokens.len() || is_number_token(
        m.plan.tokens[m.next],
        false,
    )) {
        let next = InsertMemoV {
            parts: m.parts + part_of(m.plan.tokens[m.next], m.body, q.today, false),
            next: m.next + 1,
            ..m
        };
        lemma_advanced_appends(q, next);
        let all = advanced(q, m).parts;
        assert(all.take(m.parts.len() as int) =~= all.take(next.parts.len() as int).take(
            m.parts.len() as int,
        ));
        assert(next.parts.take(m.parts.len() as int) =~= m.parts);
    } else {
        assert(m.parts.take(m.parts.len() as int) =~= m.parts);
    }
}

/// A generated identifier has the running number behind the highest that is there: where
/// the highest identifier ends in a number, the next part is that number and one more.
pub proof fn law_identifiers_follow_the_highest(
    q: InsertRequest,
    m: InsertMemoV,
    outcome: Outcome,
    head: Seq<char>,
    n: int,
)
    requires
        0 <= m.next < m.plan.tokens.len(),
        rows_in(outcome).len() > 0,
        is_ascii_chars(head),
        0 <= n < i64::MAX,
        ({
            let width = number_width(m.plan.tokens[m.next]);
            &&& 1 <= nat_text(n).len() <= width
            &&& field(rows_in(outcome)[0], "id"@) == Some(
                JsonV::Str(head + number_text(n, width as int)),
            )
        }),
    ensures
        ({
            let width = number_width(m.plan.tokens[m.next]);
            let (_, after, a) = insert_next(q, InsertStage::Numbering, m, outcome);
            &&& !(a is Fault)
            &&& m.parts.len() < after.parts.len()
            &&& after.parts.take(m.parts.len() as int) == m.parts
            &&& after.parts[m.parts.len() as int] == number_text(n + 1, width as int)
        }),
{
    let width = number_width(m.plan.tokens[m.next]);
    law_numbers_go_up(head, n, width);
    let next = InsertMemoV {
        parts: m.parts.push(number_text(n + 1, width as int)),
        next: m.next + 1,
        ..m
    };
    lemma_advanced_appends(q, next);
    let after = advanced(q, next).parts;
    assert(after.take(m.parts.len() as int) =~= after.take(next.parts.len() as int).take(
        m.parts.len() as int,
    ));
    assert(next.parts.take(m.parts.len() as int) =~= m.parts);
    assert(after.take(next.parts.len() as int)[m.parts.len() as int] == after[m.parts.len() as int]);
}

/// The identifier that is inserted is the one that was generated: its parts with slashes
/// between them.
pub proof fn law_generated_identifiers_are_inserted(q: InsertRequest, m: InsertMemoV)
    requires
        m.plan.tokens.len() > 0,
    ensures
        match complete_insert(q, m).2 {
            ActionV::CompileInsert(_, fields, _) => {
                &&& m.plan.fields.len() < fields.len()
                &&& fields[m.plan.fields.len() as int] == (
                    "id"@,
                    InsertValueV::Param(Scalar::Str(join(m.parts, "/"@))),
                )
            },
            ActionV::StoreInsert(_, doc) => field(doc, "id"@) == Some(
                JsonV::Str(join(m.parts, "/"@)),
            ),
            _ => false,
        },
{
    let id = JsonV::Str(join(m.parts, "/"@));
    let by = typed(m.actor, type_or_int(q.schema.columns@, "created_by_id"@));
    let doc = with_field(m.plan.doc, "id"@, id);
    reveal_strlit("id");
    reveal_strlit("created_at");
    reveal_strlit("created_by_id");
    assert("id"@.len() == 2 && "created_at"@.len() == 10 && "created_by_id"@.len() == 13);
    law_set_then_get(m.plan.doc, "id"@, id, "id"@);
    law_set_then_get(doc, "created_at"@, JsonV::Str(q.now@), "id"@);
    law_set_then_get(
        with_field(doc, "created_at"@, JsonV::Str(q.now@)),
        "created_by_id"@,
        as_json(by),
        "id"@,
    );
}

} // verus!
