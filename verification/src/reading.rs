//! The query behind a request that reads rows.
use crate::ast::{
    lemma_and_view, lemma_meets_all, lemma_meets_any, lemma_or_view, satisfies, Collation, Expr,
    ExprV, Filter, FilterV, Join, JoinKind, JoinV, Query, QueryV, RowV, Scalar,
};
use crate::filters::{
    any_clause, build_any_clause, build_single_clause, clause, is_met, is_shallow,
    law_conditions_mean_what_they_say, serde_items, serde_list,
    shallow, single_clause, sonic_items, sonic_list, ListItem, ListItemV, Split, SplitV, MAX_DEPTH,
};
use crate::json::{get_in, key_at, lookup, text_in, without_key, Json, JsonV};
use crate::model::{JoinTable, TableSchema};
use crate::number::{i32_value, int_text, law_numeral_round_trip, parse_i32};
use crate::ordering::{aliases_are_cut, build_order, index_columns, order_of};
use crate::text::{
    blank, contains, copy_texts, cut, has_char, has_text, join, joined, keep, kept, listed,
    push_item, replace, replaced, same, same_but_case, same_ignoring_case, split, split_once,
    split_text, strip_front, stripped_front, trim, trimmed,
};
use vstd::prelude::*;
use vstd::string::*;

verus! {

/// How a kind of request treats its parameters.
#[derive(Debug, Clone, Copy)]
pub struct ReadRules {
    /// The stars in front of a configured parameter are not part of its name.
    pub stars: bool,
    /// A parameter without a value sets no condition.
    pub skips_empty: bool,
    /// A parameter that names several columns accepts lists for equality.
    pub lists: bool,
    /// Lists are read by `sonic_rs`, not by `serde_json`.
    pub sonic: bool,
    /// An alias counts in whatever case its ` as ` is written.
    pub any_case: bool,
}

/// The parameters of a request.
pub type Fields = Seq<(Seq<char>, JsonV)>;

// ---------------------------------------------------------------------------
// Parameters
// ---------------------------------------------------------------------------

/// The names of the configured parameters.
pub open spec fn names_of(parameters: Seq<Seq<char>>, stars: bool) -> Seq<Seq<char>> {
    Seq::new(
        parameters.len(),
        |i: int|
            if stars {
                strip_front(parameters[i], '*')
            } else {
                parameters[i]
            },
    )
}

/// The text of a parameter that was given; the empty one for a value that is no
/// string.
pub open spec fn given(params: Fields, name: Seq<char>) -> Option<Seq<char>> {
    match lookup(params, name) {
        Some(v) => Some(
            match text_in(v) {
                Some(s) => s,
                None => Seq::empty(),
            },
        ),
        None => None,
    }
}

/// The text of a parameter that is configured and was given.
pub open spec fn accepted(
    names: Seq<Seq<char>>,
    params: Fields,
    name: Seq<char>,
) -> Option<Seq<char>> {
    if names.contains(name) {
        given(params, name)
    } else {
        None
    }
}

/// The names of the configured parameters.
pub fn parameter_names(parameters: &Vec<String>, stars: bool) -> (r: Vec<String>)
    ensures
        r.deep_view() == names_of(parameters.deep_view(), stars),
{
    let mut out: Vec<String> = Vec::new();
    let ghost all = names_of(parameters.deep_view(), stars);
    let mut i: usize = 0;
    while i < parameters.len()
        invariant
            i <= parameters@.len(),
            all == names_of(parameters.deep_view(), stars),
            out.deep_view() == all.take(i as int),
        decreases parameters.len() - i,
    {
        if stars {
            push_item(&mut out, stripped_front(parameters[i].as_str(), '*'));
        } else {
            push_item(&mut out, parameters[i].clone());
        }
        i += 1;
        assert(all.take(i as int) =~= all.take(i - 1).push(all[i - 1]));
    }
    assert(all.take(parameters@.len() as int) =~= all);
    out
}

/// The text of a parameter that was given.
pub fn given_text(params: &Vec<(String, Json)>, name: &str) -> (r: Option<String>)
    ensures
        r.deep_view() == given(params.deep_view(), name@),
{
    match get_in(params, name) {
        Some(v) => match v.as_str() {
            Some(s) => Some(s.to_owned()),
            None => Some(String::new()),
        },
        None => None,
    }
}

/// The text of a parameter that is configured and was given.
pub fn accepted_text(names: &Vec<String>, params: &Vec<(String, Json)>, name: &str) -> (r: Option<
    String,
>)
    ensures
        r.deep_view() == accepted(names.deep_view(), params.deep_view(), name@),
{
    if listed(names, name) {
        given_text(params, name)
    } else {
        None
    }
}

/// The parts of a parameter that names several columns.
pub open spec fn parts_of(name: Seq<char>) -> Seq<Seq<char>> {
    split(name, '|')
}

/// What a parameter has to be taken apart into: its parts, and the text that was
/// given for it.
#[derive(Debug)]
pub struct SplitRequest {
    pub parts: Vec<String>,
    pub value: String,
}

/// What such a request is.
pub struct SplitRequestV {
    pub parts: Seq<Seq<char>>,
    pub value: Seq<char>,
}

impl DeepView for SplitRequest {
    type V = SplitRequestV;

    open spec fn deep_view(&self) -> SplitRequestV {
        SplitRequestV { parts: self.parts.deep_view(), value: self.value@ }
    }
}

/// What the configured parameters have to be taken apart into.
pub open spec fn requests_of(names: Seq<Seq<char>>, params: Fields) -> Seq<SplitRequestV> {
    Seq::new(
        names.len(),
        |i: int|
            SplitRequestV {
                parts: parts_of(names[i]),
                value: match given(params, names[i]) {
                    Some(v) => v,
                    None => Seq::empty(),
                },
            },
    )
}

/// What the configured parameters have to be taken apart into.
pub fn split_requests(
    parameters: &Vec<String>,
    params: &Vec<(String, Json)>,
    stars: bool,
) -> (r: Vec<SplitRequest>)
    ensures
        r.deep_view() == requests_of(
            names_of(parameters.deep_view(), stars),
            params.deep_view(),
        ),
{
    let names = parameter_names(parameters, stars);
    let ghost all = requests_of(names.deep_view(), params.deep_view());
    let mut out: Vec<SplitRequest> = Vec::new();
    let mut i: usize = 0;
    while i < names.len()
        invariant
            i <= names@.len(),
            all == requests_of(names.deep_view(), params.deep_view()),
            out.deep_view() == all.take(i as int),
        decreases names.len() - i,
    {
        let value = match given_text(params, names[i].as_str()) {
            Some(v) => v,
            None => String::new(),
        };
        push_item(
            &mut out,
            SplitRequest { parts: split_text(names[i].as_str(), '|'), value },
        );
        i += 1;
        assert(all.take(i as int) =~= all.take(i - 1).push(all[i - 1]));
    }
    assert(all.take(names@.len() as int) =~= all);
    out
}

/// Whether each configured parameter was taken apart into as many parts as it
/// has.
pub open spec fn splits_fit(names: Seq<Seq<char>>, splits: Seq<Seq<SplitV>>) -> bool {
    &&& splits.len() == names.len()
    &&& forall|i: int|
        0 <= i < names.len() ==> (#[trigger] splits[i]).len() == parts_of(names[i]).len()
}

/// Whether each configured parameter was taken apart into as many parts as it
/// has.
pub fn do_splits_fit(names: &Vec<String>, splits: &Vec<Vec<Split>>) -> (r: bool)
    ensures
        r == splits_fit(names.deep_view(), splits.deep_view()),
{
    let ghost ns = names.deep_view();
    let ghost sp = splits.deep_view();
    if splits.len() != names.len() {
        return false;
    }
    let mut i: usize = 0;
    while i < names.len()
        invariant
            i <= names@.len(),
            names@.len() == splits@.len(),
            ns == names.deep_view(),
            sp == splits.deep_view(),
            forall|k: int| 0 <= k < i ==> (#[trigger] sp[k]).len() == parts_of(ns[k]).len(),
        decreases names.len() - i,
    {
        let parts = split_text(names[i].as_str(), '|');
        assert(ns[i as int] == names@[i as int]@);
        assert(sp[i as int] == splits@[i as int].deep_view());
        assert(parts.deep_view().len() == parts@.len());
        assert(sp[i as int].len() == splits@[i as int]@.len());
        if parts.len() != splits[i].len() {
            return false;
        }
        i += 1;
    }
    true
}

// ---------------------------------------------------------------------------
// Conditions
// ---------------------------------------------------------------------------

/// A column with its table in front, unless it has one.
pub open spec fn qualified(table: Seq<char>, column: Seq<char>) -> Seq<char> {
    if column.contains('.') {
        column
    } else {
        table + "."@ + column
    }
}

/// The columns that a search looks into.
pub open spec fn search_columns(schema: TableSchema) -> Seq<Seq<char>> {
    schema.primary_key.deep_view() + index_columns(schema.indexes@)
}

/// The conditions of a search, one for each column.
pub open spec fn search_terms(
    table: Seq<char>,
    columns: Seq<Seq<char>>,
    value: Seq<char>,
) -> Seq<FilterV> {
    Seq::new(
        columns.len(),
        |i: int| FilterV::ILike(qualified(table, columns[i]), "%"@ + value + "%"@),
    )
}

/// Whether a parameter steers the request and sets no condition.
pub open spec fn is_steering(name: Seq<char>) -> bool {
    ||| name == "page"@
    ||| name == "sort"@
    ||| name == "ascending"@
    ||| name == "limit"@
    ||| contains(name, "paramjoin"@)
}

/// The items of the JSON array that a parameter is. One that is nested too deep is
/// none.
pub open spec fn items_of(value: Seq<char>, sonic: bool) -> Option<Seq<ListItemV>> {
    if sonic {
        if is_shallow(trim(value), MAX_DEPTH as nat) {
            sonic_items(trim(value))
        } else {
            None
        }
    } else {
        serde_items(trim(value))
    }
}

/// The condition that a parameter sets, with `items` the JSON array that it is.
pub open spec fn condition(
    schema: TableSchema,
    name: Seq<char>,
    value: Seq<char>,
    splits: Seq<SplitV>,
    items: Option<Seq<ListItemV>>,
    rules: ReadRules,
) -> Option<FilterV> {
    if is_steering(name) {
        None
    } else if name == "search"@ {
        if value.len() > 0 && search_columns(schema).len() > 0 {
            Some(FilterV::Or(search_terms(schema.table@, search_columns(schema), value)))
        } else {
            None
        }
    } else if rules.skips_empty && value.len() == 0 {
        None
    } else if name.contains('|') {
        Some(any_clause(splits, value, items, rules.lists))
    } else {
        Some(single_clause(splits[0], value, items))
    }
}

/// The conditions of the first `n` parameters.
pub open spec fn conditions(
    schema: TableSchema,
    names: Seq<Seq<char>>,
    params: Fields,
    splits: Seq<Seq<SplitV>>,
    rules: ReadRules,
    n: int,
) -> Seq<FilterV>
    decreases n,
{
    if n <= 0 {
        Seq::empty()
    } else {
        let before = conditions(schema, names, params, splits, rules, n - 1);
        match given(params, names[n - 1]) {
            Some(value) => match condition(
                schema,
                names[n - 1],
                value,
                splits[n - 1],
                items_of(value, rules.sonic),
                rules,
            ) {
                Some(f) => before.push(f),
                None => before,
            },
            None => before,
        }
    }
}

/// Whether the request says which deleted rows it wants.
pub open spec fn mentions_deleted(names: Seq<Seq<char>>, params: Fields) -> bool {
    exists|i: int|
        0 <= i < names.len() && contains(#[trigger] names[i], "deleted_at"@) && lookup(
            params,
            names[i],
        ) is Some
}

/// The conditions of a request. Deleted rows are left out unless the request
/// says which it wants.
pub open spec fn where_of(
    schema: TableSchema,
    names: Seq<Seq<char>>,
    params: Fields,
    splits: Seq<Seq<SplitV>>,
    rules: ReadRules,
) -> Seq<FilterV> {
    let own = conditions(schema, names, params, splits, rules, names.len() as int);
    if mentions_deleted(names, params) {
        own
    } else {
        own.push(FilterV::IsNull(schema.table@ + ".deleted_at"@))
    }
}

/// All of some conditions; nothing where there are none.
pub open spec fn all_conditions(terms: Seq<FilterV>) -> Option<FilterV> {
    if terms.len() == 0 {
        None
    } else {
        Some(FilterV::And(terms))
    }
}

/// A column with its table in front, unless it has one.
pub fn qualify(table: &str, column: &str) -> (r: String)
    ensures
        r@ == qualified(table@, column@),
{
    if has_char(column, '.') {
        column.to_owned()
    } else {
        let mut out = table.to_owned();
        out.append(".");
        out.append(column);
        out
    }
}

/// Appends the conditions of a search in some columns.
fn push_search(out: &mut Vec<Filter>, table: &str, columns: &Vec<String>, value: &str)
    ensures
        final(out).deep_view() == old(out).deep_view() + search_terms(
            table@,
            columns.deep_view(),
            value@,
        ),
{
    let ghost start = out.deep_view();
    let ghost all = search_terms(table@, columns.deep_view(), value@);
    let mut i: usize = 0;
    assert(start + all.take(0) =~= start);
    while i < columns.len()
        invariant
            i <= columns@.len(),
            all == search_terms(table@, columns.deep_view(), value@),
            out.deep_view() == start + all.take(i as int),
        decreases columns.len() - i,
    {
        let mut pattern = "%".to_owned();
        pattern.append(value);
        pattern.append("%");
        push_item(out, Filter::ILike(qualify(table, columns[i].as_str()), pattern));
        i += 1;
        assert(all.take(i as int) =~= all.take(i - 1).push(all[i - 1]));
        assert(out.deep_view() =~= start + all.take(i as int));
    }
    assert(all.take(columns@.len() as int) =~= all);
}

/// The conditions of a search.
fn build_search(schema: &TableSchema, value: &str) -> (r: Vec<Filter>)
    ensures
        r.deep_view() == search_terms(schema.table@, search_columns(*schema), value@),
{
    let mut ors: Vec<Filter> = Vec::new();
    let table = schema.table.as_str();
    push_search(&mut ors, table, &schema.primary_key, value);
    let ghost pk = schema.primary_key.deep_view();
    let ghost ixs = schema.indexes@;
    let mut j: usize = 0;
    assert(ors.deep_view() =~= search_terms(table@, pk + index_columns(ixs.take(0)), value@));
    while j < schema.indexes.len()
        invariant
            j <= schema.indexes@.len(),
            ixs == schema.indexes@,
            pk == schema.primary_key.deep_view(),
            table@ == schema.table@,
            ors.deep_view() == search_terms(
                table@,
                pk + index_columns(ixs.take(j as int)),
                value@,
            ),
        decreases schema.indexes.len() - j,
    {
        assert(ixs.take(j + 1).drop_last() =~= ixs.take(j as int));
        push_search(&mut ors, table, &schema.indexes[j].columns, value);
        j += 1;
        assert(ors.deep_view() =~= search_terms(
            table@,
            pk + index_columns(ixs.take(j as int)),
            value@,
        ));
    }
    assert(ixs.take(ixs.len() as int) =~= ixs);
    ors
}

/// Whether a parameter steers the request and sets no condition.
pub fn steering(name: &str) -> (r: bool)
    ensures
        r == is_steering(name@),
{
    same(name, "page") || same(name, "sort") || same(name, "ascending") || same(name, "limit")
        || has_text(name, "paramjoin")
}

/// The condition that a parameter sets, with `items` the JSON array that it is.
pub fn build_condition(
    schema: &TableSchema,
    name: &str,
    value: &str,
    splits: &Vec<Split>,
    items: &Option<Vec<ListItem>>,
    rules: ReadRules,
) -> (r: Option<Filter>)
    requires
        splits@.len() >= 1,
    ensures
        r.deep_view() == condition(
            *schema,
            name@,
            value@,
            splits.deep_view(),
            items.deep_view(),
            rules,
        ),
{
    broadcast use lemma_or_view;

    if steering(name) {
        None
    } else if same(name, "search") {
        let ors = build_search(schema, value);
        assert(ors.deep_view().len() == ors@.len());
        if !value.is_empty() && ors.len() > 0 {
            Some(Filter::Or(ors))
        } else {
            None
        }
    } else if rules.skips_empty && value.is_empty() {
        None
    } else if has_char(name, '|') {
        Some(build_any_clause(splits, value, items, rules.lists))
    } else {
        Some(build_single_clause(&splits[0], value, items))
    }
}

/// The items of the JSON array that a parameter is.
fn read_items(value: &str, sonic: bool) -> (r: Option<Vec<ListItem>>)
    ensures
        r.deep_view() == items_of(value@, sonic),
{
    let t = trimmed(value);
    if sonic {
        if shallow(t.as_str()) {
            sonic_list(t.as_str())
        } else {
            None
        }
    } else {
        serde_list(t.as_str())
    }
}

/// The conditions of a request.
pub fn build_where(
    schema: &TableSchema,
    names: &Vec<String>,
    params: &Vec<(String, Json)>,
    splits: &Vec<Vec<Split>>,
    rules: ReadRules,
) -> (r: Vec<Filter>)
    requires
        splits_fit(names.deep_view(), splits.deep_view()),
    ensures
        r.deep_view() == where_of(
            *schema,
            names.deep_view(),
            params.deep_view(),
            splits.deep_view(),
            rules,
        ),
{
    let ghost ns = names.deep_view();
    let ghost ps = params.deep_view();
    let ghost sp = splits.deep_view();
    let mut out: Vec<Filter> = Vec::new();
    let mut mentioned: bool = false;
    let mut i: usize = 0;
    assert(out.deep_view() =~= conditions(*schema, ns, ps, sp, rules, 0));
    while i < names.len()
        invariant
            i <= names@.len(),
            ns == names.deep_view(),
            ps == params.deep_view(),
            sp == splits.deep_view(),
            splits_fit(ns, sp),
            out.deep_view() == conditions(*schema, ns, ps, sp, rules, i as int),
            mentioned == exists|k: int|
                0 <= k < i && contains(#[trigger] ns[k], "deleted_at"@) && lookup(
                    ps,
                    ns[k],
                ) is Some,
        decreases names.len() - i,
    {
        let name = names[i].as_str();
        assert(ns[i as int] == name@);
        assert(sp[i as int] == splits@[i as int].deep_view());
        proof {
            crate::text::lemma_split_nonempty(ns[i as int], '|');
        }
        match given_text(params, name) {
            Some(value) => {
                if has_text(name, "deleted_at") {
                    mentioned = true;
                }
                let items = read_items(value.as_str(), rules.sonic);
                match build_condition(schema, name, value.as_str(), &splits[i], &items, rules) {
                    Some(f) => {
                        push_item(&mut out, f);
                    },
                    None => {},
                }
            },
            None => {},
        }
        i += 1;
    }
    if !mentioned {
        let mut column = schema.table.clone();
        column.append(".deleted_at");
        push_item(&mut out, Filter::IsNull(column));
    }
    out
}

/// All of some conditions; nothing where there are none.
pub fn build_all(terms: Vec<Filter>) -> (r: Option<Filter>)
    ensures
        r.deep_view() == all_conditions(terms.deep_view()),
{
    broadcast use lemma_and_view;

    assert(terms.deep_view().len() == terms@.len());
    if terms.len() == 0 {
        None
    } else {
        Some(Filter::And(terms))
    }
}

// ---------------------------------------------------------------------------
// Joins
// ---------------------------------------------------------------------------

/// The texts that stand in join conditions for a name: the configured parameters
/// that are for joins, with what was given for them.
pub open spec fn configured_joins(parameters: Seq<Seq<char>>, params: Fields) -> Seq<
    (Seq<char>, Seq<char>),
>
    decreases parameters.len(),
{
    if parameters.len() == 0 {
        Seq::empty()
    } else {
        let before = configured_joins(parameters.drop_last(), params);
        let p = parameters.last();
        match join_value(p, lookup(params, p)) {
            Some(v) => before.push((join_name(p), v)),
            None => before,
        }
    }
}

/// The texts that stand in join conditions for a name: all parameters that are
/// for joins.
pub open spec fn given_joins(params: Fields) -> Seq<(Seq<char>, Seq<char>)>
    decreases params.len(),
{
    if params.len() == 0 {
        Seq::empty()
    } else {
        let before = given_joins(params.drop_last());
        let (k, v) = params.last();
        match join_value(k, Some(v)) {
            Some(v) => before.push((join_name(k), v)),
            None => before,
        }
    }
}

/// The name that a parameter stands for in join conditions.
pub open spec fn join_name(parameter: Seq<char>) -> Seq<char> {
    replace(parameter, ".eq"@, Seq::empty())
}

/// The text that a parameter puts into join conditions.
pub open spec fn join_value(parameter: Seq<char>, value: Option<JsonV>) -> Option<Seq<char>> {
    if contains(parameter, "paramjoin"@) {
        match value {
            Some(v) => text_in(v),
            None => None,
        }
    } else {
        None
    }
}

/// A text for a join condition, made safe: letters, numbers, `_` and `.` alone.
pub open spec fn join_safe(s: Seq<char>) -> Seq<char> {
    kept(s, "_."@)
}

/// A join condition with each name replaced by its text, one name after the
/// other.
pub open spec fn substituted(
    logical: Seq<char>,
    joins: Seq<(Seq<char>, Seq<char>)>,
) -> Seq<char>
    decreases joins.len(),
{
    if joins.len() == 0 {
        logical
    } else {
        replace(
            substituted(logical, joins.drop_last()),
            joins.last().0,
            join_safe(joins.last().1),
        )
    }
}

/// The two columns of a condition that is an equality of columns with their
/// tables in front.
pub open spec fn column_equality(s: Seq<char>) -> Option<(Seq<char>, Seq<char>)> {
    match split_once(s, "="@) {
        Some((l, r)) => if trim(l).contains('.') && trim(r).contains('.') {
            Some((trim(l), trim(r)))
        } else {
            None
        },
        None => None,
    }
}

/// How a table is joined.
pub open spec fn join_kind(type_join: Seq<char>) -> JoinKind {
    if same_but_case(type_join, "left"@) {
        JoinKind::Left
    } else {
        JoinKind::Inner
    }
}

/// A join with its condition as an equality of columns where it is one, else as
/// a text.
pub open spec fn structured_join(j: JoinTable, logical: Seq<char>) -> JoinV {
    match column_equality(logical) {
        Some((l, r)) => JoinV {
            kind: join_kind(j.type_join@),
            table: j.table@,
            on: Seq::empty(),
            on_expr: Some(ExprV::ColEq(l, r)),
        },
        None => JoinV {
            kind: join_kind(j.type_join@),
            table: j.table@,
            on: logical,
            on_expr: None,
        },
    }
}

/// A join with its condition as a raw expression.
pub open spec fn raw_join(j: JoinTable, logical: Seq<char>) -> JoinV {
    JoinV {
        kind: join_kind(j.type_join@),
        table: j.table@,
        on: Seq::empty(),
        on_expr: Some(ExprV::Raw(logical)),
    }
}

/// The joins of a result.
pub open spec fn joins_of(
    tables: Seq<JoinTable>,
    joins: Seq<(Seq<char>, Seq<char>)>,
    structured: bool,
) -> Seq<JoinV> {
    Seq::new(
        tables.len(),
        |i: int|
            {
                let logical = substituted(tables[i].logical@, joins);
                if structured {
                    structured_join(tables[i], logical)
                } else {
                    raw_join(tables[i], logical)
                }
            },
    )
}

/// The name that a parameter stands for in join conditions.
fn name_for_join(parameter: &str) -> (r: String)
    ensures
        r@ == join_name(parameter@),
{
    proof {
        reveal_strlit("");
        assert(""@ =~= Seq::<char>::empty());
    }
    replaced(parameter, ".eq", "")
}

/// The text that a parameter puts into join conditions.
fn value_for_join(parameter: &str, value: Option<&Json>) -> (r: Option<String>)
    ensures
        r.deep_view() == join_value(parameter@, value.deep_view()),
{
    if has_text(parameter, "paramjoin") {
        match value {
            Some(v) => match v.as_str() {
                Some(s) => Some(s.to_owned()),
                None => None,
            },
            None => None,
        }
    } else {
        None
    }
}

/// The configured parameters that are for joins.
pub fn read_configured_joins(parameters: &Vec<String>, params: &Vec<(String, Json)>) -> (r: Vec<
    (String, String),
>)
    ensures
        r.deep_view() == configured_joins(parameters.deep_view(), params.deep_view()),
{
    let ghost ps = parameters.deep_view();
    let mut out: Vec<(String, String)> = Vec::new();
    let mut i: usize = 0;
    assert(out.deep_view() =~= configured_joins(ps.take(0), params.deep_view()));
    while i < parameters.len()
        invariant
            i <= parameters@.len(),
            ps == parameters.deep_view(),
            out.deep_view() == configured_joins(ps.take(i as int), params.deep_view()),
        decreases parameters.len() - i,
    {
        let p = parameters[i].as_str();
        assert(ps.take(i + 1).drop_last() =~= ps.take(i as int));
        assert(ps[i as int] == p@);
        match value_for_join(p, get_in(params, p)) {
            Some(v) => {
                push_item(&mut out, (name_for_join(p), v));
            },
            None => {},
        }
        i += 1;
    }
    assert(ps.take(ps.len() as int) =~= ps);
    out
}

/// All parameters that are for joins.
pub fn read_given_joins(params: &Vec<(String, Json)>) -> (r: Vec<(String, String)>)
    ensures
        r.deep_view() == given_joins(params.deep_view()),
{
    let ghost ps = params.deep_view();
    let mut out: Vec<(String, String)> = Vec::new();
    let mut i: usize = 0;
    assert(out.deep_view() =~= given_joins(ps.take(0)));
    while i < params.len()
        invariant
            i <= params@.len(),
            ps == params.deep_view(),
            out.deep_view() == given_joins(ps.take(i as int)),
        decreases params.len() - i,
    {
        let p = params[i].0.as_str();
        assert(ps.take(i + 1).drop_last() =~= ps.take(i as int));
        assert(ps[i as int] == (p@, params@[i as int].1.deep_view()));
        match value_for_join(p, Some(&params[i].1)) {
            Some(v) => {
                push_item(&mut out, (name_for_join(p), v));
            },
            None => {},
        }
        i += 1;
    }
    assert(ps.take(ps.len() as int) =~= ps);
    out
}

/// A join condition with each name replaced by its text.
pub fn substitute(logical: &str, joins: &Vec<(String, String)>) -> (r: String)
    ensures
        r@ == substituted(logical@, joins.deep_view()),
{
    let ghost js = joins.deep_view();
    let mut out = logical.to_owned();
    let mut i: usize = 0;
    while i < joins.len()
        invariant
            i <= joins@.len(),
            js == joins.deep_view(),
            out@ == substituted(logical@, js.take(i as int)),
        decreases joins.len() - i,
    {
        assert(js.take(i + 1).drop_last() =~= js.take(i as int));
        assert(js[i as int] == (joins@[i as int].0@, joins@[i as int].1@));
        let safe = keep(joins[i].1.as_str(), "_.");
        out = replaced(out.as_str(), joins[i].0.as_str(), safe.as_str());
        i += 1;
    }
    assert(js.take(js.len() as int) =~= js);
    out
}

/// The two columns of a condition that is an equality of columns.
pub fn parse_col_eq(s: &str) -> (r: Option<(String, String)>)
    ensures
        r.deep_view() == column_equality(s@),
{
    match cut(s, "=") {
        Some((l, r)) => {
            let lhs = trimmed(l.as_str());
            let rhs = trimmed(r.as_str());
            if has_char(lhs.as_str(), '.') && has_char(rhs.as_str(), '.') {
                Some((lhs, rhs))
            } else {
                None
            }
        },
        None => None,
    }
}

/// How a table is joined.
pub fn kind_of_join(type_join: &str) -> (r: JoinKind)
    ensures
        r == join_kind(type_join@),
{
    if same_ignoring_case(type_join, "left") {
        JoinKind::Left
    } else {
        JoinKind::Inner
    }
}

/// A join with its condition as an equality of columns where it is one, else as
/// a text.
pub fn build_structured_join(j: &JoinTable, logical: String) -> (r: Join)
    ensures
        r.deep_view() == structured_join(*j, logical@),
{
    let kind = kind_of_join(j.type_join.as_str());
    let table = j.table.clone();
    match parse_col_eq(logical.as_str()) {
        Some((l, r)) => Join { kind, table, on: String::new(), on_expr: Some(Expr::ColEq(l, r)) },
        None => Join { kind, table, on: logical, on_expr: None },
    }
}

/// A join with its condition as a raw expression.
pub fn build_raw_join(j: &JoinTable, logical: String) -> (r: Join)
    ensures
        r.deep_view() == raw_join(*j, logical@),
{
    Join {
        kind: kind_of_join(j.type_join.as_str()),
        table: j.table.clone(),
        on: String::new(),
        on_expr: Some(Expr::Raw(logical)),
    }
}

/// The joins of a result.
pub fn build_joins(tables: &Vec<JoinTable>, joins: &Vec<(String, String)>, structured: bool) -> (r: Vec<
    Join,
>)
    ensures
        r.deep_view() == joins_of(tables@, joins.deep_view(), structured),
{
    let ghost all = joins_of(tables@, joins.deep_view(), structured);
    let mut out: Vec<Join> = Vec::new();
    let mut i: usize = 0;
    while i < tables.len()
        invariant
            i <= tables@.len(),
            all == joins_of(tables@, joins.deep_view(), structured),
            out.deep_view() == all.take(i as int),
        decreases tables.len() - i,
    {
        let logical = substitute(tables[i].logical.as_str(), joins);
        if structured {
            push_item(&mut out, build_structured_join(&tables[i], logical));
        } else {
            push_item(&mut out, build_raw_join(&tables[i], logical));
        }
        i += 1;
        assert(all.take(i as int) =~= all.take(i - 1).push(all[i - 1]));
    }
    assert(all.take(tables@.len() as int) =~= all);
    out
}

// ---------------------------------------------------------------------------
// Order, groups and pages
// ---------------------------------------------------------------------------

/// The columns that a request asks to be ordered by; the configured ones where
/// it asks for none.
pub open spec fn order_text(schema: TableSchema, names: Seq<Seq<char>>, params: Fields) -> Seq<
    char,
> {
    match accepted(names, params, "sort"@) {
        Some(v) => if v.len() > 0 {
            kept(v, "., _-"@)
        } else {
            join(schema.get.order_by.deep_view(), ", "@)
        },
        None => join(schema.get.order_by.deep_view(), ", "@),
    }
}

/// Whether a request asks for ascending order.
pub open spec fn is_ascending(names: Seq<Seq<char>>, params: Fields) -> bool {
    match accepted(names, params, "ascending"@) {
        Some(v) => same_but_case(v, "true"@),
        None => true,
    }
}

/// The columns that a request asks to be ordered by.
pub fn read_order(schema: &TableSchema, names: &Vec<String>, params: &Vec<(String, Json)>) -> (r: String)
    ensures
        r@ == order_text(*schema, names.deep_view(), params.deep_view()),
{
    match accepted_text(names, params, "sort") {
        Some(v) => if !v.as_str().is_empty() {
            keep(v.as_str(), "., _-")
        } else {
            joined(&schema.get.order_by, ", ")
        },
        None => joined(&schema.get.order_by, ", "),
    }
}

/// Whether a request asks for ascending order.
pub fn read_ascending(names: &Vec<String>, params: &Vec<(String, Json)>) -> (r: bool)
    ensures
        r == is_ascending(names.deep_view(), params.deep_view()),
{
    match accepted_text(names, params, "ascending") {
        Some(v) => same_ignoring_case(v.as_str(), "true"),
        None => true,
    }
}

/// Texts as raw expressions.
pub open spec fn raw_exprs(texts: Seq<Seq<char>>) -> Seq<ExprV> {
    Seq::new(texts.len(), |i: int| ExprV::Raw(texts[i]))
}

/// Some conditions as a group; no group where there are none.
pub open spec fn as_group(texts: Seq<Seq<char>>) -> Seq<Seq<ExprV>> {
    if texts.len() == 0 {
        Seq::empty()
    } else {
        seq![raw_exprs(texts)]
    }
}

/// The texts that are not blank.
pub open spec fn not_blank(texts: Seq<Seq<char>>) -> Seq<Seq<char>>
    decreases texts.len(),
{
    if texts.len() == 0 {
        Seq::empty()
    } else if trim(texts.last()).len() == 0 {
        not_blank(texts.drop_last())
    } else {
        not_blank(texts.drop_last()).push(texts.last())
    }
}

fn push_group(out: &mut Vec<Vec<Expr>>, texts: &Vec<String>)
    ensures
        final(out).deep_view() == old(out).deep_view() + as_group(texts.deep_view()),
{
    let ghost all = raw_exprs(texts.deep_view());
    let mut exprs: Vec<Expr> = Vec::new();
    let mut i: usize = 0;
    while i < texts.len()
        invariant
            i <= texts@.len(),
            all == raw_exprs(texts.deep_view()),
            exprs.deep_view() == all.take(i as int),
        decreases texts.len() - i,
    {
        push_item(&mut exprs, Expr::Raw(texts[i].clone()));
        i += 1;
        assert(all.take(i as int) =~= all.take(i - 1).push(all[i - 1]));
    }
    assert(all.take(texts@.len() as int) =~= all);
    if texts.len() > 0 {
        push_item(out, exprs);
    }
    assert(out.deep_view() =~= old(out).deep_view() + as_group(texts.deep_view()));
}

fn drop_blank(texts: &Vec<String>) -> (r: Vec<String>)
    ensures
        r.deep_view() == not_blank(texts.deep_view()),
{
    let ghost ts = texts.deep_view();
    let mut out: Vec<String> = Vec::new();
    let mut i: usize = 0;
    assert(out.deep_view() =~= not_blank(ts.take(0)));
    while i < texts.len()
        invariant
            i <= texts@.len(),
            ts == texts.deep_view(),
            out.deep_view() == not_blank(ts.take(i as int)),
        decreases texts.len() - i,
    {
        assert(ts.take(i + 1).drop_last() =~= ts.take(i as int));
        assert(ts[i as int] == texts@[i as int]@);
        if !blank(texts[i].as_str()) {
            push_item(&mut out, texts[i].clone());
        }
        i += 1;
    }
    assert(ts.take(ts.len() as int) =~= ts);
    out
}

/// The limits on the rows of one page.
#[derive(Debug, Clone, Copy)]
pub struct PageLimits {
    /// The number of rows where a request names none.
    pub default_rows: i32,
    /// The greatest number of rows that a request may name.
    pub max_rows: i32,
}

/// A number between two bounds.
pub open spec fn clamped(n: int, low: int, high: int) -> int {
    if n < low {
        low
    } else if n > high {
        high
    } else {
        n
    }
}

/// The number of rows of a page. None where a number that was given cannot be
/// brought between one and the greatest.
pub open spec fn rows_of(names: Seq<Seq<char>>, params: Fields, limits: PageLimits) -> Option<int> {
    match accepted(names, params, "limit"@) {
        Some(v) => match i32_value(v) {
            Some(n) => if limits.max_rows >= 1 {
                Some(clamped(n as int, 1, limits.max_rows as int))
            } else {
                None
            },
            None => Some(limits.default_rows as int),
        },
        None => Some(limits.default_rows as int),
    }
}

/// The page that a request asks for: the first where it names none.
pub open spec fn page_of(names: Seq<Seq<char>>, params: Fields) -> int {
    match accepted(names, params, "page"@) {
        Some(v) => match i32_value(v) {
            Some(n) => if n > 0 {
                n as int
            } else {
                1
            },
            None => 1,
        },
        None => 1,
    }
}

/// The number of rows and the number of rows to skip. None where the rows
/// cannot be counted in 32 bits.
pub open spec fn window_of(
    names: Seq<Seq<char>>,
    params: Fields,
    limits: PageLimits,
) -> Option<(u32, u32)> {
    match rows_of(names, params, limits) {
        Some(rows) => {
            let skip = (page_of(names, params) - 1) * rows;
            if i32::MIN <= skip <= i32::MAX {
                Some(
                    (
                        as_unsigned(rows),
                        if skip < 0 {
                            0
                        } else {
                            skip as u32
                        },
                    ),
                )
            } else {
                None
            }
        },
        None => None,
    }
}

/// A signed number of 32 bits read as an unsigned one.
pub open spec fn as_unsigned(n: int) -> u32 {
    if n < 0 {
        (n + 0x1_0000_0000) as u32
    } else {
        n as u32
    }
}

/// The number of rows and the number of rows to skip.
pub fn read_window(names: &Vec<String>, params: &Vec<(String, Json)>, limits: PageLimits) -> (r: Option<
    (u32, u32),
>)
    ensures
        r == window_of(names.deep_view(), params.deep_view(), limits),
{
    let rows: i32 = match accepted_text(names, params, "limit") {
        Some(v) => match parse_i32(v.as_str()) {
            Some(n) => {
                if limits.max_rows < 1 {
                    return None;
                }
                if n < 1 {
                    1
                } else if n > limits.max_rows {
                    limits.max_rows
                } else {
                    n
                }
            },
            None => limits.default_rows,
        },
        None => limits.default_rows,
    };
    let page: i32 = match accepted_text(names, params, "page") {
        Some(v) => match parse_i32(v.as_str()) {
            Some(n) => if n > 0 {
                n
            } else {
                1
            },
            None => 1,
        },
        None => 1,
    };
    assert(-0x4000_0000_0000_0000 <= (page - 1) * rows <= 0x4000_0000_0000_0000)
        by (nonlinear_arith)
        requires
            1 <= page <= 0x7fff_ffff,
            -0x8000_0000 <= rows <= 0x7fff_ffff,
    ;
    let skip: i64 = (page as i64 - 1) * (rows as i64);
    if skip < -0x8000_0000 || skip > 0x7fff_ffff {
        return None;
    }
    let limit: u32 = if rows < 0 {
        (rows as i64 + 0x1_0000_0000) as u32
    } else {
        rows as u32
    };
    let offset: u32 = if skip < 0 {
        0
    } else {
        skip as u32
    };
    Some((limit, offset))
}

// ---------------------------------------------------------------------------
// The query
// ---------------------------------------------------------------------------

/// The query of a request: its conditions, order, joins and groups.
pub open spec fn query_of(
    schema: TableSchema,
    params: Fields,
    splits: Seq<Seq<SplitV>>,
    rules: ReadRules,
    joins: Seq<JoinV>,
    having: Seq<Seq<ExprV>>,
    window: (Option<u32>, Option<u32>),
) -> QueryV {
    let names = names_of(schema.get.parameters.deep_view(), rules.stars);
    QueryV {
        table: schema.table@,
        columns: schema.get.columns.deep_view(),
        maxima: Seq::empty(),
        filter: all_conditions(where_of(schema, names, params, splits, rules)),
        joins,
        group_by: schema.get.column_groups.deep_view(),
        having,
        order_by: order_of(
            schema,
            order_text(schema, names, params),
            is_ascending(names, params),
            rules.any_case,
        ),
        limit: window.0,
        offset: window.1,
    }
}

/// The conditions on the groups of a result: those on its rows that are
/// configured, then those on its groups.
pub open spec fn having_of(schema: TableSchema, row_conditions: bool) -> Seq<Seq<ExprV>> {
    if row_conditions {
        as_group(not_blank(schema.get.where_clause.deep_view())) + as_group(
            schema.get.having.deep_view(),
        )
    } else {
        as_group(schema.get.having.deep_view())
    }
}

/// The conditions on the groups of a result.
pub fn build_having(schema: &TableSchema, row_conditions: bool) -> (r: Vec<Vec<Expr>>)
    ensures
        r.deep_view() == having_of(*schema, row_conditions),
{
    let mut out: Vec<Vec<Expr>> = Vec::new();
    assert(out.deep_view() =~= Seq::empty());
    if row_conditions {
        let rows = drop_blank(&schema.get.where_clause);
        push_group(&mut out, &rows);
    }
    let ghost before = out.deep_view();
    push_group(&mut out, &schema.get.having);
    assert(out.deep_view() =~= having_of(*schema, row_conditions));
    out
}

/// The query of a request. None where the alias of a selected column cannot be
/// cut off.
pub fn build_query(
    schema: &TableSchema,
    params: &Vec<(String, Json)>,
    splits: &Vec<Vec<Split>>,
    rules: ReadRules,
    joins: Vec<Join>,
    having: Vec<Vec<Expr>>,
    limit: Option<u32>,
    offset: Option<u32>,
) -> (r: Option<Query>)
    requires
        splits_fit(
            names_of(schema.get.parameters.deep_view(), rules.stars),
            splits.deep_view(),
        ),
    ensures
        r is Some <==> aliases_are_cut(schema.get.columns.deep_view()),
        r is Some ==> r.deep_view() == Some(
            query_of(
                *schema,
                params.deep_view(),
                splits.deep_view(),
                rules,
                joins.deep_view(),
                having.deep_view(),
                (limit, offset),
            ),
        ),
{
    let names = parameter_names(&schema.get.parameters, rules.stars);
    let terms = build_where(schema, &names, params, splits, rules);
    let order = read_order(schema, &names, params);
    let ascending = read_ascending(&names, params);
    let order_by = match build_order(schema, order.as_str(), ascending, rules.any_case) {
        Some(o) => o,
        None => {
            return None;
        },
    };
    let maxima: Vec<(String, String)> = Vec::new();
    assert(maxima.deep_view() =~= Seq::empty());
    Some(
        Query {
            table: schema.table.clone(),
            columns: copy_texts(&schema.get.columns),
            maxima,
            filter: build_all(terms),
            joins,
            group_by: copy_texts(&schema.get.column_groups),
            having,
            order_by,
            limit,
            offset,
        },
    )
}

// ---------------------------------------------------------------------------
// Laws
// ---------------------------------------------------------------------------

/// A request that does not say which deleted rows it wants gets none: the last
/// of its conditions leaves them out.
pub proof fn law_deleted_rows_are_hidden(
    schema: TableSchema,
    names: Seq<Seq<char>>,
    params: Fields,
    splits: Seq<Seq<SplitV>>,
    rules: ReadRules,
)
    requires
        !mentions_deleted(names, params),
    ensures
        where_of(schema, names, params, splits, rules).last() == FilterV::IsNull(
            schema.table@ + ".deleted_at"@,
        ),
        all_conditions(where_of(schema, names, params, splits, rules)) is Some,
{
}

proof fn lemma_conditions_ignore(
    schema: TableSchema,
    names: Seq<Seq<char>>,
    params: Fields,
    other: Fields,
    splits: Seq<Seq<SplitV>>,
    rules: ReadRules,
    n: int,
)
    requires
        n <= names.len(),
        forall|i: int|
            0 <= i < names.len() ==> lookup(params, #[trigger] names[i]) == lookup(
                other,
                names[i],
            ),
    ensures
        conditions(schema, names, params, splits, rules, n) == conditions(
            schema,
            names,
            other,
            splits,
            rules,
            n,
        ),
    decreases n,
{
    if n > 0 {
        assert(lookup(params, names[n - 1]) == lookup(other, names[n - 1]));
        lemma_conditions_ignore(schema, names, params, other, splits, rules, n - 1);
    }
}

/// Parameters that are not configured set no condition: two requests that agree
/// on the configured ones have the same conditions.
pub proof fn law_only_configured_parameters_count(
    schema: TableSchema,
    names: Seq<Seq<char>>,
    params: Fields,
    other: Fields,
    splits: Seq<Seq<SplitV>>,
    rules: ReadRules,
)
    requires
        forall|i: int|
            0 <= i < names.len() ==> lookup(params, #[trigger] names[i]) == lookup(
                other,
                names[i],
            ),
    ensures
        where_of(schema, names, params, splits, rules) == where_of(
            schema,
            names,
            other,
            splits,
            rules,
        ),
{
    lemma_conditions_ignore(schema, names, params, other, splits, rules, names.len() as int);
    assert(mentions_deleted(names, params) == mentions_deleted(names, other)) by {
        if mentions_deleted(names, params) {
            let i = choose|i: int|
                0 <= i < names.len() && contains(#[trigger] names[i], "deleted_at"@) && lookup(
                    params,
                    names[i],
                ) is Some;
            assert(lookup(other, names[i]) is Some);
        }
        if mentions_deleted(names, other) {
            let i = choose|i: int|
                0 <= i < names.len() && contains(#[trigger] names[i], "deleted_at"@) && lookup(
                    other,
                    names[i],
                ) is Some;
            assert(lookup(params, names[i]) is Some);
        }
    }
}

/// A page never holds more rows than the greatest number, whatever number the
/// request names, and at least one.
pub proof fn law_pages_are_bounded(names: Seq<Seq<char>>, params: Fields, limits: PageLimits)
    requires
        limits.max_rows >= 1,
        accepted(names, params, "limit"@) is Some,
        i32_value(accepted(names, params, "limit"@)->0) is Some,
    ensures
        rows_of(names, params, limits) is Some,
        1 <= rows_of(names, params, limits)->0 <= limits.max_rows,
{
}


/// The text of a parameter; one that is no text has none.
pub open spec fn parameter_text(v: JsonV) -> Seq<char> {
    match v {
        JsonV::Str(s) => s,
        _ => Seq::empty(),
    }
}

/// Whether a row meets a parameter. Parameters that steer the reading ask nothing
/// of rows. A search asks that the text stands in one of the columns of the
/// primary key and the indexes. Any other asks for what its name and value say of
/// its column; with several columns in its name, one of them suffices.
pub open spec fn parameter_met(
    schema: TableSchema,
    name: Seq<char>,
    value: Seq<char>,
    splits: Seq<SplitV>,
    rules: ReadRules,
    row: RowV,
    by: Collation,
) -> bool {
    let items = items_of(value, rules.sonic);
    let columns = schema.primary_key.deep_view() + index_columns(schema.indexes@);
    if name == "page"@ || name == "sort"@ || name == "ascending"@ || name == "limit"@ || contains(
        name,
        "paramjoin"@,
    ) {
        true
    } else if name == "search"@ {
        value.len() == 0 || columns.len() == 0 || exists|j: int|
            0 <= j < columns.len() && (by.ilike)(
                row(
                    if (#[trigger] columns[j]).contains('.') {
                        columns[j]
                    } else {
                        schema.table@ + "."@ + columns[j]
                    },
                ),
                "%"@ + value + "%"@,
            )
    } else if rules.skips_empty && value.len() == 0 {
        true
    } else if name.contains('|') {
        exists|j: int|
            0 <= j < splits.len() && is_met(
                #[trigger] splits[j],
                splits[j].val,
                value,
                items,
                rules.lists,
                row,
                by,
            )
    } else {
        is_met(splits[0], value, value, items, true, row, by)
    }
}

/// Whether a row is among those that the parameters of a request ask for: it meets
/// each that is given, and is not deleted, unless the request speaks of that.
pub open spec fn is_asked_for(
    schema: TableSchema,
    names: Seq<Seq<char>>,
    params: Fields,
    splits: Seq<Seq<SplitV>>,
    rules: ReadRules,
    row: RowV,
    by: Collation,
) -> bool {
    &&& forall|i: int|
        0 <= i < names.len() && lookup(params, #[trigger] names[i]) is Some ==> parameter_met(
            schema,
            names[i],
            parameter_text(lookup(params, names[i])->0),
            splits[i],
            rules,
            row,
            by,
        )
    &&& row(schema.table@ + ".deleted_at"@) == Scalar::Null || exists|i: int|
        0 <= i < names.len() && contains(#[trigger] names[i], "deleted_at"@) && lookup(
            params,
            names[i],
        ) is Some
}

proof fn lemma_condition_met(
    schema: TableSchema,
    name: Seq<char>,
    value: Seq<char>,
    splits: Seq<SplitV>,
    rules: ReadRules,
    row: RowV,
    by: Collation,
)
    ensures
        match condition(schema, name, value, splits, items_of(value, rules.sonic), rules) {
            Some(f) => satisfies(row, f, by) <==> parameter_met(
                schema,
                name,
                value,
                splits,
                rules,
                row,
                by,
            ),
            None => parameter_met(schema, name, value, splits, rules, row, by),
        },
{
    let items = items_of(value, rules.sonic);
    let columns = search_columns(schema);
    if !is_steering(name) && name == "search"@ {
        let terms = search_terms(schema.table@, columns, value);
        lemma_meets_any(row, terms, by);
        if satisfies(row, FilterV::Or(terms), by) {
            let j = choose|j: int| 0 <= j < terms.len() && satisfies(row, #[trigger] terms[j], by);
            assert(columns[j] == columns[j]);
        }
        if exists|j: int|
            0 <= j < columns.len() && (by.ilike)(
                row(
                    if (#[trigger] columns[j]).contains('.') {
                        columns[j]
                    } else {
                        schema.table@ + "."@ + columns[j]
                    },
                ),
                "%"@ + value + "%"@,
            ) {
            let j = choose|j: int|
                0 <= j < columns.len() && (by.ilike)(
                    row(
                        if (#[trigger] columns[j]).contains('.') {
                            columns[j]
                        } else {
                            schema.table@ + "."@ + columns[j]
                        },
                    ),
                    "%"@ + value + "%"@,
                );
            assert(satisfies(row, terms[j], by));
        }
    } else if !is_steering(name) && !(rules.skips_empty && value.len() == 0) {
        if name.contains('|') {
            let terms = Seq::new(
                splits.len(),
                |i: int| clause(splits[i], value, items, rules.lists),
            );
            lemma_meets_any(row, terms, by);
            assert forall|j: int| 0 <= j < splits.len() implies (satisfies(row, terms[j], by)
                <==> is_met(
                #[trigger] splits[j],
                splits[j].val,
                value,
                items,
                rules.lists,
                row,
                by,
            )) by {
                law_conditions_mean_what_they_say(splits[j], value, items, rules.lists, row, by);
            }
            if satisfies(row, FilterV::Or(terms), by) {
                let j = choose|j: int|
                    0 <= j < terms.len() && satisfies(row, #[trigger] terms[j], by);
                assert(is_met(splits[j], splits[j].val, value, items, rules.lists, row, by));
            }
        } else {
            law_conditions_mean_what_they_say(splits[0], value, items, true, row, by);
        }
    }
}

proof fn lemma_conditions_met(
    schema: TableSchema,
    names: Seq<Seq<char>>,
    params: Fields,
    splits: Seq<Seq<SplitV>>,
    rules: ReadRules,
    n: int,
    row: RowV,
    by: Collation,
)
    requires
        0 <= n <= names.len(),
    ensures
        ({
            let terms = conditions(schema, names, params, splits, rules, n);
            (forall|j: int| 0 <= j < terms.len() ==> satisfies(row, #[trigger] terms[j], by)) <==> (
            forall|i: int|
                0 <= i < n && lookup(params, #[trigger] names[i]) is Some ==> parameter_met(
                    schema,
                    names[i],
                    parameter_text(lookup(params, names[i])->0),
                    splits[i],
                    rules,
                    row,
                    by,
                ))
        }),
    decreases n,
{
    if n > 0 {
        lemma_conditions_met(schema, names, params, splits, rules, n - 1, row, by);
        let before = conditions(schema, names, params, splits, rules, n - 1);
        let terms = conditions(schema, names, params, splits, rules, n);
        if let Some(v) = lookup(params, names[n - 1]) {
            let value = parameter_text(v);
            assert(given(params, names[n - 1]) == Some(value));
            lemma_condition_met(schema, names[n - 1], value, splits[n - 1], rules, row, by);
            if terms.len() > before.len() {
                assert(terms == before.push(terms.last()));
                if forall|j: int| 0 <= j < terms.len() ==> satisfies(row, #[trigger] terms[j], by) {
                    assert forall|j: int| 0 <= j < before.len() implies satisfies(
                        row,
                        #[trigger] before[j],
                        by,
                    ) by {
                        assert(terms[j] == before[j]);
                    }
                    assert(satisfies(row, terms[terms.len() - 1], by));
                }
            } else {
                assert(terms == before);
            }
        } else {
            assert(terms == before);
        }
    }
}

/// A reading finds the rows that are asked for, and no others: a row meets the
/// condition of the query exactly if it meets every parameter that is given, and
/// is not deleted, unless the request speaks of that.
pub proof fn law_readings_find_what_is_asked_for(
    schema: TableSchema,
    names: Seq<Seq<char>>,
    params: Fields,
    splits: Seq<Seq<SplitV>>,
    rules: ReadRules,
    row: RowV,
    by: Collation,
)
    ensures
        match all_conditions(where_of(schema, names, params, splits, rules)) {
            Some(f) => satisfies(row, f, by),
            None => true,
        } <==> is_asked_for(schema, names, params, splits, rules, row, by),
{
    let own = conditions(schema, names, params, splits, rules, names.len() as int);
    let terms = where_of(schema, names, params, splits, rules);
    lemma_conditions_met(schema, names, params, splits, rules, names.len() as int, row, by);
    lemma_meets_all(row, terms, by);
    if !mentions_deleted(names, params) {
        let hidden = FilterV::IsNull(schema.table@ + ".deleted_at"@);
        assert(terms == own.push(hidden));
        if forall|j: int| 0 <= j < terms.len() ==> satisfies(row, #[trigger] terms[j], by) {
            assert forall|j: int| 0 <= j < own.len() implies satisfies(
                row,
                #[trigger] own[j],
                by,
            ) by {
                assert(terms[j] == own[j]);
            }
            assert(satisfies(row, terms[terms.len() - 1], by));
        }
    }
}

/// A request that names a page and how many rows it wants gets that page: so many
/// rows, behind those of the pages before it. Pages adjoin and do not overlap.
pub proof fn law_pages_adjoin(
    names: Seq<Seq<char>>,
    params: Fields,
    limits: PageLimits,
    page: int,
    rows: int,
)
    requires
        names.contains("page"@),
        names.contains("limit"@),
        lookup(params, "page"@) == Some(JsonV::Str(int_text(page))),
        lookup(params, "limit"@) == Some(JsonV::Str(int_text(rows))),
        1 <= page <= i32::MAX,
        1 <= rows <= limits.max_rows,
        (page - 1) * rows <= i32::MAX,
    ensures
        window_of(names, params, limits) == Some((rows as u32, ((page - 1) * rows) as u32)),
{
    law_numeral_round_trip(page as i64);
    law_numeral_round_trip(rows as i64);
    assert(0 <= (page - 1) * rows) by (nonlinear_arith)
        requires
            page >= 1,
            rows >= 1,
    ;
}

/// A request that names no page gets the first, and one that does not say how many
/// rows it wants gets the usual number.
pub proof fn law_usual_pages(names: Seq<Seq<char>>, params: Fields, limits: PageLimits)
    requires
        lookup(params, "page"@) is None || !names.contains("page"@),
        lookup(params, "limit"@) is None || !names.contains("limit"@),
        limits.default_rows >= 0,
    ensures
        window_of(names, params, limits) == Some((limits.default_rows as u32, 0u32)),
{
    let rows = limits.default_rows as int;
    assert(page_of(names, params) == 1);
    assert(0 * rows == 0);
}

/// Leaving out one parameter leaves the others as they are.
pub proof fn law_others_stay(params: Fields, key: Seq<char>, name: Seq<char>)
    requires
        name != key,
    ensures
        lookup(without_key(params, key), name) == lookup(params, name),
    decreases params.len(),
{
    if params.len() > 0 {
        let before = params.drop_last();
        law_others_stay(before, key, name);
        lemma_key_in_prefix(params, name);
        let kept = without_key(params, key);
        if params.last().0 != key {
            assert(kept.drop_last() =~= without_key(before, key));
            lemma_key_in_prefix(kept, name);
        }
    }
}

proof fn lemma_key_in_prefix(fields: Fields, name: Seq<char>)
    requires
        fields.len() > 0,
    ensures
        lookup(fields, name) == if lookup(fields.drop_last(), name) is Some {
            lookup(fields.drop_last(), name)
        } else if fields.last().0 == name {
            Some(fields.last().1)
        } else {
            None
        },
{
    lemma_key_before_last(fields, name, 0);
}

proof fn lemma_key_before_last(fields: Fields, name: Seq<char>, from: int)
    requires
        0 <= from < fields.len(),
    ensures
        key_at(fields, name, from) == if key_at(fields.drop_last(), name, from) is Some {
            key_at(fields.drop_last(), name, from)
        } else if fields.last().0 == name {
            Some(fields.len() - 1)
        } else {
            None
        },
        key_at(fields.drop_last(), name, from) is Some ==> 0 <= key_at(
            fields.drop_last(),
            name,
            from,
        )->0 < fields.len() - 1,
    decreases fields.len() - from,
{
    reveal_with_fuel(key_at, 2);
    if from < fields.len() - 1 {
        lemma_key_before_last(fields, name, from + 1);
    }
}

/// The query of a reading is on the table of the entity, selects the configured
/// columns, and groups by the configured ones.
pub proof fn law_queries_read_what_is_configured(
    schema: TableSchema,
    params: Fields,
    splits: Seq<Seq<SplitV>>,
    rules: ReadRules,
    joins: Seq<JoinV>,
    having: Seq<Seq<ExprV>>,
    window: (Option<u32>, Option<u32>),
    row: RowV,
    by: Collation,
)
    ensures
        is_reading(
            query_of(schema, params, splits, rules, joins, having, window),
            schema,
            names_of(schema.get.parameters.deep_view(), rules.stars),
            params,
            splits,
            rules,
            row,
            by,
        ),
{
    law_readings_find_what_is_asked_for(
        schema,
        names_of(schema.get.parameters.deep_view(), rules.stars),
        params,
        splits,
        rules,
        row,
        by,
    );
}

/// Whether a query is on the table of an entity, selects the configured columns,
/// groups by the configured ones, and finds the rows that are asked for.
pub open spec fn is_reading(
    query: QueryV,
    schema: TableSchema,
    names: Seq<Seq<char>>,
    params: Fields,
    splits: Seq<Seq<SplitV>>,
    rules: ReadRules,
    row: RowV,
    by: Collation,
) -> bool {
    &&& query.table == schema.table@
    &&& query.columns == schema.get.columns.deep_view()
    &&& query.group_by == schema.get.column_groups.deep_view()
    &&& query.maxima.len() == 0
    &&& match query.filter {
        Some(f) => satisfies(row, f, by),
        None => true,
    } <==> is_asked_for(schema, names, params, splits, rules, row, by)
}

/// Tables are joined as they are configured: one join for each, in their order, to its
/// table, keeping the rows without a match only where it says left, and, where the
/// request gives nothing for them, on its own condition.
pub proof fn law_tables_are_joined_as_configured(
    tables: Seq<JoinTable>,
    joins: Seq<(Seq<char>, Seq<char>)>,
    structured: bool,
    i: int,
)
    requires
        0 <= i < tables.len(),
    ensures
        ({
            let j = joins_of(tables, joins, structured)[i];
            &&& joins_of(tables, joins, structured).len() == tables.len()
            &&& j.table == tables[i].table@
            &&& j.kind == JoinKind::Left <==> same_but_case(tables[i].type_join@, "left"@)
            &&& joins.len() == 0 ==> match j.on_expr {
                Some(ExprV::Raw(s)) => s == tables[i].logical@ && !structured,
                Some(ExprV::ColEq(l, r)) => structured && match split_once(
                    tables[i].logical@,
                    "="@,
                ) {
                    Some((a, b)) => l == trim(a) && r == trim(b),
                    None => false,
                },
                None => structured && j.on == tables[i].logical@,
            }
        }),
{
}

/// Groups are kept by the configured conditions, and, where they are asked for, by those
/// on rows; blank ones are left out.
pub proof fn law_groups_are_kept_as_configured(schema: TableSchema, row_conditions: bool, i: int)
    requires
        0 <= i < schema.get.having@.len(),
    ensures
        ({
            let h = having_of(schema, row_conditions);
            &&& h.len() > 0
            &&& h.last().len() == schema.get.having@.len()
            &&& h.last()[i] == ExprV::Raw(schema.get.having@[i]@)
        }),
{
    assert(schema.get.having.deep_view().len() == schema.get.having@.len());
    assert(schema.get.having.deep_view()[i] == schema.get.having@[i]@);
}

} // verus!
