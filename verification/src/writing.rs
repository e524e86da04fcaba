//! What the requests that write rows share: required fields, formulas and the
//! columns of the audit trail.
use crate::ast::{DbParam, Scalar};
use crate::filters::{infer_param, number_or_text};
use crate::flow::{ColumnRequest, ColumnRequestV};
use crate::giving::{carries, gives, law_values_are_read_as_given};
use crate::json::{field, json_text, plain_field, plain_or_empty, Json, JsonV};
use crate::model::{Column, ForeignKey};
use crate::text::{
    after_prefix, contains, copy_texts, has_char, has_text, listed, push_item, replace, replaced,
    same, trim, trimmed, without_prefix,
};
use crate::validation::{FkCheck, FkCheckV};
use vstd::prelude::*;
use vstd::string::*;

verus! {

// ---------------------------------------------------------------------------
// Columns
// ---------------------------------------------------------------------------

/// The columns that record who wrote a row, and when.
pub open spec fn is_audit_column(name: Seq<char>) -> bool {
    ||| name == "created_at"@
    ||| name == "created_by_id"@
    ||| name == "updated_at"@
    ||| name == "updated_by_id"@
    ||| name == "deleted_at"@
    ||| name == "deleted_by_id"@
}

/// Whether a column records who wrote a row, or when.
pub fn audit_column(name: &str) -> (r: bool)
    ensures
        r == is_audit_column(name@),
{
    same(name, "created_at") || same(name, "created_by_id") || same(name, "updated_at") || same(
        name,
        "updated_by_id",
    ) || same(name, "deleted_at") || same(name, "deleted_by_id")
}

/// The positions of the columns that a request may set: those that are
/// configured, without those that the database or the audit trail sets.
pub open spec fn settable(columns: Seq<Column>, posted: Seq<Seq<char>>, n: int) -> Seq<usize>
    decreases n,
{
    if n <= 0 {
        Seq::empty()
    } else {
        let before = settable(columns, posted, n - 1);
        let c = columns[n - 1];
        if !c.auto_increment && !is_audit_column(c.name@) && posted.contains(c.name@) {
            before.push((n - 1) as usize)
        } else {
            before
        }
    }
}

/// The position of the first column `id` that the database does not set, at or
/// after `from`.
pub open spec fn own_id_at(columns: Seq<Column>, from: int) -> Option<usize>
    decreases columns.len() - from,
{
    if from < 0 || from >= columns.len() {
        None
    } else if columns[from].name@ == "id"@ && !columns[from].auto_increment {
        Some(from as usize)
    } else {
        own_id_at(columns, from + 1)
    }
}

/// The positions of the columns that a request may set.
pub fn build_settable(columns: &Vec<Column>, posted: &Vec<String>) -> (r: Vec<usize>)
    ensures
        r@ == settable(columns@, posted.deep_view(), columns@.len() as int),
        forall|k: int| 0 <= k < r@.len() ==> r@[k] < columns@.len(),
{
    let mut out: Vec<usize> = Vec::new();
    let mut i: usize = 0;
    while i < columns.len()
        invariant
            i <= columns@.len(),
            out@ == settable(columns@, posted.deep_view(), i as int),
            forall|k: int| 0 <= k < out@.len() ==> out@[k] < columns@.len(),
        decreases columns.len() - i,
    {
        let c = &columns[i];
        if !c.auto_increment && !audit_column(c.name.as_str()) && listed(posted, c.name.as_str()) {
            out.push(i);
        }
        i += 1;
    }
    out
}

/// The text of a field, trimmed; the empty one where there is no value.
pub open spec fn given_text(v: Option<JsonV>) -> Seq<char> {
    match v {
        None => Seq::empty(),
        Some(JsonV::Null) => Seq::empty(),
        Some(JsonV::Str(s)) => trim(s),
        Some(v) => trim(json_text(v)),
    }
}

/// The text of a field, trimmed.
pub fn read_given_text(v: Option<&Json>) -> (r: String)
    ensures
        r@ == given_text(v.deep_view()),
{
    match v {
        None => String::new(),
        Some(v) => match v {
            Json::Null => String::new(),
            Json::Str(s) => trimmed(s.as_str()),
            _ => trimmed(v.text().as_str()),
        },
    }
}

/// The value that a request gives for a column: trimmed, or as it stands.
pub open spec fn column_text(c: Column, body: JsonV, is_trimmed: bool) -> Seq<char> {
    if is_trimmed {
        given_text(field(body, c.name@))
    } else {
        plain_or_empty(field(body, c.name@))
    }
}

/// Whether the value of a column is encrypted: a trimmed one only where there is
/// any.
pub open spec fn is_secret(c: Column, body: JsonV, is_trimmed: bool) -> bool {
    c.encrypt && (!is_trimmed || column_text(c, body, is_trimmed).len() > 0)
}

/// What is asked of some columns of a table before they are written.
pub open spec fn asked_columns(
    columns: Seq<Column>,
    picked: Seq<usize>,
    entries: Seq<Seq<char>>,
    body: JsonV,
    is_trimmed: bool,
) -> ColumnRequestV {
    ColumnRequestV {
        entries,
        names: Seq::new(picked.len(), |k: int| columns[picked[k] as int].name@),
        values: Seq::new(
            picked.len(),
            |k: int|
                (
                    column_text(columns[picked[k] as int], body, is_trimmed),
                    is_secret(columns[picked[k] as int], body, is_trimmed),
                ),
        ),
    }
}

/// What is asked of some columns of a table before they are written.
pub fn ask_columns(
    columns: &Vec<Column>,
    picked: &Vec<usize>,
    entries: &Vec<String>,
    body: &Json,
    is_trimmed: bool,
) -> (r: ColumnRequest)
    requires
        forall|k: int| 0 <= k < picked@.len() ==> picked@[k] < columns@.len(),
    ensures
        r.deep_view() == asked_columns(
            columns@,
            picked@,
            entries.deep_view(),
            body.deep_view(),
            is_trimmed,
        ),
{
    let ghost all = asked_columns(
        columns@,
        picked@,
        entries.deep_view(),
        body.deep_view(),
        is_trimmed,
    );
    let mut names: Vec<String> = Vec::new();
    let mut values: Vec<(String, bool)> = Vec::new();
    assert(names.deep_view() =~= all.names.take(0));
    assert(values.deep_view() =~= all.values.take(0));
    let mut i: usize = 0;
    while i < picked.len()
        invariant
            i <= picked@.len(),
            forall|k: int| 0 <= k < picked@.len() ==> picked@[k] < columns@.len(),
            all == asked_columns(
                columns@,
                picked@,
                entries.deep_view(),
                body.deep_view(),
                is_trimmed,
            ),
            names.deep_view() == all.names.take(i as int),
            values.deep_view() == all.values.take(i as int),
        decreases picked.len() - i,
    {
        let c = &columns[picked[i]];
        let text = if is_trimmed {
            read_given_text(body.get(c.name.as_str()))
        } else {
            plain_field(body, c.name.as_str())
        };
        let secret = c.encrypt && (!is_trimmed || !text.as_str().is_empty());
        push_item(&mut names, c.name.clone());
        push_item(&mut values, (text, secret));
        i += 1;
        assert(all.names.take(i as int) =~= all.names.take(i - 1).push(all.names[i - 1]));
        assert(all.values.take(i as int) =~= all.values.take(i - 1).push(all.values[i - 1]));
    }
    assert(all.names.take(picked@.len() as int) =~= all.names);
    assert(all.values.take(picked@.len() as int) =~= all.values);
    ColumnRequest { entries: copy_texts(entries), names, values }
}

/// The position of the first column `id` that the database does not set.
pub fn find_own_id(columns: &Vec<Column>) -> (r: Option<usize>)
    ensures
        r == own_id_at(columns@, 0),
        r is Some ==> r->0 < columns@.len(),
{
    let mut i: usize = 0;
    while i < columns.len()
        invariant
            i <= columns@.len(),
            own_id_at(columns@, 0) == own_id_at(columns@, i as int),
        decreases columns.len() - i,
    {
        if same(columns[i].name.as_str(), "id") && !columns[i].auto_increment {
            return Some(i);
        }
        i += 1;
    }
    None
}

// ---------------------------------------------------------------------------
// Formulas
// ---------------------------------------------------------------------------

/// The formula of a column, where the entry that it matches holds one: what
/// follows the column's name and `=`.
pub open spec fn formula_of(name: Seq<char>, entry: Option<Seq<char>>) -> Option<Seq<char>> {
    match entry {
        Some(e) => if name != "id"@ && e.contains('=') {
            Some(replace(e, name + "="@, Seq::empty()))
        } else {
            None
        },
        None => None,
    }
}

/// The formula of a column, where the entry that it matches holds one.
pub fn read_formula(name: &str, entry: Option<&str>) -> (r: Option<String>)
    ensures
        r.deep_view() == formula_of(name@, entry.deep_view()),
{
    match entry {
        Some(e) => if !same(name, "id") && has_char(e, '=') {
            let mut head = name.to_owned();
            head.append("=");
            proof {
                reveal_strlit("");
                assert(""@ =~= Seq::<char>::empty());
            }
            Some(replaced(e, head.as_str(), ""))
        } else {
            None
        },
        None => None,
    }
}

/// A formula with one expression worked in: a subquery, a bound value of the
/// request, or nothing.
pub open spec fn with_expression(
    before: (Seq<char>, Seq<Scalar>),
    expr: Seq<char>,
    subquery: Seq<char>,
    body: JsonV,
) -> (Seq<char>, Seq<Scalar>) {
    let needle = "{"@ + expr + "}"@;
    if expr.contains('[') {
        (replace(before.0, needle, subquery), before.1)
    } else {
        match without_prefix(expr, "request."@) {
            Some(name) => (
                replace(before.0, needle, "?"@),
                before.1.push(number_or_text(plain_or_empty(field(body, name)))),
            ),
            None => (replace(before.0, needle, Seq::empty()), before.1),
        }
    }
}

/// A formula as an expression of the database, with the values that it binds.
pub open spec fn formula_value(
    formula: Seq<char>,
    exprs: Seq<(Seq<char>, Seq<char>)>,
    body: JsonV,
) -> (Seq<char>, Seq<Scalar>)
    decreases exprs.len(),
{
    if exprs.len() == 0 {
        (formula, Seq::empty())
    } else {
        with_expression(
            formula_value(formula, exprs.drop_last(), body),
            exprs.last().0,
            exprs.last().1,
            body,
        )
    }
}

/// A formula as an expression of the database, with the values that it binds.
/// `exprs` are the expressions in it, each with the subquery that it stands for
/// where it reads a table.
pub fn build_formula_value(raw: &str, exprs: &Vec<(String, String)>, body: &Json) -> (r: (
    String,
    Vec<DbParam>,
))
    ensures
        (r.0@, r.1.deep_view()) == formula_value(raw@, exprs.deep_view(), body.deep_view()),
{
    let ghost es = exprs.deep_view();
    let mut sql = raw.to_owned();
    let mut params: Vec<DbParam> = Vec::new();
    let mut i: usize = 0;
    assert(params.deep_view() =~= Seq::empty());
    proof {
        reveal_strlit("");
        assert(""@ =~= Seq::<char>::empty());
    }
    while i < exprs.len()
        invariant
            i <= exprs@.len(),
            es == exprs.deep_view(),
            ""@ == Seq::<char>::empty(),
            (sql@, params.deep_view()) == formula_value(raw@, es.take(i as int), body.deep_view()),
        decreases exprs.len() - i,
    {
        assert(es.take(i + 1).drop_last() =~= es.take(i as int));
        assert(es[i as int] == (exprs@[i as int].0@, exprs@[i as int].1@));
        let expr = exprs[i].0.as_str();
        let mut needle = "{".to_owned();
        needle.append(expr);
        needle.append("}");
        if has_char(expr, '[') {
            sql = replaced(sql.as_str(), needle.as_str(), exprs[i].1.as_str());
        } else {
            match after_prefix(expr, "request.") {
                Some(name) => {
                    let val = plain_field(body, name.as_str());
                    push_item(&mut params, infer_param(val.as_str()));
                    sql = replaced(sql.as_str(), needle.as_str(), "?");
                },
                None => {
                    sql = replaced(sql.as_str(), needle.as_str(), "");
                },
            }
        }
        i += 1;
    }
    assert(es.take(es.len() as int) =~= es);
    (sql, params)
}

// ---------------------------------------------------------------------------
// Foreign keys
// ---------------------------------------------------------------------------

/// The checks that a value of a column asks for, one for each foreign key of the
/// column.
pub open spec fn key_checks(
    keys: Seq<ForeignKey>,
    column: Seq<char>,
    value: Seq<char>,
    type_data: Seq<char>,
) -> Seq<FkCheckV>
    decreases keys.len(),
{
    if keys.len() == 0 {
        Seq::empty()
    } else {
        let before = key_checks(keys.drop_last(), column, value, type_data);
        let k = keys.last();
        if k.column@ == column && value.len() > 0 {
            before.push(
                FkCheckV {
                    column,
                    table: k.reference_table@,
                    ref_column: k.reference_column@,
                    value,
                    type_data,
                },
            )
        } else {
            before
        }
    }
}

/// Appends the checks that a value of a column asks for.
pub fn push_key_checks(
    out: &mut Vec<FkCheck>,
    keys: &Vec<ForeignKey>,
    column: &str,
    value: &str,
    type_data: &str,
)
    ensures
        final(out).deep_view() == old(out).deep_view() + key_checks(
            keys@,
            column@,
            value@,
            type_data@,
        ),
{
    let ghost start = out.deep_view();
    let mut i: usize = 0;
    assert(start + key_checks(keys@.take(0), column@, value@, type_data@) =~= start);
    while i < keys.len()
        invariant
            i <= keys@.len(),
            out.deep_view() == start + key_checks(
                keys@.take(i as int),
                column@,
                value@,
                type_data@,
            ),
        decreases keys.len() - i,
    {
        assert(keys@.take(i + 1).drop_last() =~= keys@.take(i as int));
        if same(keys[i].column.as_str(), column) && !value.is_empty() {
            push_item(
                out,
                FkCheck {
                    column: column.to_owned(),
                    table: keys[i].reference_table.clone(),
                    ref_column: keys[i].reference_column.clone(),
                    value: value.to_owned(),
                    type_data: type_data.to_owned(),
                },
            );
        }
        i += 1;
        assert(out.deep_view() =~= start + key_checks(
            keys@.take(i as int),
            column@,
            value@,
            type_data@,
        ));
    }
    assert(keys@.take(keys@.len() as int) =~= keys@);
}

// ---------------------------------------------------------------------------
// Configured steps
// ---------------------------------------------------------------------------

/// Whether a configured step holds a statement.
pub open spec fn has_statement(text: Seq<char>) -> bool {
    contains(text, "SQL:"@)
}

/// Whether a configured step holds a statement.
pub fn holds_statement(text: &str) -> (r: bool)
    ensures
        r == has_statement(text@),
{
    has_text(text, "SQL:")
}

/// Whether the rows of a validation say that the data is not valid: the first
/// value of the first row is `false`.
pub open spec fn is_invalidated(rows: Seq<JsonV>) -> bool {
    match rows[0] {
        JsonV::Array(items) => items.len() > 0 && items[0] == JsonV::Bool(false),
        _ => false,
    }
}

/// What is wrong with data, by the rows of a validation.
pub open spec fn validation_verdict(rows: Seq<JsonV>) -> Option<Seq<char>> {
    if rows.len() == 0 {
        Some("Validation data from table is empty. Please contact your administrator"@)
    } else if is_invalidated(rows) {
        Some("Validation data from table is not valid. Please contact your administrator"@)
    } else {
        None
    }
}

/// What is wrong with data, by the rows of a validation.
pub fn judge_validation(rows: &Vec<Json>) -> (r: Option<String>)
    ensures
        r.deep_view() == validation_verdict(rows.deep_view()),
{
    broadcast use crate::json::lemma_array_view;

    if rows.len() == 0 {
        return Some(
            "Validation data from table is empty. Please contact your administrator".to_owned(),
        );
    }
    assert(rows.deep_view()[0] == rows@[0].deep_view());
    let invalid = match &rows[0] {
        Json::Array(items) => if items.len() > 0 {
            assert(items.deep_view()[0] == items@[0].deep_view());
            match &items[0] {
                Json::Bool(b) => !*b,
                _ => false,
            }
        } else {
            false
        },
        _ => false,
    };
    if invalid {
        Some(
            "Validation data from table is not valid. Please contact your administrator".to_owned(),
        )
    } else {
        None
    }
}

/// The check that a value of a column asks for, where the column refers to
/// another table.
pub open spec fn check_of(
    k: ForeignKey,
    column: Seq<char>,
    value: Seq<char>,
    type_data: Seq<char>,
) -> FkCheckV {
    FkCheckV {
        column,
        table: k.reference_table@,
        ref_column: k.reference_column@,
        value,
        type_data,
    }
}

/// Every foreign key of a column is checked, once a value is given for it.
pub proof fn law_given_keys_are_checked(
    keys: Seq<ForeignKey>,
    column: Seq<char>,
    value: Seq<char>,
    type_data: Seq<char>,
    i: int,
)
    requires
        0 <= i < keys.len(),
        keys[i].column@ == column,
        value.len() > 0,
    ensures
        key_checks(keys, column, value, type_data).contains(
            check_of(keys[i], column, value, type_data),
        ),
    decreases keys.len(),
{
    let before = key_checks(keys.drop_last(), column, value, type_data);
    let all = key_checks(keys, column, value, type_data);
    let c = check_of(keys[i], column, value, type_data);
    if i < keys.len() - 1 {
        law_given_keys_are_checked(keys.drop_last(), column, value, type_data, i);
        let k = choose|k: int| 0 <= k < before.len() && before[k] == c;
        assert(all[k] == c);
    } else {
        assert(all[all.len() - 1] == c);
    }
}

/// No column that a request may set is left out: each that is configured is set,
/// unless the database or the audit trail sets it; and no other is.
pub proof fn law_configured_columns_are_set(columns: Seq<Column>, posted: Seq<Seq<char>>, n: int, j: int)
    requires
        0 <= j < n <= columns.len() <= usize::MAX,
    ensures
        settable(columns, posted, n).contains(j as usize) <==> {
            &&& !columns[j].auto_increment
            &&& !is_audit_column(columns[j].name@)
            &&& posted.contains(columns[j].name@)
        },
    decreases n,
{
    let all = settable(columns, posted, n);
    let before = settable(columns, posted, n - 1);
    lemma_settable_below(columns, posted, n - 1);
    if j < n - 1 {
        law_configured_columns_are_set(columns, posted, n - 1, j);
        if before.contains(j as usize) {
            let i = choose|i: int| 0 <= i < before.len() && before[i] == j as usize;
            assert(all[i] == j as usize);
        }
        if all.contains(j as usize) {
            let i = choose|i: int| 0 <= i < all.len() && all[i] == j as usize;
            assert(i < before.len() ==> before[i] == all[i]);
            assert(before.contains(j as usize));
        }
    } else {
        if all.len() > before.len() {
            assert(all[all.len() - 1] == j as usize);
        }
        if all.contains(j as usize) {
            let i = choose|i: int| 0 <= i < all.len() && all[i] == j as usize;
            assert(i < before.len() ==> before[i] == all[i]);
        }
    }
}

proof fn lemma_settable_below(columns: Seq<Column>, posted: Seq<Seq<char>>, n: int)
    requires
        n <= columns.len() <= usize::MAX,
    ensures
        forall|i: int|
            0 <= i < settable(columns, posted, n).len() ==> #[trigger] settable(
                columns,
                posted,
                n,
            )[i] < n,
    decreases n,
{
    if n > 0 {
        lemma_settable_below(columns, posted, n - 1);
        let all = settable(columns, posted, n);
        let before = settable(columns, posted, n - 1);
        assert forall|i: int| 0 <= i < all.len() implies #[trigger] all[i] < n by {
            if i < before.len() {
                assert(all[i] == before[i]);
            }
        }
    }
}

/// A check of a foreign key looks for the value that is given, in the column of the
/// table that the key refers to.
pub proof fn law_key_checks_look_where_the_key_refers_to(
    keys: Seq<ForeignKey>,
    column: Seq<char>,
    value: Seq<char>,
    type_data: Seq<char>,
    i: int,
)
    requires
        0 <= i < keys.len(),
        keys[i].column@ == column,
        value.len() > 0,
    ensures
        ({
            let checks = key_checks(keys, column, value, type_data);
            exists|j: int|
                {
                    &&& 0 <= j < checks.len()
                    &&& (#[trigger] checks[j]).column == column
                    &&& checks[j].table == keys[i].reference_table@
                    &&& checks[j].ref_column == keys[i].reference_column@
                    &&& checks[j].value == value
                }
        }),
{
    law_given_keys_are_checked(keys, column, value, type_data, i);
    let checks = key_checks(keys, column, value, type_data);
    let c = check_of(keys[i], column, value, type_data);
    let j = choose|j: int| 0 <= j < checks.len() && checks[j] == c;
    assert(checks[j].column == column);
}

/// A configured validation that finds no row, or one that begins with false, refuses
/// the write; any other lets it pass.
pub proof fn law_validations_decide(rows: Seq<JsonV>)
    ensures
        validation_verdict(rows) is Some <==> rows.len() == 0 || rows[0] is Array
            && rows[0]->Array_0.len() > 0 && rows[0]->Array_0[0] == JsonV::Bool(false),
{
}

/// What is asked of the configuration and of the encryption is what the body gives:
/// for each column its name and its text, and whether it is to be encrypted.
pub proof fn law_columns_are_asked_for_as_given(
    columns: Seq<Column>,
    picked: Seq<usize>,
    entries: Seq<Seq<char>>,
    body: JsonV,
    is_trimmed: bool,
    k: int,
)
    requires
        0 <= k < picked.len(),
        field(body, columns[picked[k] as int].name@) is Some,
        gives(field(body, columns[picked[k] as int].name@)->0) is Some,
    ensures
        ({
            let c = columns[picked[k] as int];
            let asked = asked_columns(columns, picked, entries, body, is_trimmed);
            &&& asked.names.len() == picked.len()
            &&& asked.values.len() == picked.len()
            &&& asked.names[k] == c.name@
            &&& asked.values[k] == (gives(field(body, c.name@)->0)->0, c.encrypt)
        }),
{
    law_values_are_read_as_given(field(body, columns[picked[k] as int].name@)->0);
}

/// A value in a formula is bound, and not written into it: the place of a field of the
/// request is taken by a placeholder, and what the request gives for it is among the
/// values that are bound, as a number where it is a numeral.
pub proof fn law_formulas_bind_what_is_given(
    before: (Seq<char>, Seq<Scalar>),
    name: Seq<char>,
    subquery: Seq<char>,
    body: JsonV,
)
    requires
        !("request."@ + name).contains('['),
        field(body, name) is Some,
        gives(field(body, name)->0) is Some,
    ensures
        ({
            let (sql, params) = with_expression(before, "request."@ + name, subquery, body);
            &&& sql == replace(before.0, "{"@ + ("request."@ + name) + "}"@, "?"@)
            &&& params.len() == before.1.len() + 1
            &&& params.drop_last() == before.1
            &&& carries(params.last(), gives(field(body, name)->0)->0, true)
        }),
{
    let expr = "request."@ + name;
    reveal_strlit("request.");
    assert(expr.subrange(0, "request."@.len() as int) =~= "request."@);
    assert(expr.skip("request."@.len() as int) =~= name);
    law_values_are_read_as_given(field(body, name)->0);
    let v = number_or_text(gives(field(body, name)->0)->0);
    assert(before.1.push(v).drop_last() =~= before.1);
}

} // verus!
