//! What an import of rows does with the columns of a table, the values of a row
//! and the identifiers that are missing.
use crate::ast::{
    all_of, satisfies, Collation, DbParam, Filter, FilterV, InsertValue, InsertValueV, Query,
    QueryV, RowV, Scalar,
};
use crate::filters::{id_param, infer_param, integer_or_text, number_or_text};
use crate::giving::{binds, shows};
use crate::idgen::{number_width, width_of, Today};
use crate::json::{field, get_in, json_text, law_set_then_get, lookup, set_in, with_field, Json, JsonV};
use crate::model::{column_named, find_column, Column, TableSchema};
use crate::number::{
    digit_char, i64_text, i64_value, int_text, pad_front, padded, parse_i64, show_float, shown_float,
    u64_text,
};
use crate::pk_utils::{as_json, float_type, int_type, is_float_type, is_int_type, to_json};
use crate::post::Fields;
use crate::text::{
    after_last, contains, has_text, join, joined, push_item, same, split, split_text, strip_both,
    strip_front, stripped, stripped_front, tail_after,
};
use crate::validation::{FkCheck, FkCheckV};
use crate::writing::{audit_column, is_audit_column, key_checks, push_key_checks};
use vstd::prelude::*;
use vstd::string::*;

verus! {

// ---------------------------------------------------------------------------
// Columns
// ---------------------------------------------------------------------------

/// Whether a column can be imported.
pub open spec fn can_import(c: Column, with_id: bool) -> bool {
    !c.auto_increment && !is_audit_column(c.name@) && (with_id || c.name@ != "id"@)
}

/// The positions of the columns that are imported, among the first `n`.
pub open spec fn importable(columns: Seq<Column>, with_id: bool, n: int) -> Seq<usize>
    decreases n,
{
    if n <= 0 {
        Seq::empty()
    } else {
        let before = importable(columns, with_id, n - 1);
        if can_import(columns[n - 1], with_id) {
            before.push((n - 1) as usize)
        } else {
            before
        }
    }
}

/// Whether the table has an identifier that can be imported.
pub open spec fn has_importable_id(columns: Seq<Column>) -> bool {
    exists|i: int|
        0 <= i < columns.len() && can_import(#[trigger] columns[i], true) && columns[i].name@
            == "id"@
}

/// How identifiers are generated; the empty text where they are not.
pub open spec fn id_function(columns: Seq<Column>) -> Seq<char> {
    match column_named(columns, "id"@) {
        Some(c) => c.function@,
        None => Seq::empty(),
    }
}

/// Whether every row has an identifier.
pub open spec fn all_have_id(rows: Seq<Fields>) -> bool {
    forall|i: int| 0 <= i < rows.len() ==> lookup(#[trigger] rows[i], "id"@) is Some
}

/// Whether identifiers are imported: where the table has one, and either every
/// row does or they are generated.
pub open spec fn imports_id(columns: Seq<Column>, rows: Seq<Fields>) -> bool {
    has_importable_id(columns) && (id_function(columns).len() > 0 || all_have_id(rows))
}

/// The positions of the columns that are imported.
pub open spec fn import_columns(columns: Seq<Column>, rows: Seq<Fields>) -> Seq<usize> {
    importable(columns, imports_id(columns, rows), columns.len() as int)
}

/// Whether identifiers are generated.
pub open spec fn generates_id(columns: Seq<Column>, rows: Seq<Fields>) -> bool {
    imports_id(columns, rows) && id_function(columns).len() > 0
}

fn read_all_have_id(rows: &Vec<Vec<(String, Json)>>) -> (r: bool)
    ensures
        r == all_have_id(rows.deep_view()),
{
    let ghost rs = rows.deep_view();
    let mut i: usize = 0;
    while i < rows.len()
        invariant
            i <= rows@.len(),
            rs == rows.deep_view(),
            forall|k: int| 0 <= k < i ==> lookup(#[trigger] rs[k], "id"@) is Some,
        decreases rows.len() - i,
    {
        assert(rs[i as int] == rows@[i as int].deep_view());
        if get_in(&rows[i], "id").is_none() {
            return false;
        }
        i += 1;
    }
    true
}

fn read_can_import(c: &Column, with_id: bool) -> (r: bool)
    ensures
        r == can_import(*c, with_id),
{
    !c.auto_increment && !audit_column(c.name.as_str()) && (with_id || !same(
        c.name.as_str(),
        "id",
    ))
}

fn read_has_id(columns: &Vec<Column>) -> (r: bool)
    ensures
        r == has_importable_id(columns@),
{
    let mut i: usize = 0;
    while i < columns.len()
        invariant
            i <= columns@.len(),
            forall|k: int|
                0 <= k < i ==> !(can_import(#[trigger] columns@[k], true) && columns@[k].name@
                    == "id"@),
        decreases columns.len() - i,
    {
        if read_can_import(&columns[i], true) && same(columns[i].name.as_str(), "id") {
            assert(can_import(columns@[i as int], true));
            return true;
        }
        i += 1;
    }
    false
}

/// How identifiers are generated; the empty text where they are not.
pub fn find_id_function(columns: &Vec<Column>) -> (r: String)
    ensures
        r@ == id_function(columns@),
{
    match find_column(columns, "id") {
        Some(c) => c.function.clone(),
        None => String::new(),
    }
}

/// Whether identifiers are imported.
pub fn read_imports_id(columns: &Vec<Column>, rows: &Vec<Vec<(String, Json)>>) -> (r: bool)
    ensures
        r == imports_id(columns@, rows.deep_view()),
{
    read_has_id(columns) && (!find_id_function(columns).as_str().is_empty() || read_all_have_id(
        rows,
    ))
}

/// The positions of the columns that are imported.
pub fn build_import_columns(columns: &Vec<Column>, rows: &Vec<Vec<(String, Json)>>) -> (r: Vec<usize>)
    ensures
        r@ == import_columns(columns@, rows.deep_view()),
        forall|k: int| 0 <= k < r@.len() ==> r@[k] < columns@.len(),
{
    let with_id = read_imports_id(columns, rows);
    let mut out: Vec<usize> = Vec::new();
    let mut i: usize = 0;
    while i < columns.len()
        invariant
            i <= columns@.len(),
            out@ == importable(columns@, with_id, i as int),
            forall|k: int| 0 <= k < out@.len() ==> out@[k] < columns@.len(),
        decreases columns.len() - i,
    {
        if read_can_import(&columns[i], with_id) {
            out.push(i);
        }
        i += 1;
    }
    out
}

// ---------------------------------------------------------------------------
// Generated identifiers
// ---------------------------------------------------------------------------

/// The parts in front of the running number: dates, and the other tokens as they
/// are.
pub open spec fn prefix_parts(tokens: Seq<Seq<char>>, today: Today) -> Seq<Seq<char>>
    decreases tokens.len(),
{
    if tokens.len() == 0 {
        Seq::empty()
    } else {
        let before = prefix_parts(tokens.drop_last(), today);
        let t = tokens.last();
        if t == "%Y"@ {
            before.push(today.year@)
        } else if t == "%m"@ {
            before.push(today.month@)
        } else if t == "%d"@ {
            before.push(today.day@)
        } else if contains(t, "ID"@) {
            before
        } else {
            before.push(t)
        }
    }
}

/// The width of the running number: that of the last token for it.
pub open spec fn prefix_width(tokens: Seq<Seq<char>>) -> nat
    decreases tokens.len(),
{
    if tokens.len() == 0 {
        0
    } else {
        let t = tokens.last();
        if t != "%Y"@ && t != "%m"@ && t != "%d"@ && contains(t, "ID"@) {
            number_width(t)
        } else {
            prefix_width(tokens.drop_last())
        }
    }
}

/// What stands in front of the running number of an identifier, and the number's
/// width.
pub fn derive_id_prefix_and_width(function: &str, today: &Today) -> (r: (String, usize))
    ensures
        r.0@ == join(prefix_parts(split(function@, '/'), *today), "/"@),
        r.1 == prefix_width(split(function@, '/')),
{
    let tokens = split_text(function, '/');
    let ghost ts = tokens.deep_view();
    let mut parts: Vec<String> = Vec::new();
    let mut width: usize = 0;
    let mut i: usize = 0;
    assert(parts.deep_view() =~= prefix_parts(ts.take(0), *today));
    while i < tokens.len()
        invariant
            i <= tokens@.len(),
            ts == tokens.deep_view(),
            parts.deep_view() == prefix_parts(ts.take(i as int), *today),
            width == prefix_width(ts.take(i as int)),
        decreases tokens.len() - i,
    {
        assert(ts.take(i + 1).drop_last() =~= ts.take(i as int));
        assert(ts[i as int] == tokens@[i as int]@);
        let t = tokens[i].as_str();
        if same(t, "%Y") {
            push_item(&mut parts, today.year.clone());
        } else if same(t, "%m") {
            push_item(&mut parts, today.month.clone());
        } else if same(t, "%d") {
            push_item(&mut parts, today.day.clone());
        } else if has_text(t, "ID") {
            width = width_of(t);
        } else {
            push_item(&mut parts, tokens[i].clone());
        }
        i += 1;
    }
    assert(ts.take(ts.len() as int) =~= ts);
    (joined(&parts, "/"), width)
}

/// The query for the greatest identifier with a prefix.
pub open spec fn greatest_query(table: Seq<char>, prefix: Seq<char>, mongodb: bool) -> QueryV {
    if mongodb {
        QueryV {
            maxima: seq![("max_id"@, "id"@)],
            filter: Some(FilterV::ILike("id"@, prefix + "%"@)),
            limit: Some(1),
            ..all_of(table)
        }
    } else {
        QueryV {
            columns: seq!["COALESCE(MAX(id), 0) as max_id"@],
            filter: Some(FilterV::Like("id"@, "%"@ + prefix + "%"@)),
            ..all_of(table)
        }
    }
}

/// The query for the greatest identifier with a prefix.
pub fn build_greatest_query(table: &str, prefix: &str, mongodb: bool) -> (r: Query)
    ensures
        r.deep_view() == greatest_query(table@, prefix@, mongodb),
{
    let mut q = Query::of(table);
    if mongodb {
        let mut maxima: Vec<(String, String)> = Vec::new();
        push_item(&mut maxima, ("max_id".to_owned(), "id".to_owned()));
        assert(maxima.deep_view() =~= seq![("max_id"@, "id"@)]);
        let mut pattern = prefix.to_owned();
        pattern.append("%");
        q.maxima = maxima;
        q.filter = Some(Filter::ILike("id".to_owned(), pattern));
        q.limit = Some(1);
    } else {
        let mut columns: Vec<String> = Vec::new();
        push_item(&mut columns, "COALESCE(MAX(id), 0) as max_id".to_owned());
        assert(columns.deep_view() =~= seq!["COALESCE(MAX(id), 0) as max_id"@]);
        let mut pattern = "%".to_owned();
        pattern.append(prefix);
        pattern.append("%");
        q.columns = columns;
        q.filter = Some(Filter::Like("id".to_owned(), pattern));
    }
    q
}

/// A number as it is shown once it is rounded to a float.
pub uninterp spec fn rounded_text(n: u64) -> Seq<char>;

/// `serde_json::Number::as_f64`, with the display of what it returns: the text
/// depends on the number alone.
#[verifier::external_body]
fn show_rounded(n: u64) -> (r: String)
    ensures
        r@ == rounded_text(n),
{
    serde_json::Number::from(n).as_f64().map(|x| x.to_string()).unwrap_or_default()
}

/// The greatest identifier that a query found, rounded to a float where it is a
/// number of 64 bits with no room for a sign; `0` where it found none.
pub open spec fn greatest_id(rows: Seq<JsonV>, mongodb: bool) -> Seq<char> {
    if rows.len() > 0 {
        match field(rows[0], "max_id"@) {
            Some(JsonV::Str(s)) => s,
            Some(JsonV::Int(n)) => if mongodb {
                "0"@
            } else {
                int_text(n as int)
            },
            Some(JsonV::UInt(n)) => if mongodb {
                "0"@
            } else if n <= i64::MAX {
                int_text(n as int)
            } else {
                rounded_text(n)
            },
            Some(JsonV::Float(t)) => if mongodb {
                "0"@
            } else {
                shown_float(t)
            },
            _ => "0"@,
        }
    } else {
        "0"@
    }
}

/// The greatest identifier that a query found; `0` where it found none.
pub fn calculate_max_id(rows: &Vec<Json>, mongodb: bool) -> (r: String)
    ensures
        r@ == greatest_id(rows.deep_view(), mongodb),
{
    if rows.len() == 0 {
        return "0".to_owned();
    }
    assert(rows.deep_view()[0] == rows@[0].deep_view());
    match rows[0].get("max_id") {
        Some(v) => match v {
            Json::Str(s) => s.clone(),
            Json::Int(n) => if mongodb {
                "0".to_owned()
            } else {
                i64_text(*n)
            },
            Json::UInt(n) => if mongodb {
                "0".to_owned()
            } else if *n <= 0x7fff_ffff_ffff_ffff {
                u64_text(*n)
            } else {
                show_rounded(*n)
            },
            Json::Float(t) => if mongodb {
                "0".to_owned()
            } else {
                show_float(t.as_str())
            },
            _ => "0".to_owned(),
        },
        None => "0".to_owned(),
    }
}

/// The running number of an identifier: the number behind its last `/`, without
/// leading zeros; zero where there is none.
pub open spec fn last_number(id: Seq<char>) -> i64 {
    match i64_value(strip_front(after_last(id, '/'), '0')) {
        Some(n) => n,
        None => 0,
    }
}

/// The running number of an identifier.
pub fn read_last_number(id: &str) -> (r: i64)
    ensures
        r == last_number(id@),
{
    let tail = tail_after(id, '/');
    let digits = stripped_front(tail.as_str(), '0');
    match parse_i64(digits.as_str()) {
        Some(n) => n,
        None => 0,
    }
}

/// How identifiers are numbered: what stands in front of the number, its width,
/// and the number that was given last.
#[derive(Debug)]
pub struct Numbering {
    pub prefix: String,
    pub width: usize,
    pub last: i64,
}

/// How identifiers are numbered.
pub struct NumberingV {
    pub prefix: Seq<char>,
    pub width: int,
    pub last: i64,
}

impl DeepView for Numbering {
    type V = NumberingV;

    open spec fn deep_view(&self) -> NumberingV {
        NumberingV { prefix: self.prefix@, width: self.width as int, last: self.last }
    }
}

/// An identifier with a running number.
pub open spec fn numbered_id(n: NumberingV) -> Seq<char> {
    n.prefix + "/"@ + pad_front(int_text(n.last as int), n.width)
}

impl Numbering {
    /// The identifier with the number that was given last.
    pub fn id(&self) -> (r: String)
        ensures
            r@ == numbered_id(self.deep_view()),
    {
        let mut out = self.prefix.clone();
        out.append("/");
        let n = i64_text(self.last);
        out.append(padded(n.as_str(), self.width).as_str());
        out
    }
}

// ---------------------------------------------------------------------------
// The values of a row
// ---------------------------------------------------------------------------

/// A JSON value as the text of a cell.
pub open spec fn cell_text(v: JsonV) -> Seq<char> {
    match v {
        JsonV::Str(s) => s,
        JsonV::Bool(b) => if b {
            "1"@
        } else {
            "0"@
        },
        JsonV::Null => Seq::empty(),
        JsonV::Array(_) => strip_both(json_text(v), '"'),
        JsonV::Object(_) => strip_both(json_text(v), '"'),
        _ => json_text(v),
    }
}

/// A JSON value as the text of a cell.
pub fn json_value_to_string(v: &Json) -> (r: String)
    ensures
        r@ == cell_text(v.deep_view()),
{
    match v {
        Json::Str(s) => s.clone(),
        Json::Bool(b) => if *b {
            "1".to_owned()
        } else {
            "0".to_owned()
        },
        Json::Null => String::new(),
        Json::Array(_) => {
            let t = v.text();
            stripped(t.as_str(), '"')
        },
        Json::Object(_) => {
            let t = v.text();
            stripped(t.as_str(), '"')
        },
        _ => v.text(),
    }
}

/// The value of a column: that of the fields beside the file, else that of the
/// row; the empty text where there is none.
pub open spec fn given_cell(extra: Fields, row: Fields, name: Seq<char>) -> Seq<char> {
    match lookup(extra, name) {
        Some(v) => cell_text(v),
        None => match lookup(row, name) {
            Some(v) => cell_text(v),
            None => Seq::empty(),
        },
    }
}

/// The value of a column.
pub fn read_cell(extra: &Vec<(String, Json)>, row: &Vec<(String, Json)>, name: &str) -> (r: String)
    ensures
        r@ == given_cell(extra.deep_view(), row.deep_view(), name@),
{
    match get_in(extra, name) {
        Some(v) => json_value_to_string(v),
        None => match get_in(row, name) {
            Some(v) => json_value_to_string(v),
            None => String::new(),
        },
    }
}

/// The values of the first `n` imported columns of a row, and how identifiers
/// are numbered after it: an identifier that is missing gets the next number.
/// None where there is no next number.
pub open spec fn row_values(
    columns: Seq<Column>,
    picked: Seq<usize>,
    extra: Fields,
    row: Fields,
    numbering: Option<NumberingV>,
    n: int,
) -> Option<(Seq<Seq<char>>, Option<NumberingV>)>
    decreases n,
{
    if n <= 0 {
        Some((Seq::empty(), numbering))
    } else {
        match row_values(columns, picked, extra, row, numbering, n - 1) {
            Some((values, numbers)) => {
                let name = columns[picked[n - 1] as int].name@;
                let given = given_cell(extra, row, name);
                if name == "id"@ && given.len() == 0 && numbers is Some {
                    let k = numbers->0;
                    if k.last < i64::MAX {
                        let next = NumberingV { last: (k.last + 1) as i64, ..k };
                        Some((values.push(numbered_id(next)), Some(next)))
                    } else {
                        None
                    }
                } else {
                    Some((values.push(given), numbers))
                }
            },
            None => None,
        }
    }
}

proof fn lemma_row_values_none(
    columns: Seq<Column>,
    picked: Seq<usize>,
    extra: Fields,
    row: Fields,
    numbering: Option<NumberingV>,
    k: int,
    n: int,
)
    requires
        k <= n,
        row_values(columns, picked, extra, row, numbering, k) is None,
    ensures
        row_values(columns, picked, extra, row, numbering, n) is None,
    decreases n - k,
{
    if k < n {
        lemma_row_values_none(columns, picked, extra, row, numbering, k, n - 1);
    }
}

/// The values of the imported columns of a row. Identifiers that are missing are
/// numbered. None where there is no next number.
pub fn read_row(
    columns: &Vec<Column>,
    picked: &Vec<usize>,
    extra: &Vec<(String, Json)>,
    row: &Vec<(String, Json)>,
    numbering: &mut Option<Numbering>,
) -> (r: Option<Vec<String>>)
    requires
        forall|k: int| 0 <= k < picked@.len() ==> picked@[k] < columns@.len(),
    ensures
        match r {
            Some(values) => values@.len() == picked@.len() && row_values(
                columns@,
                picked@,
                extra.deep_view(),
                row.deep_view(),
                old(numbering).deep_view(),
                picked@.len() as int,
            ) == Some((values.deep_view(), final(numbering).deep_view())),
            None => row_values(
                columns@,
                picked@,
                extra.deep_view(),
                row.deep_view(),
                old(numbering).deep_view(),
                picked@.len() as int,
            ) is None,
        },
{
    let ghost start = numbering.deep_view();
    let mut values: Vec<String> = Vec::new();
    let mut i: usize = 0;
    assert(values.deep_view() =~= Seq::empty());
    while i < picked.len()
        invariant
            i <= picked@.len(),
            forall|k: int| 0 <= k < picked@.len() ==> picked@[k] < columns@.len(),
            start == old(numbering).deep_view(),
            values@.len() == i,
            row_values(
                columns@,
                picked@,
                extra.deep_view(),
                row.deep_view(),
                start,
                i as int,
            ) == Some((values.deep_view(), numbering.deep_view())),
        decreases picked.len() - i,
    {
        let name = columns[picked[i]].name.as_str();
        let given = read_cell(extra, row, name);
        let missing = same(name, "id") && given.as_str().is_empty();
        let last: Option<i64> = match numbering {
            Some(k) => Some(k.last),
            None => None,
        };
        match last {
            Some(l) => {
                if missing {
                    if l == 0x7fff_ffff_ffff_ffff {
                        proof {
                            lemma_row_values_none(
                                columns@,
                                picked@,
                                extra.deep_view(),
                                row.deep_view(),
                                start,
                                i + 1,
                                picked@.len() as int,
                            );
                        }
                        return None;
                    }
                    let old_numbering = numbering.take();
                    match old_numbering {
                        Some(k) => {
                            let next = Numbering {
                                prefix: k.prefix,
                                width: k.width,
                                last: l + 1,
                            };
                            push_item(&mut values, next.id());
                            *numbering = Some(next);
                        },
                        None => {},
                    }
                } else {
                    push_item(&mut values, given);
                }
            },
            None => {
                push_item(&mut values, given);
            },
        }
        i += 1;
    }
    Some(values)
}

/// The checks that the values of the first `n` imported columns ask for.
pub open spec fn row_checks(
    schema: TableSchema,
    picked: Seq<usize>,
    values: Seq<Seq<char>>,
    n: int,
) -> Seq<FkCheckV>
    decreases n,
{
    if n <= 0 {
        Seq::empty()
    } else {
        let c = schema.columns@[picked[n - 1] as int];
        row_checks(schema, picked, values, n - 1) + key_checks(
            schema.foreign_keys@,
            c.name@,
            values[n - 1],
            c.type_data@,
        )
    }
}

/// The checks that the values of a row ask for.
pub fn build_row_checks(schema: &TableSchema, picked: &Vec<usize>, values: &Vec<String>) -> (r: Vec<
    FkCheck,
>)
    requires
        forall|k: int| 0 <= k < picked@.len() ==> picked@[k] < schema.columns@.len(),
        values@.len() == picked@.len(),
    ensures
        r.deep_view() == row_checks(
            *schema,
            picked@,
            values.deep_view(),
            picked@.len() as int,
        ),
{
    let mut out: Vec<FkCheck> = Vec::new();
    let mut i: usize = 0;
    assert(out.deep_view() =~= Seq::empty());
    while i < picked.len()
        invariant
            i <= picked@.len(),
            forall|k: int| 0 <= k < picked@.len() ==> picked@[k] < schema.columns@.len(),
            values@.len() == picked@.len(),
            out.deep_view() == row_checks(*schema, picked@, values.deep_view(), i as int),
        decreases picked.len() - i,
    {
        let c = &schema.columns[picked[i]];
        assert(values.deep_view()[i as int] == values@[i as int]@);
        push_key_checks(
            &mut out,
            &schema.foreign_keys,
            c.name.as_str(),
            values[i].as_str(),
            c.type_data.as_str(),
        );
        i += 1;
    }
    out
}

/// The query that looks for the value of a check.
pub open spec fn key_query(c: FkCheckV) -> QueryV {
    QueryV {
        columns: seq!["1"@],
        filter: Some(FilterV::Eq(c.ref_column, integer_or_text(c.value))),
        limit: Some(1),
        ..all_of(c.table)
    }
}

/// The query that looks for the value of a check.
pub fn check_data_foreign_key(c: &FkCheck) -> (r: Query)
    ensures
        r.deep_view() == key_query(c.deep_view()),
{
    let mut q = Query::of(c.table.as_str());
    let mut columns: Vec<String> = Vec::new();
    push_item(&mut columns, "1".to_owned());
    assert(columns.deep_view() =~= seq!["1"@]);
    q.columns = columns;
    q.filter = Some(Filter::Eq(c.ref_column.clone(), id_param(c.value.as_str()).to_val()));
    q.limit = Some(1);
    q
}

// ---------------------------------------------------------------------------
// Values as they are stored
// ---------------------------------------------------------------------------

/// The value of the `k`-th imported column as it is stored: encrypted where the
/// column asks for it.
pub open spec fn stored_cell(c: Column, value: Seq<char>, stored: Seq<Seq<char>>, k: int) -> Seq<char> {
    if c.encrypt && value.len() > 0 {
        stored[k]
    } else {
        value
    }
}

/// Which values have to be encrypted.
pub open spec fn to_encrypt(
    columns: Seq<Column>,
    picked: Seq<usize>,
    values: Seq<Seq<char>>,
) -> Seq<(Seq<char>, bool)> {
    Seq::new(
        values.len(),
        |k: int| (values[k], columns[picked[k] as int].encrypt && values[k].len() > 0),
    )
}

/// Which values have to be encrypted.
pub fn mark_encrypted(columns: &Vec<Column>, picked: &Vec<usize>, values: &Vec<String>) -> (r: Vec<
    (String, bool),
>)
    requires
        forall|k: int| 0 <= k < picked@.len() ==> picked@[k] < columns@.len(),
        values@.len() == picked@.len(),
    ensures
        r.deep_view() == to_encrypt(columns@, picked@, values.deep_view()),
{
    let ghost all = to_encrypt(columns@, picked@, values.deep_view());
    let mut out: Vec<(String, bool)> = Vec::new();
    let mut i: usize = 0;
    while i < values.len()
        invariant
            i <= values@.len(),
            forall|k: int| 0 <= k < picked@.len() ==> picked@[k] < columns@.len(),
            values@.len() == picked@.len(),
            all == to_encrypt(columns@, picked@, values.deep_view()),
            out.deep_view() == all.take(i as int),
        decreases values.len() - i,
    {
        let marked = columns[picked[i]].encrypt && !values[i].as_str().is_empty();
        push_item(&mut out, (values[i].clone(), marked));
        i += 1;
        assert(all.take(i as int) =~= all.take(i - 1).push(all[i - 1]));
    }
    assert(all.take(values@.len() as int) =~= all);
    out
}

/// A stored value as a JSON value: a number in a column of numbers, null where a
/// column may be empty.
pub open spec fn typed_cell(c: Column, value: Seq<char>) -> JsonV {
    if value.len() == 0 && c.nullable {
        JsonV::Null
    } else if (is_int_type(c.type_data@) || is_float_type(c.type_data@)) && value.len() > 0 {
        as_json(number_or_text(value))
    } else {
        JsonV::Str(value)
    }
}

/// A stored value as a JSON value that is a text or null.
pub open spec fn plain_cell(c: Column, value: Seq<char>) -> JsonV {
    if value.len() == 0 && c.nullable {
        JsonV::Null
    } else {
        JsonV::Str(value)
    }
}

/// How the stored values of a row become JSON values.
#[derive(Debug, PartialEq, Eq, Clone, Copy, Structural)]
pub enum CellStyle {
    Typed,
    Plain,
    Text,
}

/// A stored value as a JSON value.
pub open spec fn styled_cell(c: Column, value: Seq<char>, style: CellStyle) -> JsonV {
    match style {
        CellStyle::Typed => typed_cell(c, value),
        CellStyle::Plain => plain_cell(c, value),
        CellStyle::Text => JsonV::Str(value),
    }
}

fn build_cell(c: &Column, value: String, style: CellStyle) -> (r: Json)
    ensures
        r.deep_view() == styled_cell(*c, value@, style),
{
    match style {
        CellStyle::Typed => if value.as_str().is_empty() && c.nullable {
            Json::Null
        } else if (int_type(c.type_data.as_str()) || float_type(c.type_data.as_str()))
            && !value.as_str().is_empty() {
            to_json(infer_param(value.as_str()))
        } else {
            Json::Str(value)
        },
        CellStyle::Plain => if value.as_str().is_empty() && c.nullable {
            Json::Null
        } else {
            Json::Str(value)
        },
        CellStyle::Text => Json::Str(value),
    }
}

fn pick_stored(c: &Column, value: &str, stored: &Vec<String>, k: usize) -> (r: String)
    requires
        k < stored@.len(),
    ensures
        r@ == stored_cell(*c, value@, stored.deep_view(), k as int),
{
    if c.encrypt && !value.is_empty() {
        assert(stored.deep_view()[k as int] == stored@[k as int]@);
        stored[k].clone()
    } else {
        value.to_owned()
    }
}

/// The document of the first `n` imported columns of a row.
pub open spec fn row_doc(
    columns: Seq<Column>,
    picked: Seq<usize>,
    values: Seq<Seq<char>>,
    stored: Seq<Seq<char>>,
    style: CellStyle,
    n: int,
) -> Fields
    decreases n,
{
    if n <= 0 {
        Seq::empty()
    } else {
        let c = columns[picked[n - 1] as int];
        with_field(
            row_doc(columns, picked, values, stored, style, n - 1),
            c.name@,
            styled_cell(c, stored_cell(c, values[n - 1], stored, n - 1), style),
        )
    }
}

/// The document of a row.
pub fn build_row_doc(
    columns: &Vec<Column>,
    picked: &Vec<usize>,
    values: &Vec<String>,
    stored: &Vec<String>,
    style: CellStyle,
) -> (r: Vec<(String, Json)>)
    requires
        forall|k: int| 0 <= k < picked@.len() ==> picked@[k] < columns@.len(),
        values@.len() == picked@.len(),
        stored@.len() == picked@.len(),
    ensures
        r.deep_view() == row_doc(
            columns@,
            picked@,
            values.deep_view(),
            stored.deep_view(),
            style,
            picked@.len() as int,
        ),
{
    let mut doc: Vec<(String, Json)> = Vec::new();
    let mut i: usize = 0;
    assert(doc.deep_view() =~= Seq::empty());
    while i < picked.len()
        invariant
            i <= picked@.len(),
            forall|k: int| 0 <= k < picked@.len() ==> picked@[k] < columns@.len(),
            values@.len() == picked@.len(),
            stored@.len() == picked@.len(),
            doc.deep_view() == row_doc(
                columns@,
                picked@,
                values.deep_view(),
                stored.deep_view(),
                style,
                i as int,
            ),
        decreases picked.len() - i,
    {
        let c = &columns[picked[i]];
        assert(values.deep_view()[i as int] == values@[i as int]@);
        let value = pick_stored(c, values[i].as_str(), stored, i);
        set_in(&mut doc, c.name.as_str(), build_cell(c, value, style));
        i += 1;
    }
    doc
}

/// A stored value as a bound value of its column. An empty number is zero, where
/// numbers are typed.
pub open spec fn bound_cell(c: Column, value: Seq<char>, typed_numbers: bool) -> Scalar {
    let numeric = is_int_type(c.type_data@) || contains(c.type_data@, "float"@);
    if value.len() == 0 && c.nullable {
        Scalar::Null
    } else if typed_numbers && numeric {
        if value.len() == 0 {
            Scalar::I64(0)
        } else {
            number_or_text(value)
        }
    } else {
        Scalar::Str(value)
    }
}

fn bind_cell(c: &Column, value: String, typed_numbers: bool) -> (r: DbParam)
    ensures
        r.deep_view() == bound_cell(*c, value@, typed_numbers),
{
    if value.as_str().is_empty() && c.nullable {
        DbParam::Null
    } else if typed_numbers && (has_text(c.type_data.as_str(), "int") || has_text(
        c.type_data.as_str(),
        "float",
    )) {
        if value.as_str().is_empty() {
            DbParam::I64(0)
        } else {
            infer_param(value.as_str())
        }
    } else {
        DbParam::Str(value)
    }
}

/// The bound values of the first `n` imported columns of a row.
pub open spec fn row_params(
    columns: Seq<Column>,
    picked: Seq<usize>,
    values: Seq<Seq<char>>,
    stored: Seq<Seq<char>>,
    typed_numbers: bool,
    n: int,
) -> Seq<InsertValueV>
    decreases n,
{
    if n <= 0 {
        Seq::empty()
    } else {
        let c = columns[picked[n - 1] as int];
        row_params(columns, picked, values, stored, typed_numbers, n - 1).push(
            InsertValueV::Param(
                bound_cell(c, stored_cell(c, values[n - 1], stored, n - 1), typed_numbers),
            ),
        )
    }
}

/// The values of a row as it is inserted: those of its columns, then when it was
/// created, and by whom.
pub open spec fn bulk_row(
    columns: Seq<Column>,
    picked: Seq<usize>,
    values: Seq<Seq<char>>,
    stored: Seq<Seq<char>>,
    typed_numbers: bool,
    now_expr: Seq<char>,
    actor: Seq<char>,
) -> Seq<InsertValueV> {
    row_params(columns, picked, values, stored, typed_numbers, picked.len() as int).push(
        InsertValueV::Raw(now_expr),
    ).push(InsertValueV::Param(Scalar::Str(actor)))
}

/// The values of a row as it is inserted.
pub fn build_bulk_row(
    columns: &Vec<Column>,
    picked: &Vec<usize>,
    values: &Vec<String>,
    stored: &Vec<String>,
    typed_numbers: bool,
    now_expr: &str,
    actor: &str,
) -> (r: Vec<InsertValue>)
    requires
        forall|k: int| 0 <= k < picked@.len() ==> picked@[k] < columns@.len(),
        values@.len() == picked@.len(),
        stored@.len() == picked@.len(),
    ensures
        r.deep_view() == bulk_row(
            columns@,
            picked@,
            values.deep_view(),
            stored.deep_view(),
            typed_numbers,
            now_expr@,
            actor@,
        ),
{
    let mut out: Vec<InsertValue> = Vec::new();
    let mut i: usize = 0;
    assert(out.deep_view() =~= Seq::empty());
    while i < picked.len()
        invariant
            i <= picked@.len(),
            forall|k: int| 0 <= k < picked@.len() ==> picked@[k] < columns@.len(),
            values@.len() == picked@.len(),
            stored@.len() == picked@.len(),
            out.deep_view() == row_params(
                columns@,
                picked@,
                values.deep_view(),
                stored.deep_view(),
                typed_numbers,
                i as int,
            ),
        decreases picked.len() - i,
    {
        let c = &columns[picked[i]];
        assert(values.deep_view()[i as int] == values@[i as int]@);
        let value = pick_stored(c, values[i].as_str(), stored, i);
        push_item(&mut out, InsertValue::Param(bind_cell(c, value, typed_numbers)));
        i += 1;
    }
    push_item(&mut out, InsertValue::Raw(now_expr.to_owned()));
    push_item(&mut out, InsertValue::Param(DbParam::Str(actor.to_owned())));
    out
}

/// The names of the columns of a row as it is inserted.
pub open spec fn bulk_names(columns: Seq<Column>, picked: Seq<usize>) -> Seq<Seq<char>> {
    Seq::new(picked.len(), |k: int| columns[picked[k] as int].name@).push("created_at"@).push(
        "created_by_id"@,
    )
}

/// The names of the columns of a row as it is inserted.
pub fn build_bulk_names(columns: &Vec<Column>, picked: &Vec<usize>) -> (r: Vec<String>)
    requires
        forall|k: int| 0 <= k < picked@.len() ==> picked@[k] < columns@.len(),
    ensures
        r.deep_view() == bulk_names(columns@, picked@),
{
    let ghost all = Seq::new(picked@.len(), |k: int| columns@[picked@[k] as int].name@);
    let mut out: Vec<String> = Vec::new();
    let mut i: usize = 0;
    while i < picked.len()
        invariant
            i <= picked@.len(),
            forall|k: int| 0 <= k < picked@.len() ==> picked@[k] < columns@.len(),
            all == Seq::new(picked@.len(), |k: int| columns@[picked@[k] as int].name@),
            out.deep_view() == all.take(i as int),
        decreases picked.len() - i,
    {
        push_item(&mut out, columns[picked[i]].name.clone());
        i += 1;
        assert(all.take(i as int) =~= all.take(i - 1).push(all[i - 1]));
    }
    assert(all.take(picked@.len() as int) =~= all);
    push_item(&mut out, "created_at".to_owned());
    push_item(&mut out, "created_by_id".to_owned());
    out
}

proof fn lemma_row_params_len(
    columns: Seq<Column>,
    picked: Seq<usize>,
    values: Seq<Seq<char>>,
    stored: Seq<Seq<char>>,
    typed_numbers: bool,
    n: int,
)
    requires
        0 <= n,
    ensures
        row_params(columns, picked, values, stored, typed_numbers, n).len() == n,
    decreases n,
{
    if n > 0 {
        lemma_row_params_len(columns, picked, values, stored, typed_numbers, n - 1);
    }
}

/// Every row of an import has a value for each of the names under which it is
/// inserted.
pub proof fn law_bulk_rows_fit(
    columns: Seq<Column>,
    picked: Seq<usize>,
    values: Seq<Seq<char>>,
    stored: Seq<Seq<char>>,
    typed_numbers: bool,
    now_expr: Seq<char>,
    actor: Seq<char>,
)
    ensures
        bulk_row(columns, picked, values, stored, typed_numbers, now_expr, actor).len()
            == bulk_names(columns, picked).len(),
{
    lemma_row_params_len(columns, picked, values, stored, typed_numbers, picked.len() as int);
}

/// An import never sets the columns of the audit trail from a file, nor those
/// that the database sets.
pub proof fn law_import_columns_are_own(columns: Seq<Column>, with_id: bool, n: int, k: int)
    requires
        n <= columns.len() <= usize::MAX,
        0 <= k < importable(columns, with_id, n).len(),
    ensures
        importable(columns, with_id, n)[k] < columns.len(),
        can_import(columns[importable(columns, with_id, n)[k] as int], with_id),
    decreases n,
{
    let before = importable(columns, with_id, n - 1);
    if k < before.len() {
        law_import_columns_are_own(columns, with_id, n - 1, k);
    }
}

/// Where identifiers are imported and not generated, every row has one.
pub proof fn law_identifiers_are_not_missing(columns: Seq<Column>, rows: Seq<Fields>, i: int)
    requires
        imports_id(columns, rows),
        !generates_id(columns, rows),
        0 <= i < rows.len(),
    ensures
        lookup(rows[i], "id"@) is Some,
{
}

/// The text of the cell under a name: the field beside the file, or the cell of the
/// row. An integer has its numeral, a truth value a one or a zero, and a cell that
/// is missing or null has none.
pub open spec fn cell_given(extra: Fields, row: Fields, name: Seq<char>) -> Option<Seq<char>> {
    let v = match lookup(extra, name) {
        Some(v) => Some(v),
        None => lookup(row, name),
    };
    match v {
        Some(JsonV::Str(s)) => Some(s),
        Some(JsonV::Int(n)) => Some(int_text(n as int)),
        Some(JsonV::Bool(b)) => Some(
            int_text(
                if b {
                    1
                } else {
                    0
                },
            ),
        ),
        Some(JsonV::Null) => Some(Seq::empty()),
        None => Some(Seq::empty()),
        _ => None,
    }
}

/// Whether the values of a row are those of its cells, under each of the imported
/// columns but an identifier that is generated.
pub open spec fn values_are_given(
    columns: Seq<Column>,
    picked: Seq<usize>,
    extra: Fields,
    row: Fields,
    values: Seq<Seq<char>>,
    n: int,
) -> bool {
    &&& values.len() == n
    &&& forall|k: int|
        0 <= k < n ==> value_is_given(
            columns[picked[k] as int].name@,
            extra,
            row,
            #[trigger] values[k],
        )
}

/// Whether a value of a row is that of its cell.
pub open spec fn value_is_given(
    name: Seq<char>,
    extra: Fields,
    row: Fields,
    value: Seq<char>,
) -> bool {
    match cell_given(extra, row, name) {
        Some(text) => value == text || name == "id"@ && text.len() == 0,
        None => true,
    }
}

/// The values of a row are those of its cells.
pub proof fn law_values_come_from_the_file(
    columns: Seq<Column>,
    picked: Seq<usize>,
    extra: Fields,
    row: Fields,
    numbering: Option<NumberingV>,
    n: int,
)
    requires
        0 <= n,
        row_values(columns, picked, extra, row, numbering, n) is Some,
    ensures
        ({
            let (values, _) = row_values(columns, picked, extra, row, numbering, n)->0;
            values_are_given(columns, picked, extra, row, values, n)
        }),
    decreases n,
{
    if n > 0 {
        law_values_come_from_the_file(columns, picked, extra, row, numbering, n - 1);
        let (before, _) = row_values(columns, picked, extra, row, numbering, n - 1)->0;
        let (values, _) = row_values(columns, picked, extra, row, numbering, n)->0;
        let name = columns[picked[n - 1] as int].name@;
        reveal_strlit("1");
        reveal_strlit("0");
        assert("1"@ =~= int_text(1)) by {
            assert("1"@[0] == digit_char(1));
        }
        assert("0"@ =~= int_text(0)) by {
            assert("0"@[0] == digit_char(0));
        }
        assert(values == before.push(values.last()));
        assert(value_is_given(name, extra, row, values[n - 1]));
        assert forall|k: int| 0 <= k < n implies value_is_given(
            columns[picked[k] as int].name@,
            extra,
            row,
            #[trigger] values[k],
        ) by {
            if k < n - 1 {
                assert(values[k] == before[k]);
            }
        }
    }
}

/// Whether a value of a bulk insertion is what a text gives for a column: a number
/// only where numbers are typed, and the column is one of numbers. Where there is
/// no text, it is null if the column may be, and else a zero or an empty text.
pub open spec fn holds_cell(v: InsertValueV, c: Column, text: Seq<char>, typed_numbers: bool) -> bool {
    let numeric = typed_numbers && (contains(c.type_data@, "int"@) || contains(
        c.type_data@,
        "float"@,
    ));
    if text.len() > 0 {
        binds(v, text, numeric)
    } else if c.nullable {
        v == InsertValueV::Param(Scalar::Null)
    } else if numeric {
        v == InsertValueV::Param(Scalar::I64(0))
    } else {
        v == InsertValueV::Param(Scalar::Str(text))
    }
}

proof fn lemma_params_hold(
    columns: Seq<Column>,
    picked: Seq<usize>,
    values: Seq<Seq<char>>,
    stored: Seq<Seq<char>>,
    typed_numbers: bool,
    n: int,
    k: int,
)
    requires
        0 <= k < n,
    ensures
        row_params(columns, picked, values, stored, typed_numbers, n).len() == n,
        ({
            let c = columns[picked[k] as int];
            holds_cell(
                row_params(columns, picked, values, stored, typed_numbers, n)[k],
                c,
                if c.encrypt && values[k].len() > 0 {
                    stored[k]
                } else {
                    values[k]
                },
                typed_numbers,
            )
        }),
    decreases n,
{
    lemma_row_params_len(columns, picked, values, stored, typed_numbers, n);
    lemma_row_params_len(columns, picked, values, stored, typed_numbers, n - 1);
    if k < n - 1 {
        lemma_params_hold(columns, picked, values, stored, typed_numbers, n - 1, k);
        assert(row_params(columns, picked, values, stored, typed_numbers, n)[k] == row_params(
            columns,
            picked,
            values,
            stored,
            typed_numbers,
            n - 1,
        )[k]);
    }
}

/// A row of a bulk insertion holds its values: under each imported column the value,
/// or what it was encrypted to, as an integer or a float where it is a numeral in a
/// column of numbers, and never null unless it is empty. Behind them stands when
/// the row was created, and by whom.
pub proof fn law_bulk_rows_hold_their_values(
    columns: Seq<Column>,
    picked: Seq<usize>,
    values: Seq<Seq<char>>,
    stored: Seq<Seq<char>>,
    typed_numbers: bool,
    now_expr: Seq<char>,
    actor: Seq<char>,
    k: int,
)
    ensures
        ({
            let row = bulk_row(columns, picked, values, stored, typed_numbers, now_expr, actor);
            let names = bulk_names(columns, picked);
            let n = picked.len() as int;
            &&& row.len() == n + 2
            &&& names.len() == n + 2
            &&& 0 <= k < n ==> {
                let c = columns[picked[k] as int];
                &&& names[k] == c.name@
                &&& holds_cell(
                    row[k],
                    c,
                    if c.encrypt && values[k].len() > 0 {
                        stored[k]
                    } else {
                        values[k]
                    },
                    typed_numbers,
                )
            }
            &&& names[n] == "created_at"@ && row[n] == InsertValueV::Raw(now_expr)
            &&& names[n + 1] == "created_by_id"@ && row[n + 1] == InsertValueV::Param(
                Scalar::Str(actor),
            )
        }),
{
    let n = picked.len() as int;
    lemma_row_params_len(columns, picked, values, stored, typed_numbers, n);
    if 0 <= k < n {
        lemma_params_hold(columns, picked, values, stored, typed_numbers, n, k);
    }
}

/// A document of an import holds the values of its row: under the name of each
/// imported column, as a number where numbers are typed, and as the text itself
/// otherwise.
pub proof fn law_imported_documents_hold_their_values(
    columns: Seq<Column>,
    picked: Seq<usize>,
    values: Seq<Seq<char>>,
    stored: Seq<Seq<char>>,
    style: CellStyle,
    n: int,
    k: int,
)
    requires
        0 <= k < n,
        values[k].len() > 0,
        !columns[picked[k] as int].encrypt,
        forall|j: int|
            k < j < n ==> (#[trigger] columns[picked[j] as int]).name@
                != columns[picked[k] as int].name@,
    ensures
        ({
            let c = columns[picked[k] as int];
            let doc = row_doc(columns, picked, values, stored, style, n);
            let t = c.type_data@;
            let numeric = style == CellStyle::Typed && (contains(t, "int"@) || contains(t, "float"@)
                || contains(t, "double"@) || contains(t, "decimal"@) || contains(t, "money"@));
            &&& lookup(doc, c.name@) is Some
            &&& shows(lookup(doc, c.name@)->0, values[k], numeric)
        }),
    decreases n,
{
    let c = columns[picked[k] as int];
    let last = columns[picked[n - 1] as int];
    let before = row_doc(columns, picked, values, stored, style, n - 1);
    law_set_then_get(
        before,
        last.name@,
        styled_cell(last, stored_cell(last, values[n - 1], stored, n - 1), style),
        c.name@,
    );
    if k < n - 1 {
        assert(columns[picked[n - 1] as int].name@ != c.name@);
        law_imported_documents_hold_their_values(
            columns,
            picked,
            values,
            stored,
            style,
            n - 1,
            k,
        );
    }
}

/// What is asked to be encrypted is each value of a column that asks for it, unless it
/// is empty, and no other.
pub proof fn law_imports_encrypt_what_is_asked_for(
    columns: Seq<Column>,
    picked: Seq<usize>,
    values: Seq<Seq<char>>,
    k: int,
)
    requires
        0 <= k < values.len(),
    ensures
        to_encrypt(columns, picked, values).len() == values.len(),
        to_encrypt(columns, picked, values)[k].0 == values[k],
        to_encrypt(columns, picked, values)[k].1 <==> columns[picked[k] as int].encrypt
            && values[k].len() > 0,
{
}

/// A key is looked for in the column of the table that it refers to, as a number where it
/// is a numeral.
pub proof fn law_keys_are_looked_for(c: FkCheckV, row: RowV, by: Collation)
    ensures
        ({
            let q = key_query(c);
            &&& q.table == c.table
            &&& q.filter is Some
            &&& satisfies(row, q.filter->0, by) <==> match i64_value(c.value) {
                Some(n) => row(c.ref_column) == Scalar::I64(n),
                None => row(c.ref_column) == Scalar::Str(c.value),
            }
        }),
{
}

/// Identifiers that are generated go up by one, from the one that was given last, and are
/// written behind the prefix, filled up to the width.
pub proof fn law_generated_identifiers_go_up(
    columns: Seq<Column>,
    picked: Seq<usize>,
    extra: Fields,
    row: Fields,
    numbering: NumberingV,
    n: int,
)
    requires
        0 < n,
        columns[picked[n - 1] as int].name@ == "id"@,
        lookup(extra, "id"@) is None,
        lookup(row, "id"@) is None,
        numbering.last < i64::MAX,
        row_values(columns, picked, extra, row, Some(numbering), n - 1) is Some,
        ({
            let (_, numbers) = row_values(columns, picked, extra, row, Some(numbering), n - 1)->0;
            numbers == Some(numbering)
        }),
    ensures
        row_values(columns, picked, extra, row, Some(numbering), n) is Some,
        ({
            let (values, numbers) = row_values(columns, picked, extra, row, Some(numbering), n)->0;
            &&& numbers == Some(NumberingV { last: (numbering.last + 1) as i64, ..numbering })
            &&& values.last() == numbering.prefix + "/"@ + pad_front(
                int_text(numbering.last + 1),
                numbering.width,
            )
        }),
{
}

} // verus!
