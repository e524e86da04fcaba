//! Exporting rows as a file.
use crate::ast::{Collation, Join, JoinV, Query, QueryV, RowV};
use crate::filters::{Split, SplitV};
use crate::flow::{
    checks_access, failure, failure_in, missing_entity, refuse, refused, rows_in,
    say_missing_entity, told, touches_data, Action, ActionV, Audit, AuditV, FileReply, FileReplyV,
    Outcome,
};
use crate::importing::{cell_text, json_value_to_string};
use crate::json::{field, fields_of, get_in, lemma_object_view, lookup, Json, JsonV};
use crate::model::{JoinTable, TableSchema};
use crate::number::{
    digit_char, i32_value, int_text, law_numeral_round_trip, parse_i32, show_float, shown_float,
};
use crate::ordering::aliases_are_cut;
use crate::post::{take_rows, Fields};
use crate::reading::{
    build_having, build_joins, build_query, build_raw_join, clamped, configured_joins,
    do_splits_fit, having_of, is_reading, join_safe, joins_of, law_queries_read_what_is_configured,
    names_of, parameter_names, query_of, raw_join, read_configured_joins, requests_of,
    split_requests, splits_fit, ReadRules,
};
use crate::sheets::{
    csv_written, holds, is_archive, is_saved, saved, table_records, table_sheet, write_csv, write_xlsx,
    WorkbookFault,
};
use crate::text::{
    begins_with, byte_len, bytes_in, join, joined, keep, lowercase, push_item, same, starts_with,
    strip_front, stripped_front, to_lowercase,
};
use rust_xlsxwriter::Workbook;
use vstd::prelude::*;
use vstd::string::*;
use vstd::utf8::encode_utf8;

verus! {

/// A request to export rows.
#[derive(Debug)]
pub struct ExportRequest {
    pub route: String,
    /// Whether the route is open to everyone.
    pub is_public: bool,
    /// Whether routes that are not open ask for a token; they always do where
    /// the request is classic.
    pub require_auth: bool,
    pub schema: TableSchema,
    /// What is said of a token that is not valid, and of one that does not
    /// suffice, where the request is classic.
    pub invalid_token: String,
    pub unauthorized: String,
    /// The present time, as it stands in the name of the file.
    pub stamp: String,
    /// Whether names in join conditions are replaced all at once, and required
    /// parameters are not checked.
    pub classic: bool,
}

// ---------------------------------------------------------------------------
// What is asked for
// ---------------------------------------------------------------------------

/// The text of a field; another one where it is no text.
pub open spec fn text_field(body: Fields, name: Seq<char>, other: Seq<char>) -> Seq<char> {
    match lookup(body, name) {
        Some(JsonV::Str(s)) => s,
        _ => other,
    }
}

fn read_text_field(body: &Vec<(String, Json)>, name: &str, other: &str) -> (r: String)
    ensures
        r@ == text_field(body.deep_view(), name@, other@),
{
    match get_in(body, name) {
        Some(v) => match v {
            Json::Str(s) => s.clone(),
            _ => other.to_owned(),
        },
        None => other.to_owned(),
    }
}

/// Whether a workbook is asked for: CSV otherwise.
pub open spec fn wants_workbook(body: Fields) -> bool {
    lowercase(text_field(body, "type"@, "csv"@)) == "xlsx"@
}

/// Whether a workbook is asked for.
pub fn workbook_wanted(body: &Vec<(String, Json)>) -> (r: bool)
    ensures
        r == wants_workbook(body.deep_view()),
{
    let t = read_text_field(body, "type", "csv");
    let low = to_lowercase(t.as_str());
    same(low.as_str(), "xlsx")
}

/// How many rows are exported at most.
pub open spec fn export_limit(body: Fields) -> u32 {
    match lookup(body, "limit"@) {
        Some(JsonV::Str(s)) => match i32_value(s) {
            Some(n) => clamped(n as int, 1, 100_000) as u32,
            None => 10_000,
        },
        _ => 10_000,
    }
}

/// How many rows are exported at most.
pub fn read_export_limit(body: &Vec<(String, Json)>) -> (r: u32)
    ensures
        r == export_limit(body.deep_view()),
{
    match get_in(body, "limit") {
        Some(v) => match v {
            Json::Str(s) => match parse_i32(s.as_str()) {
                Some(n) => if n < 1 {
                    1
                } else if n > 100_000 {
                    100_000
                } else {
                    n as u32
                },
                None => 10_000,
            },
            _ => 10_000,
        },
        None => 10_000,
    }
}

/// The names of the required parameters that were not given: those with a star
/// in front whose text is missing or empty.
pub open spec fn missing_parameters(parameters: Seq<Seq<char>>, body: Fields) -> Seq<Seq<char>>
    decreases parameters.len(),
{
    if parameters.len() == 0 {
        Seq::empty()
    } else {
        let before = missing_parameters(parameters.drop_last(), body);
        let p = parameters.last();
        let name = strip_front(p, '*');
        if starts_with(p, "*"@) && text_field(body, name, Seq::empty()).len() == 0 {
            before.push(name)
        } else {
            before
        }
    }
}

/// The names of the required parameters that were not given.
pub fn find_missing_parameters(parameters: &Vec<String>, body: &Vec<(String, Json)>) -> (r: Vec<
    String,
>)
    ensures
        r.deep_view() == missing_parameters(parameters.deep_view(), body.deep_view()),
{
    let ghost ps = parameters.deep_view();
    let mut out: Vec<String> = Vec::new();
    let mut i: usize = 0;
    assert(out.deep_view() =~= missing_parameters(ps.take(0), body.deep_view()));
    proof {
        reveal_strlit("");
        assert(""@ =~= Seq::<char>::empty());
    }
    while i < parameters.len()
        invariant
            i <= parameters@.len(),
            ps == parameters.deep_view(),
            ""@ == Seq::<char>::empty(),
            out.deep_view() == missing_parameters(ps.take(i as int), body.deep_view()),
        decreases parameters.len() - i,
    {
        assert(ps.take(i + 1).drop_last() =~= ps.take(i as int));
        assert(ps[i as int] == parameters@[i as int]@);
        let p = parameters[i].as_str();
        let name = stripped_front(p, '*');
        if begins_with(p, "*") && read_text_field(body, name.as_str(), "").as_str().is_empty() {
            push_item(&mut out, name);
        }
        i += 1;
    }
    assert(ps.take(ps.len() as int) =~= ps);
    out
}

// ---------------------------------------------------------------------------
// Names in join conditions, all replaced at once
// ---------------------------------------------------------------------------

/// A list of names with their texts, with one put in its place: behind the last
/// name that is not shorter.
pub open spec fn inserted_by_length(
    list: Seq<(Seq<char>, Seq<char>)>,
    x: (Seq<char>, Seq<char>),
) -> Seq<(Seq<char>, Seq<char>)>
    decreases list.len(),
{
    if list.len() == 0 {
        seq![x]
    } else if byte_len(list.last().0) >= byte_len(x.0) {
        list.push(x)
    } else {
        inserted_by_length(list.drop_last(), x).push(list.last())
    }
}

/// Names with their texts made safe, the longest names first.
pub open spec fn longest_first(joins: Seq<(Seq<char>, Seq<char>)>) -> Seq<(Seq<char>, Seq<char>)>
    decreases joins.len(),
{
    if joins.len() == 0 {
        joins
    } else {
        inserted_by_length(
            longest_first(joins.drop_last()),
            (joins.last().0, join_safe(joins.last().1)),
        )
    }
}

/// Whether some bytes begin with those of a name.
pub open spec fn begins_with_name(bytes: Seq<u8>, name: Seq<char>) -> bool {
    let n = encode_utf8(name);
    n.len() > 0 && n.len() <= bytes.len() && bytes.take(n.len() as int) == n
}

/// The first name, at or after `from`, that some bytes begin with.
pub open spec fn first_name(
    bytes: Seq<u8>,
    joins: Seq<(Seq<char>, Seq<char>)>,
    from: int,
) -> Option<int>
    decreases joins.len() - from,
{
    if from < 0 || from >= joins.len() {
        None
    } else if begins_with_name(bytes, joins[from].0) {
        Some(from)
    } else {
        first_name(bytes, joins, from + 1)
    }
}

/// Bytes with every name replaced by its text, in one pass; a byte that begins
/// no name becomes the character of its number.
pub open spec fn replaced_names(bytes: Seq<u8>, joins: Seq<(Seq<char>, Seq<char>)>) -> Seq<char>
    decreases bytes.len(),
{
    if bytes.len() == 0 {
        Seq::empty()
    } else {
        match first_name(bytes, joins, 0) {
            Some(i) => {
                let n = byte_len(joins[i].0);
                if 0 < n <= bytes.len() {
                    joins[i].1 + replaced_names(bytes.skip(n as int), joins)
                } else {
                    Seq::empty()
                }
            },
            None => seq![bytes[0] as char] + replaced_names(bytes.skip(1), joins),
        }
    }
}

/// A join condition with every name replaced by its text.
pub open spec fn substituted_at_once(
    logical: Seq<char>,
    joins: Seq<(Seq<char>, Seq<char>)>,
) -> Seq<char> {
    if joins.len() == 0 {
        logical
    } else {
        replaced_names(encode_utf8(logical), joins)
    }
}

fn insert_by_length(list: &mut Vec<(String, String)>, x: (String, String))
    ensures
        final(list).deep_view() == inserted_by_length(old(list).deep_view(), x.deep_view()),
{
    let ghost all = list.deep_view();
    let ghost xv = x.deep_view();
    let n: usize = list.len();
    let size: usize = bytes_in(x.0.as_str());
    let mut i: usize = n;
    assert(all.take(n as int) =~= all);
    assert(inserted_by_length(all, xv) + all.skip(n as int) =~= inserted_by_length(all, xv));
    while 0 < i && bytes_in(list[i - 1].0.as_str()) < size
        invariant
            i <= n,
            n == list@.len(),
            all == list.deep_view(),
            xv == x.deep_view(),
            size == byte_len(x.0@),
            inserted_by_length(all, xv) == inserted_by_length(all.take(i as int), xv) + all.skip(
                i as int,
            ),
        decreases i,
    {
        assert(all.take(i as int).last() == list@[i - 1].deep_view());
        assert(all.take(i as int).drop_last() =~= all.take(i - 1));
        assert(inserted_by_length(all.take(i - 1), xv).push(all[i - 1]) + all.skip(i as int)
            =~= inserted_by_length(all.take(i - 1), xv) + all.skip(i - 1));
        i -= 1;
    }
    if i > 0 {
        assert(all.take(i as int).last() == list@[i - 1].deep_view());
    }
    assert(inserted_by_length(all.take(i as int), xv) =~= all.take(i as int).push(xv));
    list.insert(i, x);
    assert(list.deep_view() =~= all.take(i as int).push(xv) + all.skip(i as int));
}

/// Names with their texts made safe, the longest names first.
pub fn sort_by_length(joins: &Vec<(String, String)>) -> (r: Vec<(String, String)>)
    ensures
        r.deep_view() == longest_first(joins.deep_view()),
{
    let ghost js = joins.deep_view();
    let mut out: Vec<(String, String)> = Vec::new();
    let mut i: usize = 0;
    assert(out.deep_view() =~= longest_first(js.take(0)));
    while i < joins.len()
        invariant
            i <= joins@.len(),
            js == joins.deep_view(),
            out.deep_view() == longest_first(js.take(i as int)),
        decreases joins.len() - i,
    {
        assert(js.take(i + 1).drop_last() =~= js.take(i as int));
        assert(js[i as int] == joins@[i as int].deep_view());
        insert_by_length(&mut out, (joins[i].0.clone(), keep(joins[i].1.as_str(), "_.")));
        i += 1;
    }
    assert(js.take(js.len() as int) =~= js);
    out
}

fn name_at(bytes: &Vec<u8>, at: usize, name: &Vec<u8>) -> (r: bool)
    requires
        at <= bytes@.len(),
    ensures
        r == (name@.len() > 0 && name@.len() <= bytes@.skip(at as int).len() && bytes@.skip(
            at as int,
        ).take(name@.len() as int) == name@),
{
    let ghost rest = bytes@.skip(at as int);
    if name.len() == 0 || name.len() > bytes.len() - at {
        return false;
    }
    let mut k: usize = 0;
    while k < name.len()
        invariant
            k <= name@.len(),
            at + name@.len() <= bytes@.len(),
            bytes@.len() == bytes.len(),
            rest == bytes@.skip(at as int),
            rest.take(k as int) == name@.take(k as int),
        decreases name.len() - k,
    {
        assert(rest[k as int] == bytes@[at + k]);
        if bytes[at + k] != name[k] {
            assert(rest.take(name@.len() as int)[k as int] != name@[k as int]);
            return false;
        }
        assert(rest.take(k + 1) =~= rest.take(k as int).push(rest[k as int]));
        assert(name@.take(k + 1) =~= name@.take(k as int).push(name@[k as int]));
        k += 1;
    }
    assert(name@.take(name@.len() as int) =~= name@);
    true
}

fn find_name(bytes: &Vec<u8>, at: usize, joins: &Vec<(String, String)>) -> (r: Option<usize>)
    requires
        at <= bytes@.len(),
    ensures
        match r {
            Some(i) => i < joins@.len() && first_name(
                bytes@.skip(at as int),
                joins.deep_view(),
                0,
            ) == Some(i as int),
            None => first_name(bytes@.skip(at as int), joins.deep_view(), 0) is None,
        },
        r is Some ==> 0 < byte_len(joins@[r->0 as int].0@) && at + byte_len(
            joins@[r->0 as int].0@,
        ) <= bytes@.len(),
{
    let ghost rest = bytes@.skip(at as int);
    let ghost js = joins.deep_view();
    let mut i: usize = 0;
    while i < joins.len()
        invariant
            i <= joins@.len(),
            at <= bytes@.len(),
            rest == bytes@.skip(at as int),
            js == joins.deep_view(),
            first_name(rest, js, 0) == first_name(rest, js, i as int),
        decreases joins.len() - i,
    {
        assert(js[i as int] == joins@[i as int].deep_view());
        let name = joins[i].0.as_str().as_bytes_vec();
        if name_at(bytes, at, &name) {
            return Some(i);
        }
        i += 1;
    }
    None
}

/// A join condition with every name replaced by its text.
pub fn substitute_paramjoins(logical: &str, joins: &Vec<(String, String)>) -> (r: String)
    ensures
        r@ == substituted_at_once(logical@, joins.deep_view()),
{
    let ghost js = joins.deep_view();
    assert(js.len() == joins@.len());
    if joins.len() == 0 {
        return logical.to_owned();
    }
    let bytes = logical.as_bytes_vec();
    let mut out = String::new();
    let mut i: usize = 0;
    assert(bytes@.skip(0) =~= bytes@);
    assert(out@ + replaced_names(bytes@, js) =~= replaced_names(bytes@, js));
    while i < bytes.len()
        invariant
            i <= bytes@.len(),
            js == joins.deep_view(),
            bytes@ == encode_utf8(logical@),
            out@ + replaced_names(bytes@.skip(i as int), js) == replaced_names(bytes@, js),
        decreases bytes.len() - i,
    {
        let ghost rest = bytes@.skip(i as int);
        let ghost sofar = out@;
        match find_name(&bytes, i, joins) {
            Some(k) => {
                assert(js[k as int] == joins@[k as int].deep_view());
                let n: usize = bytes_in(joins[k].0.as_str());
                assert(rest.skip(n as int) =~= bytes@.skip(i + n));
                out.append(joins[k].1.as_str());
                i += n;
                assert(out@ + replaced_names(bytes@.skip(i as int), js) =~= sofar
                    + replaced_names(rest, js));
            },
            None => {
                assert(rest.skip(1) =~= bytes@.skip(i + 1));
                let c: char = bytes[i] as char;
                out.push(c);
                i += 1;
                assert(out@ + replaced_names(bytes@.skip(i as int), js) =~= sofar
                    + replaced_names(rest, js));
            },
        }
    }
    assert(bytes@.skip(i as int).len() == 0);
    assert(out@ + replaced_names(bytes@.skip(i as int), js) =~= out@);
    out
}

/// The joins of a result, with the names in their conditions replaced at once.
pub open spec fn joins_at_once(
    tables: Seq<JoinTable>,
    joins: Seq<(Seq<char>, Seq<char>)>,
) -> Seq<JoinV> {
    Seq::new(
        tables.len(),
        |i: int| raw_join(tables[i], substituted_at_once(tables[i].logical@, joins)),
    )
}

fn build_joins_at_once(tables: &Vec<JoinTable>, joins: &Vec<(String, String)>) -> (r: Vec<Join>)
    ensures
        r.deep_view() == joins_at_once(tables@, joins.deep_view()),
{
    let ghost all = joins_at_once(tables@, joins.deep_view());
    let mut out: Vec<Join> = Vec::new();
    let mut i: usize = 0;
    while i < tables.len()
        invariant
            i <= tables@.len(),
            all == joins_at_once(tables@, joins.deep_view()),
            out.deep_view() == all.take(i as int),
        decreases tables.len() - i,
    {
        let logical = substitute_paramjoins(tables[i].logical.as_str(), joins);
        push_item(&mut out, build_raw_join(&tables[i], logical));
        i += 1;
        assert(all.take(i as int) =~= all.take(i - 1).push(all[i - 1]));
    }
    assert(all.take(tables@.len() as int) =~= all);
    out
}

// ---------------------------------------------------------------------------
// The query
// ---------------------------------------------------------------------------

/// How the parameters of a request are treated.
pub open spec fn export_rules(classic: bool) -> ReadRules {
    ReadRules {
        stars: false,
        skips_empty: false,
        lists: !classic,
        sonic: classic,
        any_case: false,
    }
}

/// The joins of an export.
pub open spec fn export_joins(schema: TableSchema, body: Fields, classic: bool) -> Seq<JoinV> {
    let given = configured_joins(schema.get.parameters.deep_view(), body);
    if classic {
        joins_at_once(schema.get.join_tables@, longest_first(given))
    } else {
        joins_of(schema.get.join_tables@, given, false)
    }
}

/// The query of an export. None where the alias of a selected column cannot be
/// cut off.
pub open spec fn export_query(
    schema: TableSchema,
    body: Fields,
    splits: Seq<Seq<SplitV>>,
    classic: bool,
) -> Option<QueryV> {
    if aliases_are_cut(schema.get.columns.deep_view()) {
        Some(
            query_of(
                schema,
                body,
                splits,
                export_rules(classic),
                export_joins(schema, body, classic),
                having_of(schema, false),
                (Some(export_limit(body)), None),
            ),
        )
    } else {
        None
    }
}

/// The query of an export.
pub fn build_export_query(
    schema: &TableSchema,
    body: &Vec<(String, Json)>,
    splits: &Vec<Vec<Split>>,
    classic: bool,
) -> (r: Option<Query>)
    requires
        splits_fit(names_of(schema.get.parameters.deep_view(), false), splits.deep_view()),
    ensures
        r.deep_view() == export_query(*schema, body.deep_view(), splits.deep_view(), classic),
{
    let given = read_configured_joins(&schema.get.parameters, body);
    let joins = if classic {
        let sorted = sort_by_length(&given);
        build_joins_at_once(&schema.get.join_tables, &sorted)
    } else {
        build_joins(&schema.get.join_tables, &given, false)
    };
    let having = build_having(schema, false);
    let rules = ReadRules {
        stars: false,
        skips_empty: false,
        lists: !classic,
        sonic: classic,
        any_case: false,
    };
    let limit: u32 = read_export_limit(body);
    build_query(schema, body, splits, rules, joins, having, Some(limit), None)
}

// ---------------------------------------------------------------------------
// The table
// ---------------------------------------------------------------------------

/// The names of some fields.
pub open spec fn field_names(fields: Fields) -> Seq<Seq<char>> {
    Seq::new(fields.len(), |i: int| fields[i].0)
}

/// A value as the text of an exported cell: a float by its numeral, or, in a
/// classic export, as it is shown.
pub open spec fn exported_text(v: JsonV, classic: bool) -> Seq<char> {
    match v {
        JsonV::Float(t) => if classic {
            shown_float(t)
        } else {
            t
        },
        _ => cell_text(v),
    }
}

fn export_text(v: &Json, classic: bool) -> (r: String)
    ensures
        r@ == exported_text(v.deep_view(), classic),
{
    match v {
        Json::Float(t) => if classic {
            show_float(t.as_str())
        } else {
            t.clone()
        },
        _ => json_value_to_string(v),
    }
}

/// The texts of a row under some headings; the empty one where it has none.
pub open spec fn line_of(headers: Seq<Seq<char>>, row: Fields, classic: bool) -> Seq<Seq<char>> {
    Seq::new(
        headers.len(),
        |i: int|
            match lookup(row, headers[i]) {
                Some(v) => exported_text(v, classic),
                None => Seq::empty(),
            },
    )
}

/// The headings of a result that are known after its first `n` rows: those of
/// the first row that has fields.
pub open spec fn headers_after(rows: Seq<JsonV>, n: int) -> Seq<Seq<char>>
    decreases n,
{
    if n <= 0 {
        if rows.len() > 0 {
            field_names(fields_of(rows[0]))
        } else {
            Seq::empty()
        }
    } else {
        let before = headers_after(rows, n - 1);
        if before.len() == 0 {
            field_names(fields_of(rows[n - 1]))
        } else {
            before
        }
    }
}

/// The lines of the first `n` rows of a result: those that are objects.
pub open spec fn lines_after(rows: Seq<JsonV>, n: int, classic: bool) -> Seq<Seq<Seq<char>>>
    decreases n,
{
    if n <= 0 {
        Seq::empty()
    } else {
        let before = lines_after(rows, n - 1, classic);
        match rows[n - 1] {
            JsonV::Object(fields) => before.push(
                line_of(headers_after(rows, n), fields, classic),
            ),
            _ => before,
        }
    }
}

fn list_names(fields: &Vec<(String, Json)>) -> (r: Vec<String>)
    ensures
        r.deep_view() == field_names(fields.deep_view()),
{
    let ghost all = field_names(fields.deep_view());
    let mut out: Vec<String> = Vec::new();
    let mut i: usize = 0;
    while i < fields.len()
        invariant
            i <= fields@.len(),
            all == field_names(fields.deep_view()),
            out.deep_view() == all.take(i as int),
        decreases fields.len() - i,
    {
        push_item(&mut out, fields[i].0.clone());
        i += 1;
        assert(all.take(i as int) =~= all.take(i - 1).push(all[i - 1]));
    }
    assert(all.take(fields@.len() as int) =~= all);
    out
}

fn build_line(headers: &Vec<String>, row: &Vec<(String, Json)>, classic: bool) -> (r: Vec<String>)
    ensures
        r.deep_view() == line_of(headers.deep_view(), row.deep_view(), classic),
{
    let ghost all = line_of(headers.deep_view(), row.deep_view(), classic);
    let mut out: Vec<String> = Vec::new();
    let mut i: usize = 0;
    while i < headers.len()
        invariant
            i <= headers@.len(),
            all == line_of(headers.deep_view(), row.deep_view(), classic),
            out.deep_view() == all.take(i as int),
        decreases headers.len() - i,
    {
        let text = match get_in(row, headers[i].as_str()) {
            Some(v) => export_text(v, classic),
            None => String::new(),
        };
        push_item(&mut out, text);
        i += 1;
        assert(all.take(i as int) =~= all.take(i - 1).push(all[i - 1]));
    }
    assert(all.take(headers@.len() as int) =~= all);
    out
}

fn names_of_row(row: &Json) -> (r: Vec<String>)
    ensures
        r.deep_view() == field_names(fields_of(row.deep_view())),
{
    broadcast use lemma_object_view;

    match row {
        Json::Object(fields) => list_names(fields),
        _ => {
            let none: Vec<String> = Vec::new();
            assert(none.deep_view() =~= field_names(Seq::empty()));
            none
        },
    }
}

/// The headings and the lines of a result.
pub fn build_table(rows: &Vec<Json>, classic: bool) -> (r: (Vec<String>, Vec<Vec<String>>))
    ensures
        r.0.deep_view() == headers_after(rows.deep_view(), rows@.len() as int),
        r.1.deep_view() == lines_after(rows.deep_view(), rows@.len() as int, classic),
{
    broadcast use lemma_object_view;

    let ghost rs = rows.deep_view();
    let mut headers: Vec<String> = Vec::new();
    assert(headers.deep_view() =~= Seq::empty());
    if rows.len() > 0 {
        assert(rs[0] == rows@[0].deep_view());
        headers = names_of_row(&rows[0]);
    }
    let mut lines: Vec<Vec<String>> = Vec::new();
    assert(lines.deep_view() =~= Seq::empty());
    let mut i: usize = 0;
    while i < rows.len()
        invariant
            i <= rows@.len(),
            rs == rows.deep_view(),
            headers.deep_view() == headers_after(rs, i as int),
            lines.deep_view() == lines_after(rs, i as int, classic),
        decreases rows.len() - i,
    {
        assert(rs[i as int] == rows@[i as int].deep_view());
        assert(headers.deep_view().len() == headers@.len());
        if headers.len() == 0 {
            headers = names_of_row(&rows[i]);
        }
        let row = &rows[i];
        match row {
            Json::Object(fields) => {
                proof {
                    lemma_object_view(*fields);
                }
                push_item(&mut lines, build_line(&headers, fields, classic));
            },
            _ => {},
        }
        i += 1;
    }
    (headers, lines)
}

/// Every line of an exported table is as long as its header, once the header is
/// known.
pub proof fn law_lines_fit_the_header(rows: Seq<JsonV>, n: int, classic: bool, k: int)
    requires
        0 <= k < lines_after(rows, n, classic).len(),
        rows.len() > 0,
        field_names(fields_of(rows[0])).len() > 0,
        n <= rows.len(),
    ensures
        lines_after(rows, n, classic)[k].len() == headers_after(rows, n).len(),
        headers_after(rows, n) == field_names(fields_of(rows[0])),
    decreases n,
{
    lemma_header_is_first(rows, n);
    let before = lines_after(rows, n - 1, classic);
    if k < before.len() {
        law_lines_fit_the_header(rows, n - 1, classic, k);
    }
}

proof fn lemma_header_is_first(rows: Seq<JsonV>, n: int)
    requires
        rows.len() > 0,
        field_names(fields_of(rows[0])).len() > 0,
    ensures
        headers_after(rows, n) == field_names(fields_of(rows[0])),
    decreases n,
{
    if n > 0 {
        lemma_header_is_first(rows, n - 1);
    }
}

/// The bytes of a table as CSV; none where its lines are not of the same length.
pub open spec fn csv_or_nothing(headers: Seq<Seq<char>>, lines: Seq<Seq<Seq<char>>>) -> Seq<u8> {
    match csv_written(table_records(headers, lines)) {
        Ok(bytes) => bytes,
        Err(_) => Seq::empty(),
    }
}

fn encode_csv(headers: &Vec<String>, lines: &Vec<Vec<String>>) -> (r: Vec<u8>)
    ensures
        r@ == csv_or_nothing(headers.deep_view(), lines.deep_view()),
{
    match write_csv(headers, lines) {
        Ok(bytes) => bytes,
        Err(_) => Vec::new(),
    }
}

/// The bytes of a file with a table, by what came of writing it into a workbook:
/// CSV where there is none.
pub fn file_of_saved(
    written: Result<Vec<u8>, WorkbookFault>,
    headers: &Vec<String>,
    lines: &Vec<Vec<String>>,
) -> (r: Vec<u8>)
    ensures
        r@ == match written {
            Ok(bytes) => bytes@,
            Err(_) => csv_or_nothing(headers.deep_view(), lines.deep_view()),
        },
{
    match written {
        Ok(bytes) => bytes,
        Err(_) => encode_csv(headers, lines),
    }
}

/// Whether bytes are those of a file with a table. Where a workbook is asked for
/// and the table fits into one, they are the archive that a workbook with the
/// table is saved as, if it can be saved. They are CSV otherwise.
pub open spec fn is_table_file(
    workbook: bool,
    headers: Seq<Seq<char>>,
    lines: Seq<Seq<Seq<char>>>,
    bytes: Seq<u8>,
) -> bool {
    if workbook && table_sheet(headers, lines) is Ok {
        exists|book: Workbook|
            {
                &&& holds(book, table_sheet(headers, lines)->Ok_0)
                &&& match #[trigger] saved(book) {
                    Ok(s) => is_archive(bytes) && bytes == s,
                    Err(_) => bytes == csv_or_nothing(headers, lines),
                }
            }
    } else {
        bytes == csv_or_nothing(headers, lines)
    }
}

/// The bytes of a file with a table: a workbook where one is asked for and the
/// table fits into it, CSV otherwise.
pub fn encode_table(workbook: bool, headers: &Vec<String>, lines: &Vec<Vec<String>>) -> (r: Vec<u8>)
    requires
        lines@.len() < u32::MAX,
    ensures
        is_table_file(workbook, headers.deep_view(), lines.deep_view(), r@),
{
    if workbook {
        let saved_file = write_xlsx(headers, lines);
        let ghost hs = headers.deep_view();
        let ghost ls = lines.deep_view();
        let bytes = file_of_saved(saved_file, headers, lines);
        proof {
            if table_sheet(hs, ls) is Ok {
                let page = table_sheet(hs, ls)->Ok_0;
                let book = choose|book: Workbook|
                    holds(book, page) && #[trigger] is_saved(book, saved_file);
                assert(holds(book, page));
                assert(saved(book) is Ok == (saved_file is Ok));
            }
        }
        bytes
    } else {
        encode_csv(headers, lines)
    }
}

// ---------------------------------------------------------------------------
// The steps
// ---------------------------------------------------------------------------

/// Where an export stands.
#[derive(Debug, PartialEq, Eq, Clone, Copy, Structural)]
pub enum ExportStage {
    Start,
    Token,
    Access,
    Body,
    Splitting,
    Querying,
    Ended,
}

/// An export under way: the actor is the bearer of the token, the body that of
/// the request.
#[derive(Debug)]
pub struct Exporting {
    pub request: ExportRequest,
    pub stage: ExportStage,
    pub actor: String,
    pub body: Vec<(String, Json)>,
}

/// What follows from a step: where the export stands, who makes it, with what
/// body, and what it asks for.
pub type ExportTurn = (ExportStage, Seq<char>, Fields, ActionV);

/// The request is refused.
pub open spec fn export_answers(
    actor: Seq<char>,
    body: Fields,
    status: u16,
    message: Seq<char>,
) -> ExportTurn {
    (ExportStage::Ended, actor, body, ActionV::Answer(refused(status, message)))
}

/// Whether the request needs a token.
pub open spec fn export_guarded(q: ExportRequest) -> bool {
    !q.is_public && (q.classic || q.require_auth)
}

/// What is said of an entity that is not configured.
pub open spec fn export_unknown(q: ExportRequest) -> Seq<char> {
    if q.classic {
        missing_entity(q.route@)
    } else {
        "Entity "@ + q.route@ + " not found"@
    }
}

/// What follows once the body is there.
pub open spec fn export_body_read(q: ExportRequest, actor: Seq<char>, body: Fields) -> ExportTurn {
    let missing = missing_parameters(q.schema.get.parameters.deep_view(), body);
    if q.schema.table@.len() == 0 {
        export_answers(actor, body, 424, export_unknown(q))
    } else if !q.classic && missing.len() > 0 {
        export_answers(actor, body, 400, "Required parameters missing: "@ + join(missing, ", "@))
    } else {
        (
            ExportStage::Splitting,
            actor,
            body,
            ActionV::TakeApart(
                requests_of(names_of(q.schema.get.parameters.deep_view(), false), body),
            ),
        )
    }
}

/// What follows once the parameters are taken apart.
pub open spec fn export_split(
    q: ExportRequest,
    actor: Seq<char>,
    body: Fields,
    splits: Seq<Seq<SplitV>>,
) -> ExportTurn {
    if splits_fit(names_of(q.schema.get.parameters.deep_view(), false), splits) {
        match export_query(q.schema, body, splits, q.classic) {
            Some(query) => (ExportStage::Querying, actor, body, ActionV::RunQuery(query)),
            None => (ExportStage::Ended, actor, body, ActionV::Fault),
        }
    } else {
        (ExportStage::Ended, actor, body, ActionV::Fault)
    }
}

/// The file with the bytes of a table.
pub open spec fn export_file(q: ExportRequest, body: Fields, bytes: Seq<u8>) -> FileReplyV {
    let base = text_field(body, "filename"@, q.route@);
    let ext = if wants_workbook(body) {
        "xlsx"@
    } else {
        "csv"@
    };
    FileReplyV {
        content_type: if wants_workbook(body) {
            "application/vnd.openxmlformats-officedocument.spreadsheetml.sheet"@
        } else {
            "text/csv"@
        },
        disposition: "attachment; filename=\""@ + base + "-"@ + q.stamp@ + "."@ + ext + "\""@,
        bytes,
    }
}

/// What follows from the rows of the query: the file with these bytes is sent.
pub open spec fn export_found(
    q: ExportRequest,
    actor: Seq<char>,
    body: Fields,
    rows: Seq<JsonV>,
    bytes: Seq<u8>,
) -> ExportTurn {
    (
        ExportStage::Ended,
        actor,
        body,
        if lines_after(rows, rows.len() as int, q.classic).len() < u32::MAX {
            ActionV::SendFile(
                AuditV { action: "EXPORT"@, actor_id: actor, id: None },
                export_file(q, body, bytes),
            )
        } else {
            ActionV::Fault
        },
    )
}

/// Whether bytes are those of the file with the rows of the query.
pub open spec fn is_export_of(q: ExportRequest, body: Fields, rows: Seq<JsonV>, bytes: Seq<u8>) -> bool {
    let n = rows.len() as int;
    let lines = lines_after(rows, n, q.classic);
    lines.len() < u32::MAX ==> is_table_file(
        wants_workbook(body),
        headers_after(rows, n),
        lines,
        bytes,
    )
}

/// What is said of a token that is not valid.
pub open spec fn export_no_token(q: ExportRequest) -> Seq<char> {
    if q.classic {
        q.invalid_token@
    } else {
        "Invalid token"@
    }
}

/// What is said of a token that does not suffice.
pub open spec fn export_no_access(q: ExportRequest, e: Seq<char>) -> Seq<char> {
    if q.classic {
        q.unauthorized@
    } else {
        "Unauthorized: "@ + e
    }
}

/// The next step of an export. `bytes` are those of the file, where one is sent.
pub open spec fn export_next(
    q: ExportRequest,
    stage: ExportStage,
    actor: Seq<char>,
    body: Fields,
    outcome: Outcome,
    bytes: Seq<u8>,
) -> ExportTurn {
    match stage {
        ExportStage::Start => if export_guarded(q) {
            (ExportStage::Token, actor, body, ActionV::VerifyToken)
        } else {
            (ExportStage::Body, actor, body, ActionV::ReadBody)
        },
        ExportStage::Token => match outcome {
            Outcome::Identified(id) => (
                ExportStage::Access,
                id@,
                body,
                if q.classic {
                    ActionV::CheckAccess("read"@)
                } else {
                    ActionV::CheckRequest
                },
            ),
            _ => export_answers(actor, body, 401, export_no_token(q)),
        },
        ExportStage::Access => match failure_in(outcome) {
            Some(e) => export_answers(actor, body, 401, export_no_access(q, e)),
            None => (ExportStage::Body, actor, body, ActionV::ReadBody),
        },
        ExportStage::Body => match outcome {
            Outcome::Body(fields) => export_body_read(q, actor, fields.deep_view()),
            _ => export_body_read(q, actor, Seq::empty()),
        },
        ExportStage::Splitting => match outcome {
            Outcome::TakenApart(splits) => export_split(q, actor, body, splits.deep_view()),
            _ => (ExportStage::Ended, actor, body, ActionV::Fault),
        },
        ExportStage::Querying => match failure_in(outcome) {
            Some(e) => export_answers(actor, body, 500, "Error EXPORT(AST) query: "@ + e),
            None => export_found(q, actor, body, rows_in(outcome), bytes),
        },
        ExportStage::Ended => (ExportStage::Ended, actor, body, ActionV::Nothing),
    }
}

/// Whether a step of an export leads to this turn: where a file is sent, it is
/// that with the rows of the query.
pub open spec fn is_export_turn(
    q: ExportRequest,
    stage: ExportStage,
    actor: Seq<char>,
    body: Fields,
    outcome: Outcome,
    turn: ExportTurn,
) -> bool {
    exists|bytes: Seq<u8>|
        {
            &&& turn == #[trigger] export_next(q, stage, actor, body, outcome, bytes)
            &&& stage == ExportStage::Querying && failure_in(outcome) is None ==> is_export_of(
                q,
                body,
                rows_in(outcome),
                bytes,
            )
        }
}

/// An export that has not begun.
pub fn export(request: ExportRequest) -> (r: Exporting)
    ensures
        r.request == request,
        r.stage == ExportStage::Start,
        r.actor@ == Seq::<char>::empty(),
        r.body.deep_view() == Seq::<(Seq<char>, JsonV)>::empty(),
{
    let body: Vec<(String, Json)> = Vec::new();
    assert(body.deep_view() =~= Seq::<(Seq<char>, JsonV)>::empty());
    Exporting { request, stage: ExportStage::Start, actor: String::new(), body }
}

impl Exporting {
    fn answer(&mut self, status: u16, message: String) -> (r: Action)
        ensures
            final(self).request == old(self).request,
            (final(self).stage, final(self).actor@, final(self).body.deep_view(), r.deep_view())
                == export_answers(
                old(self).actor@,
                old(self).body.deep_view(),
                status,
                message@,
            ),
    {
        self.stage = ExportStage::Ended;
        Action::Answer(refuse(status, message))
    }

    fn body_read(&mut self) -> (r: Action)
        ensures
            final(self).request == old(self).request,
            (final(self).stage, final(self).actor@, final(self).body.deep_view(), r.deep_view())
                == export_body_read(
                old(self).request,
                old(self).actor@,
                old(self).body.deep_view(),
            ),
    {
        let missing = find_missing_parameters(&self.request.schema.get.parameters, &self.body);
        assert(missing.deep_view().len() == missing@.len());
        if self.request.schema.table.as_str().is_empty() {
            let message = if self.request.classic {
                say_missing_entity(self.request.route.as_str())
            } else {
                let mut m = "Entity ".to_owned();
                m.append(self.request.route.as_str());
                m.append(" not found");
                m
            };
            self.answer(424, message)
        } else if !self.request.classic && missing.len() > 0 {
            let list = joined(&missing, ", ");
            self.answer(400, told("Required parameters missing: ", list.as_str()))
        } else {
            let requests = split_requests(
                &self.request.schema.get.parameters,
                &self.body,
                false,
            );
            self.stage = ExportStage::Splitting;
            Action::TakeApart(requests)
        }
    }

    fn split(&mut self, splits: Vec<Vec<Split>>) -> (r: Action)
        ensures
            final(self).request == old(self).request,
            (final(self).stage, final(self).actor@, final(self).body.deep_view(), r.deep_view())
                == export_split(
                old(self).request,
                old(self).actor@,
                old(self).body.deep_view(),
                splits.deep_view(),
            ),
    {
        let names = parameter_names(&self.request.schema.get.parameters, false);
        if do_splits_fit(&names, &splits) {
            match build_export_query(
                &self.request.schema,
                &self.body,
                &splits,
                self.request.classic,
            ) {
                Some(query) => {
                    self.stage = ExportStage::Querying;
                    Action::RunQuery(query)
                },
                None => {
                    self.stage = ExportStage::Ended;
                    Action::Fault
                },
            }
        } else {
            self.stage = ExportStage::Ended;
            Action::Fault
        }
    }

    fn file(&self, bytes: Vec<u8>) -> (r: FileReply)
        ensures
            r.deep_view() == export_file(self.request, self.body.deep_view(), bytes@),
    {
        let workbook = workbook_wanted(&self.body);
        let base = read_text_field(&self.body, "filename", self.request.route.as_str());
        let mut disposition = "attachment; filename=\"".to_owned();
        disposition.append(base.as_str());
        disposition.append("-");
        disposition.append(self.request.stamp.as_str());
        disposition.append(".");
        if workbook {
            disposition.append("xlsx");
        } else {
            disposition.append("csv");
        }
        disposition.append("\"");
        let content_type = if workbook {
            "application/vnd.openxmlformats-officedocument.spreadsheetml.sheet".to_owned()
        } else {
            "text/csv".to_owned()
        };
        FileReply { content_type, disposition, bytes }
    }

    /// Takes the next step of the export, with what came of the last one.
    pub fn step(&mut self, outcome: Outcome) -> (r: Action)
        ensures
            final(self).request == old(self).request,
            is_export_turn(
                old(self).request,
                old(self).stage,
                old(self).actor@,
                old(self).body.deep_view(),
                outcome,
                (final(self).stage, final(self).actor@, final(self).body.deep_view(), r.deep_view()),
            ),
    {
        let ghost none = Seq::<u8>::empty();
        let ghost q = self.request;
        let ghost stage = self.stage;
        let ghost actor = self.actor@;
        let ghost body = self.body.deep_view();
        if let ExportStage::Querying = self.stage {
            if failure(&outcome).is_none() {
                return self.found(outcome);
            }
        }
        let action = self.step_without_file(outcome);
        assert(export_next(q, stage, actor, body, outcome, none) == (
            self.stage,
            self.actor@,
            self.body.deep_view(),
            action.deep_view(),
        ));
        action
    }

    fn found(&mut self, outcome: Outcome) -> (r: Action)
        requires
            old(self).stage == ExportStage::Querying,
            failure_in(outcome) is None,
        ensures
            final(self).request == old(self).request,
            is_export_turn(
                old(self).request,
                old(self).stage,
                old(self).actor@,
                old(self).body.deep_view(),
                outcome,
                (final(self).stage, final(self).actor@, final(self).body.deep_view(), r.deep_view()),
            ),
    {
        let ghost q = self.request;
        let ghost body = self.body.deep_view();
        let ghost actor = self.actor@;
        let ghost rs = rows_in(outcome);
        let rows = take_rows(outcome);
        assert(rows.deep_view().len() == rows@.len());
        let (headers, lines) = build_table(&rows, self.request.classic);
        assert(lines.deep_view().len() == lines@.len());
        self.stage = ExportStage::Ended;
        if lines.len() >= 0xffff_ffff {
            assert(export_next(
                q,
                ExportStage::Querying,
                actor,
                body,
                outcome,
                Seq::empty(),
            ) == export_found(q, actor, body, rs, Seq::empty()));
            return Action::Fault;
        }
        let bytes = encode_table(workbook_wanted(&self.body), &headers, &lines);
        let ghost bs = bytes@;
        assert(is_export_of(q, body, rs, bs));
        assert(export_next(q, ExportStage::Querying, actor, body, outcome, bs) == export_found(
            q,
            actor,
            body,
            rs,
            bs,
        ));
        let file = self.file(bytes);
        Action::SendFile(
            Audit { action: "EXPORT".to_owned(), actor_id: self.actor.clone(), id: None },
            file,
        )
    }

    fn step_without_file(&mut self, outcome: Outcome) -> (r: Action)
        requires
            old(self).stage == ExportStage::Querying ==> failure_in(outcome) is Some,
        ensures
            final(self).request == old(self).request,
            (final(self).stage, final(self).actor@, final(self).body.deep_view(), r.deep_view())
                == export_next(
                old(self).request,
                old(self).stage,
                old(self).actor@,
                old(self).body.deep_view(),
                outcome,
                Seq::empty(),
            ),
    {
        match self.stage {
            ExportStage::Start => {
                if !self.request.is_public && (self.request.classic || self.request.require_auth) {
                    self.stage = ExportStage::Token;
                    Action::VerifyToken
                } else {
                    self.stage = ExportStage::Body;
                    Action::ReadBody
                }
            },
            ExportStage::Token => match outcome {
                Outcome::Identified(id) => {
                    self.actor = id;
                    self.stage = ExportStage::Access;
                    if self.request.classic {
                        Action::CheckAccess("read".to_owned())
                    } else {
                        Action::CheckRequest
                    }
                },
                _ => {
                    let message = if self.request.classic {
                        self.request.invalid_token.clone()
                    } else {
                        "Invalid token".to_owned()
                    };
                    self.answer(401, message)
                },
            },
            ExportStage::Access => match failure(&outcome) {
                Some(e) => {
                    let message = if self.request.classic {
                        self.request.unauthorized.clone()
                    } else {
                        told("Unauthorized: ", e)
                    };
                    self.answer(401, message)
                },
                None => {
                    self.stage = ExportStage::Body;
                    Action::ReadBody
                },
            },
            ExportStage::Body => {
                match outcome {
                    Outcome::Body(fields) => {
                        self.body = fields;
                    },
                    _ => {
                        let none: Vec<(String, Json)> = Vec::new();
                        assert(none.deep_view() =~= Seq::<(Seq<char>, JsonV)>::empty());
                        self.body = none;
                    },
                }
                self.body_read()
            },
            ExportStage::Splitting => match outcome {
                Outcome::TakenApart(splits) => self.split(splits),
                _ => {
                    self.stage = ExportStage::Ended;
                    Action::Fault
                },
            },
            ExportStage::Querying => match failure(&outcome) {
                Some(e) => self.answer(500, told("Error EXPORT(AST) query: ", e)),
                None => Action::Nothing,
            },
            ExportStage::Ended => Action::Nothing,
        }
    }
}

// ---------------------------------------------------------------------------
// Laws
// ---------------------------------------------------------------------------

/// Where an export stands, who makes it and with what body, after some outcomes,
/// one after the other.
pub open spec fn export_after(q: ExportRequest, outcomes: Seq<Outcome>) -> (
    ExportStage,
    Seq<char>,
    Fields,
)
    decreases outcomes.len(),
{
    if outcomes.len() == 0 {
        (ExportStage::Start, Seq::empty(), Seq::empty())
    } else {
        let (stage, actor, body) = export_after(q, outcomes.drop_last());
        let (s, a, b, _) = export_next(q, stage, actor, body, outcomes.last(), Seq::empty());
        (s, a, b)
    }
}

/// What an export asks for after some outcomes, with the bytes of the file where
/// one is sent.
pub open spec fn export_asks(q: ExportRequest, outcomes: Seq<Outcome>, bytes: Seq<u8>) -> ActionV {
    let (stage, actor, body) = export_after(q, outcomes.drop_last());
    export_next(q, stage, actor, body, outcomes.last(), bytes).3
}

/// Whether the outcome at `k` answered a check of access, and granted it.
pub open spec fn export_granted_at(q: ExportRequest, outcomes: Seq<Outcome>, k: int) -> bool {
    &&& 0 < k < outcomes.len()
    &&& checks_access(export_asks(q, outcomes.take(k), Seq::empty()))
    &&& failure_in(outcomes[k]) is None
}

/// The stages that come before access is granted.
pub open spec fn export_before_access(stage: ExportStage) -> bool {
    stage == ExportStage::Start || stage == ExportStage::Token || stage == ExportStage::Access
        || stage == ExportStage::Ended
}

proof fn lemma_export_granted(q: ExportRequest, outcomes: Seq<Outcome>)
    requires
        export_guarded(q),
    ensures
        !export_before_access(export_after(q, outcomes).0) ==> exists|k: int|
            export_granted_at(q, outcomes, k),
        export_after(q, outcomes).0 == ExportStage::Access ==> outcomes.len() > 0 && checks_access(
            export_asks(q, outcomes, Seq::empty()),
        ),
    decreases outcomes.len(),
{
    if outcomes.len() > 0 {
        let before = outcomes.drop_last();
        lemma_export_granted(q, before);
        let (stage, actor, body) = export_after(q, before);
        if !export_before_access(export_after(q, outcomes).0) {
            if export_before_access(stage) {
                let k = outcomes.len() - 1;
                assert(outcomes.take(k) =~= before);
                assert(export_granted_at(q, outcomes, k));
            } else {
                let k = choose|k: int| export_granted_at(q, before, k);
                assert(before.take(k) =~= outcomes.take(k));
                assert(before[k] == outcomes[k]);
                assert(export_granted_at(q, outcomes, k));
            }
        }
    }
}

/// Where a request needs a token, no stored data is read or sent unless access
/// was checked and granted before.
pub proof fn law_export_is_guarded(q: ExportRequest, outcomes: Seq<Outcome>, bytes: Seq<u8>)
    requires
        export_guarded(q),
        outcomes.len() > 0,
        touches_data(export_asks(q, outcomes, bytes)),
    ensures
        exists|k: int| export_granted_at(q, outcomes, k),
{
    let before = outcomes.drop_last();
    lemma_export_granted(q, before);
    let (stage, actor, body) = export_after(q, before);
    assert(!export_before_access(stage));
    let k = choose|k: int| export_granted_at(q, before, k);
    assert(before.take(k) =~= outcomes.take(k));
    assert(before[k] == outcomes[k]);
    assert(export_granted_at(q, outcomes, k));
}

/// An export never has more rows than the greatest number, whatever number the
/// request names, and may have one.
pub proof fn law_exports_are_bounded(body: Fields)
    ensures
        1 <= export_limit(body) <= 100_000,
{
}


/// What a request exports: whenever a query is run, it is on the table of the
/// entity, selects the configured columns, and finds the rows that the body asks
/// for, and no others.
pub proof fn law_export_reads_what_is_asked_for(
    q: ExportRequest,
    actor: Seq<char>,
    body: Fields,
    outcome: Outcome,
    bytes: Seq<u8>,
    row: RowV,
    by: Collation,
)
    requires
        outcome is TakenApart,
        export_next(q, ExportStage::Splitting, actor, body, outcome, bytes).3 is RunQuery,
    ensures
        is_reading(
            export_next(q, ExportStage::Splitting, actor, body, outcome, bytes).3->RunQuery_0,
            q.schema,
            q.schema.get.parameters.deep_view(),
            body,
            outcome->TakenApart_0.deep_view(),
            (ReadRules {
                stars: false,
                skips_empty: false,
                lists: !q.classic,
                sonic: q.classic,
                any_case: false,
            }),
            row,
            by,
        ),
{
    let names = names_of(q.schema.get.parameters.deep_view(), false);
    assert(names =~= q.schema.get.parameters.deep_view());
    let splits = outcome->TakenApart_0.deep_view();
    let query = export_next(
        q,
        ExportStage::Splitting,
        actor,
        body,
        outcome,
        bytes,
    ).3->RunQuery_0;
    law_queries_read_what_is_configured(
        q.schema,
        body,
        splits,
        export_rules(q.classic),
        query.joins,
        query.having,
        (query.limit, query.offset),
        row,
        by,
    );
    assert(export_query(q.schema, body, splits, q.classic) == Some(query));
}

/// An export takes as many rows as the body says, from the first on; where it says
/// nothing, the usual number.
pub proof fn law_export_takes_as_many_rows_as_asked_for(
    q: ExportRequest,
    actor: Seq<char>,
    body: Fields,
    outcome: Outcome,
    bytes: Seq<u8>,
    rows: int,
)
    requires
        export_next(q, ExportStage::Splitting, actor, body, outcome, bytes).3 is RunQuery,
    ensures
        ({
            let query = export_next(
                q,
                ExportStage::Splitting,
                actor,
                body,
                outcome,
                bytes,
            ).3->RunQuery_0;
            &&& lookup(body, "limit"@) == Some(JsonV::Str(int_text(rows))) && 1 <= rows <= 100_000
                ==> query.limit == Some(rows as u32)
            &&& lookup(body, "limit"@) is None ==> query.limit == Some(10_000u32)
            &&& query.offset is None
        }),
{
    if 1 <= rows <= 100_000 {
        law_numeral_round_trip(rows as i64);
    }
}

proof fn lemma_headers_stay(rows: Seq<JsonV>, n: int)
    requires
        0 <= n <= rows.len(),
        rows.len() > 0,
        fields_of(rows[0]).len() > 0,
    ensures
        headers_after(rows, n) == field_names(fields_of(rows[0])),
    decreases n,
{
    if n > 0 {
        lemma_headers_stay(rows, n - 1);
    }
}

/// An exported table holds the rows that were found: its header are the names of
/// the first row, there is a line for each row, and in each line, under each name,
/// stands the value of that row. A text stands as it is, an integer by its
/// numeral, and nothing where the row has no value or null.
pub proof fn law_exported_tables_hold_the_rows(
    rows: Seq<JsonV>,
    n: int,
    classic: bool,
    i: int,
    k: int,
)
    requires
        0 <= n <= rows.len(),
        forall|j: int| 0 <= j < rows.len() ==> #[trigger] rows[j] is Object,
        rows.len() > 0,
        fields_of(rows[0]).len() > 0,
    ensures
        headers_after(rows, n).len() == fields_of(rows[0]).len(),
        lines_after(rows, n, classic).len() == n,
        0 <= k < fields_of(rows[0]).len() ==> headers_after(rows, n)[k] == fields_of(rows[0])[k].0,
        0 <= i < n && 0 <= k < fields_of(rows[0]).len() ==> {
            let line = lines_after(rows, n, classic)[i];
            let name = fields_of(rows[0])[k].0;
            &&& line.len() == fields_of(rows[0]).len()
            &&& match field(rows[i], name) {
                Some(JsonV::Str(s)) => line[k] == s,
                Some(JsonV::Int(m)) => line[k] == int_text(m as int),
                Some(JsonV::Bool(b)) => line[k] == int_text(
                    if b {
                        1
                    } else {
                        0
                    },
                ),
                Some(JsonV::Null) => line[k].len() == 0,
                None => line[k].len() == 0,
                _ => true,
            }
        },
    decreases n,
{
    lemma_headers_stay(rows, n);
    if n > 0 {
        law_exported_tables_hold_the_rows(rows, n - 1, classic, i, k);
        assert(rows[n - 1] is Object);
        reveal_strlit("1");
        reveal_strlit("0");
        assert("1"@ =~= int_text(1)) by {
            assert("1"@[0] == digit_char(1));
        }
        assert("0"@ =~= int_text(0)) by {
            assert("0"@[0] == digit_char(0));
        }
        if 0 <= i < n - 1 {
            assert(lines_after(rows, n, classic)[i] == lines_after(rows, n - 1, classic)[i]);
        }
    }
}

/// What is sent is named and typed as what was asked for: a workbook or CSV.
pub proof fn law_exports_are_what_they_say(
    q: ExportRequest,
    actor: Seq<char>,
    body: Fields,
    outcome: Outcome,
    bytes: Seq<u8>,
)
    requires
        failure_in(outcome) is None,
    ensures
        match export_next(q, ExportStage::Querying, actor, body, outcome, bytes).3 {
            ActionV::SendFile(audit, file) => {
                &&& audit.action == "EXPORT"@
                &&& audit.actor_id == actor
                &&& file.bytes == bytes
                &&& file.content_type == if lowercase(
                    match lookup(body, "type"@) {
                        Some(JsonV::Str(t)) => t,
                        _ => "csv"@,
                    },
                ) == "xlsx"@ {
                    "application/vnd.openxmlformats-officedocument.spreadsheetml.sheet"@
                } else {
                    "text/csv"@
                }
            },
            ActionV::Fault => true,
            _ => false,
        },
{
}

} // verus!
