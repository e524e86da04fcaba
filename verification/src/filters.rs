//! Conditions made from request parameters.
use crate::ast::{
    lemma_or_view, satisfies, Collation, DbParam, Filter, FilterV, RowV, Scalar, Val,
};
use crate::number::{float_numeral, i64_value, is_float, parse_i64};
use crate::text::{
    has_char, push_item, same, same_but_case, same_ignoring_case, split, split_text, trim, trimmed,
};
use sonic_rs::JsonValueTrait;
use vstd::prelude::*;
use vstd::string::*;

verus! {

// ---------------------------------------------------------------------------
// Values
// ---------------------------------------------------------------------------

/// The number that a text is a numeral of, an integer where it can be, or the
/// text itself.
pub open spec fn number_or_text(s: Seq<char>) -> Scalar {
    match i64_value(s) {
        Some(n) => Scalar::I64(n),
        None => if is_float(s) {
            Scalar::F64(s)
        } else {
            Scalar::Str(s)
        },
    }
}

/// The number that a text is a numeral of, an integer where it can be, or the
/// text itself, as a bound value.
pub fn infer_param(s: &str) -> (r: DbParam)
    ensures
        r.deep_view() == number_or_text(s@),
{
    match parse_i64(s) {
        Some(n) => DbParam::I64(n),
        None => if float_numeral(s) {
            DbParam::F64(s.to_owned())
        } else {
            DbParam::Str(s.to_owned())
        },
    }
}

/// The value that a text of a request stands for: a truth value, an integer, a
/// float, or itself.
pub open spec fn value_of(s: Seq<char>) -> Scalar {
    if same_but_case(s, "true"@) {
        Scalar::Bool(true)
    } else if same_but_case(s, "false"@) {
        Scalar::Bool(false)
    } else {
        number_or_text(s)
    }
}

/// The value that a text of a request stands for.
pub fn to_val(s: &str) -> (r: Val)
    ensures
        r.deep_view() == value_of(s@),
{
    if same_ignoring_case(s, "true") {
        Val::Bool(true)
    } else if same_ignoring_case(s, "false") {
        Val::Bool(false)
    } else {
        infer_param(s).to_val()
    }
}

/// The integer that a text is a numeral of, or the text itself.
pub open spec fn integer_or_text(s: Seq<char>) -> Scalar {
    match i64_value(s) {
        Some(n) => Scalar::I64(n),
        None => Scalar::Str(s),
    }
}

/// The integer that a text is a numeral of, or the text itself.
pub fn id_param(s: &str) -> (r: DbParam)
    ensures
        r.deep_view() == integer_or_text(s@),
{
    match parse_i64(s) {
        Some(n) => DbParam::I64(n),
        None => DbParam::Str(s.to_owned()),
    }
}

// ---------------------------------------------------------------------------
// Lists
// ---------------------------------------------------------------------------

/// An item of a JSON array in a request parameter: a number by its numeral, an
/// array or object by its text.
#[derive(Debug)]
pub enum ListItem {
    Null,
    Bool(bool),
    Number(String),
    Text(String),
    Other(String),
}

/// What such an item is.
pub enum ListItemV {
    Null,
    Bool(bool),
    Number(Seq<char>),
    Text(Seq<char>),
    Other(Seq<char>),
}

impl DeepView for ListItem {
    type V = ListItemV;

    open spec fn deep_view(&self) -> ListItemV {
        match self {
            ListItem::Null => ListItemV::Null,
            ListItem::Bool(b) => ListItemV::Bool(*b),
            ListItem::Number(t) => ListItemV::Number(t@),
            ListItem::Text(s) => ListItemV::Text(s@),
            ListItem::Other(t) => ListItemV::Other(t@),
        }
    }
}

/// The items of the JSON array that a text is, as `serde_json` reads it.
pub uninterp spec fn serde_items(text: Seq<char>) -> Option<Seq<ListItemV>>;

/// The items of the JSON array that a text is, as `sonic_rs` reads it.
pub uninterp spec fn sonic_items(text: Seq<char>) -> Option<Seq<ListItemV>>;

/// `serde_json::from_str` into a list of JSON values: what it returns depends on
/// the text alone. None stands for its error.
#[verifier::external_body]
pub(crate) fn serde_list(text: &str) -> (r: Option<Vec<ListItem>>)
    ensures
        r.deep_view() == serde_items(text@),
{
    let values: Vec<serde_json::Value> = serde_json::from_str(text).ok()?;
    let items = values.into_iter().map(|v| match v {
        serde_json::Value::Null => ListItem::Null,
        serde_json::Value::Bool(b) => ListItem::Bool(b),
        serde_json::Value::Number(n) => ListItem::Number(n.to_string()),
        serde_json::Value::String(s) => ListItem::Text(s),
        other => ListItem::Other(other.to_string()),
    });
    Some(items.collect())
}

/// Whether a place in a JSON text is outside of strings, inside of one, or behind
/// a backslash in one.
#[derive(Debug, PartialEq, Eq, Clone, Copy, Structural)]
pub enum Quoting {
    Outside,
    Inside,
    Escaped,
}

/// Whether the place behind a character is in a string.
pub open spec fn quoting_after(q: Quoting, c: char) -> Quoting {
    match q {
        Quoting::Outside => if c == '"' {
            Quoting::Inside
        } else {
            Quoting::Outside
        },
        Quoting::Inside => if c == '"' {
            Quoting::Outside
        } else if c == '\\' {
            Quoting::Escaped
        } else {
            Quoting::Inside
        },
        Quoting::Escaped => Quoting::Inside,
    }
}

/// Whether the place behind the first `n` characters of a text is in a string.
pub open spec fn quoting_at(s: Seq<char>, n: int) -> Quoting
    decreases n,
{
    if n <= 0 {
        Quoting::Outside
    } else {
        quoting_after(quoting_at(s, n - 1), s[n - 1])
    }
}

/// How many brackets and braces are open behind the first `n` characters of a
/// text; those in strings do not count.
pub open spec fn depth_at(s: Seq<char>, n: int) -> nat
    decreases n,
{
    if n <= 0 {
        0
    } else {
        let before = depth_at(s, n - 1);
        let c = s[n - 1];
        if quoting_at(s, n - 1) != Quoting::Outside {
            before
        } else if c == '[' || c == '{' {
            before + 1
        } else if (c == ']' || c == '}') && before > 0 {
            (before - 1) as nat
        } else {
            before
        }
    }
}

/// Whether no more than so many brackets and braces are ever open in a text.
pub open spec fn is_shallow(s: Seq<char>, most: nat) -> bool {
    forall|n: int| 0 <= n <= s.len() ==> #[trigger] depth_at(s, n) <= most
}

/// How deep the JSON in a parameter may be nested. A level takes some tens of
/// kilobytes of the stack where the reader is built without optimization.
pub const MAX_DEPTH: usize = 16;

/// Whether a text is not nested too deep to be read as JSON.
pub fn shallow(s: &str) -> (r: bool)
    ensures
        r == is_shallow(s@, MAX_DEPTH as nat),
{
    let cs = crate::text::chars_of(s);
    let mut quoting = Quoting::Outside;
    let mut depth: usize = 0;
    let mut i: usize = 0;
    while i < cs.len()
        invariant
            i <= cs@.len(),
            cs@ == s@,
            quoting == quoting_at(s@, i as int),
            depth == depth_at(s@, i as int),
            depth <= MAX_DEPTH,
            forall|n: int| 0 <= n <= i ==> #[trigger] depth_at(s@, n) <= MAX_DEPTH,
        decreases cs.len() - i,
    {
        let c: char = cs[i];
        if quoting == Quoting::Outside {
            if c == '[' || c == '{' {
                depth += 1;
            } else if (c == ']' || c == '}') && depth > 0 {
                depth -= 1;
            }
        }
        quoting = match quoting {
            Quoting::Outside => if c == '"' {
                Quoting::Inside
            } else {
                Quoting::Outside
            },
            Quoting::Inside => if c == '"' {
                Quoting::Outside
            } else if c == '\\' {
                Quoting::Escaped
            } else {
                Quoting::Inside
            },
            Quoting::Escaped => Quoting::Inside,
        };
        i += 1;
        assert(depth == depth_at(s@, i as int));
        if depth > MAX_DEPTH {
            return false;
        }
    }
    true
}

/// `sonic_rs::from_str` into a list of JSON values: what it returns depends on
/// the text alone. None stands for its error. It calls itself for each value that
/// is nested in another one, so the text must not be nested too deep.
#[verifier::external_body]
pub(crate) fn sonic_list(text: &str) -> (r: Option<Vec<ListItem>>)
    requires
        is_shallow(text@, MAX_DEPTH as nat),
    ensures
        r.deep_view() == sonic_items(text@),
{
    let values: Vec<sonic_rs::Value> = sonic_rs::from_str(text).ok()?;
    let items = values.into_iter().map(|v| match v.get_type() {
        sonic_rs::JsonType::Null => ListItem::Null,
        sonic_rs::JsonType::Boolean => ListItem::Bool(v.is_true()),
        sonic_rs::JsonType::Number => ListItem::Number(v.to_string()),
        sonic_rs::JsonType::String => ListItem::Text(v.as_str().unwrap_or_default().to_owned()),
        _ => ListItem::Other(v.to_string()),
    });
    Some(items.collect())
}

/// The value of an item: a number as an integer where it is one.
pub open spec fn item_value(v: ListItemV) -> Scalar {
    match v {
        ListItemV::Null => Scalar::Null,
        ListItemV::Bool(b) => Scalar::Bool(b),
        ListItemV::Number(t) => match i64_value(t) {
            Some(n) => Scalar::I64(n),
            None => Scalar::F64(t),
        },
        ListItemV::Text(s) => Scalar::Str(s),
        ListItemV::Other(t) => Scalar::Str(t),
    }
}

/// The values of the items of a JSON array.
pub open spec fn item_values(items: Seq<ListItemV>) -> Seq<Scalar> {
    Seq::new(items.len(), |i: int| item_value(items[i]))
}

/// The value of an item of a JSON array.
pub fn json_val_to_qv(v: &ListItem) -> (r: Val)
    ensures
        r.deep_view() == item_value(v.deep_view()),
{
    match v {
        ListItem::Null => Val::Null,
        ListItem::Bool(b) => Val::Bool(*b),
        ListItem::Number(t) => match parse_i64(t.as_str()) {
            Some(n) => Val::I64(n),
            None => Val::F64(t.clone()),
        },
        ListItem::Text(s) => Val::Str(s.clone()),
        ListItem::Other(t) => Val::Str(t.clone()),
    }
}

fn vals_of_items(items: &Vec<ListItem>) -> (r: Vec<Val>)
    ensures
        r.deep_view() == item_values(items.deep_view()),
{
    let mut out: Vec<Val> = Vec::new();
    let mut i: usize = 0;
    while i < items.len()
        invariant
            i <= items@.len(),
            out.deep_view() == item_values(items.deep_view()).take(i as int),
        decreases items.len() - i,
    {
        push_item(&mut out, json_val_to_qv(&items[i]));
        i += 1;
        assert(item_values(items.deep_view()).take(i as int) =~= item_values(
            items.deep_view(),
        ).take(i - 1).push(item_values(items.deep_view())[i - 1]));
    }
    assert(item_values(items.deep_view()).take(items@.len() as int) =~= item_values(
        items.deep_view(),
    ));
    out
}

/// The values of a list that is separated by commas.
pub open spec fn comma_values(s: Seq<char>) -> Seq<Scalar> {
    Seq::new(split(s, ',').len(), |i: int| value_of(trim(split(s, ',')[i])))
}

fn vals_of_commas(s: &str) -> (r: Vec<Val>)
    ensures
        r.deep_view() == comma_values(s@),
        r@.len() >= 1,
{
    let parts = split_text(s, ',');
    let mut out: Vec<Val> = Vec::new();
    let mut i: usize = 0;
    while i < parts.len()
        invariant
            i <= parts@.len(),
            parts.deep_view() == split(s@, ','),
            out@.len() == i,
            out.deep_view() == comma_values(s@).take(i as int),
        decreases parts.len() - i,
    {
        assert(parts.deep_view()[i as int] == parts@[i as int]@);
        let t = trimmed(parts[i].as_str());
        push_item(&mut out, to_val(t.as_str()));
        i += 1;
        assert(comma_values(s@).take(i as int) =~= comma_values(s@).take(i - 1).push(
            comma_values(s@)[i - 1],
        ));
    }
    assert(comma_values(s@).take(parts@.len() as int) =~= comma_values(s@));
    out
}

/// Whether a text, once trimmed, stands between square brackets.
pub open spec fn is_bracketed(s: Seq<char>) -> bool {
    let t = trim(s);
    t.len() > 0 && t[0] == '[' && t.last() == ']'
}

/// Whether a text, once trimmed, stands between square brackets.
pub fn bracketed(s: &str) -> (r: bool)
    ensures
        r == is_bracketed(s@),
{
    let t = trimmed(s);
    let cs = crate::text::chars_of(t.as_str());
    cs.len() > 0 && cs[0] == '[' && cs[cs.len() - 1] == ']'
}

// ---------------------------------------------------------------------------
// Conditions
// ---------------------------------------------------------------------------

/// A parameter taken apart: the column, the operator, and the value with which
/// the column is compared.
#[derive(Debug)]
pub struct Split {
    pub column: String,
    pub operator: String,
    pub val: String,
}

/// What a parameter was taken apart into.
pub struct SplitV {
    pub column: Seq<char>,
    pub operator: Seq<char>,
    pub val: Seq<char>,
}

impl DeepView for Split {
    type V = SplitV;

    open spec fn deep_view(&self) -> SplitV {
        SplitV { column: self.column@, operator: self.operator@, val: self.val@ }
    }
}

/// The condition `is`: on whether there is a value, or on equality.
pub open spec fn is_clause(column: Seq<char>, word: Seq<char>, val: Seq<char>) -> FilterV {
    if same_but_case(word, "NULL"@) {
        FilterV::IsNull(column)
    } else if same_but_case(word, "NOT NULL"@) {
        FilterV::IsNotNull(column)
    } else {
        FilterV::Eq(column, value_of(val))
    }
}

/// The condition `is`.
pub fn build_is_clause(column: &str, word: &str, val: &str) -> (r: Filter)
    ensures
        r.deep_view() == is_clause(column@, word@, val@),
{
    if same_ignoring_case(word, "NULL") {
        Filter::IsNull(column.to_owned())
    } else if same_ignoring_case(word, "NOT NULL") {
        Filter::IsNotNull(column.to_owned())
    } else {
        Filter::Eq(column.to_owned(), to_val(val))
    }
}

/// Equality, or membership where the parameter is a JSON array or a list that is
/// separated by commas. `items` is the JSON array.
pub open spec fn equality(
    column: Seq<char>,
    val: Seq<char>,
    value: Seq<char>,
    items: Option<Seq<ListItemV>>,
) -> FilterV {
    if is_bracketed(value) {
        match items {
            Some(vs) => FilterV::In(column, item_values(vs)),
            None => FilterV::Eq(column, value_of(val)),
        }
    } else if value.contains(',') {
        FilterV::In(column, comma_values(value))
    } else {
        FilterV::Eq(column, value_of(val))
    }
}

/// Absence from a JSON array, from a list that is separated by commas, or from
/// the list of the one value.
pub open spec fn absence(
    column: Seq<char>,
    val: Seq<char>,
    value: Seq<char>,
    items: Option<Seq<ListItemV>>,
) -> FilterV {
    if is_bracketed(value) {
        match items {
            Some(vs) => FilterV::NotIn(column, item_values(vs)),
            None => FilterV::NotIn(column, seq![value_of(val)]),
        }
    } else if value.contains(',') {
        FilterV::NotIn(column, comma_values(value))
    } else {
        FilterV::NotIn(column, seq![value_of(val)])
    }
}

/// The second value of a list that is separated by commas; the empty text where
/// there is none.
pub open spec fn second_value(value: Seq<char>) -> Scalar {
    if split(value, ',').len() > 1 {
        value_of(trim(split(value, ',')[1]))
    } else {
        value_of(Seq::empty())
    }
}

/// A range between the two items of a JSON array, or between the first two of a
/// list that is separated by commas; equality otherwise.
pub open spec fn range(
    column: Seq<char>,
    val: Seq<char>,
    value: Seq<char>,
    items: Option<Seq<ListItemV>>,
) -> FilterV {
    if is_bracketed(value) {
        match items {
            Some(vs) => if vs.len() == 2 {
                FilterV::Between(column, item_value(vs[0]), item_value(vs[1]))
            } else {
                FilterV::Eq(column, value_of(val))
            },
            None => FilterV::Eq(column, value_of(val)),
        }
    } else if value.contains(',') {
        FilterV::Between(column, value_of(trim(split(value, ',')[0])), second_value(value))
    } else {
        FilterV::Eq(column, value_of(val))
    }
}

/// The condition of an operator. `value` is the parameter as it was given,
/// `items` the JSON array that it is once trimmed; `lists` says whether equality
/// accepts lists.
pub open spec fn clause(
    s: SplitV,
    value: Seq<char>,
    items: Option<Seq<ListItemV>>,
    lists: bool,
) -> FilterV {
    if s.operator == "="@ {
        if lists {
            equality(s.column, s.val, value, items)
        } else {
            FilterV::Eq(s.column, value_of(s.val))
        }
    } else if s.operator == "<"@ {
        FilterV::Lt(s.column, value_of(s.val))
    } else if s.operator == "<="@ {
        FilterV::Lte(s.column, value_of(s.val))
    } else if s.operator == ">"@ {
        FilterV::Gt(s.column, value_of(s.val))
    } else if s.operator == ">="@ {
        FilterV::Gte(s.column, value_of(s.val))
    } else if s.operator == "like"@ {
        FilterV::ILike(s.column, s.val)
    } else if s.operator == "nin"@ {
        absence(s.column, s.val, value, items)
    } else if s.operator == "between"@ {
        range(s.column, s.val, value, items)
    } else if s.operator == "is"@ {
        is_clause(s.column, s.val, s.val)
    } else {
        FilterV::Eq(s.column, value_of(s.val))
    }
}

fn build_equality(column: &str, val: &str, value: &str, items: &Option<Vec<ListItem>>) -> (r: Filter)
    ensures
        r.deep_view() == equality(column@, val@, value@, items.deep_view()),
{
    if bracketed(value) {
        match items {
            Some(vs) => Filter::In(column.to_owned(), vals_of_items(vs)),
            None => Filter::Eq(column.to_owned(), to_val(val)),
        }
    } else if has_char(value, ',') {
        Filter::In(column.to_owned(), vals_of_commas(value))
    } else {
        Filter::Eq(column.to_owned(), to_val(val))
    }
}

fn single(v: Val) -> (r: Vec<Val>)
    ensures
        r.deep_view() == seq![v.deep_view()],
{
    let mut out: Vec<Val> = Vec::new();
    push_item(&mut out, v);
    assert(out.deep_view() =~= seq![v.deep_view()]);
    out
}

fn build_absence(column: &str, val: &str, value: &str, items: &Option<Vec<ListItem>>) -> (r: Filter)
    ensures
        r.deep_view() == absence(column@, val@, value@, items.deep_view()),
{
    if bracketed(value) {
        match items {
            Some(vs) => Filter::NotIn(column.to_owned(), vals_of_items(vs)),
            None => Filter::NotIn(column.to_owned(), single(to_val(val))),
        }
    } else if has_char(value, ',') {
        Filter::NotIn(column.to_owned(), vals_of_commas(value))
    } else {
        Filter::NotIn(column.to_owned(), single(to_val(val)))
    }
}

fn build_range(column: &str, val: &str, value: &str, items: &Option<Vec<ListItem>>) -> (r: Filter)
    ensures
        r.deep_view() == range(column@, val@, value@, items.deep_view()),
{
    if bracketed(value) {
        match items {
            Some(vs) => if vs.len() == 2 {
                Filter::Between(
                    column.to_owned(),
                    json_val_to_qv(&vs[0]),
                    json_val_to_qv(&vs[1]),
                )
            } else {
                Filter::Eq(column.to_owned(), to_val(val))
            },
            None => Filter::Eq(column.to_owned(), to_val(val)),
        }
    } else if has_char(value, ',') {
        let parts = split_text(value, ',');
        assert(parts.deep_view()[0] == parts@[0]@);
        let a = trimmed(parts[0].as_str());
        let b = if parts.len() > 1 {
            assert(parts.deep_view()[1] == parts@[1]@);
            trimmed(parts[1].as_str())
        } else {
            String::new()
        };
        Filter::Between(column.to_owned(), to_val(a.as_str()), to_val(b.as_str()))
    } else {
        Filter::Eq(column.to_owned(), to_val(val))
    }
}

/// The condition of an operator, with `items` the JSON array that the parameter
/// is once trimmed.
pub fn build_clause(s: &Split, value: &str, items: &Option<Vec<ListItem>>, lists: bool) -> (r: Filter)
    ensures
        r.deep_view() == clause(s.deep_view(), value@, items.deep_view(), lists),
{
    let op = s.operator.as_str();
    let column = s.column.as_str();
    let val = s.val.as_str();
    if same(op, "=") {
        if lists {
            build_equality(column, val, value, items)
        } else {
            Filter::Eq(column.to_owned(), to_val(val))
        }
    } else if same(op, "<") {
        Filter::Lt(column.to_owned(), to_val(val))
    } else if same(op, "<=") {
        Filter::Lte(column.to_owned(), to_val(val))
    } else if same(op, ">") {
        Filter::Gt(column.to_owned(), to_val(val))
    } else if same(op, ">=") {
        Filter::Gte(column.to_owned(), to_val(val))
    } else if same(op, "like") {
        Filter::ILike(column.to_owned(), val.to_owned())
    } else if same(op, "nin") {
        build_absence(column, val, value, items)
    } else if same(op, "between") {
        build_range(column, val, value, items)
    } else if same(op, "is") {
        build_is_clause(column, val, val)
    } else {
        Filter::Eq(column.to_owned(), to_val(val))
    }
}

/// The condition of a parameter that names one column.
pub open spec fn single_clause(
    s: SplitV,
    value: Seq<char>,
    items: Option<Seq<ListItemV>>,
) -> FilterV {
    if s.operator == "is"@ {
        is_clause(s.column, value, s.val)
    } else {
        clause(s, value, items, true)
    }
}

/// The condition of a parameter that names one column.
pub fn build_single_clause(s: &Split, value: &str, items: &Option<Vec<ListItem>>) -> (r: Filter)
    ensures
        r.deep_view() == single_clause(s.deep_view(), value@, items.deep_view()),
{
    if same(s.operator.as_str(), "is") {
        build_is_clause(s.column.as_str(), value, s.val.as_str())
    } else {
        build_clause(s, value, items, true)
    }
}

/// The condition of a parameter that names several columns: one of theirs.
pub open spec fn any_clause(
    parts: Seq<SplitV>,
    value: Seq<char>,
    items: Option<Seq<ListItemV>>,
    lists: bool,
) -> FilterV {
    FilterV::Or(Seq::new(parts.len(), |i: int| clause(parts[i], value, items, lists)))
}

/// The condition of a parameter that names several columns: one of theirs.
pub fn build_any_clause(
    parts: &Vec<Split>,
    value: &str,
    items: &Option<Vec<ListItem>>,
    lists: bool,
) -> (r: Filter)
    ensures
        r.deep_view() == any_clause(parts.deep_view(), value@, items.deep_view(), lists),
{
    broadcast use lemma_or_view;

    let mut ors: Vec<Filter> = Vec::new();
    let mut i: usize = 0;
    let ghost all = Seq::new(
        parts@.len(),
        |k: int| clause(parts.deep_view()[k], value@, items.deep_view(), lists),
    );
    while i < parts.len()
        invariant
            i <= parts@.len(),
            all == Seq::new(
                parts@.len(),
                |k: int| clause(parts.deep_view()[k], value@, items.deep_view(), lists),
            ),
            ors.deep_view() == all.take(i as int),
        decreases parts.len() - i,
    {
        push_item(&mut ors, build_clause(&parts[i], value, items, lists));
        i += 1;
        assert(all.take(i as int) =~= all.take(i - 1).push(all[i - 1]));
    }
    assert(all.take(parts@.len() as int) =~= all);
    Filter::Or(ors)
}

/// A condition of a service that exports rows: `serde_json` reads the parameter
/// where it stands between square brackets.
pub fn build_filter_clause(column: &str, operator: &str, val: &str, value_str: &str) -> (r: Filter)
    ensures
        r.deep_view() == clause(
            (SplitV { column: column@, operator: operator@, val: val@ }),
            value_str@,
            serde_items(trim(value_str@)),
            true,
        ),
{
    let s = Split {
        column: column.to_owned(),
        operator: operator.to_owned(),
        val: val.to_owned(),
    };
    let t = trimmed(value_str);
    let items = serde_list(t.as_str());
    build_clause(&s, value_str, &items, true)
}


// ---------------------------------------------------------------------------
// What conditions mean
// ---------------------------------------------------------------------------

/// Whether a text is a truth value.
pub open spec fn is_truth_word(text: Seq<char>) -> bool {
    same_but_case(text, "true"@) || same_but_case(text, "false"@)
}

/// Whether a value is what a text of a request stands for.
pub open spec fn means(v: Scalar, text: Seq<char>) -> bool {
    match v {
        Scalar::Bool(b) => is_truth_word(text) && b == same_but_case(text, "true"@),
        Scalar::I64(n) => !is_truth_word(text) && i64_value(text) == Some(n),
        Scalar::F64(t) => {
            &&& !is_truth_word(text)
            &&& i64_value(text) is None
            &&& is_float(text)
            &&& t == text
        },
        Scalar::Str(s) => {
            &&& !is_truth_word(text)
            &&& i64_value(text) is None
            &&& !is_float(text)
            &&& s == text
        },
        Scalar::Null => false,
    }
}

/// Whether a value is what an item of a list stands for.
pub open spec fn item_means(v: Scalar, item: ListItemV) -> bool {
    match item {
        ListItemV::Null => v == Scalar::Null,
        ListItemV::Bool(b) => v == Scalar::Bool(b),
        ListItemV::Number(t) => match v {
            Scalar::I64(n) => i64_value(t) == Some(n),
            Scalar::F64(s) => i64_value(t) is None && s == t,
            _ => false,
        },
        ListItemV::Text(t) => v == Scalar::Str(t),
        ListItemV::Other(t) => v == Scalar::Str(t),
    }
}

/// Whether a value lies between two others.
pub open spec fn lies_between(x: Scalar, low: Scalar, high: Scalar, by: Collation) -> bool {
    (x == low || (by.less)(low, x)) && (x == high || (by.less)(x, high))
}

/// Whether a value is among those that a parameter lists: in brackets, with commas,
/// or as one.
pub open spec fn is_listed(
    x: Scalar,
    val: Seq<char>,
    value: Seq<char>,
    items: Option<Seq<ListItemV>>,
) -> bool {
    let t = trim(value);
    if t.len() > 0 && t[0] == '[' && t.last() == ']' {
        match items {
            Some(vs) => exists|j: int| 0 <= j < vs.len() && item_means(x, #[trigger] vs[j]),
            None => means(x, val),
        }
    } else if value.contains(',') {
        exists|j: int|
            0 <= j < split(value, ',').len() && means(x, trim(#[trigger] split(value, ',')[j]))
    } else {
        means(x, val)
    }
}

/// The second of some pieces, trimmed; empty where there is none.
pub open spec fn second_piece(pieces: Seq<Seq<char>>) -> Seq<char> {
    if pieces.len() > 1 {
        trim(pieces[1])
    } else {
        Seq::empty()
    }
}

/// Whether a value lies in the range that a parameter names: in brackets, with a
/// comma, or as one value.
pub open spec fn is_ranged(
    x: Scalar,
    val: Seq<char>,
    value: Seq<char>,
    items: Option<Seq<ListItemV>>,
    by: Collation,
) -> bool {
    let t = trim(value);
    let pieces = split(value, ',');
    if t.len() > 0 && t[0] == '[' && t.last() == ']' {
        match items {
            Some(vs) => if vs.len() == 2 {
                exists|low: Scalar, high: Scalar|
                    {
                        &&& #[trigger] item_means(low, vs[0])
                        &&& #[trigger] item_means(high, vs[1])
                        &&& lies_between(x, low, high, by)
                    }
            } else {
                means(x, val)
            },
            None => means(x, val),
        }
    } else if value.contains(',') {
        exists|low: Scalar, high: Scalar|
            {
                &&& #[trigger] means(low, trim(pieces[0]))
                &&& #[trigger] means(high, second_piece(pieces))
                &&& lies_between(x, low, high, by)
            }
    } else {
        means(x, val)
    }
}

/// Whether a row meets what a parameter asks of a column. The value of an `is` is
/// `word`.
pub open spec fn is_met(
    s: SplitV,
    word: Seq<char>,
    value: Seq<char>,
    items: Option<Seq<ListItemV>>,
    lists: bool,
    row: RowV,
    by: Collation,
) -> bool {
    let x = row(s.column);
    if s.operator == "<"@ {
        exists|v: Scalar| #[trigger] means(v, s.val) && (by.less)(x, v)
    } else if s.operator == "<="@ {
        exists|v: Scalar| #[trigger] means(v, s.val) && (x == v || (by.less)(x, v))
    } else if s.operator == ">"@ {
        exists|v: Scalar| #[trigger] means(v, s.val) && (by.less)(v, x)
    } else if s.operator == ">="@ {
        exists|v: Scalar| #[trigger] means(v, s.val) && (x == v || (by.less)(v, x))
    } else if s.operator == "like"@ {
        (by.ilike)(x, s.val)
    } else if s.operator == "nin"@ {
        !is_listed(x, s.val, value, items)
    } else if s.operator == "between"@ {
        is_ranged(x, s.val, value, items, by)
    } else if s.operator == "is"@ {
        if same_but_case(word, "NULL"@) {
            x == Scalar::Null
        } else if same_but_case(word, "NOT NULL"@) {
            x != Scalar::Null
        } else {
            means(x, s.val)
        }
    } else if s.operator == "="@ && lists {
        is_listed(x, s.val, value, items)
    } else {
        means(x, s.val)
    }
}

/// A text stands for one value.
pub proof fn law_texts_stand_for_one_value(text: Seq<char>)
    ensures
        means(value_of(text), text),
        forall|v: Scalar| #[trigger] means(v, text) ==> v == value_of(text),
{
}

proof fn lemma_item_means(item: ListItemV)
    ensures
        item_means(item_value(item), item),
        forall|v: Scalar| #[trigger] item_means(v, item) ==> v == item_value(item),
{
}

proof fn lemma_listed(x: Scalar, val: Seq<char>, value: Seq<char>, items: Option<Seq<ListItemV>>)
    ensures
        is_bracketed(value) && items is Some ==> (item_values(items->0).contains(x) <==> is_listed(
            x,
            val,
            value,
            items,
        )),
        is_bracketed(value) && items is None ==> (x == value_of(val) <==> is_listed(
            x,
            val,
            value,
            items,
        )),
        !is_bracketed(value) && value.contains(',') ==> (comma_values(value).contains(x)
            <==> is_listed(x, val, value, items)),
        !is_bracketed(value) && !value.contains(',') ==> (x == value_of(val) <==> is_listed(
            x,
            val,
            value,
            items,
        )),
{
    law_texts_stand_for_one_value(val);
    if is_bracketed(value) {
        if let Some(vs) = items {
            if item_values(vs).contains(x) {
                let j = choose|j: int| 0 <= j < item_values(vs).len() && item_values(vs)[j] == x;
                lemma_item_means(vs[j]);
                assert(item_means(x, vs[j]));
            }
            if is_listed(x, val, value, items) {
                let j = choose|j: int| 0 <= j < vs.len() && item_means(x, #[trigger] vs[j]);
                lemma_item_means(vs[j]);
                assert(item_values(vs)[j] == x);
            }
        }
    } else if value.contains(',') {
        let pieces = split(value, ',');
        if comma_values(value).contains(x) {
            let j = choose|j: int| 0 <= j < comma_values(value).len() && comma_values(value)[j] == x;
            law_texts_stand_for_one_value(trim(pieces[j]));
            assert(means(x, trim(pieces[j])));
        }
        if is_listed(x, val, value, items) {
            let j = choose|j: int|
                0 <= j < pieces.len() && means(x, trim(#[trigger] split(value, ',')[j]));
            law_texts_stand_for_one_value(trim(pieces[j]));
            assert(comma_values(value)[j] == x);
        }
    }
}

proof fn lemma_ranged(
    column: Seq<char>,
    val: Seq<char>,
    value: Seq<char>,
    items: Option<Seq<ListItemV>>,
    row: RowV,
    by: Collation,
)
    ensures
        satisfies(row, range(column, val, value, items), by) <==> is_ranged(
            row(column),
            val,
            value,
            items,
            by,
        ),
{
    let x = row(column);
    let pieces = split(value, ',');
    law_texts_stand_for_one_value(val);
    if is_bracketed(value) {
        if let Some(vs) = items {
            if vs.len() == 2 {
                lemma_item_means(vs[0]);
                lemma_item_means(vs[1]);
                let low = item_value(vs[0]);
                let high = item_value(vs[1]);
                assert(item_means(low, vs[0]) && item_means(high, vs[1]));
                assert(satisfies(row, range(column, val, value, items), by) <==> lies_between(
                    x,
                    low,
                    high,
                    by,
                ));
            }
        }
    } else if value.contains(',') {
        law_texts_stand_for_one_value(trim(pieces[0]));
        law_texts_stand_for_one_value(second_piece(pieces));
        let low = value_of(trim(pieces[0]));
        let high = second_value(value);
        assert(means(low, trim(pieces[0])) && means(high, second_piece(pieces)));
        assert(satisfies(row, range(column, val, value, items), by) <==> lies_between(
            x,
            low,
            high,
            by,
        ));
    }
}

/// A condition means what its parameter asks: a row meets it exactly if the value
/// of the column compares with what the parameter names, by the operator, as the
/// parameter says.
pub proof fn law_conditions_mean_what_they_say(
    s: SplitV,
    value: Seq<char>,
    items: Option<Seq<ListItemV>>,
    lists: bool,
    row: RowV,
    by: Collation,
)
    ensures
        satisfies(row, clause(s, value, items, lists), by) <==> is_met(
            s,
            s.val,
            value,
            items,
            lists,
            row,
            by,
        ),
        satisfies(row, single_clause(s, value, items), by) <==> is_met(
            s,
            value,
            value,
            items,
            true,
            row,
            by,
        ),
{
    reveal_strlit("=");
    reveal_strlit("<");
    reveal_strlit("<=");
    reveal_strlit(">");
    reveal_strlit(">=");
    reveal_strlit("like");
    reveal_strlit("nin");
    reveal_strlit("between");
    reveal_strlit("is");
    let x = row(s.column);
    assert("="@[0] != "<"@[0] && "="@[0] != ">"@[0] && "<"@[0] != ">"@[0]);
    assert("="@.len() == 1 && "<="@.len() == 2 && "is"@.len() == 2 && "nin"@.len() == 3
        && "like"@.len() == 4 && "between"@.len() == 7);
    assert("<="@[0] == '<' && ">="@[0] == '>' && "is"@[0] == 'i');
    law_texts_stand_for_one_value(s.val);
    lemma_listed(x, s.val, value, items);
    let one = seq![value_of(s.val)];
    assert(one.contains(x) <==> x == one[0]) by {
        if x == one[0] {
            assert(one[0] == x);
        }
    }
    lemma_ranged(s.column, s.val, value, items, row, by);
    assert(means(value_of(s.val), s.val));
}

} // verus!
