//! JSON values as the library reads and builds them, and their compact text.
use crate::number::{i64_text, int_text, u64_text};
use crate::text::{drop_char, push_item, replace, replaced, same, without_char};
use vstd::prelude::*;
use vstd::string::*;

verus! {

/// A JSON value. A float is held by the numeral under which it is written; an
/// object by its fields, in the order in which they are written.
#[derive(Debug, PartialEq)]
pub enum Json {
    Null,
    Bool(bool),
    Int(i64),
    /// An integer beyond the range of `i64`.
    UInt(u64),
    Float(String),
    Str(String),
    Array(Vec<Json>),
    Object(Vec<(String, Json)>),
}

/// What a JSON value is.
pub enum JsonV {
    Null,
    Bool(bool),
    Int(i64),
    UInt(u64),
    Float(Seq<char>),
    Str(Seq<char>),
    Array(Seq<JsonV>),
    Object(Seq<(Seq<char>, JsonV)>),
}

/// What a JSON value is.
pub open spec fn json_view(v: Json) -> JsonV
    decreases v,
{
    match v {
        Json::Null => JsonV::Null,
        Json::Bool(b) => JsonV::Bool(b),
        Json::Int(n) => JsonV::Int(n),
        Json::UInt(n) => JsonV::UInt(n),
        Json::Float(t) => JsonV::Float(t@),
        Json::Str(t) => JsonV::Str(t@),
        Json::Array(items) => JsonV::Array(
            Seq::new(
                items@.len(),
                |i: int|
                    if 0 <= i < items@.len() {
                        json_view(items@[i])
                    } else {
                        JsonV::Null
                    },
            ),
        ),
        Json::Object(fields) => JsonV::Object(
            Seq::new(
                fields@.len(),
                |i: int|
                    if 0 <= i < fields@.len() {
                        (fields@[i].0@, json_view(fields@[i].1))
                    } else {
                        (Seq::empty(), JsonV::Null)
                    },
            ),
        ),
    }
}

impl DeepView for Json {
    type V = JsonV;

    open spec fn deep_view(&self) -> JsonV {
        json_view(*self)
    }
}

/// The view of an array is the list of its items' views.
pub broadcast proof fn lemma_array_view(items: Vec<Json>)
    ensures
        #[trigger] Json::Array(items).deep_view() == JsonV::Array(items.deep_view()),
{
    assert(Json::Array(items).deep_view()->Array_0 =~= items.deep_view());
}

/// The view of an object is the list of its fields' views.
pub broadcast proof fn lemma_object_view(fields: Vec<(String, Json)>)
    ensures
        #[trigger] Json::Object(fields).deep_view() == JsonV::Object(fields.deep_view()),
{
    assert(Json::Object(fields).deep_view()->Object_0 =~= fields.deep_view());
}

// ---------------------------------------------------------------------------
// Fields
// ---------------------------------------------------------------------------

/// The position of the first field under a key, at or after `from`.
pub open spec fn key_at(fields: Seq<(Seq<char>, JsonV)>, key: Seq<char>, from: int) -> Option<int>
    decreases fields.len() - from,
{
    if from < 0 || from >= fields.len() {
        None
    } else if fields[from].0 == key {
        Some(from)
    } else {
        key_at(fields, key, from + 1)
    }
}

/// The value under a key.
pub open spec fn lookup(fields: Seq<(Seq<char>, JsonV)>, key: Seq<char>) -> Option<JsonV> {
    match key_at(fields, key, 0) {
        Some(i) => Some(fields[i].1),
        None => None,
    }
}

/// The fields of a value; none where it is no object.
pub open spec fn fields_of(v: JsonV) -> Seq<(Seq<char>, JsonV)> {
    match v {
        JsonV::Object(fields) => fields,
        _ => Seq::empty(),
    }
}

/// The value under a key of an object.
pub open spec fn field(v: JsonV, key: Seq<char>) -> Option<JsonV> {
    lookup(fields_of(v), key)
}

/// The fields with one key set to a value: in its place where the key is there,
/// at the end where it is not.
pub open spec fn with_field(
    fields: Seq<(Seq<char>, JsonV)>,
    key: Seq<char>,
    value: JsonV,
) -> Seq<(Seq<char>, JsonV)> {
    match key_at(fields, key, 0) {
        Some(i) => fields.update(i, (key, value)),
        None => fields.push((key, value)),
    }
}

/// An object with one key set to a value; any other value as it is.
pub open spec fn with_key(v: JsonV, key: Seq<char>, value: JsonV) -> JsonV {
    match v {
        JsonV::Object(fields) => JsonV::Object(with_field(fields, key, value)),
        _ => v,
    }
}

/// Where a key stands in a list of fields: at the first field with that name.
pub proof fn lemma_key_at(fields: Seq<(Seq<char>, JsonV)>, key: Seq<char>, from: int)
    requires
        0 <= from,
    ensures
        match key_at(fields, key, from) {
            Some(i) => from <= i < fields.len() && fields[i].0 == key && forall|j: int|
                from <= j < i ==> fields[j].0 != key,
            None => forall|j: int| from <= j < fields.len() ==> fields[j].0 != key,
        },
    decreases fields.len() - from,
{
    if from < fields.len() && fields[from].0 != key {
        lemma_key_at(fields, key, from + 1);
    }
}

proof fn lemma_key_at_is(fields: Seq<(Seq<char>, JsonV)>, key: Seq<char>, from: int, i: int)
    requires
        0 <= from <= i < fields.len(),
        fields[i].0 == key,
        forall|j: int| from <= j < i ==> fields[j].0 != key,
    ensures
        key_at(fields, key, from) == Some(i),
    decreases i - from,
{
    if from < i {
        lemma_key_at_is(fields, key, from + 1, i);
    }
}

proof fn lemma_key_at_none(fields: Seq<(Seq<char>, JsonV)>, key: Seq<char>, from: int)
    requires
        0 <= from,
        forall|j: int| from <= j < fields.len() ==> fields[j].0 != key,
    ensures
        key_at(fields, key, from) is None,
    decreases fields.len() - from,
{
    if from < fields.len() {
        lemma_key_at_none(fields, key, from + 1);
    }
}

/// A field that was set reads back as the value it was set to, and no other
/// field changes.
pub proof fn law_set_then_get(
    fields: Seq<(Seq<char>, JsonV)>,
    key: Seq<char>,
    value: JsonV,
    other: Seq<char>,
)
    ensures
        lookup(with_field(fields, key, value), key) == Some(value),
        other != key ==> lookup(with_field(fields, key, value), other) == lookup(fields, other),
{
    let after = with_field(fields, key, value);
    lemma_key_at(fields, key, 0);
    lemma_key_at(fields, other, 0);
    match key_at(fields, key, 0) {
        Some(i) => {
            lemma_key_at_is(after, key, 0, i);
        },
        None => {
            lemma_key_at_is(after, key, 0, fields.len() as int);
        },
    }
    if other != key {
        match key_at(fields, other, 0) {
            Some(j) => {
                assert(after[j] == fields[j]);
                lemma_key_at_is(after, other, 0, j);
            },
            None => {
                lemma_key_at_none(after, other, 0);
            },
        }
    }
}

/// The position of the first field under a key.
pub fn find_key(fields: &Vec<(String, Json)>, key: &str) -> (r: Option<usize>)
    ensures
        match r {
            Some(i) => i < fields@.len() && key_at(fields.deep_view(), key@, 0) == Some(i as int),
            None => key_at(fields.deep_view(), key@, 0) is None,
        },
{
    let mut i: usize = 0;
    while i < fields.len()
        invariant
            i <= fields@.len(),
            key_at(fields.deep_view(), key@, 0) == key_at(fields.deep_view(), key@, i as int),
        decreases fields.len() - i,
    {
        assert(fields.deep_view()[i as int].0 == fields@[i as int].0@);
        if same(fields[i].0.as_str(), key) {
            return Some(i);
        }
        i += 1;
    }
    None
}

/// The value under a key.
pub fn get_in<'a>(fields: &'a Vec<(String, Json)>, key: &str) -> (r: Option<&'a Json>)
    ensures
        r.deep_view() == lookup(fields.deep_view(), key@),
{
    match find_key(fields, key) {
        Some(i) => {
            assert(fields.deep_view()[i as int].1 == fields@[i as int].1.deep_view());
            Some(&fields[i].1)
        },
        None => None,
    }
}

/// Sets the value under a key.
pub fn set_in(fields: &mut Vec<(String, Json)>, key: &str, value: Json)
    ensures
        final(fields).deep_view() == with_field(old(fields).deep_view(), key@, value.deep_view()),
{
    let ghost before = fields.deep_view();
    match find_key(fields, key) {
        Some(i) => {
            let entry = (key.to_owned(), value);
            fields.set(i, entry);
            assert(fields.deep_view() =~= before.update(i as int, (key@, value.deep_view())));
        },
        None => {
            push_item(fields, (key.to_owned(), value));
        },
    }
}

impl Json {
    /// The value under a key of an object; none where this is no object.
    pub fn get<'a>(&'a self, key: &str) -> (r: Option<&'a Json>)
        ensures
            r.deep_view() == field(self.deep_view(), key@),
    {
        broadcast use lemma_object_view;

        match self {
            Json::Object(fields) => get_in(fields, key),
            _ => None,
        }
    }

    /// Sets the value under a key of an object; does nothing to any other value.
    pub fn set(&mut self, key: &str, value: Json)
        ensures
            final(self).deep_view() == with_key(
                old(self).deep_view(),
                key@,
                value.deep_view(),
            ),
    {
        broadcast use lemma_object_view;

        match self {
            Json::Object(fields) => {
                set_in(fields, key, value);
            },
            _ => {},
        }
    }

    /// The text of a string value.
    pub fn as_str<'a>(&'a self) -> (r: Option<&'a str>)
        ensures
            r.deep_view() == text_in(self.deep_view()),
    {
        match self {
            Json::Str(s) => Some(s.as_str()),
            _ => None,
        }
    }

    /// A copy.
    pub fn copy(&self) -> (r: Json)
        ensures
            r.deep_view() == self.deep_view(),
        decreases self,
    {
        broadcast use {lemma_array_view, lemma_object_view};

        match self {
            Json::Null => Json::Null,
            Json::Bool(b) => Json::Bool(*b),
            Json::Int(n) => Json::Int(*n),
            Json::UInt(n) => Json::UInt(*n),
            Json::Float(t) => Json::Float(t.clone()),
            Json::Str(t) => Json::Str(t.clone()),
            Json::Array(items) => {
                let mut out: Vec<Json> = Vec::new();
                let mut i: usize = 0;
                while i < items.len()
                    invariant
                        i <= items@.len(),
                        self is Array,
                        *items == self->Array_0,
                        out.deep_view() == items.deep_view().take(i as int),
                    decreases items.len() - i,
                {
                    let item = items[i].copy();
                    push_item(&mut out, item);
                    i += 1;
                    assert(items.deep_view().take(i as int) =~= items.deep_view().take(
                        i - 1,
                    ).push(items.deep_view()[i - 1]));
                }
                assert(items.deep_view().take(items@.len() as int) =~= items.deep_view());
                Json::Array(out)
            },
            Json::Object(fields) => {
                let mut out: Vec<(String, Json)> = Vec::new();
                let mut i: usize = 0;
                while i < fields.len()
                    invariant
                        i <= fields@.len(),
                        self is Object,
                        *fields == self->Object_0,
                        out.deep_view() == fields.deep_view().take(i as int),
                    decreases fields.len() - i,
                {
                    let value = fields[i].1.copy();
                    push_item(&mut out, (fields[i].0.clone(), value));
                    i += 1;
                    assert(fields.deep_view().take(i as int) =~= fields.deep_view().take(
                        i - 1,
                    ).push(fields.deep_view()[i - 1]));
                }
                assert(fields.deep_view().take(fields@.len() as int) =~= fields.deep_view());
                Json::Object(out)
            },
        }
    }
}

/// The fields that are not under a key.
pub open spec fn without_key(fields: Seq<(Seq<char>, JsonV)>, key: Seq<char>) -> Seq<
    (Seq<char>, JsonV),
>
    decreases fields.len(),
{
    if fields.len() == 0 {
        fields
    } else if fields.last().0 == key {
        without_key(fields.drop_last(), key)
    } else {
        without_key(fields.drop_last(), key).push(fields.last())
    }
}

/// A copy of the fields that are not under a key.
pub fn copy_without(fields: &Vec<(String, Json)>, key: &str) -> (r: Vec<(String, Json)>)
    ensures
        r.deep_view() == without_key(fields.deep_view(), key@),
{
    let ghost fs = fields.deep_view();
    let mut out: Vec<(String, Json)> = Vec::new();
    let mut i: usize = 0;
    assert(out.deep_view() =~= without_key(fs.take(0), key@));
    while i < fields.len()
        invariant
            i <= fields@.len(),
            fs == fields.deep_view(),
            out.deep_view() == without_key(fs.take(i as int), key@),
        decreases fields.len() - i,
    {
        assert(fs.take(i + 1).drop_last() =~= fs.take(i as int));
        assert(fs[i as int] == (fields@[i as int].0@, fields@[i as int].1.deep_view()));
        if !same(fields[i].0.as_str(), key) {
            push_item(&mut out, (fields[i].0.clone(), fields[i].1.copy()));
        }
        i += 1;
    }
    assert(fs.take(fs.len() as int) =~= fs);
    out
}

/// A copy of a list of fields.
pub fn copy_fields(fields: &Vec<(String, Json)>) -> (r: Vec<(String, Json)>)
    ensures
        r.deep_view() == fields.deep_view(),
{
    let mut out: Vec<(String, Json)> = Vec::new();
    let mut i: usize = 0;
    while i < fields.len()
        invariant
            i <= fields@.len(),
            out.deep_view() == fields.deep_view().take(i as int),
        decreases fields.len() - i,
    {
        push_item(&mut out, (fields[i].0.clone(), fields[i].1.copy()));
        i += 1;
        assert(fields.deep_view().take(i as int) =~= fields.deep_view().take(i - 1).push(
            fields.deep_view()[i - 1],
        ));
    }
    assert(fields.deep_view().take(fields@.len() as int) =~= fields.deep_view());
    out
}

/// The text of a string value.
pub open spec fn text_in(v: JsonV) -> Option<Seq<char>> {
    match v {
        JsonV::Str(s) => Some(s),
        _ => None,
    }
}

// ---------------------------------------------------------------------------
// Text
// ---------------------------------------------------------------------------

/// A hexadecimal digit.
pub open spec fn hex_digit(d: int) -> char {
    if d < 10 {
        ((48 + d) as u8) as char
    } else {
        ((87 + d) as u8) as char
    }
}

/// How a character is written inside a JSON string.
pub open spec fn escaped(c: char) -> Seq<char> {
    if c == '"' {
        seq!['\\', '"']
    } else if c == '\\' {
        seq!['\\', '\\']
    } else if c as u32 == 8 {
        seq!['\\', 'b']
    } else if c as u32 == 9 {
        seq!['\\', 't']
    } else if c as u32 == 10 {
        seq!['\\', 'n']
    } else if c as u32 == 12 {
        seq!['\\', 'f']
    } else if c as u32 == 13 {
        seq!['\\', 'r']
    } else if (c as u32) < 32 {
        seq!['\\', 'u', '0', '0', hex_digit((c as int) / 16), hex_digit((c as int) % 16)]
    } else {
        seq![c]
    }
}

/// The characters of a text, each as it is written inside a JSON string.
pub open spec fn escaped_text(s: Seq<char>) -> Seq<char>
    decreases s.len(),
{
    if s.len() == 0 {
        s
    } else {
        escaped_text(s.drop_last()) + escaped(s.last())
    }
}

/// A text as a JSON string.
pub open spec fn quoted(s: Seq<char>) -> Seq<char> {
    seq!['"'] + escaped_text(s) + seq!['"']
}

/// `serde_json::to_string` of a `str`: the text between double quotes, with the
/// quote, the backslash and the control characters escaped. Writing a `str`
/// into memory does not fail, so the empty text of a failure is never returned.
#[verifier::external_body]
fn quote(s: &str) -> (r: String)
    ensures
        r@ == quoted(s@),
{
    serde_json::to_string(s).unwrap_or_default()
}

/// The texts of the items of an array with commas between them.
pub open spec fn items_text(items: Seq<JsonV>) -> Seq<char>
    decreases items,
{
    if items.len() == 0 {
        Seq::empty()
    } else if items.len() == 1 {
        json_text(items[0])
    } else {
        items_text(items.drop_last()) + ","@ + json_text(items.last())
    }
}

/// The texts of the fields of an object with commas between them.
pub open spec fn fields_text(fields: Seq<(Seq<char>, JsonV)>) -> Seq<char>
    decreases fields,
{
    if fields.len() == 0 {
        Seq::empty()
    } else if fields.len() == 1 {
        quoted(fields[0].0) + ":"@ + json_text(fields[0].1)
    } else {
        fields_text(fields.drop_last()) + ","@ + (quoted(fields.last().0) + ":"@ + json_text(
            fields.last().1,
        ))
    }
}

/// The compact text of a JSON value.
pub open spec fn json_text(v: JsonV) -> Seq<char>
    decreases v,
{
    match v {
        JsonV::Null => "null"@,
        JsonV::Bool(b) => if b {
            "true"@
        } else {
            "false"@
        },
        JsonV::Int(n) => int_text(n as int),
        JsonV::UInt(n) => int_text(n as int),
        JsonV::Float(t) => t,
        JsonV::Str(s) => quoted(s),
        JsonV::Array(items) => "["@ + items_text(items) + "]"@,
        JsonV::Object(fields) => "{"@ + fields_text(fields) + "}"@,
    }
}

impl Json {
    /// The compact text of this value.
    pub fn text(&self) -> (r: String)
        ensures
            r@ == json_text(self.deep_view()),
        decreases self,
    {
        broadcast use {lemma_array_view, lemma_object_view};

        match self {
            Json::Null => "null".to_owned(),
            Json::Bool(b) => if *b {
                "true".to_owned()
            } else {
                "false".to_owned()
            },
            Json::Int(n) => i64_text(*n),
            Json::UInt(n) => u64_text(*n),
            Json::Float(t) => t.clone(),
            Json::Str(s) => quote(s.as_str()),
            Json::Array(items) => {
                let mut out = "[".to_owned();
                let mut i: usize = 0;
                let ghost dv = items.deep_view();
                assert(out@ =~= "["@ + items_text(dv.take(0)));
                while i < items.len()
                    invariant
                        i <= items@.len(),
                        dv == items.deep_view(),
                        self is Array,
                        *items == self->Array_0,
                        out@ == "["@ + items_text(dv.take(i as int)),
                    decreases items.len() - i,
                {
                    assert(dv.take(i + 1).drop_last() =~= dv.take(i as int));
                    assert(dv.take(i + 1).last() == items@[i as int].deep_view());
                    if i > 0 {
                        out.append(",");
                    }
                    let t = items[i].text();
                    out.append(t.as_str());
                    i += 1;
                    assert(out@ =~= "["@ + items_text(dv.take(i as int)));
                }
                assert(dv.take(dv.len() as int) =~= dv);
                out.append("]");
                out
            },
            Json::Object(fields) => {
                let mut out = "{".to_owned();
                let mut i: usize = 0;
                let ghost dv = fields.deep_view();
                assert(out@ =~= "{"@ + fields_text(dv.take(0)));
                while i < fields.len()
                    invariant
                        i <= fields@.len(),
                        dv == fields.deep_view(),
                        self is Object,
                        *fields == self->Object_0,
                        out@ == "{"@ + fields_text(dv.take(i as int)),
                    decreases fields.len() - i,
                {
                    assert(dv.take(i + 1).drop_last() =~= dv.take(i as int));
                    assert(dv.take(i + 1).last() == fields@[i as int].deep_view());
                    if i > 0 {
                        out.append(",");
                    }
                    let k = quote(fields[i].0.as_str());
                    let t = fields[i].1.text();
                    out.append(k.as_str());
                    out.append(":");
                    out.append(t.as_str());
                    i += 1;
                    assert(out@ =~= "{"@ + fields_text(dv.take(i as int)));
                }
                assert(dv.take(dv.len() as int) =~= dv);
                out.append("}");
                out
            },
        }
    }
}

/// A value as a form field: its text without double quotes and without the word
/// `null`.
pub open spec fn plain_text(v: JsonV) -> Seq<char> {
    replace(without_char(json_text(v), '"'), "null"@, Seq::empty())
}

/// A value as a form field; the empty text where there is none.
pub open spec fn plain_or_empty(v: Option<JsonV>) -> Seq<char> {
    match v {
        Some(v) => plain_text(v),
        None => Seq::empty(),
    }
}

impl Json {
    /// This value as a form field: its text without double quotes and without
    /// the word `null`.
    pub fn plain(&self) -> (r: String)
        ensures
            r@ == plain_text(self.deep_view()),
    {
        let t = self.text();
        let u = drop_char(t.as_str(), '"');
        proof {
            reveal_strlit("");
            assert(""@ =~= Seq::<char>::empty());
        }
        replaced(u.as_str(), "null", "")
    }
}

/// A field of an object as a form field; the empty text where it is missing.
pub fn plain_field(body: &Json, key: &str) -> (r: String)
    ensures
        r@ == plain_or_empty(field(body.deep_view(), key@)),
{
    match body.get(key) {
        Some(v) => v.plain(),
        None => String::new(),
    }
}

} // verus!
