//! Generated identifiers: dates, values of the request and a running number,
//! with `/` between them.
use crate::ast::{all_of, satisfies, Collation, Filter, FilterV, Query, QueryV, RowV};
use crate::json::{field, json_text, plain_field, plain_or_empty, Json, JsonV};
use crate::number::{
    all_digits, digit_value, digits_value, i64_text, i64_value, int_text, nat_text, pad_front,
    padded, parse_i64, repeated, u64_text, unsigned_part,
};
use crate::text::{
    after_prefix, begins_with, byte_len, byte_suffix, bytes_in, can_cut, contains, cut_bytes,
    ends_with, finishes_with, has_char, has_text, is_digit, join, joined, push_item, replace,
    replaced, same, starts_with, strip_back, strip_front, stripped_back, stripped_front, trim,
    trimmed, without_prefix,
};
use vstd::prelude::*;
use vstd::string::*;
use vstd::utf8::{encode_utf8, is_ascii_chars};

verus! {

/// The date of today: four digits of the year, two each of month and day.
#[derive(Debug)]
pub struct Today {
    pub year: String,
    pub month: String,
    pub day: String,
}

// ---------------------------------------------------------------------------
// Parts
// ---------------------------------------------------------------------------

/// A month in Roman numerals; nothing for a text that is no month.
pub open spec fn roman(month: Seq<char>) -> Seq<char> {
    if month == "01"@ {
        "I"@
    } else if month == "02"@ {
        "II"@
    } else if month == "03"@ {
        "III"@
    } else if month == "04"@ {
        "IV"@
    } else if month == "05"@ {
        "V"@
    } else if month == "06"@ {
        "VI"@
    } else if month == "07"@ {
        "VII"@
    } else if month == "08"@ {
        "VIII"@
    } else if month == "09"@ {
        "IX"@
    } else if month == "10"@ {
        "X"@
    } else if month == "11"@ {
        "XI"@
    } else if month == "12"@ {
        "XII"@
    } else {
        ""@
    }
}

/// A month in Roman numerals.
pub fn roman_month(month: &str) -> (r: String)
    ensures
        r@ == roman(month@),
{
    let s = if same(month, "01") {
        "I"
    } else if same(month, "02") {
        "II"
    } else if same(month, "03") {
        "III"
    } else if same(month, "04") {
        "IV"
    } else if same(month, "05") {
        "V"
    } else if same(month, "06") {
        "VI"
    } else if same(month, "07") {
        "VII"
    } else if same(month, "08") {
        "VIII"
    } else if same(month, "09") {
        "IX"
    } else if same(month, "10") {
        "X"
    } else if same(month, "11") {
        "XI"
    } else if same(month, "12") {
        "XII"
    } else {
        ""
    };
    s.to_owned()
}

/// Whether a token stands for a part of the date.
pub open spec fn is_date_token(token: Seq<char>, romans: bool) -> bool {
    ||| token == "%Y"@
    ||| token == "%m"@
    ||| token == "%d"@
    ||| romans && token == "%mROMAWI"@
}

/// Whether a token stands for the running number.
pub open spec fn is_number_token(token: Seq<char>, romans: bool) -> bool {
    !is_date_token(token, romans) && contains(token, "ID"@)
}

/// Whether a token is a placeholder.
pub open spec fn is_placeholder(token: Seq<char>) -> bool {
    starts_with(token, "{"@) && ends_with(token, "}"@)
}

/// The value of a placeholder, where it names a field of the request.
pub open spec fn placeholder_value(token: Seq<char>, body: JsonV) -> Seq<char> {
    match without_prefix(strip_back(strip_front(token, '{'), '}'), "request."@) {
        Some(name) => plain_or_empty(field(body, name)),
        None => Seq::empty(),
    }
}

/// The part that a token stands for, other than the running number. An empty
/// part is left out, but for a date.
pub open spec fn part_of(
    token: Seq<char>,
    body: JsonV,
    today: Today,
    romans: bool,
) -> Seq<Seq<char>> {
    if token == "%Y"@ {
        seq![today.year@]
    } else if token == "%m"@ {
        seq![today.month@]
    } else if token == "%d"@ {
        seq![today.day@]
    } else if romans && token == "%mROMAWI"@ {
        seq![roman(today.month@)]
    } else if contains(token, "ID"@) {
        Seq::empty()
    } else {
        let part = if is_placeholder(token) {
            placeholder_value(token, body)
        } else {
            token
        };
        if part.len() == 0 {
            Seq::empty()
        } else {
            seq![part]
        }
    }
}

/// Whether a token stands for the running number.
pub fn number_token(token: &str, romans: bool) -> (r: bool)
    ensures
        r == is_number_token(token@, romans),
{
    !(same(token, "%Y") || same(token, "%m") || same(token, "%d") || (romans && same(
        token,
        "%mROMAWI",
    ))) && has_text(token, "ID")
}

fn read_placeholder(token: &str, body: &Json) -> (r: String)
    ensures
        r@ == placeholder_value(token@, body.deep_view()),
{
    let a = stripped_front(token, '{');
    let key = stripped_back(a.as_str(), '}');
    match after_prefix(key.as_str(), "request.") {
        Some(name) => plain_field(body, name.as_str()),
        None => String::new(),
    }
}

/// Appends the part that a token stands for, other than the running number.
pub fn push_part(parts: &mut Vec<String>, token: &str, body: &Json, today: &Today, romans: bool)
    ensures
        final(parts).deep_view() == old(parts).deep_view() + part_of(
            token@,
            body.deep_view(),
            *today,
            romans,
        ),
{
    if same(token, "%Y") {
        push_item(parts, today.year.clone());
    } else if same(token, "%m") {
        push_item(parts, today.month.clone());
    } else if same(token, "%d") {
        push_item(parts, today.day.clone());
    } else if romans && same(token, "%mROMAWI") {
        push_item(parts, roman_month(today.month.as_str()));
    } else if has_text(token, "ID") {
    } else {
        let part = if begins_with(token, "{") && finishes_with(token, "}") {
            read_placeholder(token, body)
        } else {
            token.to_owned()
        };
        if !part.as_str().is_empty() {
            push_item(parts, part);
        }
    }
    assert(parts.deep_view() =~= old(parts).deep_view() + part_of(
        token@,
        body.deep_view(),
        *today,
        romans,
    ));
}

/// The parts of the first `n` tokens, without running numbers.
pub open spec fn parts_of_tokens(
    tokens: Seq<Seq<char>>,
    body: JsonV,
    today: Today,
    romans: bool,
) -> Seq<Seq<char>>
    decreases tokens.len(),
{
    if tokens.len() == 0 {
        Seq::empty()
    } else {
        parts_of_tokens(tokens.drop_last(), body, today, romans) + part_of(
            tokens.last(),
            body,
            today,
            romans,
        )
    }
}

// ---------------------------------------------------------------------------
// The running number
// ---------------------------------------------------------------------------

/// The width of the running number: the length of its token without `ID`.
pub open spec fn number_width(token: Seq<char>) -> nat {
    byte_len(replace(token, "ID"@, Seq::empty()))
}

/// The width of the running number.
pub fn width_of(token: &str) -> (r: usize)
    ensures
        r == number_width(token@),
{
    proof {
        reveal_strlit("");
        assert(""@ =~= Seq::<char>::empty());
    }
    let rest = replaced(token, "ID", "");
    bytes_in(rest.as_str())
}

/// The query for the highest identifier that begins with a prefix.
pub open spec fn highest_query(table: Seq<char>, prefix: Seq<char>) -> QueryV {
    QueryV {
        columns: seq!["id"@],
        filter: Some(FilterV::ILike("id"@, prefix + "%"@)),
        order_by: seq![("id"@, false)],
        limit: Some(1),
        ..all_of(table)
    }
}

/// The query for the highest identifier that begins with a prefix.
pub fn build_highest_query(table: &str, prefix: &str) -> (r: Query)
    ensures
        r.deep_view() == highest_query(table@, prefix@),
{
    let mut q = Query::of(table);
    let mut pattern = prefix.to_owned();
    pattern.append("%");
    let mut columns: Vec<String> = Vec::new();
    push_item(&mut columns, "id".to_owned());
    assert(columns.deep_view() =~= seq!["id"@]);
    let mut order: Vec<(String, bool)> = Vec::new();
    push_item(&mut order, ("id".to_owned(), false));
    assert(order.deep_view() =~= seq![("id"@, false)]);
    q.columns = columns;
    q.filter = Some(Filter::ILike("id".to_owned(), pattern));
    q.order_by = order;
    q.limit = Some(1);
    q
}

/// The highest identifier that a query found; `0` where it found none.
pub open spec fn highest_id(rows: Seq<JsonV>) -> Seq<char> {
    if rows.len() > 0 {
        match field(rows[0], "id"@) {
            Some(JsonV::Str(s)) => s,
            _ => "0"@,
        }
    } else {
        "0"@
    }
}

/// The highest identifier that a query found.
pub fn read_highest(rows: &Vec<Json>) -> (r: String)
    ensures
        r@ == highest_id(rows.deep_view()),
{
    if rows.len() > 0 {
        assert(rows.deep_view()[0] == rows@[0].deep_view());
        match rows[0].get("id") {
            Some(v) => match v {
                Json::Str(s) => s.clone(),
                _ => "0".to_owned(),
            },
            None => "0".to_owned(),
        }
    } else {
        "0".to_owned()
    }
}

/// The number at the end of an identifier, in its last `width` bytes; zero where
/// there is none. None where the identifier cannot be cut there.
pub open spec fn number_at_end(id: Seq<char>, width: nat) -> Option<int> {
    if byte_len(id) < width {
        Some(0)
    } else if can_cut(id, byte_len(id) - width) {
        match i64_value(byte_suffix(id, byte_len(id) - width)) {
            Some(n) => Some(n as int),
            None => Some(0),
        }
    } else {
        None
    }
}

/// The running number after that of the highest identifier. None where there is
/// none in 64 bits, or where the identifier cannot be cut.
pub open spec fn next_number(id: Seq<char>, width: nat) -> Option<i64> {
    match number_at_end(id, width) {
        Some(n) => if n < i64::MAX {
            Some((n + 1) as i64)
        } else {
            None
        },
        None => None,
    }
}

/// The running number after that of the highest identifier.
pub fn read_next_number(id: &str, width: usize) -> (r: Option<i64>)
    ensures
        r == next_number(id@, width as nat),
{
    let len: usize = bytes_in(id);
    let n: i64 = if len < width {
        0
    } else {
        match cut_bytes(id, len - width) {
            Some((_front, end)) => match parse_i64(end.as_str()) {
                Some(v) => v,
                None => 0,
            },
            None => {
                return None;
            },
        }
    };
    if n < 0x7fff_ffff_ffff_ffff {
        Some(n + 1)
    } else {
        None
    }
}

/// A number filled up with zeros to a width, behind its sign.
pub open spec fn number_text(n: int, width: int) -> Seq<char> {
    if n < 0 {
        "-"@ + pad_front(nat_text(-n), width - 1)
    } else {
        pad_front(nat_text(n), width)
    }
}

/// A number filled up with zeros to a width, behind its sign.
pub fn write_number(n: i64, width: usize) -> (r: String)
    ensures
        r@ == number_text(n as int, width as int),
{
    if n < 0 {
        let digits = u64_text((-(n as i128)) as u64);
        let w: usize = if width > 0 {
            width - 1
        } else {
            0
        };
        let p = padded(digits.as_str(), w);
        assert(p@ =~= pad_front(nat_text(-n), width - 1));
        let mut out = "-".to_owned();
        out.append(p.as_str());
        out
    } else {
        let digits = i64_text(n);
        padded(digits.as_str(), width)
    }
}

proof fn lemma_zeros_in_front(s: Seq<char>, k: int)
    requires
        all_digits(s),
        0 <= k,
    ensures
        all_digits(repeated('0', k) + s),
        digits_value(repeated('0', k) + s) == digits_value(s),
    decreases s.len(), k,
{
    let t = repeated('0', k) + s;
    assert forall|i: int| 0 <= i < t.len() implies is_digit(#[trigger] t[i]) by {
        if i >= k {
            assert(t[i] == s[i - k]);
        }
    }
    if s.len() > 0 {
        assert forall|i: int| 0 <= i < s.drop_last().len() implies is_digit(
            #[trigger] s.drop_last()[i],
        ) by {
            assert(s.drop_last()[i] == s[i]);
        }
        lemma_zeros_in_front(s.drop_last(), k);
        assert(t.drop_last() =~= repeated('0', k) + s.drop_last());
        assert(t.last() == s.last());
    } else if k > 0 {
        lemma_zeros_in_front(s, k - 1);
        assert(t.drop_last() =~= repeated('0', k - 1) + s);
        assert(t.last() == '0');
        assert(digit_value('0') == 0);
    } else {
        assert(t =~= s);
    }
}

/// Running numbers go up by one: after an identifier that ends in the number
/// `n`, filled up to the width, the next number is `n + 1`.
pub proof fn law_numbers_go_up(head: Seq<char>, n: int, width: nat)
    requires
        is_ascii_chars(head),
        0 <= n < i64::MAX,
        1 <= nat_text(n).len() <= width,
    ensures
        next_number(head + number_text(n, width as int), width) == Some((n + 1) as i64),
{
    crate::number::law_numeral_round_trip(n as i64);
    let tail = number_text(n, width as int);
    let id = head + tail;
    let digits = nat_text(n);
    crate::number::lemma_nat_text_value(n);
    lemma_zeros_in_front(digits, width - digits.len());
    assert(tail == repeated('0', width - digits.len()) + digits);
    assert forall|i: int| 0 <= i < id.len() implies '\0' <= #[trigger] id[i] <= '\u{7f}' by {
        if i < head.len() {
            assert(id[i] == head[i]);
        } else {
            assert(id[i] == tail[i - head.len()]);
            assert(is_digit(tail[i - head.len()]));
        }
    }
    crate::text::law_ascii_cuts(id, head.len() as int);
    assert(id.skip(head.len() as int) =~= tail);
    assert(is_digit(tail[0]));
    assert(unsigned_part(tail) == tail);
}

// ---------------------------------------------------------------------------
// The number from an endpoint
// ---------------------------------------------------------------------------

/// Whether a byte is written as it is in a part of a URL.
pub open spec fn is_unreserved(b: u8) -> bool {
    48 <= b <= 57 || 65 <= b <= 90 || 97 <= b <= 122 || b == 45 || b == 46 || b == 95 || b == 126
}

/// A hexadecimal digit in capitals.
pub open spec fn hex_capital(d: int) -> char {
    if d < 10 {
        ((48 + d) as u8) as char
    } else {
        ((55 + d) as u8) as char
    }
}

/// Bytes as a part of a URL: letters, digits and `-`, `.`, `_`, `~` as they are,
/// any other byte as `%` and two hexadecimal digits.
pub open spec fn percent_encoded(bytes: Seq<u8>) -> Seq<char>
    decreases bytes.len(),
{
    if bytes.len() == 0 {
        Seq::empty()
    } else {
        let b = bytes.last();
        percent_encoded(bytes.drop_last()) + if is_unreserved(b) {
            seq![b as char]
        } else {
            seq!['%', hex_capital(b as int / 16), hex_capital(b as int % 16)]
        }
    }
}

/// `urlencoding::encode`: every byte of the text's UTF-8 form is percent-encoded
/// but letters, digits and `-`, `.`, `_`, `~`.
#[verifier::external_body]
fn url_encode(s: &str) -> (r: String)
    ensures
        r@ == percent_encoded(encode_utf8(s@)),
{
    urlencoding::encode(s).into_owned()
}

/// The address at which the next number under a prefix is asked for.
pub open spec fn number_url(url: Seq<char>, prefix: Seq<char>) -> Seq<char> {
    url + if url.contains('?') {
        "&"@
    } else {
        "?"@
    } + "prefix="@ + percent_encoded(encode_utf8(prefix))
}

/// The address at which the next number under a prefix is asked for.
pub fn build_number_url(url: &str, prefix: &str) -> (r: String)
    ensures
        r@ == number_url(url@, prefix@),
{
    let mut out = url.to_owned();
    if has_char(url, '?') {
        out.append("&");
    } else {
        out.append("?");
    }
    out.append("prefix=");
    out.append(url_encode(prefix).as_str());
    out
}

/// A message about the field of the answer that should hold the number.
pub open spec fn about_field(path: Seq<char>, what: Seq<char>, rest: Seq<char>) -> Seq<char> {
    "ID endpoint field '"@ + path + what + rest
}

/// The number in the answer of the endpoint, or what is wrong with it.
pub open spec fn number_in_answer(
    value: Option<JsonV>,
    path: Seq<char>,
    prefix: Seq<char>,
) -> Result<i64, Seq<char>> {
    match value {
        None => Err("ID endpoint response missing field '"@ + path + "'"@),
        Some(JsonV::Int(n)) => Ok(n),
        Some(JsonV::UInt(n)) => Err(
            about_field(path, "' is not an integer: "@, int_text(n as int)),
        ),
        Some(JsonV::Float(t)) => Err(about_field(path, "' is not an integer: "@, t)),
        Some(JsonV::Str(s)) => match i64_value(
            replace(replace(trim(s), prefix, Seq::empty()), "/"@, Seq::empty()),
        ) {
            Some(n) => Ok(n),
            None => Err(about_field(path, "' is not a number: "@, s)),
        },
        Some(other) => Err(about_field(path, "' has unsupported type: "@, json_text(other))),
    }
}

fn say_about_field(path: &str, what: &str, rest: &str) -> (r: String)
    ensures
        r@ == about_field(path@, what@, rest@),
{
    let mut m = "ID endpoint field '".to_owned();
    m.append(path);
    m.append(what);
    m.append(rest);
    m
}

/// The number in the answer of the endpoint, or what is wrong with it. `value`
/// is what stands under the path in the answer.
pub fn fetch_next_number_from_endpoint(value: Option<&Json>, path: &str, prefix: &str) -> (r: Result<
    i64,
    String,
>)
    ensures
        match r {
            Ok(n) => number_in_answer(value.deep_view(), path@, prefix@) == Ok::<i64, Seq<char>>(n),
            Err(e) => number_in_answer(value.deep_view(), path@, prefix@) == Err::<i64, Seq<char>>(
                e@,
            ),
        },
{
    proof {
        reveal_strlit("");
        assert(""@ =~= Seq::<char>::empty());
    }
    match value {
        None => {
            let mut m = "ID endpoint response missing field '".to_owned();
            m.append(path);
            m.append("'");
            Err(m)
        },
        Some(v) => match v {
            Json::Int(n) => Ok(*n),
            Json::UInt(n) => Err(
                say_about_field(path, "' is not an integer: ", u64_text(*n).as_str()),
            ),
            Json::Float(t) => Err(say_about_field(path, "' is not an integer: ", t.as_str())),
            Json::Str(s) => {
                let t = trimmed(s.as_str());
                let u = replaced(t.as_str(), prefix, "");
                let w = replaced(u.as_str(), "/", "");
                match parse_i64(w.as_str()) {
                    Some(n) => Ok(n),
                    None => Err(say_about_field(path, "' is not a number: ", s.as_str())),
                }
            },
            other => {
                let t = other.text();
                Err(say_about_field(path, "' has unsupported type: ", t.as_str()))
            },
        },
    }
}

// ---------------------------------------------------------------------------
// An identifier with one running number
// ---------------------------------------------------------------------------

/// Where the running number stands among the parts, and its width: that of the
/// last token for it.
pub open spec fn number_place(tokens: Seq<Seq<char>>, romans: bool) -> (nat, nat)
    decreases tokens.len(),
{
    if tokens.len() == 0 {
        (0, 0)
    } else if is_number_token(tokens.last(), romans) {
        ((tokens.len() - 1) as nat, number_width(tokens.last()))
    } else {
        number_place(tokens.drop_last(), romans)
    }
}

/// The parts of an identifier, and where the running number stands in them.
#[derive(Debug)]
pub struct IdPlan {
    pub parts: Vec<String>,
    pub place: usize,
    pub width: usize,
}

/// The parts of an identifier, and where the running number stands in them.
pub fn plan_id(tokens: &Vec<String>, body: &Json, today: &Today) -> (r: IdPlan)
    ensures
        r.parts.deep_view() == parts_of_tokens(tokens.deep_view(), body.deep_view(), *today, true),
        (r.place as nat, r.width as nat) == number_place(tokens.deep_view(), true),
{
    let ghost ts = tokens.deep_view();
    let mut parts: Vec<String> = Vec::new();
    let mut place: usize = 0;
    let mut width: usize = 0;
    let mut i: usize = 0;
    assert(parts.deep_view() =~= parts_of_tokens(ts.take(0), body.deep_view(), *today, true));
    while i < tokens.len()
        invariant
            i <= tokens@.len(),
            ts == tokens.deep_view(),
            parts.deep_view() == parts_of_tokens(
                ts.take(i as int),
                body.deep_view(),
                *today,
                true,
            ),
            (place as nat, width as nat) == number_place(ts.take(i as int), true),
        decreases tokens.len() - i,
    {
        let token = tokens[i].as_str();
        assert(ts.take(i + 1).drop_last() =~= ts.take(i as int));
        assert(ts[i as int] == token@);
        push_part(&mut parts, token, body, today, true);
        if number_token(token, true) {
            place = i;
            width = width_of(token);
        }
        i += 1;
    }
    assert(ts.take(ts.len() as int) =~= ts);
    IdPlan { parts, place, width }
}

/// The identifier of some parts with the running number at its place. None where
/// there are not as many parts as that.
pub open spec fn id_with_number(
    parts: Seq<Seq<char>>,
    place: int,
    number: Seq<char>,
) -> Option<Seq<char>> {
    if place <= parts.len() {
        Some(join(parts.insert(place, number), "/"@))
    } else {
        None
    }
}

impl IdPlan {
    /// The parts in front of the running number.
    pub fn prefix(&self) -> (r: String)
        ensures
            r@ == join(self.parts.deep_view(), "/"@),
    {
        joined(&self.parts, "/")
    }

    /// The identifier with a running number. None where there are not as many
    /// parts as its place asks for.
    pub fn finish(self, number: i64) -> (r: Option<String>)
        ensures
            r.deep_view() == id_with_number(
                self.parts.deep_view(),
                self.place as int,
                number_text(number as int, self.width as int),
            ),
    {
        let text = write_number(number, self.width);
        let mut parts = self.parts;
        if self.place > parts.len() {
            return None;
        }
        let ghost before = parts.deep_view();
        parts.insert(self.place, text);
        assert(parts.deep_view() =~= before.insert(self.place as int, text@));
        Some(joined(&parts, "/"))
    }
}

/// A running number is written in as many digits as its place has, or more, and reads
/// back as the number.
pub proof fn law_running_numbers_fill_their_place(n: int, width: nat)
    requires
        0 <= n <= i64::MAX,
    ensures
        number_text(n, width as int).len() >= width,
        i64_value(number_text(n, width as int)) == Some(n as i64),
{
    let digits = nat_text(n);
    let text = number_text(n, width as int);
    crate::number::lemma_nat_text_value(n);
    if width > digits.len() {
        lemma_zeros_in_front(digits, width - digits.len());
        assert(text == repeated('0', width - digits.len()) + digits);
    } else {
        assert(repeated('0', width - digits.len()) =~= Seq::<char>::empty());
        assert(text =~= digits);
    }
    assert(is_digit(text[0]));
    assert(unsigned_part(text) == text);
}

/// The parts of an identifier stand in the order of its tokens: the year, the month
/// and the day where they are named, what a field of the request gives, and any
/// other text as it is.
pub proof fn law_identifiers_are_made_of_their_tokens(
    tokens: Seq<Seq<char>>,
    body: JsonV,
    today: Today,
    romans: bool,
)
    ensures
        tokens.len() > 0 ==> {
            let before = parts_of_tokens(tokens.drop_last(), body, today, romans);
            let all = parts_of_tokens(tokens, body, today, romans);
            let t = tokens.last();
            &&& t == "%Y"@ ==> all == before.push(today.year@)
            &&& t == "%m"@ ==> all == before.push(today.month@)
            &&& t == "%d"@ ==> all == before.push(today.day@)
            &&& t != "%Y"@ && t != "%m"@ && t != "%d"@ && t != "%mROMAWI"@ && !contains(t, "ID"@)
                && t.len() > 0 && t[0] != '{' ==> all == before.push(t)
        },
{
    if tokens.len() > 0 {
        let before = parts_of_tokens(tokens.drop_last(), body, today, romans);
        let all = parts_of_tokens(tokens, body, today, romans);
        let t = tokens.last();
        reveal_strlit("%Y");
        reveal_strlit("%m");
        reveal_strlit("%d");
        reveal_strlit("{");
        assert("%Y"@[1] == 'Y' && "%m"@[1] == 'm' && "%d"@[1] == 'd');
        if t == "%Y"@ {
            assert(all =~= before.push(today.year@));
        } else if t == "%m"@ {
            assert(all =~= before.push(today.month@));
        } else if t == "%d"@ {
            assert(all =~= before.push(today.day@));
        } else if t != "%mROMAWI"@ && !contains(t, "ID"@) && t.len() > 0 && t[0] != '{' {
            if starts_with(t, "{"@) {
                assert(t.subrange(0, 1)[0] == t[0]);
            }
            assert(all =~= before.push(t));
        }
    }
}

/// The highest identifier is looked for among those that begin with the prefix, and it
/// is the first in descending order.
pub proof fn law_highest_identifiers_are_looked_for(table: Seq<char>, prefix: Seq<char>, row: RowV, by: Collation)
    ensures
        ({
            let q = highest_query(table, prefix);
            &&& q.table == table
            &&& q.limit == Some(1u32)
            &&& q.offset is None
            &&& q.order_by.len() == 1 && q.order_by[0] == ("id"@, false)
            &&& q.filter is Some
            &&& satisfies(row, q.filter->0, by) <==> (by.ilike)(row("id"@), prefix + "%"@)
        }),
{
}

} // verus!
