//! What a request gives for a column, and what it means that this is what is
//! stored.
use crate::ast::{InsertValueV, Scalar};
use crate::json::{escaped, escaped_text, json_text, plain_text, quoted, JsonV};
use crate::number::{digit_char, i64_value, int_text, is_finite, is_float, law_numeral_round_trip, nat_text};
use crate::pk_utils::typed;
use crate::text::{
    contains, is_white_space, occurs_at, replace, replace_all, strip_back, strip_both, strip_front,
    trim, trim_end, trim_start, without_char,
};
use crate::writing::given_text;
use vstd::prelude::*;
use vstd::string::*;

verus! {

/// Whether a character stands for itself in JSON.
pub open spec fn is_plain_char(c: char) -> bool {
    c != '"' && c != '\\' && c as u32 >= 32
}

/// Whether a text is taken as it stands wherever it is given: it is not empty,
/// has no quotes, escapes, controls or white space around it, and does not speak
/// of null.
pub open spec fn is_plain(s: Seq<char>) -> bool {
    &&& s.len() > 0
    &&& forall|i: int| 0 <= i < s.len() ==> is_plain_char(#[trigger] s[i])
    &&& !is_white_space(s[0])
    &&& !is_white_space(s.last())
    &&& !contains(s, "null"@)
}

/// The text that a value gives: a number gives its numeral, and a plain text gives
/// itself.
pub open spec fn gives(v: JsonV) -> Option<Seq<char>> {
    match v {
        JsonV::Int(n) => Some(int_text(n as int)),
        JsonV::Float(t) => if is_plain(t) {
            Some(t)
        } else {
            None
        },
        JsonV::Str(s) => if is_plain(s) {
            Some(s)
        } else {
            None
        },
        _ => None,
    }
}

/// Whether a bound value says what a text says: it is the number that the text is a
/// numeral of, or the text itself.
pub open spec fn tells(v: Scalar, text: Seq<char>) -> bool {
    match v {
        Scalar::I64(n) => i64_value(text) == Some(n),
        Scalar::F64(t) => t == text,
        Scalar::Str(s) => s == text,
        Scalar::Null => false,
        Scalar::Bool(_) => false,
    }
}

/// Whether a bound value is what a text gives for a column: in a column of numbers
/// the integer or the float that the text is a numeral of, and the text itself
/// where it is none, or in any other column.
pub open spec fn carries(v: Scalar, text: Seq<char>, numeric: bool) -> bool {
    match v {
        Scalar::I64(n) => numeric && i64_value(text) == Some(n),
        Scalar::F64(t) => numeric && t == text && i64_value(text) is None && is_float(text),
        Scalar::Str(s) => s == text && (numeric ==> i64_value(text) is None && !is_float(text)),
        Scalar::Null => false,
        Scalar::Bool(_) => false,
    }
}

/// Whether a value of an insertion or an update is a bound one that is what a text
/// gives for a column.
pub open spec fn binds(v: InsertValueV, text: Seq<char>, numeric: bool) -> bool {
    match v {
        InsertValueV::Param(p) => carries(p, text, numeric),
        _ => false,
    }
}

/// Whether a value is what a text gives for a column of a type: the integer of a
/// numeral in a column of integers, the float of one in a column of fractions, and
/// the text itself where it is no numeral, or in any other column.
pub open spec fn is_typed(v: Scalar, text: Seq<char>, t: Seq<char>) -> bool {
    let fraction = contains(t, "float"@) || contains(t, "double"@) || contains(t, "decimal"@)
        || contains(t, "money"@);
    if contains(t, "int"@) && i64_value(text) is Some {
        v == Scalar::I64(i64_value(text)->0)
    } else if !contains(t, "int"@) && fraction && is_float(text) {
        v == Scalar::F64(text)
    } else {
        v == Scalar::Str(text)
    }
}

/// A text is typed by its column as it says: typing loses nothing.
pub proof fn law_typing_tells_the_text(text: Seq<char>, t: Seq<char>)
    ensures
        is_typed(typed(text, t), text, t),
        tells(typed(text, t), text),
{
}

/// Whether a JSON value is what a text gives for a column. JSON has no numeral for
/// a float without a finite value.
pub open spec fn shows(v: JsonV, text: Seq<char>, numeric: bool) -> bool {
    if numeric && i64_value(text) is Some {
        v == JsonV::Int(i64_value(text)->0)
    } else if numeric && is_float(text) {
        v == if is_finite(text) {
            JsonV::Float(text)
        } else {
            JsonV::Null
        }
    } else {
        v == JsonV::Str(text)
    }
}

pub proof fn lemma_numeral_chars(n: int, i: int)
    requires
        0 <= i < int_text(n).len(),
    ensures
        int_text(n)[i] == '-' || '0' <= int_text(n)[i] <= '9',
{
    let m = if n < 0 {
        -n
    } else {
        n
    };
    if n < 0 {
        if i > 0 {
            lemma_nat_chars(m, i - 1);
        }
    } else {
        lemma_nat_chars(m, i);
    }
}

proof fn lemma_nat_chars(n: int, i: int)
    requires
        0 <= n,
        0 <= i < nat_text(n).len(),
    ensures
        '0' <= nat_text(n)[i] <= '9',
    decreases n,
{
    assert forall|d: int| 0 <= d < 10 implies '0' <= #[trigger] digit_char(d) <= '9' by {}
    if n >= 10 {
        if i < nat_text(n / 10).len() {
            lemma_nat_chars(n / 10, i);
        } else {
            assert('0' <= digit_char(n % 10) <= '9');
        }
    } else {
        assert('0' <= digit_char(n) <= '9');
    }
}

proof fn lemma_nat_not_empty(n: int)
    ensures
        nat_text(n).len() > 0,
    decreases n,
{
    if n >= 10 {
        lemma_nat_not_empty(n / 10);
    }
}

proof fn lemma_numeral_plain(n: int)
    ensures
        is_plain(int_text(n)),
{
    let s = int_text(n);
    lemma_nat_not_empty(if n < 0 {
        -n
    } else {
        n
    });
    assert forall|i: int| 0 <= i < s.len() implies is_plain_char(#[trigger] s[i])
        && !is_white_space(s[i]) && s[i] != 'n' by {
        lemma_numeral_chars(n, i);
    }
    reveal_strlit("null");
    if contains(s, "null"@) {
        let k = choose|k: int| occurs_at(s, "null"@, k);
        assert(s.subrange(k, k + 4)[0] == s[k]);
        assert("null"@[0] == 'n');
        assert(s[k] == 'n');
    }
}

proof fn lemma_escaped_plain(s: Seq<char>)
    requires
        forall|i: int| 0 <= i < s.len() ==> is_plain_char(#[trigger] s[i]),
    ensures
        escaped_text(s) == s,
    decreases s.len(),
{
    if s.len() > 0 {
        lemma_escaped_plain(s.drop_last());
        assert(is_plain_char(s[s.len() - 1]));
        assert(escaped(s.last()) =~= seq![s.last()]);
        assert(s.drop_last() + seq![s.last()] =~= s);
    }
}

proof fn lemma_without_absent(s: Seq<char>, c: char)
    requires
        forall|i: int| 0 <= i < s.len() ==> #[trigger] s[i] != c,
    ensures
        without_char(s, c) == s,
    decreases s.len(),
{
    if s.len() > 0 {
        lemma_without_absent(s.drop_last(), c);
        assert(s[s.len() - 1] != c);
        assert(s.drop_last().push(s.last()) =~= s);
    }
}

proof fn lemma_without_quotes(s: Seq<char>)
    requires
        forall|i: int| 0 <= i < s.len() ==> is_plain_char(#[trigger] s[i]),
    ensures
        without_char(quoted(s), '"') == s,
{
    lemma_escaped_plain(s);
    let t = seq!['"'] + s;
    assert(quoted(s) =~= t.push('"'));
    assert(quoted(s).drop_last() =~= t);
    lemma_without_first(s);
}

proof fn lemma_without_first(s: Seq<char>)
    requires
        forall|i: int| 0 <= i < s.len() ==> is_plain_char(#[trigger] s[i]),
    ensures
        without_char(seq!['"'] + s, '"') == s,
    decreases s.len(),
{
    let t = seq!['"'] + s;
    if s.len() > 0 {
        lemma_without_first(s.drop_last());
        assert(is_plain_char(s[s.len() - 1]));
        assert(t.drop_last() =~= seq!['"'] + s.drop_last());
        assert(s.drop_last().push(s.last()) =~= s);
    } else {
        assert(t.drop_last() =~= Seq::<char>::empty());
        assert(without_char(t.drop_last(), '"') =~= s);
    }
}

proof fn lemma_replace_absent(s: Seq<char>, from: Seq<char>, to: Seq<char>)
    requires
        from.len() > 0,
        !contains(s, from),
    ensures
        replace_all(s, from, to) == s,
    decreases s.len(),
{
    if s.len() > 0 {
        assert(!occurs_at(s, from, 0));
        let rest = s.skip(1);
        if contains(rest, from) {
            let k = choose|k: int| occurs_at(rest, from, k);
            assert(s.subrange(k + 1, k + 1 + from.len()) =~= rest.subrange(k, k + from.len()));
            assert(occurs_at(s, from, k + 1));
        }
        lemma_replace_absent(rest, from, to);
        assert(seq![s[0]] + rest =~= s);
    }
}

proof fn lemma_trim_plain(s: Seq<char>)
    requires
        s.len() > 0,
        !is_white_space(s[0]),
        !is_white_space(s.last()),
    ensures
        trim(s) == s,
{
    assert(trim_start(s) == s);
    assert(trim_end(s) == s);
}

/// Wherever a value is read as a text, with or without the quotes that JSON has,
/// trimmed or not, it is read as what it gives.
pub proof fn law_values_are_read_as_given(v: JsonV)
    requires
        gives(v) is Some,
    ensures
        plain_text(v) == gives(v)->0,
        given_text(Some(v)) == gives(v)->0,
        trim(gives(v)->0) == gives(v)->0,
        gives(v)->0.len() > 0,
        v is Int ==> i64_value(gives(v)->0) == Some(v->Int_0),
{
    let t = gives(v)->0;
    reveal_strlit("null");
    if let JsonV::Int(n) = v {
        lemma_numeral_plain(n as int);
        law_numeral_round_trip(n);
    }
    lemma_trim_plain(t);
    lemma_replace_absent(t, "null"@, Seq::empty());
    match v {
        JsonV::Int(_) | JsonV::Float(_) => {
            assert forall|i: int| 0 <= i < t.len() implies #[trigger] t[i] != '"' by {
                assert(is_plain_char(t[i]));
            }
            lemma_without_absent(t, '"');
        },
        JsonV::Str(s) => {
            lemma_without_quotes(s);
        },
        _ => {},
    }
}

/// Taking the quotes off a plain text in quotes gives the text.
pub proof fn lemma_unquoted(s: Seq<char>)
    requires
        is_plain(s),
    ensures
        strip_both(quoted(s), '"') == s,
{
    lemma_escaped_plain(s);
    let behind = s + seq!['"'];
    assert(quoted(s)[0] == '"');
    assert(quoted(s).skip(1) =~= behind);
    assert(is_plain_char(s[0]));
    assert(behind[0] == s[0]);
    assert(strip_front(behind, '"') == behind);
    assert(strip_front(quoted(s), '"') == behind);
    assert(behind.last() == '"');
    assert(behind.drop_last() =~= s);
    assert(is_plain_char(s[s.len() - 1]));
    assert(strip_back(s, '"') == s);
    assert(strip_back(behind, '"') == s);
}

/// A value in JSON, without the quotes around it, is what it gives.
pub proof fn lemma_bare(v: JsonV)
    requires
        gives(v) is Some,
    ensures
        strip_both(json_text(v), '"') == gives(v)->0,
{
    match v {
        JsonV::Str(s) => {
            lemma_unquoted(s);
        },
        JsonV::Int(n) => {
            let s = int_text(n as int);
            lemma_numeral_plain(n as int);
            assert(is_plain_char(s[0]) && is_plain_char(s[s.len() - 1]));
        },
        JsonV::Float(s) => {
            assert(is_plain_char(s[0]) && is_plain_char(s[s.len() - 1]));
        },
        _ => {},
    }
}

} // verus!
