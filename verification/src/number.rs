//! Numerals: integers read from and written to texts, and the texts that are
//! read as floats. A float is carried by its numeral.
use crate::caching::{comes_before, text_le};
use crate::text::{
    ascii_lower, chars_of, is_digit, same_but_case, same_ignoring_case, strip_back, strip_front,
    stripped_back, stripped_front, text_of,
};
use vstd::prelude::*;
use vstd::string::*;

verus! {

// ---------------------------------------------------------------------------
// Reading integers
// ---------------------------------------------------------------------------

/// Whether every character is a decimal digit.
pub open spec fn all_digits(s: Seq<char>) -> bool {
    forall|i: int| 0 <= i < s.len() ==> is_digit(#[trigger] s[i])
}

/// The number that a decimal digit stands for.
pub open spec fn digit_value(c: char) -> int {
    (c as u32) - 48
}

/// The number that a row of decimal digits stands for.
pub open spec fn digits_value(s: Seq<char>) -> int
    decreases s.len(),
{
    if s.len() == 0 {
        0
    } else {
        10 * digits_value(s.drop_last()) + digit_value(s.last())
    }
}

/// What follows the sign of a text, where it has one.
pub open spec fn unsigned_part(s: Seq<char>) -> Seq<char> {
    if s.len() > 0 && (s[0] == '+' || s[0] == '-') {
        s.skip(1)
    } else {
        s
    }
}

/// The integer that a text is a numeral of: an optional sign and one or more
/// digits.
pub open spec fn integer_value(s: Seq<char>) -> Option<int> {
    let digits = unsigned_part(s);
    if digits.len() == 0 || !all_digits(digits) {
        None
    } else if s[0] == '-' {
        Some(-digits_value(digits))
    } else {
        Some(digits_value(digits))
    }
}

/// The `i64` that a text is a numeral of.
pub open spec fn i64_value(s: Seq<char>) -> Option<i64> {
    match integer_value(s) {
        Some(v) => if i64::MIN <= v <= i64::MAX {
            Some(v as i64)
        } else {
            None
        },
        None => None,
    }
}

/// The `i32` that a text is a numeral of.
pub open spec fn i32_value(s: Seq<char>) -> Option<i32> {
    match integer_value(s) {
        Some(v) => if i32::MIN <= v <= i32::MAX {
            Some(v as i32)
        } else {
            None
        },
        None => None,
    }
}

/// The `usize` that a text is a numeral of; a minus sign is not accepted.
pub open spec fn usize_value(s: Seq<char>) -> Option<usize> {
    match integer_value(s) {
        Some(v) => if s[0] != '-' && 0 <= v <= usize::MAX {
            Some(v as usize)
        } else {
            None
        },
        None => None,
    }
}

/// The `u64` that a text is a numeral of; a minus sign is not accepted.
pub open spec fn u64_value(s: Seq<char>) -> Option<u64> {
    match integer_value(s) {
        Some(v) => if s[0] != '-' && 0 <= v <= u64::MAX {
            Some(v as u64)
        } else {
            None
        },
        None => None,
    }
}

proof fn lemma_digits_value_nonneg(s: Seq<char>)
    requires
        all_digits(s),
    ensures
        0 <= digits_value(s),
    decreases s.len(),
{
    if s.len() > 0 {
        lemma_digits_value_nonneg(s.drop_last());
    }
}

/// The number of a row of digits `cs[from..]`, where it is at most `cap`.
fn read_digits(cs: &Vec<char>, from: usize, cap: u128) -> (r: Option<u128>)
    requires
        from <= cs@.len(),
        cap <= 0x10_0000_0000_0000_0000,
    ensures
        match r {
            Some(v) => {
                &&& from < cs@.len()
                &&& all_digits(cs@.skip(from as int))
                &&& v == digits_value(cs@.skip(from as int))
                &&& v <= cap
            },
            None => {
                ||| from == cs@.len()
                ||| !all_digits(cs@.skip(from as int))
                ||| digits_value(cs@.skip(from as int)) > cap
            },
        },
{
    let ghost ds = cs@.skip(from as int);
    if from == cs.len() {
        return None;
    }
    let mut acc: u128 = 0;
    let mut over: bool = false;
    let mut i: usize = from;
    while i < cs.len()
        invariant
            from <= i <= cs@.len(),
            from < cs@.len(),
            cap <= 0x10_0000_0000_0000_0000,
            ds == cs@.skip(from as int),
            all_digits(ds.take(i - from)),
            !over ==> acc == digits_value(ds.take(i - from)) && acc <= cap,
            over ==> digits_value(ds.take(i - from)) > cap,
        decreases cs.len() - i,
    {
        let c: char = cs[i];
        assert(ds[i - from] == c);
        if !('0' <= c && c <= '9') {
            assert(!is_digit(ds[i - from]));
            return None;
        }
        assert(ds.take(i + 1 - from).drop_last() =~= ds.take(i - from));
        proof {
            lemma_digits_value_nonneg(ds.take(i - from));
        }
        if !over {
            acc = 10 * acc + (c as u32 - 48) as u128;
            if acc > cap {
                over = true;
            }
        }
        i += 1;
    }
    assert(ds.take(i - from) =~= ds);
    if over {
        None
    } else {
        Some(acc)
    }
}

/// Reads an `i64`.
pub fn parse_i64(s: &str) -> (r: Option<i64>)
    ensures
        r == i64_value(s@),
{
    let cs = chars_of(s);
    if cs.len() == 0 {
        return None;
    }
    assert(cs@.skip(0) =~= cs@);
    if cs[0] == '-' {
        match read_digits(&cs, 1, 0x8000_0000_0000_0000) {
            Some(v) => Some((-(v as i128)) as i64),
            None => None,
        }
    } else {
        let from: usize = if cs[0] == '+' {
            1
        } else {
            0
        };
        match read_digits(&cs, from, 0x7fff_ffff_ffff_ffff) {
            Some(v) => {
                proof {
                    lemma_digits_value_nonneg(cs@.skip(from as int));
                }
                Some(v as i64)
            },
            None => {
                proof {
                    if all_digits(cs@.skip(from as int)) {
                        lemma_digits_value_nonneg(cs@.skip(from as int));
                    }
                }
                None
            },
        }
    }
}

/// Reads an `i32`.
pub fn parse_i32(s: &str) -> (r: Option<i32>)
    ensures
        r == i32_value(s@),
{
    match parse_i64(s) {
        Some(v) => if -0x8000_0000 <= v && v <= 0x7fff_ffff {
            Some(v as i32)
        } else {
            None
        },
        None => None,
    }
}

/// Reads a `usize`.
pub fn parse_usize(s: &str) -> (r: Option<usize>)
    ensures
        r == usize_value(s@),
{
    let cs = chars_of(s);
    if cs.len() == 0 || cs[0] == '-' {
        return None;
    }
    assert(cs@.skip(0) =~= cs@);
    let from: usize = if cs[0] == '+' {
        1
    } else {
        0
    };
    match read_digits(&cs, from, usize::MAX as u128) {
        Some(v) => Some(v as usize),
        None => {
            proof {
                if all_digits(cs@.skip(from as int)) {
                    lemma_digits_value_nonneg(cs@.skip(from as int));
                }
            }
            None
        },
    }
}

/// Reads a `u64`.
pub fn parse_u64(s: &str) -> (r: Option<u64>)
    ensures
        r == u64_value(s@),
{
    let cs = chars_of(s);
    if cs.len() == 0 || cs[0] == '-' {
        return None;
    }
    assert(cs@.skip(0) =~= cs@);
    let from: usize = if cs[0] == '+' {
        1
    } else {
        0
    };
    match read_digits(&cs, from, 0xffff_ffff_ffff_ffff) {
        Some(v) => {
            proof {
                lemma_digits_value_nonneg(cs@.skip(from as int));
            }
            Some(v as u64)
        },
        None => {
            proof {
                if all_digits(cs@.skip(from as int)) {
                    lemma_digits_value_nonneg(cs@.skip(from as int));
                }
            }
            None
        },
    }
}

// ---------------------------------------------------------------------------
// Writing integers
// ---------------------------------------------------------------------------

/// The decimal digit of a number below ten.
pub open spec fn digit_char(d: int) -> char {
    ((48 + d) as u8) as char
}

/// The decimal digits of a number, without leading zeros.
pub open spec fn nat_text(n: int) -> Seq<char>
    decreases n,
{
    if n < 10 {
        seq![digit_char(n)]
    } else {
        nat_text(n / 10).push(digit_char(n % 10))
    }
}

/// The numeral of an integer.
pub open spec fn int_text(n: int) -> Seq<char> {
    if n < 0 {
        seq!['-'] + nat_text(-n)
    } else {
        nat_text(n)
    }
}

fn push_nat(out: &mut String, n: u64)
    ensures
        final(out)@ == old(out)@ + nat_text(n as int),
    decreases n,
{
    if n >= 10 {
        push_nat(out, n / 10);
    }
    let d: u8 = (n % 10) as u8;
    out.push((48 + d) as char);
    assert(out@ =~= old(out)@ + nat_text(n as int));
}

/// The numeral of an `i64`.
pub fn i64_text(n: i64) -> (r: String)
    ensures
        r@ == int_text(n as int),
{
    let mut out = String::new();
    if n < 0 {
        out.push('-');
        push_nat(&mut out, (-(n as i128)) as u64);
        assert(out@ =~= int_text(n as int));
    } else {
        push_nat(&mut out, n as u64);
        assert(out@ =~= int_text(n as int));
    }
    out
}

/// The numeral of a `u64`.
pub fn u64_text(n: u64) -> (r: String)
    ensures
        r@ == int_text(n as int),
{
    let mut out = String::new();
    push_nat(&mut out, n);
    assert(out@ =~= int_text(n as int));
    out
}

/// `n` copies of a character.
pub open spec fn repeated(c: char, n: int) -> Seq<char> {
    Seq::new(
        if n < 0 {
            0
        } else {
            n as nat
        },
        |i: int| c,
    )
}

/// A text filled up in front with zeros to a width.
pub open spec fn pad_front(s: Seq<char>, width: int) -> Seq<char> {
    repeated('0', width - s.len()) + s
}

/// A text filled up in front with zeros to a width.
pub fn padded(s: &str, width: usize) -> (r: String)
    ensures
        r@ == pad_front(s@, width as int),
{
    let len: usize = chars_of(s).len();
    let mut out = String::new();
    let mut i: usize = len;
    assert(out@ =~= repeated('0', len - len));
    while i < width
        invariant
            len <= i,
            len < width ==> i <= width,
            width <= len ==> i == len,
            len == s@.len(),
            out@ == repeated('0', i - len),
        decreases width - i,
    {
        out.push('0');
        i += 1;
        assert(repeated('0', i - len) =~= repeated('0', i - 1 - len).push('0'));
    }
    out.append(s);
    assert(out@ =~= pad_front(s@, width as int));
    out
}

/// The digits that are written for a number stand for that number.
pub proof fn lemma_nat_text_value(n: int)
    requires
        0 <= n,
    ensures
        all_digits(nat_text(n)),
        nat_text(n).len() > 0,
        digits_value(nat_text(n)) == n,
    decreases n,
{
    assert forall|d: int| 0 <= d < 10 implies is_digit(#[trigger] digit_char(d)) && digit_value(
        digit_char(d),
    ) == d by {}
    if n < 10 {
        let s = nat_text(n);
        assert(s.drop_last() =~= Seq::<char>::empty());
        assert(digits_value(s.drop_last()) == 0);
        assert(is_digit(digit_char(n)));
    } else {
        lemma_nat_text_value(n / 10);
        let s = nat_text(n);
        assert(s.drop_last() =~= nat_text(n / 10));
        assert(is_digit(digit_char(n % 10)));
        assert forall|i: int| 0 <= i < s.len() implies is_digit(#[trigger] s[i]) by {
            if i < s.len() - 1 {
                assert(s[i] == nat_text(n / 10)[i]);
            }
        }
    }
}

/// Reading back the numeral of an `i64` gives the number.
pub proof fn law_numeral_round_trip(n: i64)
    ensures
        i64_value(int_text(n as int)) == Some(n),
{
    let m: int = if n < 0 {
        -n
    } else {
        n as int
    };
    lemma_nat_text_value(m);
    let s = int_text(n as int);
    if n < 0 {
        assert(s.skip(1) =~= nat_text(m));
    } else {
        assert(is_digit(nat_text(m)[0]));
        assert(s == nat_text(m));
    }
}

// ---------------------------------------------------------------------------
// Floats
// ---------------------------------------------------------------------------

/// The position of the first exponent mark, or the length where there is none.
pub open spec fn exponent_at(s: Seq<char>, from: int) -> int
    decreases s.len() - from,
{
    if from < 0 || from >= s.len() {
        s.len() as int
    } else if s[from] == 'e' || s[from] == 'E' {
        from
    } else {
        exponent_at(s, from + 1)
    }
}

/// Digits with at most one point among them, and at least one digit.
pub open spec fn is_mantissa(s: Seq<char>) -> bool {
    ||| s.len() > 0 && all_digits(s)
    ||| exists|k: int|
        {
            &&& 0 <= k < s.len()
            &&& #[trigger] s[k] == '.'
            &&& s.len() > 1
            &&& all_digits(s.take(k))
            &&& all_digits(s.skip(k + 1))
        }
}

/// Nothing, or an exponent mark with a signed row of digits behind it.
pub open spec fn is_exponent(s: Seq<char>) -> bool {
    s.len() == 0 || integer_value(s.skip(1)) is Some
}

/// The numerals of floats: an optional sign, then `inf`, `infinity` or `nan` in
/// any case, or a mantissa with an optional exponent.
pub open spec fn is_float(s: Seq<char>) -> bool {
    let u = unsigned_part(s);
    let k = exponent_at(u, 0);
    ||| ascii_lower(u) == ascii_lower("inf"@)
    ||| ascii_lower(u) == ascii_lower("infinity"@)
    ||| ascii_lower(u) == ascii_lower("nan"@)
    ||| is_mantissa(u.take(k)) && is_exponent(u.skip(k))
}

/// The numerals of floats that are words: those without a finite value.
pub open spec fn is_float_word(s: Seq<char>) -> bool {
    let u = unsigned_part(s);
    ||| same_but_case(u, "inf"@)
    ||| same_but_case(u, "infinity"@)
    ||| same_but_case(u, "nan"@)
}

/// Whether a text is a numeral of a float that is a word.
pub fn float_word(s: &str) -> (r: bool)
    ensures
        r == is_float_word(s@),
{
    let cs = chars_of(s);
    let from: usize = if cs.len() > 0 && (cs[0] == '+' || cs[0] == '-') {
        1
    } else {
        0
    };
    let u = text_of(&cs, from, cs.len());
    assert(u@ =~= unsigned_part(s@));
    same_ignoring_case(u.as_str(), "inf") || same_ignoring_case(u.as_str(), "infinity")
        || same_ignoring_case(u.as_str(), "nan")
}

fn only_digits(cs: &Vec<char>, from: usize, to: usize) -> (r: bool)
    requires
        from <= to <= cs@.len(),
    ensures
        r == all_digits(cs@.subrange(from as int, to as int)),
{
    let mut i: usize = from;
    let ghost part = cs@.subrange(from as int, to as int);
    while i < to
        invariant
            from <= i <= to <= cs@.len(),
            part == cs@.subrange(from as int, to as int),
            forall|j: int| 0 <= j < i - from ==> is_digit(#[trigger] part[j]),
        decreases to - i,
    {
        if !('0' <= cs[i] && cs[i] <= '9') {
            assert(!is_digit(part[i - from]));
            return false;
        }
        assert(is_digit(part[i - from]));
        i += 1;
    }
    true
}

fn mantissa(cs: &Vec<char>, from: usize, to: usize) -> (r: bool)
    requires
        from <= to <= cs@.len(),
    ensures
        r == is_mantissa(cs@.subrange(from as int, to as int)),
{
    let ghost m = cs@.subrange(from as int, to as int);
    let mut i: usize = from;
    while i < to && '0' <= cs[i] && cs[i] <= '9'
        invariant
            from <= i <= to <= cs@.len(),
            m == cs@.subrange(from as int, to as int),
            all_digits(m.take(i - from)),
        decreases to - i,
    {
        assert(is_digit(m[i - from]));
        assert(m.take(i + 1 - from) =~= m.take(i - from).push(m[i - from]));
        i += 1;
    }
    if i == to {
        assert(m.take(i - from) =~= m);
        proof {
            if is_mantissa(m) && m.len() == 0 {
                assert(false);
            }
        }
        return from < to;
    }
    let ghost k = i - from;
    assert(m[k] == cs@[i as int]);
    assert(!is_digit(m[k]));
    proof {
        assert forall|q: int|
            0 <= q < m.len() && #[trigger] m[q] == '.' && all_digits(m.take(q)) && all_digits(
                m.skip(q + 1),
            ) implies q == k by {
            if q > k {
                assert(m.take(q)[k] == m[k]);
            }
            if q < k {
                assert(m.skip(q + 1)[k - q - 1] == m[k]);
                assert(m.take(k)[q] == m[q]);
            }
        }
    }
    if cs[i] != '.' {
        return false;
    }
    assert(m.skip(k + 1) =~= cs@.subrange(i + 1, to as int));
    only_digits(cs, i + 1, to) && to - from > 1
}

/// Whether a text is the numeral of a float.
pub fn float_numeral(s: &str) -> (r: bool)
    ensures
        r == is_float(s@),
{
    let cs = chars_of(s);
    let from: usize = if cs.len() > 0 && (cs[0] == '+' || cs[0] == '-') {
        1
    } else {
        0
    };
    let ghost u = unsigned_part(s@);
    assert(cs@.skip(from as int) =~= u);
    assert(cs@.subrange(from as int, cs@.len() as int) =~= u);
    let body = text_of(&cs, from, cs.len());
    if same_ignoring_case(body.as_str(), "inf") || same_ignoring_case(body.as_str(), "infinity")
        || same_ignoring_case(body.as_str(), "nan") {
        return true;
    }
    let mut k: usize = from;
    while k < cs.len() && cs[k] != 'e' && cs[k] != 'E'
        invariant
            from <= k <= cs@.len(),
            u == cs@.skip(from as int),
            exponent_at(u, 0) == exponent_at(u, k - from),
        decreases cs.len() - k,
    {
        assert(u[k - from] == cs@[k as int]);
        k += 1;
    }
    assert(exponent_at(u, 0) == k - from);
    assert(cs@.subrange(from as int, k as int) =~= u.take(k - from));
    if !mantissa(&cs, from, k) {
        return false;
    }
    if k == cs.len() {
        return true;
    }
    let ghost x = u.skip(k - from).skip(1);
    let start: usize = if k + 1 < cs.len() && (cs[k + 1] == '+' || cs[k + 1] == '-') {
        k + 2
    } else {
        k + 1
    };
    assert(x =~= cs@.skip(k + 1));
    assert(unsigned_part(x) =~= cs@.subrange(start as int, cs@.len() as int));
    start < cs.len() && only_digits(&cs, start, cs.len())
}

/// Every numeral of an `i64` is a numeral of a float.
pub proof fn law_integers_are_floats(s: Seq<char>)
    requires
        i64_value(s) is Some,
    ensures
        is_float(s),
{
    let u = unsigned_part(s);
    lemma_no_exponent(u, 0);
    assert(u.take(u.len() as int) =~= u);
    assert(u.skip(u.len() as int).len() == 0);
}

proof fn lemma_no_exponent(u: Seq<char>, from: int)
    requires
        all_digits(u),
        0 <= from <= u.len(),
    ensures
        exponent_at(u, from) == u.len(),
    decreases u.len() - from,
{
    if from < u.len() {
        assert(is_digit(u[from]));
        lemma_no_exponent(u, from + 1);
    }
}

// ---------------------------------------------------------------------------
// The values of floats
// ---------------------------------------------------------------------------

/// The position of the first decimal point, at or after `from`, or the length
/// where there is none.
pub open spec fn point_at(s: Seq<char>, from: int) -> int
    decreases s.len() - from,
{
    if from < 0 || from >= s.len() {
        s.len() as int
    } else if s[from] == '.' {
        from
    } else {
        point_at(s, from + 1)
    }
}

/// Whether a text is the numeral of a float, and no word.
pub open spec fn is_decimal(s: Seq<char>) -> bool {
    is_float(s) && !is_float_word(s)
}

/// The mantissa of a numeral.
pub open spec fn mantissa_of(s: Seq<char>) -> Seq<char> {
    let u = unsigned_part(s);
    u.take(exponent_at(u, 0))
}

/// The exponent of a numeral; zero where it has none.
pub open spec fn exponent_of(s: Seq<char>) -> int {
    let u = unsigned_part(s);
    let k = exponent_at(u, 0);
    if k < u.len() {
        match integer_value(u.skip(k).skip(1)) {
            Some(n) => n,
            None => 0,
        }
    } else {
        0
    }
}

/// The digits of a mantissa, without its point.
pub open spec fn mantissa_digits(m: Seq<char>) -> Seq<char> {
    let p = point_at(m, 0);
    if p < m.len() {
        m.take(p) + m.skip(p + 1)
    } else {
        m
    }
}

/// The digits of a numeral, without zeros in front.
pub open spec fn significant(s: Seq<char>) -> Seq<char> {
    strip_front(mantissa_digits(mantissa_of(s)), '0')
}

/// How many places the decimal point stands behind the first of the significant
/// digits of a numeral, or, where that is negative, in front of it.
pub open spec fn point_place(s: Seq<char>) -> int {
    let m = mantissa_of(s);
    point_at(m, 0) - (mantissa_digits(m).len() - significant(s).len()) + exponent_of(s)
}

/// Half way between the greatest finite float and the power of two that follows:
/// from there on numbers are read as infinite. It has as many digits as the point
/// place of its numeral says.
pub const FLOAT_LIMIT: &'static str = "179769313486231580793728971405303415079934132710037826936173778980444968292764750946649017977587207096330286416692887910946555547851940402630657488671505820681908902000708383676273854845817711531764475730270069855571366959622842914819860834936475292719074168444365510704342711559699508093042880177904174497792";

/// Whether the number with these significant digits and this point place is read
/// as a finite float.
pub open spec fn is_in_range(digits: Seq<char>, place: int) -> bool {
    digits.len() == 0 || place < 309 || (place == 309 && !text_le(FLOAT_LIMIT@, digits))
}

/// Whether a text is a numeral of a float that has a finite value.
pub open spec fn is_finite(s: Seq<char>) -> bool {
    is_decimal(s) && is_in_range(significant(s), point_place(s))
}

/// A number as it is written without an exponent, by its significant digits and
/// its point place: no zeros are written behind the point but those between it
/// and a digit.
pub open spec fn written_out(digits: Seq<char>, place: int) -> Seq<char> {
    let d = strip_back(digits, '0');
    if d.len() == 0 {
        "0"@
    } else if place <= 0 {
        "0."@ + repeated('0', -place) + d
    } else if place >= d.len() {
        d + repeated('0', place - d.len())
    } else {
        d.take(place) + "."@ + d.skip(place)
    }
}

/// Whether a numeral has digits within the reach of floats.
pub open spec fn is_writable(s: Seq<char>) -> bool {
    is_finite(s) && (significant(s).len() == 0 || point_place(s) > -400)
}

/// The numeral of a float as it is shown: written out, without an exponent. A
/// text that is no such numeral is shown as it stands.
pub open spec fn shown_float(s: Seq<char>) -> Seq<char> {
    if is_writable(s) {
        (if s[0] == '-' {
            "-"@
        } else {
            Seq::empty()
        }) + written_out(significant(s), point_place(s))
    } else {
        s
    }
}

/// A number, or the nearer end of the range of a thousand around zero.
pub open spec fn near(n: int) -> int {
    if n < -1000 {
        -1000
    } else if n > 1000 {
        1000
    } else {
        n
    }
}

/// The exponent whose mark stands at `k`, or one whose size is beyond the length of
/// any text, with its sign.
fn read_exponent(cs: &Vec<char>, k: usize) -> (r: i128)
    requires
        k < cs@.len(),
        integer_value(cs@.skip(k + 1)) is Some,
    ensures
        ({
            let n = integer_value(cs@.skip(k + 1))->0;
            let far = 0x2_0000_0000_0000_0000int;
            r == if n > far {
                far
            } else if n < -far {
                -far
            } else {
                n
            }
        }),
{
    let ghost x = cs@.skip(k + 1);
    assert(unsigned_part(x).len() > 0);
    assert(k + 1 < cs.len());
    assert(x[0] == cs@[k + 1]);
    let start: usize = if cs[k + 1] == '+' || cs[k + 1] == '-' {
        k + 2
    } else {
        k + 1
    };
    assert(unsigned_part(x) =~= cs@.skip(start as int));
    proof {
        lemma_digits_value_nonneg(unsigned_part(x));
    }
    let size: i128 = match read_digits(cs, start, 0x2_0000_0000_0000_0000) {
        Some(v) => v as i128,
        None => 0x2_0000_0000_0000_0000,
    };
    if cs[k + 1] == '-' {
        -size
    } else {
        size
    }
}

/// The digits of the mantissa in `cs[from..to]`, and the position of its point.
fn read_mantissa(cs: &Vec<char>, from: usize, to: usize) -> (r: (String, usize))
    requires
        from <= to <= cs@.len(),
    ensures
        r.0@ == mantissa_digits(cs@.subrange(from as int, to as int)),
        r.1 == point_at(cs@.subrange(from as int, to as int), 0),
        r.1 <= to - from,
        r.0@.len() <= to - from,
{
    let ghost m = cs@.subrange(from as int, to as int);
    let mut p: usize = from;
    while p < to && cs[p] != '.'
        invariant
            from <= p <= to <= cs@.len(),
            m == cs@.subrange(from as int, to as int),
            point_at(m, 0) == point_at(m, p - from),
        decreases to - p,
    {
        assert(m[p - from] == cs@[p as int]);
        p += 1;
    }
    assert(point_at(m, 0) == p - from);
    let mut digits = text_of(cs, from, p);
    if p < to {
        digits.append(text_of(cs, p + 1, to).as_str());
        assert(digits@ =~= m.take(p - from) + m.skip(p + 1 - from));
    } else {
        assert(digits@ =~= m);
    }
    (digits, p - from)
}

/// The significant digits of a numeral, and its point place, or the nearer end of
/// the range of a thousand around zero.
fn read_decimal(s: &str) -> (r: (String, i64))
    requires
        is_decimal(s@),
    ensures
        r.0@ == significant(s@),
        r.1 == near(point_place(s@)),
{
    let cs = chars_of(s);
    let from: usize = if cs.len() > 0 && (cs[0] == '+' || cs[0] == '-') {
        1
    } else {
        0
    };
    let ghost u = unsigned_part(s@);
    assert(cs@.skip(from as int) =~= u);
    let mut k: usize = from;
    while k < cs.len() && cs[k] != 'e' && cs[k] != 'E'
        invariant
            from <= k <= cs@.len(),
            u == cs@.skip(from as int),
            exponent_at(u, 0) == exponent_at(u, k - from),
        decreases cs.len() - k,
    {
        assert(u[k - from] == cs@[k as int]);
        k += 1;
    }
    assert(exponent_at(u, 0) == k - from);
    assert(mantissa_of(s@) =~= cs@.subrange(from as int, k as int));
    let (digits, point) = read_mantissa(&cs, from, k);
    let sig = stripped_front(digits.as_str(), '0');
    proof {
        lemma_strip_front_len(digits@, '0');
    }
    let all: usize = chars_of(digits.as_str()).len();
    let left: usize = chars_of(sig.as_str()).len();
    let base: i128 = point as i128 - (all - left) as i128;
    let mut e: i128 = 0;
    if k < cs.len() {
        assert(u.skip(k - from).skip(1) =~= cs@.skip(k + 1));
        e = read_exponent(&cs, k);
    }
    let place: i128 = base + e;
    let near: i64 = if place < -1000 {
        -1000
    } else if place > 1000 {
        1000
    } else {
        place as i64
    };
    (sig, near)
}

proof fn lemma_strip_front_len(s: Seq<char>, c: char)
    ensures
        strip_front(s, c).len() <= s.len(),
    decreases s.len(),
{
    if s.len() > 0 && s[0] == c {
        lemma_strip_front_len(s.skip(1), c);
    }
}

fn in_range(digits: &str, place: i64) -> (r: bool)
    ensures
        r == is_in_range(digits@, place as int),
{
    digits.is_empty() || place < 309 || (place == 309 && !comes_before(FLOAT_LIMIT, digits))
}

/// Whether a text is a numeral of a float that has a finite value.
pub fn finite_numeral(s: &str) -> (r: bool)
    ensures
        r == is_finite(s@),
{
    if !float_numeral(s) || float_word(s) {
        return false;
    }
    let (digits, place) = read_decimal(s);
    in_range(digits.as_str(), place)
}

fn push_zeros(out: &mut String, n: i64)
    ensures
        final(out)@ == old(out)@ + repeated('0', n as int),
{
    let ghost start = out@;
    let mut i: i64 = 0;
    assert(out@ =~= start + repeated('0', 0));
    while i < n
        invariant
            0 <= i,
            n >= 0 ==> i <= n,
            n < 0 ==> i == 0,
            out@ == start + repeated('0', i as int),
        decreases n - i,
    {
        out.push('0');
        i += 1;
        assert(start + repeated('0', i as int) =~= (start + repeated('0', i - 1)).push('0'));
    }
    assert(repeated('0', i as int) =~= repeated('0', n as int));
}

fn write_out(digits: &str, place: i64) -> (r: String)
    requires
        -1000 <= place <= 1000,
    ensures
        r@ == written_out(digits@, place as int),
{
    let d = stripped_back(digits, '0');
    let cs = chars_of(d.as_str());
    if cs.len() == 0 {
        "0".to_owned()
    } else if place <= 0 {
        let mut out = "0.".to_owned();
        push_zeros(&mut out, -place);
        out.append(d.as_str());
        out
    } else if place as usize >= cs.len() {
        let n: i64 = place - cs.len() as i64;
        let mut out = d;
        push_zeros(&mut out, n);
        out
    } else {
        let at: usize = place as usize;
        let mut out = text_of(&cs, 0, at);
        assert(out@ =~= cs@.take(place as int));
        out.append(".");
        let rest = text_of(&cs, at, cs.len());
        assert(rest@ =~= cs@.skip(place as int));
        out.append(rest.as_str());
        out
    }
}

/// The numeral of a float as it is shown.
pub fn show_float(s: &str) -> (r: String)
    ensures
        r@ == shown_float(s@),
{
    if !float_numeral(s) || float_word(s) {
        return s.to_owned();
    }
    let (digits, place) = read_decimal(s);
    if !in_range(digits.as_str(), place) || !(digits.as_str().is_empty() || place > -400) {
        return s.to_owned();
    }
    let cs = chars_of(s);
    let mut out = String::new();
    assert(out@ =~= Seq::<char>::empty());
    proof {
        lemma_float_not_empty(s@);
        lemma_zero_is_plain(significant(s@), place as int, point_place(s@));
    }
    if cs[0] == '-' {
        out.append("-");
    }
    out.append(write_out(digits.as_str(), place).as_str());
    out
}

proof fn lemma_float_not_empty(s: Seq<char>)
    requires
        is_decimal(s),
    ensures
        s.len() > 0,
{
    if s.len() == 0 {
        let u = unsigned_part(s);
        assert(u.len() == 0);
        assert(u.take(exponent_at(u, 0)).len() == 0);
    }
}

proof fn lemma_zero_is_plain(digits: Seq<char>, a: int, b: int)
    ensures
        digits.len() == 0 ==> written_out(digits, a) == written_out(digits, b),
{
}

} // verus!
