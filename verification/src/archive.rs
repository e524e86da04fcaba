//! The parts of an archive, and what the tags in them say of cells and counts.
use std::io::{Cursor, Read};
use vstd::prelude::*;
use zip::ZipArchive;

verus! {

// ---------------------------------------------------------------------------
// The parts
// ---------------------------------------------------------------------------

/// The parts that the `zip` crate opens in an archive, each by its bytes, or as
/// nothing where it cannot be read to its end.
pub uninterp spec fn archive_parts(bytes: Seq<u8>) -> Seq<Option<Seq<u8>>>;

/// `zip::ZipArchive::new`, with `by_index` and `read_to_end` for every part: what is
/// read depends on the bytes alone. What is no archive has no parts, and a part
/// that cannot be opened is passed over.
#[verifier::external_body]
fn list_parts(bytes: &Vec<u8>) -> (r: Vec<Option<Vec<u8>>>)
    ensures
        r.deep_view() == archive_parts(bytes@),
{
    let mut parts = Vec::new();
    if let Ok(mut archive) = ZipArchive::new(Cursor::new(bytes)) {
        for i in 0..archive.len() {
            if let Ok(mut file) = archive.by_index(i) {
                let mut part = Vec::new();
                parts.push(file.read_to_end(&mut part).ok().map(|_| part));
            }
        }
    }
    parts
}

// ---------------------------------------------------------------------------
// Tags
// ---------------------------------------------------------------------------

/// Whether a byte is white space.
pub open spec fn is_space(b: u8) -> bool {
    b == 0x20 || b == 0x09 || b == 0x0a || b == 0x0c || b == 0x0d
}

/// Whether a byte is a quote.
pub open spec fn is_quote(b: u8) -> bool {
    b == 0x22 || b == 0x27
}

/// Where a tag ends that goes on at `from`, inside this quote if there is one: at
/// the first `>` that no quotes enclose.
pub open spec fn tag_end(s: Seq<u8>, from: int, quote: Option<u8>) -> int
    decreases s.len() - from,
{
    if from < 0 || from >= s.len() {
        s.len() as int
    } else {
        match quote {
            Some(q) => tag_end(
                s,
                from + 1,
                if s[from] == q {
                    None
                } else {
                    quote
                },
            ),
            None => if s[from] == 0x3e {
                from
            } else {
                tag_end(
                    s,
                    from + 1,
                    if is_quote(s[from]) {
                        Some(s[from])
                    } else {
                        None
                    },
                )
            },
        }
    }
}

/// Where the name of an element ends that goes on at `from`: at white space, a
/// slash or a `>`.
pub open spec fn name_end(s: Seq<u8>, from: int) -> int
    decreases s.len() - from,
{
    if from < 0 || from >= s.len() {
        s.len() as int
    } else if is_space(s[from]) || s[from] == 0x2f || s[from] == 0x3e {
        from
    } else {
        name_end(s, from + 1)
    }
}

/// Where the key ends that stands before `at`: behind it there is only white
/// space.
pub open spec fn key_end(s: Seq<u8>, at: int) -> int
    decreases at,
{
    if at <= 0 {
        0
    } else if is_space(s[at - 1]) {
        key_end(s, at - 1)
    } else {
        at
    }
}

/// The first place at or after `from` without white space.
pub open spec fn value_start(s: Seq<u8>, from: int) -> int
    decreases s.len() - from,
{
    if from < 0 || from >= s.len() || !is_space(s[from]) {
        from
    } else {
        value_start(s, from + 1)
    }
}

/// The first place of a byte at or after `from`, or the end.
pub open spec fn place_of(s: Seq<u8>, from: int, b: u8) -> int
    decreases s.len() - from,
{
    if from < 0 || from >= s.len() {
        s.len() as int
    } else if s[from] == b {
        from
    } else {
        place_of(s, from + 1, b)
    }
}

/// Whether a word, and a byte before it, end at `end`.
pub open spec fn word_ends(s: Seq<u8>, end: int, word: Seq<u8>) -> bool {
    word.len() < end <= s.len() && s.subrange(end - word.len(), end) == word
}

/// Whether the tag at `p` is that of an element with this name, in whatever
/// namespace.
pub open spec fn is_element(s: Seq<u8>, p: int, name: Seq<u8>) -> bool {
    let e = name_end(s, p + 1);
    let before = e - name.len() - 1;
    &&& word_ends(s, e, name)
    &&& before >= p
    &&& s[before] == 0x3c || s[before] == 0x3a
}

/// Whether this key stands before the sign of equality at `i`.
pub open spec fn has_key(s: Seq<u8>, i: int, key: Seq<u8>) -> bool {
    let e = key_end(s, i);
    let before = e - key.len() - 1;
    &&& word_ends(s, e, key)
    &&& is_space(s[before]) || is_quote(s[before]) || s[before] == 0x3a
}

/// The value in quotes behind the sign of equality at `i`.
pub open spec fn value_at(s: Seq<u8>, i: int) -> Seq<u8> {
    let q = value_start(s, i + 1);
    if q < s.len() && is_quote(s[q]) {
        s.subrange(q + 1, place_of(s, q + 1, s[q]))
    } else {
        Seq::empty()
    }
}

// ---------------------------------------------------------------------------
// Values
// ---------------------------------------------------------------------------

/// Whether a byte is a digit.
pub open spec fn is_digit(b: u8) -> bool {
    0x30 <= b <= 0x39
}

/// Whether a byte is a letter.
pub open spec fn is_letter(b: u8) -> bool {
    0x41 <= b <= 0x5a || 0x61 <= b <= 0x7a
}

/// How many digits there are in a value.
pub open spec fn digit_count(v: Seq<u8>) -> nat
    decreases v.len(),
{
    if v.len() == 0 {
        0
    } else {
        digit_count(v.drop_last()) + if is_digit(v.last()) {
            1nat
        } else {
            0
        }
    }
}

/// How many letters there are in a value.
pub open spec fn letter_count(v: Seq<u8>) -> nat
    decreases v.len(),
{
    if v.len() == 0 {
        0
    } else {
        letter_count(v.drop_last()) + if is_letter(v.last()) {
            1nat
        } else {
            0
        }
    }
}

/// The number that the digits of a value make.
pub open spec fn number_in(v: Seq<u8>) -> nat
    decreases v.len(),
{
    if v.len() == 0 {
        0
    } else if is_digit(v.last()) {
        10 * number_in(v.drop_last()) + (v.last() - 0x30) as nat
    } else {
        number_in(v.drop_last())
    }
}

/// The column that the letters of a value name, in either case.
pub open spec fn column_in(v: Seq<u8>) -> nat
    decreases v.len(),
{
    if v.len() == 0 {
        0
    } else if is_letter(v.last()) {
        26 * column_in(v.drop_last()) + (v.last() % 0x20) as nat
    } else {
        column_in(v.drop_last())
    }
}

/// How many brackets a format can open: as many as it has brackets and references
/// to characters.
pub open spec fn bracket_count(v: Seq<u8>) -> nat
    decreases v.len(),
{
    if v.len() == 0 {
        0
    } else {
        bracket_count(v.drop_last()) + if v.last() == 0x5b || v.last() == 0x26 {
            1nat
        } else {
            0
        }
    }
}

/// Whether a value names a place that a sheet may have: no more than three letters
/// and seven digits.
pub open spec fn is_place(v: Seq<u8>) -> bool {
    letter_count(v) <= 3 && digit_count(v) <= 7
}

/// Whether a value names a place, or a place and one that is not before it in its
/// row or its column.
pub open spec fn is_span(v: Seq<u8>) -> bool {
    let i = place_of(v, 0, 0x3a);
    if i == v.len() {
        is_place(v)
    } else {
        let first = v.subrange(0, i);
        let last = v.subrange(i + 1, v.len() as int);
        &&& is_place(first)
        &&& is_place(last)
        &&& number_in(first) <= number_in(last)
        &&& column_in(first) <= column_in(last)
    }
}

/// Whether a value is a count of no more than `most`.
pub open spec fn is_count(v: Seq<u8>, most: nat) -> bool {
    digit_count(v) <= 9 && number_in(v) <= most
}

/// Whether a value is a format with no more brackets than a byte can count.
pub open spec fn is_format(v: Seq<u8>) -> bool {
    bracket_count(v) <= 255
}

// ---------------------------------------------------------------------------
// What is sound
// ---------------------------------------------------------------------------

/// `row`, the name of an element with cells.
pub open spec fn row_name() -> Seq<u8> {
    seq![0x72, 0x6f, 0x77]
}

/// `c`, the name of an element with one cell.
pub open spec fn cell_name() -> Seq<u8> {
    seq![0x63]
}

/// `dimension`, the name of the element that tells the span of a sheet.
pub open spec fn span_name() -> Seq<u8> {
    seq![0x64, 0x69, 0x6d, 0x65, 0x6e, 0x73, 0x69, 0x6f, 0x6e]
}

/// `sst`, the name of the element with the texts that sheets share.
pub open spec fn texts_name() -> Seq<u8> {
    seq![0x73, 0x73, 0x74]
}

/// `numFmt`, the name of an element with the format of numbers.
pub open spec fn format_name() -> Seq<u8> {
    seq![0x6e, 0x75, 0x6d, 0x46, 0x6d, 0x74]
}

/// `r`, the key of the place of a row or a cell.
pub open spec fn place_key() -> Seq<u8> {
    seq![0x72]
}

/// `ref`, the key of a span.
pub open spec fn span_key() -> Seq<u8> {
    seq![0x72, 0x65, 0x66]
}

/// `uniqueCount`, the key of a count of texts.
pub open spec fn count_key() -> Seq<u8> {
    seq![0x75, 0x6e, 0x69, 0x71, 0x75, 0x65, 0x43, 0x6f, 0x75, 0x6e, 0x74]
}

/// `formatCode`, the key of a format.
pub open spec fn format_key() -> Seq<u8> {
    seq![0x66, 0x6f, 0x72, 0x6d, 0x61, 0x74, 0x43, 0x6f, 0x64, 0x65]
}

/// What the value of an attribute of a tag has to be.
#[derive(Debug, PartialEq, Eq, Clone, Copy, Structural)]
pub enum Demand {
    Place,
    Span,
    Count,
    Format,
}

/// Whether a tag asks this of the values under one of its keys.
pub open spec fn asks(s: Seq<u8>, p: int, d: Demand) -> bool {
    match d {
        Demand::Place => is_element(s, p, row_name()) || is_element(s, p, cell_name()),
        Demand::Span => is_element(s, p, span_name()),
        Demand::Count => is_element(s, p, texts_name()),
        Demand::Format => is_element(s, p, format_name()),
    }
}

/// The key of the values of which something is asked.
pub open spec fn demand_key(d: Demand) -> Seq<u8> {
    match d {
        Demand::Place => place_key(),
        Demand::Span => span_key(),
        Demand::Count => count_key(),
        Demand::Format => format_key(),
    }
}

/// Whether a value in a part is as it is asked for.
pub open spec fn meets(s: Seq<u8>, v: Seq<u8>, d: Demand) -> bool {
    match d {
        Demand::Place => is_place(v),
        Demand::Span => is_span(v),
        Demand::Count => is_count(v, s.len()),
        Demand::Format => is_format(v),
    }
}

/// Whether the value behind the sign of equality at `i` is as it is asked for.
pub open spec fn is_sound_value(s: Seq<u8>, i: int, d: Demand) -> bool {
    has_key(s, i, demand_key(d)) ==> meets(s, value_at(s, i), d)
}

/// Whether a tag that begins at `p` is sound: where it asks for something, it is
/// met by each value up to its end.
pub open spec fn is_sound_tag(s: Seq<u8>, p: int) -> bool {
    forall|d: Demand, i: int|
        #![trigger is_sound_value(s, i, d)]
        asks(s, p, d) && p < i < tag_end(s, p + 1, None) && s[i] == 0x3d ==> is_sound_value(
            s,
            i,
            d,
        )
}

/// Whether a part is sound: it is so short that its rows and cells can be counted
/// in 32 bits, and every tag in it is sound.
pub open spec fn is_sound_part(s: Seq<u8>) -> bool {
    &&& s.len() <= 0x7fff_ffff
    &&& forall|p: int| 0 <= p < s.len() && s[p] == 0x3c ==> #[trigger] is_sound_tag(s, p)
}

/// Whether an archive is sound: each of its parts can be read to its end, and is
/// sound.
pub open spec fn is_sound_archive(bytes: Seq<u8>) -> bool {
    forall|k: int|
        0 <= k < archive_parts(bytes).len() ==> match #[trigger] archive_parts(bytes)[k] {
            Some(part) => is_sound_part(part),
            None => false,
        }
}

// ---------------------------------------------------------------------------
// Reading tags
// ---------------------------------------------------------------------------

fn space(b: u8) -> (r: bool)
    ensures
        r == is_space(b),
{
    b == 0x20 || b == 0x09 || b == 0x0a || b == 0x0c || b == 0x0d
}

fn quote(b: u8) -> (r: bool)
    ensures
        r == is_quote(b),
{
    b == 0x22 || b == 0x27
}

fn find_name_end(s: &Vec<u8>, from: usize) -> (r: usize)
    requires
        from <= s@.len(),
    ensures
        r == name_end(s@, from as int),
        from <= r <= s@.len(),
{
    let mut i: usize = from;
    while i < s.len() && !(space(s[i]) || s[i] == 0x2f || s[i] == 0x3e)
        invariant
            from <= i <= s@.len(),
            name_end(s@, i as int) == name_end(s@, from as int),
        decreases s.len() - i,
    {
        i += 1;
    }
    i
}

fn find_key_end(s: &Vec<u8>, at: usize) -> (r: usize)
    requires
        at <= s@.len(),
    ensures
        r == key_end(s@, at as int),
        r <= at,
{
    let mut i: usize = at;
    while i > 0 && space(s[i - 1])
        invariant
            i <= at <= s@.len(),
            key_end(s@, i as int) == key_end(s@, at as int),
        decreases i,
    {
        i -= 1;
    }
    i
}

fn find_value_start(s: &Vec<u8>, from: usize) -> (r: usize)
    requires
        from <= s@.len(),
    ensures
        r == value_start(s@, from as int),
        from <= r <= s@.len(),
{
    let mut i: usize = from;
    while i < s.len() && space(s[i])
        invariant
            from <= i <= s@.len(),
            value_start(s@, i as int) == value_start(s@, from as int),
        decreases s.len() - i,
    {
        i += 1;
    }
    i
}

fn find_byte(s: &Vec<u8>, from: usize, b: u8) -> (r: usize)
    requires
        from <= s@.len(),
    ensures
        r == place_of(s@, from as int, b),
        from <= r <= s@.len(),
{
    let mut i: usize = from;
    while i < s.len() && s[i] != b
        invariant
            from <= i <= s@.len(),
            place_of(s@, i as int, b) == place_of(s@, from as int, b),
        decreases s.len() - i,
    {
        i += 1;
    }
    i
}

fn ends_with_word(s: &Vec<u8>, end: usize, word: &Vec<u8>) -> (r: bool)
    requires
        end <= s@.len(),
    ensures
        r == word_ends(s@, end as int, word@),
{
    if word.len() >= end {
        return false;
    }
    let start: usize = end - word.len();
    let mut i: usize = 0;
    while i < word.len()
        invariant
            i <= word@.len(),
            start + word@.len() == end,
            end <= s@.len(),
            forall|j: int| 0 <= j < i ==> s@[start + j] == #[trigger] word@[j],
        decreases word.len() - i,
    {
        if s[start + i] != word[i] {
            assert(s@.subrange(start as int, end as int)[i as int] != word@[i as int]);
            return false;
        }
        i += 1;
    }
    assert(s@.subrange(start as int, end as int) =~= word@);
    true
}

fn named(s: &Vec<u8>, p: usize, name: &Vec<u8>) -> (r: bool)
    requires
        p < s@.len(),
    ensures
        r == is_element(s@, p as int, name@),
{
    let end: usize = s.len();
    assert(p < end);
    let e: usize = find_name_end(s, p + 1);
    if !ends_with_word(s, e, name) {
        return false;
    }
    let before: usize = e - name.len() - 1;
    before >= p && (s[before] == 0x3c || s[before] == 0x3a)
}

fn keyed(s: &Vec<u8>, i: usize, key: &Vec<u8>) -> (r: bool)
    requires
        i < s@.len(),
    ensures
        r == has_key(s@, i as int, key@),
{
    let e: usize = find_key_end(s, i);
    if !ends_with_word(s, e, key) {
        return false;
    }
    let before: usize = e - key.len() - 1;
    space(s[before]) || quote(s[before]) || s[before] == 0x3a
}

// ---------------------------------------------------------------------------
// Reading values
// ---------------------------------------------------------------------------

fn count_digits(s: &Vec<u8>, from: usize, to: usize) -> (r: usize)
    requires
        from <= to <= s@.len(),
    ensures
        r == digit_count(s@.subrange(from as int, to as int)),
{
    let mut n: usize = 0;
    let mut i: usize = from;
    while i < to
        invariant
            from <= i <= to <= s@.len(),
            n <= i - from,
            n == digit_count(s@.subrange(from as int, i as int)),
        decreases to - i,
    {
        assert(s@.subrange(from as int, i + 1).drop_last() =~= s@.subrange(from as int, i as int));
        if 0x30 <= s[i] && s[i] <= 0x39 {
            n += 1;
        }
        i += 1;
    }
    n
}

fn count_letters(s: &Vec<u8>, from: usize, to: usize) -> (r: usize)
    requires
        from <= to <= s@.len(),
    ensures
        r == letter_count(s@.subrange(from as int, to as int)),
{
    let mut n: usize = 0;
    let mut i: usize = from;
    while i < to
        invariant
            from <= i <= to <= s@.len(),
            n <= i - from,
            n == letter_count(s@.subrange(from as int, i as int)),
        decreases to - i,
    {
        assert(s@.subrange(from as int, i + 1).drop_last() =~= s@.subrange(from as int, i as int));
        let b: u8 = s[i];
        if (0x41 <= b && b <= 0x5a) || (0x61 <= b && b <= 0x7a) {
            n += 1;
        }
        i += 1;
    }
    n
}

fn count_brackets(s: &Vec<u8>, from: usize, to: usize) -> (r: usize)
    requires
        from <= to <= s@.len(),
    ensures
        r == bracket_count(s@.subrange(from as int, to as int)),
{
    let mut n: usize = 0;
    let mut i: usize = from;
    while i < to
        invariant
            from <= i <= to <= s@.len(),
            n <= i - from,
            n == bracket_count(s@.subrange(from as int, i as int)),
        decreases to - i,
    {
        assert(s@.subrange(from as int, i + 1).drop_last() =~= s@.subrange(from as int, i as int));
        if s[i] == 0x5b || s[i] == 0x26 {
            n += 1;
        }
        i += 1;
    }
    n
}

/// Ten to the power of `n`.
spec fn tens(n: nat) -> nat
    decreases n,
{
    if n == 0 {
        1
    } else {
        10 * tens((n - 1) as nat)
    }
}

/// Twenty-six to the power of `n`.
spec fn alphabets(n: nat) -> nat
    decreases n,
{
    if n == 0 {
        1
    } else {
        26 * alphabets((n - 1) as nat)
    }
}

proof fn lemma_number_bound(v: Seq<u8>)
    ensures
        number_in(v) < tens(digit_count(v)),
    decreases v.len(),
{
    if v.len() > 0 {
        lemma_number_bound(v.drop_last());
    }
}

proof fn lemma_column_bound(v: Seq<u8>)
    ensures
        column_in(v) + 2 <= 2 * alphabets(letter_count(v)),
    decreases v.len(),
{
    if v.len() > 0 {
        lemma_column_bound(v.drop_last());
        assert(is_letter(v.last()) ==> v.last() % 0x20 <= 26);
    }
}

proof fn lemma_prefix_counts(v: Seq<u8>, n: int)
    requires
        0 <= n <= v.len(),
    ensures
        digit_count(v.take(n)) <= digit_count(v),
        letter_count(v.take(n)) <= letter_count(v),
    decreases v.len() - n,
{
    if n < v.len() {
        lemma_prefix_counts(v, n + 1);
        assert(v.take(n + 1).drop_last() =~= v.take(n));
    } else {
        assert(v.take(n) =~= v);
    }
}

fn read_number(s: &Vec<u8>, from: usize, to: usize) -> (r: u64)
    requires
        from <= to <= s@.len(),
        digit_count(s@.subrange(from as int, to as int)) <= 9,
    ensures
        r == number_in(s@.subrange(from as int, to as int)),
{
    let ghost v = s@.subrange(from as int, to as int);
    let mut n: u64 = 0;
    let mut i: usize = from;
    while i < to
        invariant
            from <= i <= to <= s@.len(),
            v == s@.subrange(from as int, to as int),
            digit_count(v) <= 9,
            n == number_in(v.take(i - from)),
        decreases to - i,
    {
        let ghost k = i - from;
        proof {
            assert(v.take(k + 1).drop_last() =~= v.take(k));
            assert(v[k] == s@[i as int]);
            lemma_prefix_counts(v, k);
            lemma_number_bound(v.take(k));
            lemma_tens(digit_count(v.take(k)), 9);
        }
        if 0x30 <= s[i] && s[i] <= 0x39 {
            n = 10 * n + (s[i] - 0x30) as u64;
        }
        i += 1;
    }
    assert(v.take(v.len() as int) =~= v);
    n
}

proof fn lemma_tens(a: nat, b: nat)
    requires
        a <= b <= 9,
    ensures
        tens(a) <= tens(b) <= 1_000_000_000,
    decreases b,
{
    reveal_with_fuel(tens, 10);
    if a < b {
        lemma_tens(a, (b - 1) as nat);
    }
}

proof fn lemma_alphabets(n: nat)
    requires
        n <= 3,
    ensures
        alphabets(n) <= 17_576,
{
    reveal_with_fuel(alphabets, 4);
}

fn read_column(s: &Vec<u8>, from: usize, to: usize) -> (r: u64)
    requires
        from <= to <= s@.len(),
        letter_count(s@.subrange(from as int, to as int)) <= 3,
    ensures
        r == column_in(s@.subrange(from as int, to as int)),
{
    let ghost v = s@.subrange(from as int, to as int);
    let mut n: u64 = 0;
    let mut i: usize = from;
    while i < to
        invariant
            from <= i <= to <= s@.len(),
            v == s@.subrange(from as int, to as int),
            letter_count(v) <= 3,
            n == column_in(v.take(i - from)),
        decreases to - i,
    {
        let ghost k = i - from;
        proof {
            assert(v.take(k + 1).drop_last() =~= v.take(k));
            assert(v[k] == s@[i as int]);
            lemma_prefix_counts(v, k);
            lemma_column_bound(v.take(k));
            lemma_alphabets(letter_count(v.take(k)));
        }
        let b: u8 = s[i];
        if (0x41 <= b && b <= 0x5a) || (0x61 <= b && b <= 0x7a) {
            n = 26 * n + (b % 0x20) as u64;
        }
        i += 1;
    }
    assert(v.take(v.len() as int) =~= v);
    n
}

fn place(s: &Vec<u8>, from: usize, to: usize) -> (r: bool)
    requires
        from <= to <= s@.len(),
    ensures
        r == is_place(s@.subrange(from as int, to as int)),
{
    count_letters(s, from, to) <= 3 && count_digits(s, from, to) <= 7
}

fn span(s: &Vec<u8>, from: usize, to: usize) -> (r: bool)
    requires
        from <= to <= s@.len(),
    ensures
        r == is_span(s@.subrange(from as int, to as int)),
{
    let ghost v = s@.subrange(from as int, to as int);
    let mut i: usize = from;
    while i < to && s[i] != 0x3a
        invariant
            from <= i <= to <= s@.len(),
            v == s@.subrange(from as int, to as int),
            place_of(v, i - from, 0x3a) == place_of(v, 0, 0x3a),
        decreases to - i,
    {
        i += 1;
    }
    if i == to {
        return place(s, from, to);
    }
    assert(v.subrange(0, i - from) =~= s@.subrange(from as int, i as int));
    assert(v.subrange(i + 1 - from, v.len() as int) =~= s@.subrange(i + 1, to as int));
    place(s, from, i) && place(s, i + 1, to) && read_number(s, from, i) <= read_number(s, i + 1, to)
        && read_column(s, from, i) <= read_column(s, i + 1, to)
}

// ---------------------------------------------------------------------------
// Looking through an archive
// ---------------------------------------------------------------------------

fn met(s: &Vec<u8>, i: usize, d: Demand) -> (r: bool)
    requires
        i < s@.len() <= 0x7fff_ffff,
    ensures
        r == meets(s@, value_at(s@, i as int), d),
{
    let q: usize = find_value_start(s, i + 1);
    let (from, to): (usize, usize) = if q < s.len() && quote(s[q]) {
        (q + 1, find_byte(s, q + 1, s[q]))
    } else {
        (0, 0)
    };
    assert(value_at(s@, i as int) =~= s@.subrange(from as int, to as int));
    match d {
        Demand::Place => place(s, from, to),
        Demand::Span => span(s, from, to),
        Demand::Count => count_digits(s, from, to) <= 9 && read_number(s, from, to)
            <= s.len() as u64,
        Demand::Format => count_brackets(s, from, to) <= 255,
    }
}

/// Whether the values of a tag are as it is asked of those under one key.
fn tag_meets(s: &Vec<u8>, p: usize, d: Demand, key: &Vec<u8>) -> (r: bool)
    requires
        p < s@.len() <= 0x7fff_ffff,
        key@ == demand_key(d),
    ensures
        r == forall|i: int|
            p < i < tag_end(s@, p + 1, None) && s@[i] == 0x3d ==> #[trigger] is_sound_value(
                s@,
                i,
                d,
            ),
{
    let ghost end = tag_end(s@, p + 1, None);
    let mut within: Option<u8> = None;
    let mut i: usize = p + 1;
    while i < s.len() && !(within.is_none() && s[i] == 0x3e)
        invariant
            p < i <= s@.len() <= 0x7fff_ffff,
            key@ == demand_key(d),
            end == tag_end(s@, p + 1, None),
            end == tag_end(s@, i as int, within),
            forall|j: int| p < j < i && s@[j] == 0x3d ==> #[trigger] is_sound_value(s@, j, d),
        decreases s.len() - i,
    {
        let b: u8 = s[i];
        proof {
            lemma_tag_end(s@, i as int, within);
        }
        if b == 0x3d && keyed(s, i, key) && !met(s, i, d) {
            assert(!is_sound_value(s@, i as int, d));
            return false;
        }
        within = match within {
            Some(q) => if b == q {
                None
            } else {
                Some(q)
            },
            None => if quote(b) {
                Some(b)
            } else {
                None
            },
        };
        i += 1;
    }
    true
}

proof fn lemma_tag_end(s: Seq<u8>, from: int, quote: Option<u8>)
    requires
        0 <= from < s.len(),
    ensures
        from <= tag_end(s, from, quote) <= s.len(),
        !(quote is None && s[from] == 0x3e) ==> from < tag_end(s, from, quote),
    decreases s.len() - from,
{
    let next = match quote {
        Some(q) => if s[from] == q {
            None
        } else {
            quote
        },
        None => if is_quote(s[from]) {
            Some(s[from])
        } else {
            None
        },
    };
    reveal_with_fuel(tag_end, 2);
    if from + 1 < s.len() {
        lemma_tag_end(s, from + 1, next);
    }
}

/// The words that tags are known by.
struct Words {
    row: Vec<u8>,
    cell: Vec<u8>,
    span: Vec<u8>,
    texts: Vec<u8>,
    format: Vec<u8>,
    place_key: Vec<u8>,
    span_key: Vec<u8>,
    count_key: Vec<u8>,
    format_key: Vec<u8>,
}

impl Words {
    spec fn wf(&self) -> bool {
        &&& self.row@ == row_name()
        &&& self.cell@ == cell_name()
        &&& self.span@ == span_name()
        &&& self.texts@ == texts_name()
        &&& self.format@ == format_name()
        &&& self.place_key@ == place_key()
        &&& self.span_key@ == span_key()
        &&& self.count_key@ == count_key()
        &&& self.format_key@ == format_key()
    }

    fn new() -> (r: Words)
        ensures
            r.wf(),
    {
        let r = Words {
            row: vec![0x72, 0x6f, 0x77],
            cell: vec![0x63],
            span: vec![0x64, 0x69, 0x6d, 0x65, 0x6e, 0x73, 0x69, 0x6f, 0x6e],
            texts: vec![0x73, 0x73, 0x74],
            format: vec![0x6e, 0x75, 0x6d, 0x46, 0x6d, 0x74],
            place_key: vec![0x72],
            span_key: vec![0x72, 0x65, 0x66],
            count_key: vec![0x75, 0x6e, 0x69, 0x71, 0x75, 0x65, 0x43, 0x6f, 0x75, 0x6e, 0x74],
            format_key: vec![0x66, 0x6f, 0x72, 0x6d, 0x61, 0x74, 0x43, 0x6f, 0x64, 0x65],
        };
        assert(r.row@ =~= row_name());
        assert(r.cell@ =~= cell_name());
        assert(r.span@ =~= span_name());
        assert(r.texts@ =~= texts_name());
        assert(r.format@ =~= format_name());
        assert(r.place_key@ =~= place_key());
        assert(r.span_key@ =~= span_key());
        assert(r.count_key@ =~= count_key());
        assert(r.format_key@ =~= format_key());
        r
    }
}

fn sound_tag(s: &Vec<u8>, p: usize, w: &Words) -> (r: bool)
    requires
        p < s@.len() <= 0x7fff_ffff,
        w.wf(),
    ensures
        r == is_sound_tag(s@, p as int),
{
    let place_met = !(named(s, p, &w.row) || named(s, p, &w.cell)) || tag_meets(
        s,
        p,
        Demand::Place,
        &w.place_key,
    );
    let span_met = !named(s, p, &w.span) || tag_meets(s, p, Demand::Span, &w.span_key);
    let count_met = !named(s, p, &w.texts) || tag_meets(s, p, Demand::Count, &w.count_key);
    let format_met = !named(s, p, &w.format) || tag_meets(s, p, Demand::Format, &w.format_key);
    place_met && span_met && count_met && format_met
}

/// Whether a part is sound.
pub fn sound_part(s: &Vec<u8>) -> (r: bool)
    ensures
        r == is_sound_part(s@),
{
    if s.len() > 0x7fff_ffff {
        return false;
    }
    let w = Words::new();
    let mut p: usize = 0;
    while p < s.len()
        invariant
            p <= s@.len() <= 0x7fff_ffff,
            w.wf(),
            forall|q: int| 0 <= q < p && s@[q] == 0x3c ==> #[trigger] is_sound_tag(s@, q),
        decreases s.len() - p,
    {
        if s[p] == 0x3c && !sound_tag(s, p, &w) {
            return false;
        }
        p += 1;
    }
    true
}

/// Whether an archive is sound.
pub fn sound_archive(bytes: &Vec<u8>) -> (r: bool)
    ensures
        r == is_sound_archive(bytes@),
{
    let parts = list_parts(bytes);
    let ghost all = archive_parts(bytes@);
    assert(all.len() == parts@.len());
    let mut k: usize = 0;
    while k < parts.len()
        invariant
            k <= parts@.len(),
            all == parts.deep_view(),
            all == archive_parts(bytes@),
            forall|j: int|
                0 <= j < k ==> match #[trigger] all[j] {
                    Some(part) => is_sound_part(part),
                    None => false,
                },
        decreases parts.len() - k,
    {
        assert(all[k as int] == parts@[k as int].deep_view());
        match &parts[k] {
            Some(part) => {
                assert(part.deep_view() =~= part@);
                if !sound_part(part) {
                    return false;
                }
            },
            None => {
                return false;
            },
        }
        k += 1;
    }
    true
}

} // verus!
