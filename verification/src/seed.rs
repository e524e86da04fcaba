//! Filling a table with its first rows, from a file.
use crate::ast::DbParam;
use crate::auth::Claims;
use crate::flow::{
    answers, answers_success, failure, failure_in, missing_entity, say_missing_entity, succeed,
    succeeded, told, touches_data, Action, ActionV, Outcome, Reply, ReplyV, WebResponse,
    WebResponseV,
};
use crate::json::{
    copy_fields, field, law_set_then_get, lemma_array_view, lemma_key_at, lemma_object_view, lookup,
    set_in, with_field, Json,
    JsonV,
};
use crate::model::{Column, TableSchema};
use crate::number::{
    finite_numeral, float_numeral, i64_value, is_finite, is_float, parse_i64, parse_u64, u64_value,
};
use crate::patch::{row_count, wrap_count};
use crate::post::Fields;
use crate::tabular::{csv_read, read_csv, Table, TableV};
use crate::text::{
    ascii_lower, begins_with, chars_of, contains, ends_with, finishes_with, has_text,
    is_white_space, join, push_item, same, same_but_case, same_ignoring_case, split, split_text,
    starts_with, to_ascii_lower, trim, trim_end, trim_start, trimmed,
};
use vstd::prelude::*;
use vstd::string::*;
use vstd::utf8::encode_utf8;

verus! {

// ---------------------------------------------------------------------------
// Scripts
// ---------------------------------------------------------------------------

/// What a character of a script belongs to.
#[derive(Debug, PartialEq, Eq, Clone, Copy, Structural)]
pub enum Lex {
    /// A statement.
    Code,
    /// A text in single quotes, in double quotes, or in backticks.
    Single,
    Double,
    Backtick,
    /// A comment up to the end of the line.
    Line,
    /// A comment up to its closing mark.
    Block,
    /// The second character of the mark that opens a comment of a line, or of a
    /// block, or of the mark that closes the latter.
    OpenLine,
    OpenBlock,
    CloseBlock,
}

/// What the next character belongs to, by the one at hand and the one behind it.
pub open spec fn lex_next(mode: Lex, c: char, next: Option<char>) -> Lex {
    match mode {
        Lex::OpenLine => Lex::Line,
        Lex::OpenBlock => Lex::Block,
        Lex::CloseBlock => Lex::Code,
        Lex::Line => if c == '\n' {
            Lex::Code
        } else {
            Lex::Line
        },
        Lex::Block => if c == '*' && next == Some('/') {
            Lex::CloseBlock
        } else {
            Lex::Block
        },
        Lex::Single => if c == '\'' {
            Lex::Code
        } else {
            Lex::Single
        },
        Lex::Double => if c == '"' {
            Lex::Code
        } else {
            Lex::Double
        },
        Lex::Backtick => if c == '`' {
            Lex::Code
        } else {
            Lex::Backtick
        },
        Lex::Code => if c == '-' && next == Some('-') {
            Lex::OpenLine
        } else if c == '/' && next == Some('*') {
            Lex::OpenBlock
        } else if c == '\'' {
            Lex::Single
        } else if c == '"' {
            Lex::Double
        } else if c == '`' {
            Lex::Backtick
        } else {
            Lex::Code
        },
    }
}

/// The character at a position, where there is one.
pub open spec fn char_at(s: Seq<char>, i: int) -> Option<char> {
    if 0 <= i < s.len() {
        Some(s[i])
    } else {
        None
    }
}

/// What the character at position `n` belongs to.
pub open spec fn lex_at(s: Seq<char>, n: int) -> Lex
    decreases n,
{
    if n <= 0 {
        Lex::Code
    } else {
        lex_next(lex_at(s, n - 1), s[n - 1], char_at(s, n))
    }
}

/// Whether the character at a position ends a statement.
pub open spec fn ends_statement(s: Seq<char>, i: int) -> bool {
    lex_at(s, i) == Lex::Code && s[i] == ';'
}

/// Whether the character at a position belongs to a comment, its marks included.
pub open spec fn in_comment(s: Seq<char>, i: int) -> bool {
    let mode = lex_at(s, i);
    let after = lex_at(s, i + 1);
    mode == Lex::Line || mode == Lex::Block || mode == Lex::OpenLine || mode == Lex::OpenBlock
        || mode == Lex::CloseBlock || after == Lex::OpenLine || after == Lex::OpenBlock
}

/// A statement, trimmed, added to others unless it is blank.
pub open spec fn with_statement(list: Seq<Seq<char>>, text: Seq<char>) -> Seq<Seq<char>> {
    if trim(text).len() > 0 {
        list.push(trim(text))
    } else {
        list
    }
}

/// The statements that end among the first `n` characters of a script, and what
/// there is of the next one. Comments belong to none.
pub open spec fn statements_in(s: Seq<char>, n: int) -> (Seq<Seq<char>>, Seq<char>)
    decreases n,
{
    if n <= 0 {
        (Seq::empty(), Seq::empty())
    } else {
        let (list, current) = statements_in(s, n - 1);
        if ends_statement(s, n - 1) {
            (with_statement(list, current), Seq::empty())
        } else if in_comment(s, n - 1) {
            (list, current)
        } else {
            (list, current.push(s[n - 1]))
        }
    }
}

/// The statements of a script: what stands between semicolons that are in no
/// quotes and no comment, without the comments, trimmed and not blank.
pub open spec fn statements_of(s: Seq<char>) -> Seq<Seq<char>> {
    let (list, last) = statements_in(s, s.len() as int);
    with_statement(list, last)
}

fn next_mode(mode: Lex, c: char, next: Option<char>) -> (r: Lex)
    ensures
        r == lex_next(mode, c, next),
{
    let slash = match next {
        Some(n) => n == '/',
        None => false,
    };
    let star = match next {
        Some(n) => n == '*',
        None => false,
    };
    let dash = match next {
        Some(n) => n == '-',
        None => false,
    };
    match mode {
        Lex::OpenLine => Lex::Line,
        Lex::OpenBlock => Lex::Block,
        Lex::CloseBlock => Lex::Code,
        Lex::Line => if c == '\n' {
            Lex::Code
        } else {
            Lex::Line
        },
        Lex::Block => if c == '*' && slash {
            Lex::CloseBlock
        } else {
            Lex::Block
        },
        Lex::Single => if c == '\'' {
            Lex::Code
        } else {
            Lex::Single
        },
        Lex::Double => if c == '"' {
            Lex::Code
        } else {
            Lex::Double
        },
        Lex::Backtick => if c == '`' {
            Lex::Code
        } else {
            Lex::Backtick
        },
        Lex::Code => if c == '-' && dash {
            Lex::OpenLine
        } else if c == '/' && star {
            Lex::OpenBlock
        } else if c == '\'' {
            Lex::Single
        } else if c == '"' {
            Lex::Double
        } else if c == '`' {
            Lex::Backtick
        } else {
            Lex::Code
        },
    }
}

fn add_statement(list: &mut Vec<String>, text: &str)
    ensures
        final(list).deep_view() == with_statement(old(list).deep_view(), text@),
{
    let t = trimmed(text);
    if !t.as_str().is_empty() {
        push_item(list, t);
    }
}

/// The statements of a script.
pub fn split_sql_statements(sql: &str) -> (r: Vec<String>)
    ensures
        r.deep_view() == statements_of(sql@),
{
    let cs = chars_of(sql);
    let mut list: Vec<String> = Vec::new();
    assert(list.deep_view() =~= Seq::empty());
    let mut current = String::new();
    let mut mode = Lex::Code;
    let mut i: usize = 0;
    while i < cs.len()
        invariant
            i <= cs@.len(),
            cs@ == sql@,
            mode == lex_at(sql@, i as int),
            (list.deep_view(), current@) == statements_in(sql@, i as int),
        decreases cs.len() - i,
    {
        let c: char = cs[i];
        let next: Option<char> = if i + 1 < cs.len() {
            Some(cs[i + 1])
        } else {
            None
        };
        assert(next == char_at(sql@, i + 1));
        let after = next_mode(mode, c, next);
        assert(after == lex_at(sql@, i + 1));
        if mode == Lex::Code && c == ';' {
            add_statement(&mut list, current.as_str());
            current = String::new();
            assert(current@ =~= Seq::<char>::empty());
        } else {
            let comment = mode == Lex::Line || mode == Lex::Block || mode == Lex::OpenLine || mode
                == Lex::OpenBlock || mode == Lex::CloseBlock || after == Lex::OpenLine || after
                == Lex::OpenBlock;
            if !comment {
                current.push(c);
            }
        }
        mode = after;
        i += 1;
    }
    add_statement(&mut list, current.as_str());
    list
}

proof fn lemma_statements_are_trimmed(s: Seq<char>, n: int, k: int)
    requires
        0 <= k < statements_in(s, n).0.len(),
    ensures
        exists|t: Seq<char>| statements_in(s, n).0[k] == #[trigger] trim(t),
        statements_in(s, n).0[k].len() > 0,
    decreases n,
{
    let (list, current) = statements_in(s, n - 1);
    if k < list.len() {
        lemma_statements_are_trimmed(s, n - 1, k);
    } else {
        assert(statements_in(s, n).0[k] == trim(current));
    }
}

/// No statement of a script is blank: none is empty, and each is what is left of
/// a text without the white space around it.
pub proof fn law_statements_are_not_blank(s: Seq<char>, k: int)
    requires
        0 <= k < statements_of(s).len(),
    ensures
        statements_of(s)[k].len() > 0,
        exists|t: Seq<char>| statements_of(s)[k] == #[trigger] trim(t),
{
    let (list, last) = statements_in(s, s.len() as int);
    if k < list.len() {
        lemma_statements_are_trimmed(s, s.len() as int, k);
    } else {
        assert(statements_of(s)[k] == trim(last));
    }
}

proof fn lemma_quoted_stays(s: Seq<char>, from: int, to: int, q: Lex)
    requires
        0 <= from <= to <= s.len(),
        q == Lex::Single || q == Lex::Double || q == Lex::Backtick,
        lex_at(s, from) == q,
        forall|i: int| from <= i < to ==> #[trigger] s[i] != quote_of(q),
    ensures
        lex_at(s, to) == q,
    decreases to - from,
{
    if from < to {
        lemma_quoted_stays(s, from, to - 1, q);
    }
}

/// The quote that a quoted text ends with.
pub open spec fn quote_of(q: Lex) -> char {
    match q {
        Lex::Double => '"',
        Lex::Backtick => '`',
        _ => '\'',
    }
}

/// A semicolon inside quotes ends no statement, and belongs to it: between an
/// opening quote and the closing one nothing is cut and nothing is left out.
pub proof fn law_quotes_protect(s: Seq<char>, from: int, i: int, q: Lex)
    requires
        0 <= from <= i < s.len(),
        q == Lex::Single || q == Lex::Double || q == Lex::Backtick,
        lex_at(s, from) == q,
        forall|j: int| from <= j < i ==> #[trigger] s[j] != quote_of(q),
    ensures
        !ends_statement(s, i),
        !in_comment(s, i),
        statements_in(s, i + 1) == (statements_in(s, i).0, statements_in(s, i).1.push(s[i])),
{
    lemma_quoted_stays(s, from, i, q);
}

proof fn lemma_line_comment_stays(s: Seq<char>, from: int, to: int)
    requires
        0 <= from <= to <= s.len(),
        lex_at(s, from) == Lex::Line,
        forall|i: int| from <= i < to ==> #[trigger] s[i] != '\n',
    ensures
        lex_at(s, to) == Lex::Line,
    decreases to - from,
{
    if from < to {
        lemma_line_comment_stays(s, from, to - 1);
    }
}

/// A semicolon inside the comment of a line ends no statement: up to the end of
/// the line nothing is cut, and nothing is taken over.
pub proof fn law_line_comments_are_left_out(s: Seq<char>, from: int, i: int)
    requires
        0 <= from <= i < s.len(),
        lex_at(s, from) == Lex::Line,
        forall|j: int| from <= j < i ==> #[trigger] s[j] != '\n',
    ensures
        statements_in(s, i + 1) == statements_in(s, i),
{
    lemma_line_comment_stays(s, from, i);
}

proof fn lemma_block_comment_stays(s: Seq<char>, from: int, to: int)
    requires
        0 <= from <= to <= s.len(),
        lex_at(s, from) == Lex::Block,
        forall|i: int| from <= i < to ==> !(#[trigger] s[i] == '*' && char_at(s, i + 1) == Some('/')),
    ensures
        lex_at(s, to) == Lex::Block,
    decreases to - from,
{
    if from < to {
        lemma_block_comment_stays(s, from, to - 1);
    }
}

/// A semicolon inside the comment of a block ends no statement: up to its closing
/// mark nothing is cut, and nothing is taken over.
pub proof fn law_block_comments_are_left_out(s: Seq<char>, from: int, i: int)
    requires
        0 <= from <= i < s.len(),
        lex_at(s, from) == Lex::Block,
        forall|j: int|
            from <= j < i ==> !(#[trigger] s[j] == '*' && char_at(s, j + 1) == Some('/')),
    ensures
        statements_in(s, i + 1) == statements_in(s, i),
{
    lemma_block_comment_stays(s, from, i);
}

/// Whether a script has no sign with which a comment could begin.
pub open spec fn is_uncommented(s: Seq<char>) -> bool {
    forall|i: int| 0 <= i < s.len() ==> #[trigger] s[i] != '-' && s[i] != '/'
}

/// Whether a character belongs to a statement or to a text in quotes.
spec fn is_plain_mode(mode: Lex) -> bool {
    mode == Lex::Code || mode == Lex::Single || mode == Lex::Double || mode == Lex::Backtick
}

proof fn lemma_plain_modes(s: Seq<char>, n: int)
    requires
        is_uncommented(s),
        0 <= n <= s.len(),
    ensures
        is_plain_mode(lex_at(s, n)),
        n < s.len() ==> !in_comment(s, n),
    decreases n,
{
    if n > 0 {
        lemma_plain_modes(s, n - 1);
        assert(s[n - 1] != '-' && s[n - 1] != '/');
    }
    if n < s.len() {
        assert(s[n] != '-' && s[n] != '/');
    }
}

proof fn lemma_lex_prefix(a: Seq<char>, b: Seq<char>, n: int)
    requires
        is_uncommented(a),
        is_uncommented(b),
        0 <= n <= a.len(),
        n <= b.len(),
        a.take(n) == b.take(n),
    ensures
        lex_at(a, n) == lex_at(b, n),
    decreases n,
{
    if n > 0 {
        assert(a.take(n - 1) =~= a.take(n).take(n - 1));
        assert(b.take(n - 1) =~= b.take(n).take(n - 1));
        lemma_lex_prefix(a, b, n - 1);
        lemma_plain_modes(a, n - 1);
        assert(a[n - 1] == a.take(n)[n - 1]);
        assert(b[n - 1] == b.take(n)[n - 1]);
        assert(a[n - 1] != '-' && a[n - 1] != '/');
    }
}

proof fn lemma_statements_prefix(a: Seq<char>, b: Seq<char>, n: int)
    requires
        is_uncommented(a),
        is_uncommented(b),
        0 <= n <= a.len(),
        n <= b.len(),
        a.take(n) == b.take(n),
    ensures
        statements_in(a, n) == statements_in(b, n),
    decreases n,
{
    if n > 0 {
        assert(a.take(n - 1) =~= a.take(n).take(n - 1));
        assert(b.take(n - 1) =~= b.take(n).take(n - 1));
        lemma_statements_prefix(a, b, n - 1);
        lemma_lex_prefix(a, b, n - 1);
        lemma_plain_modes(a, n - 1);
        lemma_plain_modes(b, n - 1);
        assert(a[n - 1] == a.take(n)[n - 1]);
        assert(b[n - 1] == b.take(n)[n - 1]);
    }
}

/// What comes of the part of a script behind its first `k` characters, where a
/// statement begins there.
proof fn lemma_statements_behind(z: Seq<char>, k: int, m: int)
    requires
        is_uncommented(z),
        0 <= k,
        0 <= m,
        k + m <= z.len(),
        lex_at(z, k) == Lex::Code,
        statements_in(z, k).1 == Seq::<char>::empty(),
    ensures
        lex_at(z, k + m) == lex_at(z.skip(k), m),
        statements_in(z, k + m).0 == statements_in(z, k).0 + statements_in(z.skip(k), m).0,
        statements_in(z, k + m).1 == statements_in(z.skip(k), m).1,
    decreases m,
{
    let y = z.skip(k);
    assert forall|i: int| 0 <= i < y.len() implies #[trigger] y[i] != '-' && y[i] != '/' by {
        assert(y[i] == z[k + i]);
    }
    if m == 0 {
        assert(statements_in(z, k).0 =~= statements_in(z, k).0 + Seq::<Seq<char>>::empty());
    } else {
        lemma_statements_behind(z, k, m - 1);
        lemma_plain_modes(z, k + m - 1);
        lemma_plain_modes(y, m - 1);
        assert(y[m - 1] == z[k + m - 1]);
        assert(z[k + m - 1] != '-' && z[k + m - 1] != '/');
        let before = statements_in(z, k).0;
        let (list, current) = statements_in(y, m - 1);
        assert(with_statement(before + list, current) =~= before + with_statement(list, current));
    }
}

proof fn lemma_uncommented_join(x: Seq<char>, y: Seq<char>)
    requires
        is_uncommented(x),
        is_uncommented(y),
    ensures
        is_uncommented(x + seq![';'] + y),
{
    let z = x + seq![';'] + y;
    assert forall|i: int| 0 <= i < z.len() implies #[trigger] z[i] != '-' && z[i] != '/' by {
        if i < x.len() {
            assert(z[i] == x[i]);
        } else if i == x.len() {
            assert(z[i] == ';');
        } else {
            assert(z[i] == y[i - x.len() - 1]);
        }
    }
}

/// A script that ends outside of quotes, a semicolon and another script have the
/// statements of both.
proof fn lemma_statements_joined(x: Seq<char>, y: Seq<char>)
    requires
        is_uncommented(x),
        is_uncommented(y),
        lex_at(x, x.len() as int) == Lex::Code,
    ensures
        is_uncommented(x + seq![';'] + y),
        statements_of(x + seq![';'] + y) == statements_of(x) + statements_of(y),
        lex_at(x + seq![';'] + y, (x.len() + 1 + y.len()) as int) == lex_at(y, y.len() as int),
{
    let z = x + seq![';'] + y;
    let k = x.len() as int;
    lemma_uncommented_join(x, y);
    assert(z.take(k) =~= x.take(k));
    lemma_lex_prefix(x, z, k);
    lemma_statements_prefix(x, z, k);
    assert(z[k] == ';');
    lemma_plain_modes(z, k);
    assert(lex_at(z, k + 1) == Lex::Code);
    assert(statements_in(z, k + 1) == (statements_of(x), Seq::<char>::empty()));
    lemma_statements_behind(z, k + 1, y.len() as int);
    assert(z.skip(k + 1) =~= y);
    let (list, last) = statements_in(y, y.len() as int);
    assert(with_statement(statements_of(x) + list, last) =~= statements_of(x) + with_statement(
        list,
        last,
    ));
}

/// Whether a text is part of one statement: no semicolon in it ends one.
spec fn is_within_one(t: Seq<char>) -> bool {
    is_uncommented(t) && forall|i: int| 0 <= i < t.len() ==> !#[trigger] ends_statement(t, i)
}

proof fn lemma_trim_start_keeps(t: Seq<char>)
    requires
        is_within_one(t),
    ensures
        is_within_one(trim_start(t)),
        lex_at(trim_start(t), trim_start(t).len() as int) == lex_at(t, t.len() as int),
        trim_start(t).len() > 0 ==> !is_white_space(trim_start(t)[0]),
    decreases t.len(),
{
    if t.len() > 0 && is_white_space(t[0]) {
        let u = t.skip(1);
        assert(lex_at(t, 0) == Lex::Code);
        assert(t[0] != '-' && t[0] != '/');
        assert(lex_at(t, 1) == lex_next(Lex::Code, t[0], char_at(t, 1)));
        assert(lex_at(t, 1) == Lex::Code);
        assert forall|i: int| 0 <= i < u.len() implies #[trigger] u[i] != '-' && u[i] != '/' by {
            assert(u[i] == t[i + 1]);
        }
        assert forall|i: int| 0 <= i <= u.len() implies #[trigger] lex_at(u, i) == lex_at(
            t,
            i + 1,
        ) by {
            lemma_lex_behind(t, 1, i);
        }
        assert forall|i: int| 0 <= i < u.len() implies !#[trigger] ends_statement(u, i) by {
            assert(u[i] == t[i + 1]);
            assert(lex_at(u, i) == lex_at(t, i + 1));
            assert(!ends_statement(t, i + 1));
        }
        assert(lex_at(u, u.len() as int) == lex_at(t, (u.len() + 1) as int));
        lemma_trim_start_keeps(u);
    }
}

proof fn lemma_lex_behind(z: Seq<char>, k: int, m: int)
    requires
        is_uncommented(z),
        0 <= k,
        0 <= m,
        k + m <= z.len(),
        lex_at(z, k) == Lex::Code,
    ensures
        lex_at(z, k + m) == lex_at(z.skip(k), m),
    decreases m,
{
    if m > 0 {
        let y = z.skip(k);
        lemma_lex_behind(z, k, m - 1);
        lemma_plain_modes(z, k + m - 1);
        assert(y[m - 1] == z[k + m - 1]);
        assert(z[k + m - 1] != '-' && z[k + m - 1] != '/');
    }
}

proof fn lemma_trim_end_keeps(t: Seq<char>)
    requires
        is_within_one(t),
    ensures
        is_within_one(trim_end(t)),
        lex_at(t, t.len() as int) == Lex::Code ==> lex_at(
            trim_end(t),
            trim_end(t).len() as int,
        ) == Lex::Code,
        trim_end(trim_end(t)) == trim_end(t),
        trim_end(t).len() > 0 ==> t.len() > 0 && trim_end(t)[0] == t[0],
    decreases t.len(),
{
    if t.len() > 0 && is_white_space(t.last()) {
        let u = t.drop_last();
        let n = u.len() as int;
        assert forall|i: int| 0 <= i < u.len() implies #[trigger] u[i] != '-' && u[i] != '/' by {
            assert(u[i] == t[i]);
        }
        assert forall|i: int| 0 <= i <= u.len() implies #[trigger] lex_at(u, i) == lex_at(t, i) by {
            assert(u.take(i) =~= t.take(i));
            lemma_lex_prefix(u, t, i);
        }
        assert forall|i: int| 0 <= i < u.len() implies !#[trigger] ends_statement(u, i) by {
            assert(u[i] == t[i]);
            assert(lex_at(u, i) == lex_at(t, i));
            assert(!ends_statement(t, i));
        }
        lemma_plain_modes(t, n);
        assert(lex_at(t, n + 1) == lex_next(lex_at(t, n), t[n], char_at(t, n + 1)));
        assert(t[n] != '-' && t[n] != '/');
        assert(lex_at(u, n) == lex_at(t, n));
        lemma_trim_end_keeps(u);
    }
}

/// Whether a text is one statement as it stands.
spec fn is_statement(t: Seq<char>) -> bool {
    is_within_one(t) && t.len() > 0 && trim(t) == t
}

proof fn lemma_trimmed_is_statement(t: Seq<char>)
    requires
        is_within_one(t),
        trim(t).len() > 0,
    ensures
        is_statement(trim(t)),
        lex_at(t, t.len() as int) == Lex::Code ==> lex_at(trim(t), trim(t).len() as int)
            == Lex::Code,
{
    lemma_trim_start_keeps(t);
    lemma_trim_end_keeps(trim_start(t));
    let r = trim(t);
    assert(!is_white_space(r[0]));
    assert(trim_start(r) == r);
}

proof fn lemma_statement_alone(t: Seq<char>, n: int)
    requires
        is_within_one(t),
        0 <= n <= t.len(),
    ensures
        statements_in(t, n) == (Seq::<Seq<char>>::empty(), t.take(n)),
    decreases n,
{
    if n > 0 {
        lemma_statement_alone(t, n - 1);
        lemma_plain_modes(t, n - 1);
        assert(!ends_statement(t, n - 1));
        assert(t.take(n) =~= t.take(n - 1).push(t[n - 1]));
    } else {
        assert(t.take(0) =~= Seq::<char>::empty());
    }
}

proof fn lemma_within_one_grows(t: Seq<char>, c: char)
    requires
        is_within_one(t),
        c != '-' && c != '/',
        !(lex_at(t, t.len() as int) == Lex::Code && c == ';'),
    ensures
        is_within_one(t.push(c)),
        lex_at(t.push(c), (t.len() + 1) as int) == lex_next(lex_at(t, t.len() as int), c, None),
{
    let u = t.push(c);
    assert forall|i: int| 0 <= i < u.len() implies #[trigger] u[i] != '-' && u[i] != '/' by {
        if i < t.len() {
            assert(u[i] == t[i]);
        }
    }
    assert forall|i: int| 0 <= i <= t.len() implies #[trigger] lex_at(u, i) == lex_at(t, i) by {
        assert(u.take(i) =~= t.take(i));
        lemma_lex_prefix(u, t, i);
    }
    assert forall|i: int| 0 <= i < u.len() implies !#[trigger] ends_statement(u, i) by {
        assert(lex_at(u, i) == lex_at(t, i));
        if i < t.len() {
            assert(u[i] == t[i]);
            assert(!ends_statement(t, i));
        }
    }
    assert(lex_at(u, t.len() as int) == lex_at(t, t.len() as int));
}

/// What the statements of a script are, and what there is of the next one.
proof fn lemma_statements_are_statements(s: Seq<char>, n: int)
    requires
        is_uncommented(s),
        0 <= n <= s.len(),
    ensures
        is_within_one(statements_in(s, n).1),
        lex_at(statements_in(s, n).1, statements_in(s, n).1.len() as int) == lex_at(s, n),
        forall|k: int|
            0 <= k < statements_in(s, n).0.len() ==> is_statement(
                #[trigger] statements_in(s, n).0[k],
            ) && lex_at(statements_in(s, n).0[k], statements_in(s, n).0[k].len() as int)
                == Lex::Code,
    decreases n,
{
    if n > 0 {
        lemma_statements_are_statements(s, n - 1);
        lemma_plain_modes(s, n - 1);
        let (list, current) = statements_in(s, n - 1);
        let c = s[n - 1];
        assert(c != '-' && c != '/');
        if ends_statement(s, n - 1) {
            if trim(current).len() > 0 {
                lemma_trimmed_is_statement(current);
            }
            assert(lex_at(s, n) == Lex::Code);
        } else {
            lemma_within_one_grows(current, c);
        }
    }
}

proof fn lemma_joined_statements(r: Seq<Seq<char>>)
    requires
        forall|k: int| 0 <= k < r.len() ==> is_statement(#[trigger] r[k]),
        forall|k: int|
            0 <= k < r.len() - 1 ==> lex_at(#[trigger] r[k], r[k].len() as int) == Lex::Code,
    ensures
        is_uncommented(join(r, ";"@)),
        statements_of(join(r, ";"@)) == r,
        r.len() > 0 && lex_at(r.last(), r.last().len() as int) == Lex::Code ==> lex_at(
            join(r, ";"@),
            join(r, ";"@).len() as int,
        ) == Lex::Code,
    decreases r.len(),
{
    reveal_strlit(";");
    assert(";"@ =~= seq![';']);
    if r.len() == 0 {
        assert(statements_of(join(r, ";"@)) =~= r);
    } else {
        let t = r.last();
        assert(is_statement(r[r.len() - 1]));
        lemma_statement_alone(t, t.len() as int);
        assert(t.take(t.len() as int) =~= t);
        assert(statements_of(t) =~= seq![t]);
        if r.len() == 1 {
            assert(r =~= seq![t]);
        } else {
            let before = r.drop_last();
            assert forall|k: int| 0 <= k < before.len() implies is_statement(
                #[trigger] before[k],
            ) by {
                assert(before[k] == r[k]);
            }
            assert forall|k: int| 0 <= k < before.len() - 1 implies lex_at(
                #[trigger] before[k],
                before[k].len() as int,
            ) == Lex::Code by {
                assert(before[k] == r[k]);
            }
            lemma_joined_statements(before);
            assert(before.last() == r[r.len() - 2]);
            lemma_statements_joined(join(before, ";"@), t);
            assert(before + seq![t] =~= r);
        }
    }
}

/// Splitting is stable: the statements of a script, with semicolons between them,
/// are split into the same statements again, where the script has no sign with
/// which a comment could begin.
pub proof fn law_statements_come_back(s: Seq<char>)
    requires
        is_uncommented(s),
    ensures
        statements_of(join(statements_of(s), ";"@)) == statements_of(s),
{
    let (list, last) = statements_in(s, s.len() as int);
    lemma_statements_are_statements(s, s.len() as int);
    if trim(last).len() > 0 {
        lemma_trimmed_is_statement(last);
    }
    lemma_joined_statements(statements_of(s));
}

// ---------------------------------------------------------------------------
// Who may
// ---------------------------------------------------------------------------

/// The name of a role: what stands before its first slash.
pub open spec fn role_name(role: Seq<char>) -> Seq<char> {
    trim(split(trim(role), '/')[0])
}

/// Whether a role is that of an administrator.
pub open spec fn is_admin(role: Seq<char>) -> bool {
    ||| same_but_case(role_name(role), "admin"@)
    ||| same_but_case(role_name(role), "administrator"@)
    ||| trim(role) == "127"@
    ||| trim(role) == "*/127"@
}

/// Whether one of some roles is that of an administrator.
pub open spec fn any_admin(roles: Seq<Seq<char>>) -> bool {
    exists|i: int| 0 <= i < roles.len() && is_admin(#[trigger] roles[i])
}

fn admin(role: &str) -> (r: bool)
    ensures
        r == is_admin(role@),
{
    let t = trimmed(role);
    let parts = split_text(t.as_str(), '/');
    proof {
        crate::text::lemma_split_nonempty(t@, '/');
        assert(parts.deep_view().len() == parts@.len());
        assert(parts.deep_view()[0] == parts@[0]@);
    }
    let name = trimmed(parts[0].as_str());
    same_ignoring_case(name.as_str(), "admin") || same_ignoring_case(
        name.as_str(),
        "administrator",
    ) || same(t.as_str(), "127") || same(t.as_str(), "*/127")
}

/// Whether the bearer of a token is an administrator.
pub fn is_admin_role(claims: &Claims) -> (r: bool)
    ensures
        r == any_admin(split(claims.rl@, ',')),
{
    let roles = claims.get_roles();
    let ghost rv = roles.deep_view();
    let mut i: usize = 0;
    while i < roles.len()
        invariant
            i <= roles@.len(),
            rv == roles.deep_view(),
            rv == split(claims.rl@, ','),
            forall|k: int| 0 <= k < i ==> !is_admin(#[trigger] rv[k]),
        decreases roles.len() - i,
    {
        assert(rv[i as int] == roles@[i as int]@);
        if admin(roles[i].as_str()) {
            return true;
        }
        i += 1;
    }
    false
}

// ---------------------------------------------------------------------------
// Values
// ---------------------------------------------------------------------------

/// Whether a type of a column is one of texts.
pub open spec fn is_text_type(t: Seq<char>) -> bool {
    contains(t, "char"@) || contains(t, "text"@) || contains(t, "blob"@) || contains(t, "enum"@)
}

/// Whether a type of a column is one of texts.
pub fn is_string_type(type_lower: &str) -> (r: bool)
    ensures
        r == is_text_type(type_lower@),
{
    has_text(type_lower, "char") || has_text(type_lower, "text") || has_text(type_lower, "blob")
        || has_text(type_lower, "enum")
}

/// Whether a text stands for no value.
pub open spec fn is_null_word(t: Seq<char>) -> bool {
    same_but_case(t, "null"@) || t == "\\N"@
}

fn null_word(t: &str) -> (r: bool)
    ensures
        r == is_null_word(t@),
{
    same_ignoring_case(t, "null") || same(t, "\\N")
}

/// Whether a type of a column is one of numbers with a fraction.
pub open spec fn is_decimal_type(t: Seq<char>) -> bool {
    ||| contains(t, "float"@)
    ||| contains(t, "double"@)
    ||| contains(t, "decimal"@)
    ||| contains(t, "numeric"@)
    ||| contains(t, "real"@)
    ||| contains(t, "money"@)
}

fn decimal_type(t: &str) -> (r: bool)
    ensures
        r == is_decimal_type(t@),
{
    has_text(t, "float") || has_text(t, "double") || has_text(t, "decimal") || has_text(
        t,
        "numeric",
    ) || has_text(t, "real") || has_text(t, "money")
}

/// What kind of values a column has, by its type.
#[derive(Debug, PartialEq, Eq, Clone, Copy, Structural)]
pub enum ValueKind {
    Integer,
    Fraction,
    Truth,
    Json,
    Time,
    Text,
}

/// What kind of values a column of a type has.
pub open spec fn kind_of(t: Seq<char>) -> ValueKind {
    if contains(t, "int"@) || contains(t, "serial"@) {
        ValueKind::Integer
    } else if is_decimal_type(t) {
        ValueKind::Fraction
    } else if starts_with(t, "bool"@) {
        ValueKind::Truth
    } else if contains(t, "json"@) {
        ValueKind::Json
    } else if contains(t, "date"@) || contains(t, "time"@) || contains(t, "year"@) {
        ValueKind::Time
    } else {
        ValueKind::Text
    }
}

fn find_kind(t: &str) -> (r: ValueKind)
    ensures
        r == kind_of(t@),
{
    if has_text(t, "int") || has_text(t, "serial") {
        ValueKind::Integer
    } else if decimal_type(t) {
        ValueKind::Fraction
    } else if begins_with(t, "bool") {
        ValueKind::Truth
    } else if has_text(t, "json") {
        ValueKind::Json
    } else if has_text(t, "date") || has_text(t, "time") || has_text(t, "year") {
        ValueKind::Time
    } else {
        ValueKind::Text
    }
}

/// A text as it stands; null for the empty one.
pub open spec fn text_or_null(t: Seq<char>) -> JsonV {
    if t.len() == 0 {
        JsonV::Null
    } else {
        JsonV::Str(t)
    }
}

fn write_text_or_null(t: &str) -> (r: Json)
    ensures
        r.deep_view() == text_or_null(t@),
{
    if t.is_empty() {
        Json::Null
    } else {
        Json::Str(t.to_owned())
    }
}

/// Whether a text says that something is true, or false.
pub open spec fn truth_of(t: Seq<char>) -> Option<bool> {
    let low = ascii_lower(t);
    if low == "true"@ || low == "1"@ || low == "t"@ || low == "yes"@ {
        Some(true)
    } else if low == "false"@ || low == "0"@ || low == "f"@ || low == "no"@ {
        Some(false)
    } else {
        None
    }
}

fn read_truth(t: &str) -> (r: Option<bool>)
    ensures
        r == truth_of(t@),
{
    let lower = to_ascii_lower(t);
    let low = lower.as_str();
    if same(low, "true") || same(low, "1") || same(low, "t") || same(low, "yes") {
        Some(true)
    } else if same(low, "false") || same(low, "0") || same(low, "f") || same(low, "no") {
        Some(false)
    } else {
        None
    }
}

/// A text that is not null as a value of a column of a type. `parsed` is what the
/// trimmed text holds as JSON, where it is JSON. A numeral with a fraction that
/// has no finite value stays a text.
pub open spec fn typed_field(raw: Seq<char>, type_lower: Seq<char>, parsed: Option<JsonV>) -> JsonV {
    let t = trim(raw);
    match kind_of(type_lower) {
        ValueKind::Integer => match i64_value(t) {
            Some(n) => JsonV::Int(n),
            None => match u64_value(t) {
                Some(n) => JsonV::UInt(n),
                None => text_or_null(t),
            },
        },
        ValueKind::Fraction => if is_finite(t) {
            JsonV::Float(t)
        } else {
            text_or_null(t)
        },
        ValueKind::Truth => match truth_of(t) {
            Some(b) => JsonV::Bool(b),
            None => text_or_null(t),
        },
        ValueKind::Json => match parsed {
            Some(v) => v,
            None => JsonV::Str(t),
        },
        ValueKind::Time => match i64_value(t) {
            Some(n) => if contains(type_lower, "year"@) {
                JsonV::Int(n)
            } else {
                JsonV::Str(t)
            },
            None => text_or_null(t),
        },
        ValueKind::Text => JsonV::Str(raw),
    }
}

/// Whether a trimmed text looks like an object or an array.
pub open spec fn looks_like_json(t: Seq<char>) -> bool {
    (starts_with(t, "{"@) && ends_with(t, "}"@)) || (starts_with(t, "["@) && ends_with(t, "]"@))
}

/// A text as a value where the column is not known.
pub open spec fn untyped_field(raw: Seq<char>, parsed: Option<JsonV>) -> JsonV {
    let t = trim(raw);
    if is_null_word(t) || t.len() == 0 {
        JsonV::Null
    } else if i64_value(t) is Some {
        JsonV::Int(i64_value(t)->0)
    } else if is_float(t) {
        if is_finite(t) {
            JsonV::Float(t)
        } else {
            JsonV::Str(t)
        }
    } else if same_but_case(t, "true"@) {
        JsonV::Bool(true)
    } else if same_but_case(t, "false"@) {
        JsonV::Bool(false)
    } else if looks_like_json(t) {
        match parsed {
            Some(v) => v,
            None => JsonV::Str(raw),
        }
    } else {
        JsonV::Str(raw)
    }
}

/// Whether a text stands for no value of a column.
pub open spec fn is_null_field(t: Seq<char>, c: Column) -> bool {
    is_null_word(t) || (t.len() == 0 && (c.nullable || !is_text_type(ascii_lower(c.type_data@))))
}

/// A text as a value of a column, where it is known.
pub open spec fn field_value(raw: Seq<char>, column: Option<Column>, parsed: Option<JsonV>) -> JsonV {
    match column {
        Some(c) => if is_null_field(trim(raw), c) {
            JsonV::Null
        } else {
            typed_field(raw, ascii_lower(c.type_data@), parsed)
        },
        None => untyped_field(raw, parsed),
    }
}

/// Whether the value of a field depends on what it holds as JSON.
pub open spec fn needs_json(raw: Seq<char>, column: Option<Column>) -> bool {
    let t = trim(raw);
    match column {
        Some(c) => !is_null_field(t, c) && kind_of(ascii_lower(c.type_data@)) == ValueKind::Json,
        None => !(is_null_word(t) || t.len() == 0) && i64_value(t) is None && !is_float(t)
            && looks_like_json(t),
    }
}

/// Where a field does not depend on what it holds as JSON, that changes nothing.
pub proof fn law_json_counts_only_where_needed(
    raw: Seq<char>,
    column: Option<Column>,
    a: Option<JsonV>,
    b: Option<JsonV>,
)
    requires
        !needs_json(raw, column),
    ensures
        field_value(raw, column, a) == field_value(raw, column, b),
{
}

fn null_field(t: &str, c: &Column) -> (r: bool)
    ensures
        r == is_null_field(t@, *c),
{
    if null_word(t) {
        return true;
    }
    let low = to_ascii_lower(c.type_data.as_str());
    t.is_empty() && (c.nullable || !is_string_type(low.as_str()))
}

fn json_like(t: &str) -> (r: bool)
    ensures
        r == looks_like_json(t@),
{
    (begins_with(t, "{") && finishes_with(t, "}")) || (begins_with(t, "[") && finishes_with(
        t,
        "]",
    ))
}

/// Whether the value of a field depends on what it holds as JSON.
pub fn json_needed(raw: &str, column: Option<&Column>) -> (r: bool)
    ensures
        match column {
            Some(c) => r == needs_json(raw@, Some(*c)),
            None => r == needs_json(raw@, None),
        },
{
    let text = trimmed(raw);
    let t = text.as_str();
    match column {
        Some(c) => {
            let low = to_ascii_lower(c.type_data.as_str());
            !null_field(t, c) && find_kind(low.as_str()) == ValueKind::Json
        },
        None => !(null_word(t) || t.is_empty()) && parse_i64(t).is_none() && !float_numeral(t)
            && json_like(t),
    }
}

fn convert_typed(raw: &str, type_lower: &str, parsed: &Option<Json>) -> (r: Json)
    ensures
        r.deep_view() == typed_field(raw@, type_lower@, parsed.deep_view()),
{
    let text = trimmed(raw);
    let t = text.as_str();
    match find_kind(type_lower) {
        ValueKind::Integer => match parse_i64(t) {
            Some(n) => Json::Int(n),
            None => match parse_u64(t) {
                Some(n) => Json::UInt(n),
                None => write_text_or_null(t),
            },
        },
        ValueKind::Fraction => if finite_numeral(t) {
            Json::Float(text)
        } else {
            write_text_or_null(t)
        },
        ValueKind::Truth => match read_truth(t) {
            Some(b) => Json::Bool(b),
            None => write_text_or_null(t),
        },
        ValueKind::Json => match parsed {
            Some(v) => v.copy(),
            None => Json::Str(text),
        },
        ValueKind::Time => match parse_i64(t) {
            Some(n) => if has_text(type_lower, "year") {
                Json::Int(n)
            } else {
                Json::Str(text)
            },
            None => write_text_or_null(t),
        },
        ValueKind::Text => Json::Str(raw.to_owned()),
    }
}

fn convert_untyped(raw: &str, parsed: &Option<Json>) -> (r: Json)
    ensures
        r.deep_view() == untyped_field(raw@, parsed.deep_view()),
{
    let text = trimmed(raw);
    let t = text.as_str();
    if null_word(t) || t.is_empty() {
        return Json::Null;
    }
    match parse_i64(t) {
        Some(n) => {
            return Json::Int(n);
        },
        None => {},
    }
    if float_numeral(t) {
        if finite_numeral(t) {
            Json::Float(text)
        } else {
            Json::Str(text)
        }
    } else if same_ignoring_case(t, "true") {
        Json::Bool(true)
    } else if same_ignoring_case(t, "false") {
        Json::Bool(false)
    } else if json_like(t) {
        match parsed {
            Some(v) => v.copy(),
            None => Json::Str(raw.to_owned()),
        }
    } else {
        Json::Str(raw.to_owned())
    }
}

/// A text as a value of a column, where it is known. `parsed` is what the trimmed
/// text holds as JSON, where it is JSON.
pub fn convert_field_value(raw: &str, col_opt: Option<&Column>, parsed: &Option<Json>) -> (r: Json)
    ensures
        match col_opt {
            Some(c) => r.deep_view() == field_value(raw@, Some(*c), parsed.deep_view()),
            None => r.deep_view() == field_value(raw@, None, parsed.deep_view()),
        },
{
    match col_opt {
        Some(c) => {
            let text = trimmed(raw);
            if null_field(text.as_str(), c) {
                Json::Null
            } else {
                let low = to_ascii_lower(c.type_data.as_str());
                convert_typed(raw, low.as_str(), parsed)
            }
        },
        None => convert_untyped(raw, parsed),
    }
}

// ---------------------------------------------------------------------------
// Rows of a CSV file
// ---------------------------------------------------------------------------

/// The position of the first column with a name, in any case, at or after `from`.
pub open spec fn heading_at(columns: Seq<Column>, heading: Seq<char>, from: int) -> Option<int>
    decreases columns.len() - from,
{
    if from < 0 || from >= columns.len() {
        None
    } else if same_but_case(columns[from].name@, heading) {
        Some(from)
    } else {
        heading_at(columns, heading, from + 1)
    }
}

/// The column under a heading.
pub open spec fn column_under(columns: Seq<Column>, heading: Seq<char>) -> Option<Column> {
    match heading_at(columns, heading, 0) {
        Some(i) => Some(columns[i]),
        None => None,
    }
}

fn find_column_under<'a>(columns: &'a Vec<Column>, heading: &str) -> (r: Option<&'a Column>)
    ensures
        match r {
            Some(c) => column_under(columns@, heading@) == Some(*c),
            None => column_under(columns@, heading@) is None,
        },
{
    let mut i: usize = 0;
    while i < columns.len()
        invariant
            i <= columns@.len(),
            heading_at(columns@, heading@, 0) == heading_at(columns@, heading@, i as int),
        decreases columns.len() - i,
    {
        if same_ignoring_case(columns[i].name.as_str(), heading) {
            return Some(&columns[i]);
        }
        i += 1;
    }
    None
}

/// What becomes of some fields: the texts that are to be read as JSON, and the
/// row.
#[derive(Debug)]
pub struct SeedRow {
    pub texts: Vec<String>,
    pub row: Vec<(String, Json)>,
}

/// What becomes of some fields.
pub struct SeedRowV {
    pub texts: Seq<Seq<char>>,
    pub row: Fields,
}

impl DeepView for SeedRow {
    type V = SeedRowV;

    open spec fn deep_view(&self) -> SeedRowV {
        SeedRowV { texts: self.texts.deep_view(), row: self.row.deep_view() }
    }
}

/// The `k`-th of what some texts hold as JSON.
pub open spec fn parsed_at(parsed: Seq<Option<JsonV>>, k: int) -> Option<JsonV> {
    if 0 <= k < parsed.len() {
        parsed[k]
    } else {
        None
    }
}

/// Whether a field is left to the database: one that it numbers, without a value.
pub open spec fn is_left_out(raw: Seq<char>, column: Option<Column>) -> bool {
    match column {
        Some(c) => c.auto_increment && (trim(raw).len() == 0 || is_null_word(trim(raw))),
        None => false,
    }
}

/// The row of a record with one field worked in, under its heading. What a field
/// holds as JSON is the next of those in `parsed`.
pub open spec fn with_seed_field(
    w: SeedRowV,
    columns: Seq<Column>,
    heading: Seq<char>,
    raw: Seq<char>,
    parsed: Seq<Option<JsonV>>,
) -> SeedRowV {
    let name = trim(heading);
    let column = column_under(columns, name);
    if name.len() == 0 || is_left_out(raw, column) {
        w
    } else {
        let json = needs_json(raw, column);
        SeedRowV {
            texts: if json {
                w.texts.push(trim(raw))
            } else {
                w.texts
            },
            row: with_field(
                w.row,
                match column {
                    Some(c) => c.name@,
                    None => name,
                },
                field_value(
                    raw,
                    column,
                    if json {
                        parsed_at(parsed, w.texts.len() as int)
                    } else {
                        None
                    },
                ),
            ),
        }
    }
}

/// The row of the first `n` fields of a record. A field without a heading is
/// passed over.
pub open spec fn seed_fields(
    texts: Seq<Seq<char>>,
    columns: Seq<Column>,
    header: Seq<Seq<char>>,
    record: Seq<Seq<char>>,
    parsed: Seq<Option<JsonV>>,
    n: int,
) -> SeedRowV
    decreases n,
{
    if n <= 0 {
        SeedRowV { texts, row: Seq::empty() }
    } else {
        let before = seed_fields(texts, columns, header, record, parsed, n - 1);
        if n - 1 < header.len() {
            with_seed_field(before, columns, header[n - 1], record[n - 1], parsed)
        } else {
            before
        }
    }
}

/// What becomes of the first `n` records: the texts that are to be read as JSON,
/// and the rows that are not empty.
pub open spec fn seed_records(
    columns: Seq<Column>,
    header: Seq<Seq<char>>,
    records: Seq<Seq<Seq<char>>>,
    parsed: Seq<Option<JsonV>>,
    n: int,
) -> (Seq<Seq<char>>, Seq<Fields>)
    decreases n,
{
    if n <= 0 {
        (Seq::empty(), Seq::empty())
    } else {
        let (texts, rows) = seed_records(columns, header, records, parsed, n - 1);
        let r = seed_fields(
            texts,
            columns,
            header,
            records[n - 1],
            parsed,
            records[n - 1].len() as int,
        );
        (
            r.texts,
            if r.row.len() > 0 {
                rows.push(r.row)
            } else {
                rows
            },
        )
    }
}

/// What becomes of a table that was read, or why none was.
pub open spec fn seed_rows(
    read: Result<TableV, Seq<char>>,
    columns: Seq<Column>,
    parsed: Seq<Option<JsonV>>,
) -> Result<(Seq<Seq<char>>, Seq<Fields>), Seq<char>> {
    match read {
        Ok(t) => Ok(
            seed_records(columns, t.header, t.records, parsed, t.records.len() as int),
        ),
        Err(e) => Err(e),
    }
}

fn add_seed_field(
    w: &mut SeedRow,
    columns: &Vec<Column>,
    heading: &str,
    raw: &str,
    parsed: &Vec<Option<Json>>,
)
    ensures
        final(w).deep_view() == with_seed_field(
            old(w).deep_view(),
            columns@,
            heading@,
            raw@,
            parsed.deep_view(),
        ),
{
    let clean = trimmed(heading);
    let name = clean.as_str();
    if name.is_empty() {
        return ;
    }
    let column = find_column_under(columns, name);
    let text = trimmed(raw);
    let left_out = match column {
        Some(c) => c.auto_increment && (text.as_str().is_empty() || null_word(text.as_str())),
        None => false,
    };
    if left_out {
        return ;
    }
    let key = match column {
        Some(c) => c.name.clone(),
        None => clean.clone(),
    };
    let none: Option<Json> = None;
    if json_needed(raw, column) {
        assert(w.texts.deep_view().len() == w.texts@.len());
        let k: usize = w.texts.len();
        let value = if k < parsed.len() {
            assert(parsed.deep_view()[k as int] == parsed@[k as int].deep_view());
            convert_field_value(raw, column, &parsed[k])
        } else {
            convert_field_value(raw, column, &none)
        };
        set_in(&mut w.row, key.as_str(), value);
        push_item(&mut w.texts, text);
    } else {
        let value = convert_field_value(raw, column, &none);
        set_in(&mut w.row, key.as_str(), value);
    }
}

fn build_seed_fields(
    texts: Vec<String>,
    columns: &Vec<Column>,
    header: &Vec<String>,
    record: &Vec<String>,
    parsed: &Vec<Option<Json>>,
) -> (r: SeedRow)
    ensures
        r.deep_view() == seed_fields(
            texts.deep_view(),
            columns@,
            header.deep_view(),
            record.deep_view(),
            parsed.deep_view(),
            record@.len() as int,
        ),
{
    let ghost tv = texts.deep_view();
    let ghost hv = header.deep_view();
    let ghost rv = record.deep_view();
    let ghost pv = parsed.deep_view();
    let mut w = SeedRow { texts, row: Vec::new() };
    assert(w.row.deep_view() =~= Seq::empty());
    let mut i: usize = 0;
    while i < record.len()
        invariant
            i <= record@.len(),
            tv == texts.deep_view(),
            hv == header.deep_view(),
            rv == record.deep_view(),
            pv == parsed.deep_view(),
            w.deep_view() == seed_fields(tv, columns@, hv, rv, pv, i as int),
        decreases record.len() - i,
    {
        assert(rv[i as int] == record@[i as int]@);
        assert(hv.len() == header@.len());
        if i < header.len() {
            assert(hv[i as int] == header@[i as int]@);
            add_seed_field(&mut w, columns, header[i].as_str(), record[i].as_str(), parsed);
        }
        i += 1;
    }
    w
}

/// What becomes of the rows of a table: the texts that are to be read as JSON, in
/// their order, and the rows, with what those texts hold taken from `parsed`.
pub fn build_seed_rows(t: &Table, columns: &Vec<Column>, parsed: &Vec<Option<Json>>) -> (r: (
    Vec<String>,
    Vec<Vec<(String, Json)>>,
))
    ensures
        (r.0.deep_view(), r.1.deep_view()) == seed_records(
            columns@,
            t.header.deep_view(),
            t.records.deep_view(),
            parsed.deep_view(),
            t.records@.len() as int,
        ),
{
    let ghost hv = t.header.deep_view();
    let ghost rv = t.records.deep_view();
    let ghost pv = parsed.deep_view();
    let mut texts: Vec<String> = Vec::new();
    let mut rows: Vec<Vec<(String, Json)>> = Vec::new();
    assert(texts.deep_view() =~= Seq::empty());
    assert(rows.deep_view() =~= Seq::empty());
    let mut i: usize = 0;
    while i < t.records.len()
        invariant
            i <= t.records@.len(),
            hv == t.header.deep_view(),
            rv == t.records.deep_view(),
            pv == parsed.deep_view(),
            (texts.deep_view(), rows.deep_view()) == seed_records(columns@, hv, rv, pv, i as int),
        decreases t.records.len() - i,
    {
        assert(rv[i as int] == t.records@[i as int].deep_view());
        assert(rv[i as int].len() == t.records@[i as int]@.len());
        let w = build_seed_fields(texts, columns, &t.header, &t.records[i], parsed);
        assert(w.row.deep_view().len() == w.row@.len());
        texts = w.texts;
        if w.row.len() > 0 {
            push_item(&mut rows, w.row);
        }
        i += 1;
    }
    (texts, rows)
}

/// What a result with a message is.
pub open spec fn seed_result(r: Result<(Vec<String>, Vec<Vec<(String, Json)>>), String>) -> Result<
    (Seq<Seq<char>>, Seq<Fields>),
    Seq<char>,
> {
    match r {
        Ok(v) => Ok((v.0.deep_view(), v.1.deep_view())),
        Err(e) => Err(e@),
    }
}

/// The rows of a CSV file for a table, with the texts in it that are to be read
/// as JSON, in their order. What these hold is taken from `parsed`; a text for
/// which there is nothing there stays as it is.
pub fn parse_csv_data(content: &str, table_schema: &TableSchema, parsed: &Vec<Option<Json>>) -> (r:
    Result<(Vec<String>, Vec<Vec<(String, Json)>>), String>)
    ensures
        seed_result(r) == seed_rows(
            csv_read(encode_utf8(content@)),
            table_schema.columns@,
            parsed.deep_view(),
        ),
{
    let bytes = content.as_bytes_vec();
    match read_csv(&bytes) {
        Ok(t) => {
            assert(t.records.deep_view().len() == t.records@.len());
            Ok(build_seed_rows(&t, &table_schema.columns, parsed))
        },
        Err(e) => Err(e),
    }
}

proof fn lemma_seed_fields_texts(
    texts: Seq<Seq<char>>,
    columns: Seq<Column>,
    header: Seq<Seq<char>>,
    record: Seq<Seq<char>>,
    a: Seq<Option<JsonV>>,
    b: Seq<Option<JsonV>>,
    n: int,
)
    ensures
        seed_fields(texts, columns, header, record, a, n).texts == seed_fields(
            texts,
            columns,
            header,
            record,
            b,
            n,
        ).texts,
    decreases n,
{
    if n > 0 {
        lemma_seed_fields_texts(texts, columns, header, record, a, b, n - 1);
    }
}

/// Which texts of a file are to be read as JSON does not depend on what they
/// hold.
pub proof fn law_json_texts_come_from_the_file(
    columns: Seq<Column>,
    header: Seq<Seq<char>>,
    records: Seq<Seq<Seq<char>>>,
    a: Seq<Option<JsonV>>,
    b: Seq<Option<JsonV>>,
    n: int,
)
    ensures
        seed_records(columns, header, records, a, n).0 == seed_records(
            columns,
            header,
            records,
            b,
            n,
        ).0,
    decreases n,
{
    if n > 0 {
        law_json_texts_come_from_the_file(columns, header, records, a, b, n - 1);
        lemma_seed_fields_texts(
            seed_records(columns, header, records, a, n - 1).0,
            columns,
            header,
            records[n - 1],
            a,
            b,
            records[n - 1].len() as int,
        );
    }
}

/// Whether a key of a row comes from a heading: it is the name of a column that
/// the trimmed heading names in any case, or, where it names none, the trimmed
/// heading itself.
pub open spec fn is_key_under(key: Seq<char>, columns: Seq<Column>, heading: Seq<char>) -> bool {
    let name = trim(heading);
    ||| exists|i: int|
        0 <= i < columns.len() && key == (#[trigger] columns[i]).name@ && same_but_case(key, name)
    ||| key == name && forall|i: int|
        0 <= i < columns.len() ==> !same_but_case((#[trigger] columns[i]).name@, name)
}

/// Whether a key of a row is not empty and comes from one of the headings.
pub open spec fn is_seed_key(
    key: Seq<char>,
    columns: Seq<Column>,
    header: Seq<Seq<char>>,
) -> bool {
    key.len() > 0 && exists|h: int|
        0 <= h < header.len() && is_key_under(key, columns, #[trigger] header[h])
}

/// The row that comes of the `k`-th record of a file.
pub open spec fn seed_row_of(
    columns: Seq<Column>,
    header: Seq<Seq<char>>,
    records: Seq<Seq<Seq<char>>>,
    parsed: Seq<Option<JsonV>>,
    k: int,
) -> Fields {
    seed_fields(
        seed_records(columns, header, records, parsed, k).0,
        columns,
        header,
        records[k],
        parsed,
        records[k].len() as int,
    ).row
}

/// Whether the rows of a file are those of some of its records, in their order.
pub open spec fn follows_records(
    columns: Seq<Column>,
    header: Seq<Seq<char>>,
    records: Seq<Seq<Seq<char>>>,
    parsed: Seq<Option<JsonV>>,
    rows: Seq<Fields>,
    at: Seq<int>,
) -> bool {
    &&& at.len() == rows.len()
    &&& forall|i: int| 0 <= i < at.len() ==> 0 <= #[trigger] at[i] < records.len()
    &&& forall|i: int, j: int| 0 <= i < j < at.len() ==> #[trigger] at[i] < #[trigger] at[j]
    &&& forall|i: int|
        0 <= i < at.len() ==> #[trigger] rows[i] == seed_row_of(
            columns,
            header,
            records,
            parsed,
            at[i],
        )
}

proof fn lemma_heading_at(columns: Seq<Column>, heading: Seq<char>, from: int)
    requires
        0 <= from <= columns.len(),
    ensures
        match heading_at(columns, heading, from) {
            Some(i) => from <= i < columns.len() && same_but_case(columns[i].name@, heading),
            None => forall|i: int|
                from <= i < columns.len() ==> !same_but_case((#[trigger] columns[i]).name@, heading),
        },
    decreases columns.len() - from,
{
    if from < columns.len() && !same_but_case(columns[from].name@, heading) {
        lemma_heading_at(columns, heading, from + 1);
    }
}

proof fn lemma_seed_field_keys(
    w: SeedRowV,
    columns: Seq<Column>,
    header: Seq<Seq<char>>,
    h: int,
    raw: Seq<char>,
    parsed: Seq<Option<JsonV>>,
)
    requires
        0 <= h < header.len(),
        forall|j: int|
            0 <= j < w.row.len() ==> is_seed_key((#[trigger] w.row[j]).0, columns, header),
    ensures
        ({
            let row = with_seed_field(w, columns, header[h], raw, parsed).row;
            forall|j: int| 0 <= j < row.len() ==> is_seed_key((#[trigger] row[j]).0, columns, header)
        }),
{
    let name = trim(header[h]);
    let column = column_under(columns, name);
    if name.len() > 0 && !is_left_out(raw, column) {
        lemma_heading_at(columns, name, 0);
        let key = match column {
            Some(c) => c.name@,
            None => name,
        };
        match heading_at(columns, name, 0) {
            Some(i) => {
                assert(key == columns[i].name@);
                assert(ascii_lower(key).len() == key.len());
                assert(ascii_lower(name).len() == name.len());
            },
            None => {},
        }
        assert(is_key_under(key, columns, header[h]));
        assert(is_seed_key(key, columns, header));
        lemma_key_at(w.row, key, 0);
    }
}

proof fn lemma_seed_fields_keys(
    texts: Seq<Seq<char>>,
    columns: Seq<Column>,
    header: Seq<Seq<char>>,
    record: Seq<Seq<char>>,
    parsed: Seq<Option<JsonV>>,
    n: int,
)
    ensures
        ({
            let row = seed_fields(texts, columns, header, record, parsed, n).row;
            forall|j: int| 0 <= j < row.len() ==> is_seed_key((#[trigger] row[j]).0, columns, header)
        }),
    decreases n,
{
    if n > 0 {
        lemma_seed_fields_keys(texts, columns, header, record, parsed, n - 1);
        if n - 1 < header.len() {
            lemma_seed_field_keys(
                seed_fields(texts, columns, header, record, parsed, n - 1),
                columns,
                header,
                n - 1,
                record[n - 1],
                parsed,
            );
        }
    }
}

proof fn lemma_rows_follow(
    columns: Seq<Column>,
    header: Seq<Seq<char>>,
    records: Seq<Seq<Seq<char>>>,
    parsed: Seq<Option<JsonV>>,
    n: int,
) -> (at: Seq<int>)
    requires
        0 <= n <= records.len(),
    ensures
        follows_records(
            columns,
            header,
            records,
            parsed,
            seed_records(columns, header, records, parsed, n).1,
            at,
        ),
        forall|i: int| 0 <= i < at.len() ==> #[trigger] at[i] < n,
        forall|i: int|
            0 <= i < at.len() ==> (#[trigger] seed_records(
                columns,
                header,
                records,
                parsed,
                n,
            ).1[i]).len() > 0,
    decreases n,
{
    if n <= 0 {
        Seq::empty()
    } else {
        let before = lemma_rows_follow(columns, header, records, parsed, n - 1);
        if seed_row_of(columns, header, records, parsed, n - 1).len() > 0 {
            before.push(n - 1)
        } else {
            before
        }
    }
}

/// The rows of a CSV file are those of its records that have any, in their order;
/// no row is empty; and every key is the name of a column as the table spells it,
/// under a heading that names the column in any case, or a heading that names no
/// column.
pub proof fn law_csv_rows_follow_the_file(
    read: Result<TableV, Seq<char>>,
    columns: Seq<Column>,
    parsed: Seq<Option<JsonV>>,
)
    requires
        seed_rows(read, columns, parsed) is Ok,
    ensures
        read is Ok,
        ({
            let t = read->Ok_0;
            let rows = seed_rows(read, columns, parsed)->Ok_0.1;
            &&& exists|at: Seq<int>|
                follows_records(columns, t.header, t.records, parsed, rows, at)
            &&& forall|i: int| 0 <= i < rows.len() ==> (#[trigger] rows[i]).len() > 0
            &&& forall|i: int, j: int|
                0 <= i < rows.len() && 0 <= j < rows[i].len() ==> is_seed_key(
                    (#[trigger] rows[i][j]).0,
                    columns,
                    t.header,
                )
        }),
{
    let t = read->Ok_0;
    let n = t.records.len() as int;
    let rows = seed_records(columns, t.header, t.records, parsed, n).1;
    let at = lemma_rows_follow(columns, t.header, t.records, parsed, n);
    assert(follows_records(columns, t.header, t.records, parsed, rows, at));
    assert(seed_rows(read, columns, parsed)->Ok_0.1 == rows);
    assert forall|i: int| 0 <= i < rows.len() implies (#[trigger] rows[i]).len() > 0 by {
        assert(rows[i] == seed_records(columns, t.header, t.records, parsed, n).1[i]);
    }
    assert forall|i: int, j: int| 0 <= i < rows.len() && 0 <= j < rows[i].len() implies is_seed_key(
        (#[trigger] rows[i][j]).0,
        columns,
        t.header,
    ) by {
        let k = at[i];
        assert(rows[i] == seed_row_of(columns, t.header, t.records, parsed, k));
        lemma_seed_fields_keys(
            seed_records(columns, t.header, t.records, parsed, k).0,
            columns,
            t.header,
            t.records[k],
            parsed,
            t.records[k].len() as int,
        );
    }
}

// ---------------------------------------------------------------------------
// Rows of a JSON file
// ---------------------------------------------------------------------------

/// The objects among some values.
pub open spec fn objects_in(items: Seq<JsonV>) -> Seq<Fields>
    decreases items.len(),
{
    if items.len() == 0 {
        Seq::empty()
    } else {
        match items.last() {
            JsonV::Object(f) => objects_in(items.drop_last()).push(f),
            _ => objects_in(items.drop_last()),
        }
    }
}

/// Whether a value is an array under a key.
pub open spec fn list_under(v: JsonV, key: Seq<char>) -> Option<Seq<JsonV>> {
    match field(v, key) {
        Some(JsonV::Array(items)) => Some(items),
        _ => None,
    }
}

/// The rows that a JSON value holds: the objects of an array, or of the first
/// array under one of the usual keys; none where there is no such array.
pub open spec fn json_rows(v: JsonV) -> Seq<Fields> {
    match v {
        JsonV::Array(items) => objects_in(items),
        _ => if list_under(v, "data"@) is Some {
            objects_in(list_under(v, "data"@)->0)
        } else if list_under(v, "rows"@) is Some {
            objects_in(list_under(v, "rows"@)->0)
        } else if list_under(v, "records"@) is Some {
            objects_in(list_under(v, "records"@)->0)
        } else if list_under(v, "items"@) is Some {
            objects_in(list_under(v, "items"@)->0)
        } else if list_under(v, "seed"@) is Some {
            objects_in(list_under(v, "seed"@)->0)
        } else {
            Seq::empty()
        },
    }
}

fn collect_objects(items: &Vec<Json>) -> (r: Vec<Vec<(String, Json)>>)
    ensures
        r.deep_view() == objects_in(items.deep_view()),
{
    let ghost iv = items.deep_view();
    let mut out: Vec<Vec<(String, Json)>> = Vec::new();
    assert(out.deep_view() =~= Seq::empty());
    let mut i: usize = 0;
    while i < items.len()
        invariant
            i <= items@.len(),
            iv == items.deep_view(),
            out.deep_view() == objects_in(iv.take(i as int)),
        decreases items.len() - i,
    {
        assert(iv.take(i + 1).drop_last() =~= iv.take(i as int));
        assert(iv[i as int] == items@[i as int].deep_view());
        let it = &items[i];
        match it {
            Json::Object(f) => {
                proof {
                    lemma_object_view(*f);
                }
                push_item(&mut out, copy_fields(f));
            },
            _ => {},
        }
        i += 1;
    }
    assert(iv.take(iv.len() as int) =~= iv);
    out
}

fn find_list<'a>(v: &'a Json, key: &str) -> (r: Option<&'a Vec<Json>>)
    ensures
        match r {
            Some(items) => list_under(v.deep_view(), key@) == Some(items.deep_view()),
            None => list_under(v.deep_view(), key@) is None,
        },
{
    broadcast use lemma_array_view;

    match v.get(key) {
        Some(f) => match f {
            Json::Array(items) => Some(items),
            _ => None,
        },
        None => None,
    }
}

/// The rows that a JSON value holds.
pub fn read_json_rows(v: &Json) -> (r: Vec<Vec<(String, Json)>>)
    ensures
        r.deep_view() == json_rows(v.deep_view()),
{
    broadcast use lemma_array_view;

    match v {
        Json::Array(items) => {
            return collect_objects(items);
        },
        _ => {},
    }
    match find_list(v, "data") {
        Some(items) => {
            return collect_objects(items);
        },
        None => {},
    }
    match find_list(v, "rows") {
        Some(items) => {
            return collect_objects(items);
        },
        None => {},
    }
    match find_list(v, "records") {
        Some(items) => {
            return collect_objects(items);
        },
        None => {},
    }
    match find_list(v, "items") {
        Some(items) => {
            return collect_objects(items);
        },
        None => {},
    }
    match find_list(v, "seed") {
        Some(items) => {
            return collect_objects(items);
        },
        None => {},
    }
    let none: Vec<Vec<(String, Json)>> = Vec::new();
    assert(none.deep_view() =~= Seq::empty());
    none
}

// ---------------------------------------------------------------------------
// The request
// ---------------------------------------------------------------------------

/// A request to fill a table.
#[derive(Debug)]
pub struct SeedRequest {
    /// Whether an administrator has to make it.
    pub require_auth: bool,
    pub route: String,
    pub schema: TableSchema,
    /// The directory of the files.
    pub directory: String,
    /// Whether the store is one without transactions of its own.
    pub mongodb: bool,
}

/// The name of a file.
pub open spec fn file_path(directory: Seq<char>, name: Seq<char>, extension: Seq<char>) -> Seq<char> {
    directory + "/"@ + name + "."@ + extension
}

fn write_path(directory: &str, name: &str, extension: &str) -> (r: String)
    ensures
        r@ == file_path(directory@, name@, extension@),
{
    let mut p = told(directory, "/");
    p.append(name);
    p.append(".");
    p.append(extension);
    p
}

/// The files that a table may be filled from: the first that is there counts.
pub open spec fn seed_files(q: SeedRequest) -> Seq<Seq<char>> {
    let d = q.directory@;
    let r = q.route@;
    let t = q.schema.table@;
    seq![
        file_path(d, r, "sql"@),
        file_path(d, t, "sql"@),
        file_path(d, r, "json"@),
        file_path(d, t, "json"@),
        file_path(d, r, "csv"@),
        file_path(d, t, "csv"@),
    ]
}

/// The files that a table may be filled from.
pub fn list_seed_files(q: &SeedRequest) -> (r: Vec<String>)
    ensures
        r.deep_view() == seed_files(*q),
{
    let d = q.directory.as_str();
    let route = q.route.as_str();
    let table = q.schema.table.as_str();
    let mut out: Vec<String> = Vec::new();
    push_item(&mut out, write_path(d, route, "sql"));
    push_item(&mut out, write_path(d, table, "sql"));
    push_item(&mut out, write_path(d, route, "json"));
    push_item(&mut out, write_path(d, table, "json"));
    push_item(&mut out, write_path(d, route, "csv"));
    push_item(&mut out, write_path(d, table, "csv"));
    assert(out.deep_view() =~= seed_files(*q));
    out
}

/// Where the request stands.
#[derive(Debug, PartialEq, Eq, Clone, Copy, Structural)]
pub enum SeedStage {
    Start,
    Token,
    Locating,
    Reading,
    Decoding,
    Beginning,
    /// This statement is run.
    Running(usize),
    /// The insertion of this row is compiled.
    Compiling(usize),
    /// This row is inserted.
    Inserting(usize),
    /// This row is stored.
    Storing(usize),
    Committing,
    Ended,
}

/// What a request remembers: the file, what it holds without the white space
/// around it, and the rows or the statements that are carried out.
#[derive(Debug)]
pub struct SeedMemo {
    pub path: String,
    pub content: String,
    pub by_rows: bool,
    pub rows: Vec<Vec<(String, Json)>>,
    pub statements: Vec<String>,
}

/// What a request remembers.
pub struct SeedMemoV {
    pub path: Seq<char>,
    pub content: Seq<char>,
    pub by_rows: bool,
    pub rows: Seq<Fields>,
    pub statements: Seq<Seq<char>>,
}

impl DeepView for SeedMemo {
    type V = SeedMemoV;

    open spec fn deep_view(&self) -> SeedMemoV {
        SeedMemoV {
            path: self.path@,
            content: self.content@,
            by_rows: self.by_rows,
            rows: self.rows.deep_view(),
            statements: self.statements.deep_view(),
        }
    }
}

/// A request under way.
#[derive(Debug)]
pub struct Seeding {
    pub request: SeedRequest,
    pub stage: SeedStage,
    pub memo: SeedMemo,
}

/// What follows from a step: where the request stands, what it remembers and
/// what it asks for.
pub type SeedTurn = (SeedStage, SeedMemoV, ActionV);

/// A refusal that tells how much was done before.
pub open spec fn seed_refusal(status: u16, message: Seq<char>, total: i32) -> ReplyV {
    ReplyV {
        status,
        body: WebResponseV { success: false, message, total_data: total, data: JsonV::Null },
    }
}

fn refuse_seed(status: u16, message: String, total: i32) -> (r: Reply)
    ensures
        r.deep_view() == seed_refusal(status, message@, total),
{
    Reply {
        status,
        body: WebResponse { success: false, message, total_data: total, data: Json::Null },
    }
}

/// The request fails, with no transaction open.
pub open spec fn seed_fails(m: SeedMemoV, status: u16, message: Seq<char>, total: i32) -> SeedTurn {
    (SeedStage::Ended, m, ActionV::Answer(seed_refusal(status, message, total)))
}

/// The request fails inside a transaction.
pub open spec fn seed_aborts(m: SeedMemoV, message: Seq<char>, total: i32) -> SeedTurn {
    (SeedStage::Ended, m, ActionV::Abort(seed_refusal(500, message, total)))
}

/// A message about a table.
pub open spec fn about_table(before: Seq<char>, table: Seq<char>, e: Seq<char>) -> Seq<char> {
    before + " '"@ + table + "': "@ + e
}

fn say_about_table(before: &str, table: &str, e: &str) -> (r: String)
    ensures
        r@ == about_table(before@, table@, e@),
{
    let mut m = told(before, " '");
    m.append(table);
    m.append("': ");
    m.append(e);
    m
}

/// What is said where there is no file.
pub open spec fn no_seed_file(q: SeedRequest) -> Seq<char> {
    "Seed file for route '"@ + q.route@ + "' (table '"@ + q.schema.table@
        + "') not found in folder '"@ + q.directory@ + "'"@
}

/// The file is looked for.
pub open spec fn seed_admitted(q: SeedRequest, m: SeedMemoV) -> SeedTurn {
    if q.schema.table@.len() == 0 {
        seed_fails(m, 424, missing_entity(q.route@), 0)
    } else {
        (SeedStage::Locating, m, ActionV::FindFile(seed_files(q)))
    }
}

/// The text that a step gave.
pub open spec fn text_given(o: Outcome) -> Option<Seq<char>> {
    match o {
        Outcome::Texts(ts) => if ts@.len() > 0 {
            Some(ts@[0]@)
        } else {
            None
        },
        _ => None,
    }
}

/// Whether the file is read as JSON: by its name, or as a script that begins like
/// an array or an object.
pub open spec fn reads_as_json(m: SeedMemoV) -> bool {
    ends_with(m.path, ".json"@) || (ends_with(m.path, ".sql"@) && (starts_with(m.content, "["@)
        || starts_with(m.content, "{"@)))
}

/// What the file holds as CSV.
pub open spec fn seed_csv(q: SeedRequest, m: SeedMemoV, parsed: Seq<Option<JsonV>>) -> Result<
    (Seq<Seq<char>>, Seq<Fields>),
    Seq<char>,
> {
    seed_rows(csv_read(encode_utf8(m.content)), q.schema.columns@, parsed)
}

/// What is said of a CSV file that cannot be read.
pub open spec fn bad_csv(m: SeedMemoV, e: Seq<char>) -> Seq<char> {
    about_table("Failed to parse CSV in"@, m.path, e)
}

/// What in the file is to be read as JSON is asked for.
pub open spec fn seed_read(q: SeedRequest, m: SeedMemoV) -> SeedTurn {
    if ends_with(m.path, ".csv"@) {
        match seed_csv(q, m, Seq::empty()) {
            Err(e) => seed_fails(m, 400, bad_csv(m, e), 0),
            Ok((texts, _)) => (SeedStage::Decoding, m, ActionV::ReadJson(texts)),
        }
    } else if reads_as_json(m) {
        (SeedStage::Decoding, m, ActionV::ReadJson(seq![m.content]))
    } else {
        seed_script(q, m)
    }
}

/// What some texts hold as JSON.
pub open spec fn parsed_in(o: Outcome) -> Seq<Option<JsonV>> {
    match o {
        Outcome::Parsed(v) => v.deep_view(),
        _ => Seq::empty(),
    }
}

/// The rows of the file are carried out, or its statements.
pub open spec fn seed_decoded(q: SeedRequest, m: SeedMemoV, parsed: Seq<Option<JsonV>>) -> SeedTurn {
    if ends_with(m.path, ".csv"@) {
        match seed_csv(q, m, parsed) {
            Err(e) => seed_fails(m, 400, bad_csv(m, e), 0),
            Ok((_, rows)) => seed_with_rows(q, m, rows),
        }
    } else {
        match parsed_at(parsed, 0) {
            Some(v) => if json_rows(v).len() > 0 {
                seed_with_rows(q, m, json_rows(v))
            } else {
                seed_script(q, m)
            },
            None => seed_script(q, m),
        }
    }
}

/// The rows are carried out.
pub open spec fn seed_with_rows(q: SeedRequest, m: SeedMemoV, rows: Seq<Fields>) -> SeedTurn {
    let next = SeedMemoV { by_rows: true, rows, ..m };
    if q.mongodb {
        seed_document(q, next, 0)
    } else {
        (SeedStage::Beginning, next, ActionV::Begin)
    }
}

/// The statements are carried out, where there are any.
pub open spec fn seed_script(q: SeedRequest, m: SeedMemoV) -> SeedTurn {
    let next = SeedMemoV { by_rows: false, statements: statements_of(m.content), ..m };
    if next.statements.len() == 0 {
        (
            SeedStage::Ended,
            next,
            ActionV::Answer(
                succeeded(
                    "Seed file '"@ + m.path + "' is empty; no operations executed"@,
                    0,
                    JsonV::Null,
                ),
            ),
        )
    } else {
        (SeedStage::Beginning, next, ActionV::Begin)
    }
}

/// The `k`-th statement is run, or all are committed.
pub open spec fn seed_statement(m: SeedMemoV, k: int) -> SeedTurn {
    if 0 <= k < m.statements.len() {
        (
            SeedStage::Running(k as usize),
            m,
            ActionV::RunSql(m.statements[k], Seq::empty()),
        )
    } else {
        (SeedStage::Committing, m, ActionV::Commit)
    }
}

/// The insertion of the `k`-th row is compiled, or all are committed.
pub open spec fn seed_row(q: SeedRequest, m: SeedMemoV, k: int) -> SeedTurn {
    if 0 <= k < m.rows.len() {
        (
            SeedStage::Compiling(k as usize),
            m,
            ActionV::CompileDocument(q.schema.table@, JsonV::Object(m.rows[k])),
        )
    } else {
        (SeedStage::Committing, m, ActionV::Commit)
    }
}

/// The `k`-th row is stored, or all are.
pub open spec fn seed_document(q: SeedRequest, m: SeedMemoV, k: int) -> SeedTurn {
    if 0 <= k < m.rows.len() {
        (
            SeedStage::Storing(k as usize),
            m,
            ActionV::StoreInsert(q.schema.table@, JsonV::Object(m.rows[k])),
        )
    } else {
        (SeedStage::Ended, m, ActionV::Answer(seeded(q, m)))
    }
}

/// The answer that the table was filled.
pub open spec fn seeded(q: SeedRequest, m: SeedMemoV) -> ReplyV {
    succeeded(
        "Successfully seeded table '"@ + q.schema.table@ + "'"@,
        row_count(
            if m.by_rows {
                m.rows.len()
            } else {
                m.statements.len()
            },
        ),
        JsonV::Null,
    )
}

/// The next step of a request.
pub open spec fn seed_next(q: SeedRequest, stage: SeedStage, m: SeedMemoV, o: Outcome) -> SeedTurn {
    match stage {
        SeedStage::Start => if q.require_auth {
            (SeedStage::Token, m, ActionV::VerifyToken)
        } else {
            seed_admitted(q, m)
        },
        SeedStage::Token => match o {
            Outcome::Claimed(c) => if any_admin(split(c.rl@, ',')) {
                seed_admitted(q, m)
            } else {
                seed_fails(m, 403, "Forbidden: Only Admin role is allowed to seed tables"@, 0)
            },
            _ => seed_fails(m, 401, "Invalid or missing token"@, 0),
        },
        SeedStage::Locating => match text_given(o) {
            Some(path) => (
                SeedStage::Reading,
                SeedMemoV { path, ..m },
                ActionV::ReadFile(path),
            ),
            None => seed_fails(m, 404, no_seed_file(q), 0),
        },
        SeedStage::Reading => match failure_in(o) {
            Some(e) => seed_fails(
                m,
                500,
                about_table("Failed to read seed file"@, m.path, e),
                0,
            ),
            None => seed_read(
                q,
                SeedMemoV {
                    content: match text_given(o) {
                        Some(t) => trim(t),
                        None => Seq::empty(),
                    },
                    ..m
                },
            ),
        },
        SeedStage::Decoding => seed_decoded(q, m, parsed_in(o)),
        SeedStage::Beginning => match failure_in(o) {
            Some(e) => seed_fails(m, 500, "Error starting database transaction: "@ + e, 0),
            None => if m.by_rows {
                seed_row(q, m, 0)
            } else {
                seed_statement(m, 0)
            },
        },
        SeedStage::Running(k) => match failure_in(o) {
            Some(e) => seed_aborts(
                m,
                about_table("Failed executing seed query for table"@, q.schema.table@, e),
                row_count(k as nat),
            ),
            None => seed_statement(m, k + 1),
        },
        SeedStage::Compiling(k) => match failure_in(o) {
            Some(e) => seed_aborts(
                m,
                about_table("Failed building insert statement for"@, q.schema.table@, e),
                row_count(k as nat),
            ),
            None => (SeedStage::Inserting(k), m, ActionV::RunCompiled),
        },
        SeedStage::Inserting(k) => match failure_in(o) {
            Some(e) => seed_aborts(
                m,
                about_table("Failed executing seed insert for table"@, q.schema.table@, e),
                row_count(k as nat),
            ),
            None => seed_row(q, m, k + 1),
        },
        SeedStage::Storing(k) => match failure_in(o) {
            Some(e) => seed_fails(
                m,
                500,
                about_table(
                    "Failed inserting seed document for MongoDB"@,
                    q.schema.table@,
                    e,
                ),
                row_count(k as nat),
            ),
            None => seed_document(q, m, k + 1),
        },
        SeedStage::Committing => match failure_in(o) {
            Some(e) => seed_fails(
                m,
                500,
                about_table(
                    "Failed committing seed transaction for table"@,
                    q.schema.table@,
                    e,
                ),
                0,
            ),
            None => (SeedStage::Ended, m, ActionV::Answer(seeded(q, m))),
        },
        SeedStage::Ended => (SeedStage::Ended, m, ActionV::Nothing),
    }
}

/// What a request remembers before it begins.
pub open spec fn bare_seed() -> SeedMemoV {
    SeedMemoV {
        path: Seq::empty(),
        content: Seq::empty(),
        by_rows: false,
        rows: Seq::empty(),
        statements: Seq::empty(),
    }
}

/// A request that has not begun.
pub fn seed_table(request: SeedRequest) -> (r: Seeding)
    ensures
        r.request == request,
        r.stage == SeedStage::Start,
        r.memo.deep_view() == bare_seed(),
{
    let memo = SeedMemo {
        path: String::new(),
        content: String::new(),
        by_rows: false,
        rows: Vec::new(),
        statements: Vec::new(),
    };
    assert(memo.rows.deep_view() =~= Seq::empty());
    assert(memo.statements.deep_view() =~= Seq::empty());
    Seeding { request, stage: SeedStage::Start, memo }
}

fn take_text(o: &Outcome) -> (r: Option<String>)
    ensures
        r.deep_view() == text_given(*o),
{
    match o {
        Outcome::Texts(ts) => if ts.len() > 0 {
            Some(ts[0].clone())
        } else {
            None
        },
        _ => None,
    }
}

impl Seeding {
    /// Where the request stands, what it remembers, and what it asks for.
    pub open spec fn turn(&self, a: Action) -> SeedTurn {
        (self.stage, self.memo.deep_view(), a.deep_view())
    }

    fn fail(&mut self, status: u16, message: String, total: i32) -> (r: Action)
        ensures
            final(self).request == old(self).request,
            final(self).turn(r) == seed_fails(
                old(self).memo.deep_view(),
                status,
                message@,
                total,
            ),
    {
        self.stage = SeedStage::Ended;
        Action::Answer(refuse_seed(status, message, total))
    }

    fn abort(&mut self, message: String, total: i32) -> (r: Action)
        ensures
            final(self).request == old(self).request,
            final(self).turn(r) == seed_aborts(old(self).memo.deep_view(), message@, total),
    {
        self.stage = SeedStage::Ended;
        Action::Abort(refuse_seed(500, message, total))
    }

    fn about(&self, before: &str, e: &str) -> (r: String)
        ensures
            r@ == about_table(before@, self.request.schema.table@, e@),
    {
        say_about_table(before, self.request.schema.table.as_str(), e)
    }

    fn admitted(&mut self) -> (r: Action)
        ensures
            final(self).request == old(self).request,
            final(self).turn(r) == seed_admitted(old(self).request, old(self).memo.deep_view()),
    {
        if self.request.schema.table.as_str().is_empty() {
            let m = say_missing_entity(self.request.route.as_str());
            self.fail(424, m, 0)
        } else {
            let files = list_seed_files(&self.request);
            self.stage = SeedStage::Locating;
            Action::FindFile(files)
        }
    }

    fn script(&mut self) -> (r: Action)
        ensures
            final(self).request == old(self).request,
            final(self).turn(r) == seed_script(old(self).request, old(self).memo.deep_view()),
    {
        self.memo.by_rows = false;
        self.memo.statements = split_sql_statements(self.memo.content.as_str());
        assert(self.memo.statements.deep_view().len() == self.memo.statements@.len());
        if self.memo.statements.len() == 0 {
            let mut m = told("Seed file '", self.memo.path.as_str());
            m.append("' is empty; no operations executed");
            self.stage = SeedStage::Ended;
            Action::Answer(succeed(m.as_str(), 0, Json::Null))
        } else {
            self.stage = SeedStage::Beginning;
            Action::Begin
        }
    }

    fn with_rows(&mut self, rows: Vec<Vec<(String, Json)>>) -> (r: Action)
        ensures
            final(self).request == old(self).request,
            final(self).turn(r) == seed_with_rows(
                old(self).request,
                old(self).memo.deep_view(),
                rows.deep_view(),
            ),
    {
        self.memo.by_rows = true;
        self.memo.rows = rows;
        if self.request.mongodb {
            self.document(0)
        } else {
            self.stage = SeedStage::Beginning;
            Action::Begin
        }
    }

    fn read(&mut self) -> (r: Action)
        ensures
            final(self).request == old(self).request,
            final(self).turn(r) == seed_read(old(self).request, old(self).memo.deep_view()),
    {
        let path = self.memo.path.as_str();
        let content = self.memo.content.as_str();
        if finishes_with(path, ".csv") {
            let none: Vec<Option<Json>> = Vec::new();
            assert(none.deep_view() =~= Seq::<Option<JsonV>>::empty());
            match parse_csv_data(content, &self.request.schema, &none) {
                Err(e) => {
                    let m = say_about_table("Failed to parse CSV in", path, e.as_str());
                    self.fail(400, m, 0)
                },
                Ok((texts, _)) => {
                    self.stage = SeedStage::Decoding;
                    Action::ReadJson(texts)
                },
            }
        } else if finishes_with(path, ".json") || (finishes_with(path, ".sql") && (begins_with(
            content,
            "[",
        ) || begins_with(content, "{"))) {
            let mut texts: Vec<String> = Vec::new();
            push_item(&mut texts, self.memo.content.clone());
            assert(texts.deep_view() =~= seq![self.memo.content@]);
            self.stage = SeedStage::Decoding;
            Action::ReadJson(texts)
        } else {
            self.script()
        }
    }

    fn decoded(&mut self, parsed: Vec<Option<Json>>) -> (r: Action)
        ensures
            final(self).request == old(self).request,
            final(self).turn(r) == seed_decoded(
                old(self).request,
                old(self).memo.deep_view(),
                parsed.deep_view(),
            ),
    {
        let path = self.memo.path.as_str();
        let content = self.memo.content.as_str();
        if finishes_with(path, ".csv") {
            match parse_csv_data(content, &self.request.schema, &parsed) {
                Err(e) => {
                    let m = say_about_table("Failed to parse CSV in", path, e.as_str());
                    self.fail(400, m, 0)
                },
                Ok((_, rows)) => self.with_rows(rows),
            }
        } else {
            assert(parsed.deep_view().len() == parsed@.len());
            if parsed.len() > 0 {
                assert(parsed.deep_view()[0] == parsed@[0].deep_view());
                match &parsed[0] {
                    Some(v) => {
                        let rows = read_json_rows(v);
                        assert(rows.deep_view().len() == rows@.len());
                        if rows.len() > 0 {
                            self.with_rows(rows)
                        } else {
                            self.script()
                        }
                    },
                    None => self.script(),
                }
            } else {
                self.script()
            }
        }
    }

    fn statement(&mut self, k: usize) -> (r: Action)
        ensures
            final(self).request == old(self).request,
            final(self).turn(r) == seed_statement(old(self).memo.deep_view(), k as int),
    {
        assert(self.memo.statements.deep_view().len() == self.memo.statements@.len());
        if k < self.memo.statements.len() {
            assert(self.memo.statements.deep_view()[k as int]
                == self.memo.statements@[k as int]@);
            let none: Vec<DbParam> = Vec::new();
            assert(none.deep_view() =~= Seq::empty());
            let sql = self.memo.statements[k].clone();
            self.stage = SeedStage::Running(k);
            Action::RunSql(sql, none)
        } else {
            self.stage = SeedStage::Committing;
            Action::Commit
        }
    }

    fn document_of(&self, k: usize) -> (r: Json)
        requires
            k < self.memo.rows@.len(),
        ensures
            r.deep_view() == JsonV::Object(self.memo.rows.deep_view()[k as int]),
    {
        assert(self.memo.rows.deep_view()[k as int] == self.memo.rows@[k as int].deep_view());
        let fields = copy_fields(&self.memo.rows[k]);
        proof {
            lemma_object_view(fields);
        }
        Json::Object(fields)
    }

    fn row(&mut self, k: usize) -> (r: Action)
        ensures
            final(self).request == old(self).request,
            final(self).turn(r) == seed_row(
                old(self).request,
                old(self).memo.deep_view(),
                k as int,
            ),
    {
        assert(self.memo.rows.deep_view().len() == self.memo.rows@.len());
        if k < self.memo.rows.len() {
            let doc = self.document_of(k);
            let table = self.request.schema.table.clone();
            self.stage = SeedStage::Compiling(k);
            Action::CompileDocument(table, doc)
        } else {
            self.stage = SeedStage::Committing;
            Action::Commit
        }
    }

    fn document(&mut self, k: usize) -> (r: Action)
        ensures
            final(self).request == old(self).request,
            final(self).turn(r) == seed_document(
                old(self).request,
                old(self).memo.deep_view(),
                k as int,
            ),
    {
        assert(self.memo.rows.deep_view().len() == self.memo.rows@.len());
        if k < self.memo.rows.len() {
            let doc = self.document_of(k);
            let table = self.request.schema.table.clone();
            self.stage = SeedStage::Storing(k);
            Action::StoreInsert(table, doc)
        } else {
            self.stage = SeedStage::Ended;
            Action::Answer(self.seeded())
        }
    }

    fn seeded(&self) -> (r: Reply)
        ensures
            r.deep_view() == seeded(self.request, self.memo.deep_view()),
    {
        assert(self.memo.rows.deep_view().len() == self.memo.rows@.len());
        assert(self.memo.statements.deep_view().len() == self.memo.statements@.len());
        let n: usize = if self.memo.by_rows {
            self.memo.rows.len()
        } else {
            self.memo.statements.len()
        };
        let mut m = told("Successfully seeded table '", self.request.schema.table.as_str());
        m.append("'");
        succeed(m.as_str(), wrap_count(n), Json::Null)
    }

    /// Takes the next step of the request, with what came of the last one.
    pub fn step(&mut self, outcome: Outcome) -> (r: Action)
        ensures
            final(self).request == old(self).request,
            (final(self).stage, final(self).memo.deep_view(), r.deep_view()) == seed_next(
                old(self).request,
                old(self).stage,
                old(self).memo.deep_view(),
                outcome,
            ),
    {
        match self.stage {
            SeedStage::Start => {
                if self.request.require_auth {
                    self.stage = SeedStage::Token;
                    Action::VerifyToken
                } else {
                    self.admitted()
                }
            },
            SeedStage::Token => match outcome {
                Outcome::Claimed(c) => if is_admin_role(&c) {
                    self.admitted()
                } else {
                    self.fail(
                        403,
                        "Forbidden: Only Admin role is allowed to seed tables".to_owned(),
                        0,
                    )
                },
                _ => self.fail(401, "Invalid or missing token".to_owned(), 0),
            },
            SeedStage::Locating => match take_text(&outcome) {
                Some(path) => {
                    self.memo.path = path.clone();
                    self.stage = SeedStage::Reading;
                    Action::ReadFile(path)
                },
                None => {
                    let mut m = told("Seed file for route '", self.request.route.as_str());
                    m.append("' (table '");
                    m.append(self.request.schema.table.as_str());
                    m.append("') not found in folder '");
                    m.append(self.request.directory.as_str());
                    m.append("'");
                    self.fail(404, m, 0)
                },
            },
            SeedStage::Reading => match failure(&outcome) {
                Some(e) => {
                    let m = say_about_table(
                        "Failed to read seed file",
                        self.memo.path.as_str(),
                        e,
                    );
                    self.fail(500, m, 0)
                },
                None => {
                    self.memo.content = match take_text(&outcome) {
                        Some(t) => trimmed(t.as_str()),
                        None => String::new(),
                    };
                    self.read()
                },
            },
            SeedStage::Decoding => {
                let none: Vec<Option<Json>> = Vec::new();
                assert(none.deep_view() =~= Seq::<Option<JsonV>>::empty());
                match outcome {
                    Outcome::Parsed(v) => self.decoded(v),
                    _ => self.decoded(none),
                }
            },
            SeedStage::Beginning => match failure(&outcome) {
                Some(e) => self.fail(500, told("Error starting database transaction: ", e), 0),
                None => if self.memo.by_rows {
                    self.row(0)
                } else {
                    self.statement(0)
                },
            },
            SeedStage::Running(k) => match failure(&outcome) {
                Some(e) => {
                    let m = self.about("Failed executing seed query for table", e);
                    self.abort(m, wrap_count(k))
                },
                None => {
                    assert(self.memo.statements.deep_view().len()
                        == self.memo.statements@.len());
                    if k < self.memo.statements.len() {
                        self.statement(k + 1)
                    } else {
                        self.statement(k)
                    }
                },
            },
            SeedStage::Compiling(k) => match failure(&outcome) {
                Some(e) => {
                    let m = self.about("Failed building insert statement for", e);
                    self.abort(m, wrap_count(k))
                },
                None => {
                    self.stage = SeedStage::Inserting(k);
                    Action::RunCompiled
                },
            },
            SeedStage::Inserting(k) => match failure(&outcome) {
                Some(e) => {
                    let m = self.about("Failed executing seed insert for table", e);
                    self.abort(m, wrap_count(k))
                },
                None => {
                    assert(self.memo.rows.deep_view().len() == self.memo.rows@.len());
                    if k < self.memo.rows.len() {
                        self.row(k + 1)
                    } else {
                        self.row(k)
                    }
                },
            },
            SeedStage::Storing(k) => match failure(&outcome) {
                Some(e) => {
                    let m = self.about("Failed inserting seed document for MongoDB", e);
                    self.fail(500, m, wrap_count(k))
                },
                None => {
                    assert(self.memo.rows.deep_view().len() == self.memo.rows@.len());
                    if k < self.memo.rows.len() {
                        self.document(k + 1)
                    } else {
                        self.document(k)
                    }
                },
            },
            SeedStage::Committing => match failure(&outcome) {
                Some(e) => {
                    let m = self.about("Failed committing seed transaction for table", e);
                    self.fail(500, m, 0)
                },
                None => {
                    self.stage = SeedStage::Ended;
                    Action::Answer(self.seeded())
                },
            },
            SeedStage::Ended => Action::Nothing,
        }
    }
}

// ---------------------------------------------------------------------------
// Laws
// ---------------------------------------------------------------------------

/// Where a request stands, and what it remembers, after some outcomes.
pub open spec fn seed_after(q: SeedRequest, outcomes: Seq<Outcome>) -> (SeedStage, SeedMemoV)
    decreases outcomes.len(),
{
    if outcomes.len() == 0 {
        (SeedStage::Start, bare_seed())
    } else {
        let (stage, before) = seed_after(q, outcomes.drop_last());
        let (s, after, _) = seed_next(q, stage, before, outcomes.last());
        (s, after)
    }
}

/// What a request asks for after some outcomes.
pub open spec fn seed_asks(q: SeedRequest, outcomes: Seq<Outcome>) -> ActionV {
    let (stage, before) = seed_after(q, outcomes.drop_last());
    seed_next(q, stage, before, outcomes.last()).2
}

/// Whether an administrator showed a token.
pub open spec fn is_seed_admin(o: Outcome) -> bool {
    match o {
        Outcome::Claimed(c) => any_admin(split(c.rl@, ',')),
        _ => false,
    }
}

/// The stages that come before an administrator showed a token.
pub open spec fn seed_before_access(stage: SeedStage) -> bool {
    stage == SeedStage::Start || stage == SeedStage::Token || stage == SeedStage::Ended
}

proof fn lemma_seed_admin(q: SeedRequest, outcomes: Seq<Outcome>)
    requires
        q.require_auth,
    ensures
        !seed_before_access(seed_after(q, outcomes).0) ==> exists|k: int|
            0 <= k < outcomes.len() && is_seed_admin(#[trigger] outcomes[k]),
    decreases outcomes.len(),
{
    if outcomes.len() > 0 {
        let before = outcomes.drop_last();
        lemma_seed_admin(q, before);
        let stage = seed_after(q, before).0;
        if !seed_before_access(seed_after(q, outcomes).0) {
            if seed_before_access(stage) {
                assert(is_seed_admin(outcomes[outcomes.len() - 1]));
            } else {
                let k = choose|k: int|
                    0 <= k < before.len() && is_seed_admin(#[trigger] before[k]);
                assert(is_seed_admin(outcomes[k]));
            }
        }
    }
}

/// Where a token is needed, no file is read and no table is filled unless an
/// administrator showed one.
pub proof fn law_only_administrators_seed(q: SeedRequest, outcomes: Seq<Outcome>)
    requires
        q.require_auth,
        outcomes.len() > 0,
        touches_data(seed_asks(q, outcomes)),
    ensures
        exists|k: int| 0 <= k < outcomes.len() && is_seed_admin(#[trigger] outcomes[k]),
{
    let before = outcomes.drop_last();
    lemma_seed_admin(q, before);
    let stage = seed_after(q, before).0;
    if seed_before_access(stage) {
        assert(is_seed_admin(outcomes[outcomes.len() - 1]));
    } else {
        let k = choose|k: int| 0 <= k < before.len() && is_seed_admin(#[trigger] before[k]);
        assert(is_seed_admin(outcomes[k]));
    }
}

/// The stages inside a transaction.
pub open spec fn seed_in_transaction(stage: SeedStage) -> bool {
    match stage {
        SeedStage::Running(_) => true,
        SeedStage::Compiling(_) => true,
        SeedStage::Inserting(_) => true,
        SeedStage::Committing => true,
        _ => false,
    }
}

/// Whether what follows outside of a transaction stays outside, and a success is
/// answered only where there is nothing to do.
spec fn stays_outside(q: SeedRequest, t: SeedTurn) -> bool {
    &&& !seed_in_transaction(t.0)
    &&& answers(t.2) ==> t.0 == SeedStage::Ended
    &&& !(t.2 is Abort)
    &&& answers_success(t.2) ==> (!t.1.by_rows && t.1.statements.len() == 0) || (t.1.by_rows
        && q.mongodb && t.1.rows.len() == 0)
}

proof fn lemma_seed_outside(q: SeedRequest, m: SeedMemoV, rows: Seq<Fields>)
    ensures
        stays_outside(q, seed_script(q, m)),
        stays_outside(q, seed_with_rows(q, m, rows)),
        stays_outside(q, seed_admitted(q, m)),
{
}

proof fn lemma_seed_read_outside(q: SeedRequest, m: SeedMemoV)
    ensures
        stays_outside(q, seed_read(q, m)),
{
    lemma_seed_outside(q, m, Seq::empty());
    assert(seed_read(q, m) == seed_script(q, m) || seed_read(q, m).2 is ReadJson || seed_read(
        q,
        m,
    ).0 == SeedStage::Ended);
}

proof fn lemma_seed_decoded_outside(q: SeedRequest, m: SeedMemoV, parsed: Seq<Option<JsonV>>)
    ensures
        stays_outside(q, seed_decoded(q, m, parsed)),
{
    lemma_seed_outside(q, m, Seq::empty());
    if ends_with(m.path, ".csv"@) {
        if seed_csv(q, m, parsed) is Ok {
            lemma_seed_outside(q, m, seed_csv(q, m, parsed)->Ok_0.1);
        }
    } else if parsed_at(parsed, 0) is Some {
        lemma_seed_outside(q, m, json_rows(parsed_at(parsed, 0)->0));
    }
}

/// What a step of a request may ask for, and lead to, with regard to the
/// transaction: a failure inside one rolls it back, and a success is answered
/// only once it was committed, once the last row was stored, or where there was
/// nothing to do.
pub open spec fn is_closed(q: SeedRequest, stage: SeedStage, o: Outcome, t: SeedTurn) -> bool {
    &&& answers(t.2) ==> t.0 == SeedStage::Ended
    &&& seed_in_transaction(stage) && answers(t.2) && stage != SeedStage::Committing ==> t.2
        is Abort
    &&& t.2 is Abort ==> seed_in_transaction(stage)
    &&& answers_success(t.2) ==> ((stage == SeedStage::Committing || stage is Storing)
        && failure_in(o) is None) || (!t.1.by_rows && t.1.statements.len() == 0) || (t.1.by_rows
        && q.mongodb && t.1.rows.len() == 0)
    &&& seed_in_transaction(t.0) && !seed_in_transaction(stage) ==> stage == SeedStage::Beginning
        && failure_in(o) is None
}

/// None of the transactions of a request stays open: a failure inside one rolls
/// it back, and a table counts as filled only once it was committed, once the last
/// document was stored, or where there was nothing to do.
#[verifier::spinoff_prover]
#[verifier::rlimit(40)]
pub proof fn law_seeding_closes_its_transaction(q: SeedRequest, stage: SeedStage, m: SeedMemoV, o: Outcome)
    ensures
        is_closed(q, stage, o, seed_next(q, stage, m, o)),
{
    match stage {
        SeedStage::Start => {
            lemma_seed_outside(q, m, Seq::empty());
        },
        SeedStage::Token => {
            lemma_seed_outside(q, m, Seq::empty());
        },
        SeedStage::Reading => {
            let content = match text_given(o) {
                Some(t) => trim(t),
                None => Seq::empty(),
            };
            lemma_seed_read_outside(q, SeedMemoV { content, ..m });
        },
        SeedStage::Decoding => {
            lemma_seed_decoded_outside(q, m, parsed_in(o));
        },
        _ => {},
    }
}

/// Whether a seed inserts its rows, or runs its statements, one after the other: at
/// each step the one that is next, into the table of the entity, and it is committed
/// only behind the last.
pub open spec fn takes_its_turn(q: SeedRequest, s: SeedStage, m: SeedMemoV, a: ActionV) -> bool {
    match s {
        SeedStage::Running(k) => !m.by_rows && k < m.statements.len() && a == ActionV::RunSql(
            m.statements[k as int],
            Seq::empty(),
        ),
        SeedStage::Compiling(k) => m.by_rows && k < m.rows.len() && a == ActionV::CompileDocument(
            q.schema.table@,
            JsonV::Object(m.rows[k as int]),
        ),
        SeedStage::Inserting(k) => a is RunCompiled,
        SeedStage::Storing(k) => m.by_rows && k < m.rows.len() && a == ActionV::StoreInsert(
            q.schema.table@,
            JsonV::Object(m.rows[k as int]),
        ),
        SeedStage::Committing => a is Commit,
        _ => !(a is RunSql || a is CompileDocument || a is StoreInsert || a is RunCompiled || a
            is Commit),
    }
}

/// A seed leaves nothing out: the first of its rows or statements is taken first,
/// each one is followed by the next, and a commit, or in a store without
/// transactions the answer, follows only the last. Rows and statements stay as they
/// are meanwhile.
pub proof fn law_seeds_leave_nothing_out(q: SeedRequest, stage: SeedStage, m: SeedMemoV, o: Outcome)
    requires
        failure_in(o) is None,
        m.rows.len() <= usize::MAX,
        m.statements.len() <= usize::MAX,
        stage is Running ==> !m.by_rows,
        stage is Compiling || stage is Inserting || stage is Storing ==> m.by_rows,
    ensures
        ({
            let (s, n, a) = seed_next(q, stage, m, o);
            match stage {
                SeedStage::Beginning => {
                    &&& n == m
                    &&& takes_its_turn(q, s, n, a)
                    &&& m.by_rows && m.rows.len() > 0 ==> s == SeedStage::Compiling(0)
                    &&& !m.by_rows && m.statements.len() > 0 ==> s == SeedStage::Running(0)
                },
                SeedStage::Running(k) => {
                    &&& n == m
                    &&& takes_its_turn(q, s, n, a)
                    &&& k + 1 < m.statements.len() ==> s == SeedStage::Running((k + 1) as usize)
                    &&& k + 1 >= m.statements.len() ==> s == SeedStage::Committing
                },
                SeedStage::Compiling(k) => n == m && s == SeedStage::Inserting(k) && a is RunCompiled,
                SeedStage::Inserting(k) => {
                    &&& n == m
                    &&& takes_its_turn(q, s, n, a)
                    &&& k + 1 < m.rows.len() ==> s == SeedStage::Compiling((k + 1) as usize)
                    &&& k + 1 >= m.rows.len() ==> s == SeedStage::Committing
                },
                SeedStage::Storing(k) => {
                    &&& n == m
                    &&& k + 1 < m.rows.len() ==> takes_its_turn(q, s, n, a) && s
                        == SeedStage::Storing((k + 1) as usize)
                    &&& k + 1 >= m.rows.len() ==> s == SeedStage::Ended && answers_success(a)
                },
                SeedStage::Committing => n == m && answers_success(a),
                _ => true,
            }
        }),
{
}

/// A seed says how many rows it inserted, or how many statements it ran.
pub proof fn law_seeds_tell_their_number(q: SeedRequest, m: SeedMemoV)
    requires
        m.rows.len() <= i32::MAX,
        m.statements.len() <= i32::MAX,
    ensures
        seeded(q, m).status == 200,
        seeded(q, m).body.success,
        seeded(q, m).body.total_data == if m.by_rows {
            m.rows.len()
        } else {
            m.statements.len()
        },
{
}

/// A field of a seed is a value of its column: the integer of a numeral in a column
/// of integers, a truth value in one of those, the text itself in a column of texts,
/// and null where it says so.
pub proof fn law_seed_fields_are_typed(raw: Seq<char>, c: Column, parsed: Option<JsonV>)
    ensures
        ({
            let t = trim(raw);
            let d = ascii_lower(c.type_data@);
            let v = field_value(raw, Some(c), parsed);
            let null = same_but_case(t, "null"@) || t == "\\N"@;
            &&& null ==> v == JsonV::Null
            &&& !null && t.len() > 0 && contains(d, "int"@) && i64_value(t) is Some ==> v
                == JsonV::Int(i64_value(t)->0)
            &&& !null && t.len() > 0 && !contains(d, "int"@) && !contains(d, "serial"@) && (
            contains(d, "float"@) || contains(d, "decimal"@)) && is_finite(t) ==> v == JsonV::Float(
                t,
            )
            &&& !null && t.len() > 0 && kind_of(d) == ValueKind::Text ==> v == JsonV::Str(raw)
            &&& !null && t.len() > 0 && kind_of(d) == ValueKind::Truth && ascii_lower(t) == "true"@
                ==> v == JsonV::Bool(true)
            &&& !null && t.len() > 0 && kind_of(d) == ValueKind::Truth && ascii_lower(t) == "false"@
                ==> v == JsonV::Bool(false)
            &&& t.len() == 0 && c.nullable ==> v == JsonV::Null
        }),
        ({
            let t = trim(raw);
            let d = ascii_lower(c.type_data@);
            !contains(d, "int"@) && !contains(d, "serial"@) && !contains(d, "float"@) && !contains(
                d,
                "double"@,
            ) && !contains(d, "decimal"@) && !contains(d, "numeric"@) && !contains(d, "real"@)
                && !contains(d, "money"@) && !starts_with(d, "bool"@) && !contains(d, "json"@)
                && !contains(d, "date"@) && !contains(d, "time"@) && !contains(d, "year"@)
                ==> kind_of(d) == ValueKind::Text
        }),
{
    reveal_strlit("true");
    reveal_strlit("false");
    reveal_strlit("1");
    reveal_strlit("t");
    reveal_strlit("yes");
    assert("true"@.len() == 4 && "false"@.len() == 5 && "1"@.len() == 1 && "t"@.len() == 1
        && "yes"@.len() == 3);
}

/// A field under a heading that is no column is read for what it looks like: a
/// numeral is a number, and what says true or false is a truth value.
pub proof fn law_seed_fields_are_read(raw: Seq<char>, parsed: Option<JsonV>)
    ensures
        ({
            let t = trim(raw);
            let v = field_value(raw, None, parsed);
            &&& t.len() == 0 ==> v == JsonV::Null
            &&& same_but_case(t, "null"@) ==> v == JsonV::Null
            &&& t.len() > 0 && !same_but_case(t, "null"@) && t != "\\N"@ && i64_value(t) is Some
                ==> v == JsonV::Int(i64_value(t)->0)
            &&& t.len() > 0 && !same_but_case(t, "null"@) && t != "\\N"@ && i64_value(t) is None
                && !is_float(t) && !same_but_case(t, "true"@) && !same_but_case(t, "false"@)
                && t[0] != '{' && t[0] != '[' ==> v == JsonV::Str(raw)
        }),
{
    let t = trim(raw);
    reveal_strlit("{");
    reveal_strlit("[");
    if t.len() > 0 && t[0] != '{' && t[0] != '[' {
        if starts_with(t, "{"@) {
            assert(t.subrange(0, 1)[0] == t[0]);
        }
        if starts_with(t, "["@) {
            assert(t.subrange(0, 1)[0] == t[0]);
        }
    }
}

/// A row of a seed holds its record: under the name of the column of each heading
/// stands the value of the field in its place, where no later heading has the same
/// column.
pub proof fn law_seed_rows_hold_their_records(
    texts: Seq<Seq<char>>,
    columns: Seq<Column>,
    header: Seq<Seq<char>>,
    record: Seq<Seq<char>>,
    parsed: Seq<Option<JsonV>>,
    n: int,
    j: int,
)
    requires
        0 <= j < n <= record.len(),
        j < header.len(),
        trim(header[j]).len() > 0,
        column_under(columns, trim(header[j])) is Some,
        ({
            let c = column_under(columns, trim(header[j]))->0;
            &&& !c.auto_increment
            &&& !needs_json(record[j], Some(c))
            &&& forall|k: int|
                j < k < n && k < header.len() ==> {
                    let d = column_under(columns, trim(#[trigger] header[k]));
                    match d {
                        Some(d) => d.name@ != c.name@,
                        None => trim(header[k]) != c.name@,
                    }
                }
        }),
    ensures
        ({
            let c = column_under(columns, trim(header[j]))->0;
            lookup(seed_fields(texts, columns, header, record, parsed, n).row, c.name@) == Some(
                field_value(record[j], Some(c), None),
            )
        }),
    decreases n,
{
    let c = column_under(columns, trim(header[j]))->0;
    let before = seed_fields(texts, columns, header, record, parsed, n - 1);
    if j < n - 1 {
        law_seed_rows_hold_their_records(texts, columns, header, record, parsed, n - 1, j);
        if n - 1 < header.len() {
            let name = trim(header[n - 1]);
            let column = column_under(columns, name);
            let json = needs_json(record[n - 1], column);
            law_set_then_get(
                before.row,
                match column {
                    Some(d) => d.name@,
                    None => name,
                },
                field_value(
                    record[n - 1],
                    column,
                    if json {
                        parsed_at(parsed, before.texts.len() as int)
                    } else {
                        None
                    },
                ),
                c.name@,
            );
        }
    } else {
        law_set_then_get(before.row, c.name@, field_value(record[j], Some(c), None), c.name@);
    }
}

/// The rows of a JSON file are its objects: those of a list, or of the list under one
/// of the usual names.
pub proof fn law_json_seeds_have_their_rows(v: JsonV, items: Seq<JsonV>, i: int)
    requires
        0 <= i < items.len(),
        items[i] is Object,
        v == JsonV::Array(items) || v is Object && field(v, "data"@) == Some(JsonV::Array(items)),
    ensures
        json_rows(v).contains(items[i]->Object_0),
        json_rows(v).len() <= items.len(),
{
    lemma_objects_in(items, i);
}

proof fn lemma_objects_in(items: Seq<JsonV>, i: int)
    requires
        0 <= i < items.len(),
        items[i] is Object,
    ensures
        objects_in(items).contains(items[i]->Object_0),
        objects_in(items).len() <= items.len(),
    decreases items.len(),
{
    let all = objects_in(items);
    let before = objects_in(items.drop_last());
    lemma_objects_count(items.drop_last());
    if i < items.len() - 1 {
        lemma_objects_in(items.drop_last(), i);
        let k = choose|k: int| 0 <= k < before.len() && before[k] == items[i]->Object_0;
        assert(all[k] == items[i]->Object_0);
    } else {
        assert(all[all.len() - 1] == items[i]->Object_0);
    }
}

proof fn lemma_objects_count(items: Seq<JsonV>)
    ensures
        objects_in(items).len() <= items.len(),
    decreases items.len(),
{
    if items.len() > 0 {
        lemma_objects_count(items.drop_last());
    }
}

} // verus!
