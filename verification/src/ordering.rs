//! The order of a result: which columns a request may order by, and what a list
//! of columns in a request asks for.
use crate::ast::{Query, QueryV};
use crate::model::{Index, JoinTable, TableSchema};
use crate::text::{
    after_last, after_prefix, is_white_space, law_whole_texts_are_one_piece, ascii_lower, byte_len, byte_prefix, bytes_in, can_cut, cut,
    cut_bytes, listed, lowercase, push_item, rcut, rsplit_once, same, same_but_case,
    same_ignoring_case, split, split_once, split_text, tail_after, to_ascii_lower, to_lowercase,
    starts_with, trim, trim_end, trim_start, trimmed, without_prefix,
};
use vstd::prelude::*;

verus! {

// ---------------------------------------------------------------------------
// Names that a result may be ordered by
// ---------------------------------------------------------------------------

/// The columns of some indexes, one after the other.
pub open spec fn index_columns(indexes: Seq<Index>) -> Seq<Seq<char>>
    decreases indexes.len(),
{
    if indexes.len() == 0 {
        Seq::empty()
    } else {
        index_columns(indexes.drop_last()) + indexes.last().columns.deep_view()
    }
}

/// The columns of some joined tables, one after the other.
pub open spec fn join_columns(joins: Seq<JoinTable>) -> Seq<Seq<char>>
    decreases joins.len(),
{
    if joins.len() == 0 {
        Seq::empty()
    } else {
        join_columns(joins.drop_last()) + joins.last().columns.deep_view()
    }
}

/// A column's name without the table in front of it.
pub open spec fn base_name(column: Seq<char>) -> Seq<char> {
    trim(after_last(column, '.'))
}

/// A name as a list: the empty name is left out.
pub open spec fn if_named(name: Seq<char>) -> Seq<Seq<char>> {
    if name.len() == 0 {
        Seq::empty()
    } else {
        seq![name]
    }
}

/// The names of some columns without the tables in front of them.
pub open spec fn base_names(columns: Seq<Seq<char>>) -> Seq<Seq<char>>
    decreases columns.len(),
{
    if columns.len() == 0 {
        Seq::empty()
    } else {
        base_names(columns.drop_last()) + if_named(base_name(columns.last()))
    }
}

/// Whether the expression in front of an alias can be cut off. The cut is made
/// at the length that the expression has in lower case.
pub open spec fn alias_is_cut(column: Seq<char>) -> bool {
    match split_once(lowercase(trim(column)), " as "@) {
        Some((left, _)) => can_cut(trim(column), byte_len(left) as int),
        None => true,
    }
}

/// The alias of a column: what follows ` as ` or ` AS `. Where the word is
/// written otherwise the alias is the one in lower case, if `any_case` holds.
pub open spec fn alias_of(s: Seq<char>, lowered: Seq<char>, any_case: bool) -> Seq<Seq<char>> {
    match split_once(s, " as "@) {
        Some((_, alias)) => seq![trim(alias)],
        None => match split_once(s, " AS "@) {
            Some((_, alias)) => seq![trim(alias)],
            None => if any_case {
                seq![trim(lowered)]
            } else {
                Seq::empty()
            },
        },
    }
}

/// The names under which a selected column may be ordered by.
pub open spec fn projected_names(column: Seq<char>, any_case: bool) -> Seq<Seq<char>> {
    let s = trim(column);
    match split_once(lowercase(s), " as "@) {
        Some((left, right)) => alias_of(s, right, any_case) + if_named(
            base_name(byte_prefix(s, byte_len(left) as int)),
        ),
        None => if_named(base_name(s)),
    }
}

/// The names under which some selected columns may be ordered by.
pub open spec fn all_projected(columns: Seq<Seq<char>>, any_case: bool) -> Seq<Seq<char>>
    decreases columns.len(),
{
    if columns.len() == 0 {
        Seq::empty()
    } else {
        all_projected(columns.drop_last(), any_case) + projected_names(columns.last(), any_case)
    }
}

/// Whether every selected column with an alias can be cut.
pub open spec fn aliases_are_cut(columns: Seq<Seq<char>>) -> bool {
    forall|i: int| 0 <= i < columns.len() ==> alias_is_cut(#[trigger] columns[i])
}

/// The names that a result may be ordered by: those of the selected columns, of
/// the indexed ones and of the joined ones.
pub open spec fn allowed_names(schema: TableSchema, any_case: bool) -> Seq<Seq<char>> {
    all_projected(schema.get.columns.deep_view(), any_case) + base_names(
        index_columns(schema.indexes@),
    ) + base_names(join_columns(schema.get.join_tables@))
}

/// Appends a name unless it is empty.
fn push_named(out: &mut Vec<String>, name: String)
    ensures
        final(out).deep_view() == old(out).deep_view() + if_named(name@),
{
    if !name.as_str().is_empty() {
        push_item(out, name);
    }
    assert(out.deep_view() =~= old(out).deep_view() + if_named(name@));
}

/// The base name of a column.
fn base_of(column: &str) -> (r: String)
    ensures
        r@ == base_name(column@),
{
    let t = tail_after(column, '.');
    trimmed(t.as_str())
}

/// Appends the base names of some columns.
fn push_bases(out: &mut Vec<String>, columns: &Vec<String>)
    ensures
        final(out).deep_view() == old(out).deep_view() + base_names(columns.deep_view()),
{
    let ghost start = out.deep_view();
    let ghost dv = columns.deep_view();
    let mut i: usize = 0;
    assert(start + base_names(dv.take(0)) =~= start);
    while i < columns.len()
        invariant
            i <= columns@.len(),
            dv == columns.deep_view(),
            out.deep_view() == start + base_names(dv.take(i as int)),
        decreases columns.len() - i,
    {
        assert(dv.take(i + 1).drop_last() =~= dv.take(i as int));
        assert(dv[i as int] == columns@[i as int]@);
        push_named(out, base_of(columns[i].as_str()));
        i += 1;
        assert(out.deep_view() =~= start + base_names(dv.take(i as int)));
    }
    assert(dv.take(columns@.len() as int) =~= dv);
}

/// The base names of two lists of columns are those of the one list after the
/// other.
proof fn lemma_base_names_append(a: Seq<Seq<char>>, b: Seq<Seq<char>>)
    ensures
        base_names(a + b) == base_names(a) + base_names(b),
    decreases b.len(),
{
    if b.len() == 0 {
        assert(a + b =~= a);
        assert(base_names(a) + base_names(b) =~= base_names(a));
    } else {
        lemma_base_names_append(a, b.drop_last());
        assert((a + b).drop_last() =~= a + b.drop_last());
        assert(base_names(a + b) =~= base_names(a) + base_names(b));
    }
}

/// The names under which a selected column may be ordered by. None where its
/// alias cannot be cut off.
fn push_projected(out: &mut Vec<String>, column: &str, any_case: bool) -> (r: bool)
    ensures
        r == alias_is_cut(column@),
        r ==> final(out).deep_view() == old(out).deep_view() + projected_names(column@, any_case),
        !r ==> final(out).deep_view() == old(out).deep_view(),
{
    let s = trimmed(column);
    let low = to_lowercase(s.as_str());
    match cut(low.as_str(), " as ") {
        Some((left, right)) => {
            let n: usize = bytes_in(left.as_str());
            match cut_bytes(s.as_str(), n) {
                Some((front, _rest)) => {
                    match cut(s.as_str(), " as ") {
                        Some((_l, alias)) => {
                            push_item(out, trimmed(alias.as_str()));
                        },
                        None => match cut(s.as_str(), " AS ") {
                            Some((_l, alias)) => {
                                push_item(out, trimmed(alias.as_str()));
                            },
                            None => {
                                if any_case {
                                    push_item(out, trimmed(right.as_str()));
                                }
                            },
                        },
                    }
                    assert(out.deep_view() =~= old(out).deep_view() + alias_of(
                        s@,
                        right@,
                        any_case,
                    ));
                    push_named(out, base_of(front.as_str()));
                    assert(out.deep_view() =~= old(out).deep_view() + projected_names(
                        column@,
                        any_case,
                    ));
                    true
                },
                None => false,
            }
        },
        None => {
            push_named(out, base_of(s.as_str()));
            true
        },
    }
}

/// The names that a result may be ordered by. None where the alias of a selected
/// column cannot be cut off.
pub fn order_names(schema: &TableSchema, any_case: bool) -> (r: Option<Vec<String>>)
    ensures
        r is Some <==> aliases_are_cut(schema.get.columns.deep_view()),
        r is Some ==> r.deep_view() == Some(allowed_names(*schema, any_case)),
{
    let mut out: Vec<String> = Vec::new();
    let ghost cols = schema.get.columns.deep_view();
    let mut i: usize = 0;
    assert(out.deep_view() =~= all_projected(cols.take(0), any_case));
    while i < schema.get.columns.len()
        invariant
            i <= schema.get.columns@.len(),
            cols == schema.get.columns.deep_view(),
            out.deep_view() == all_projected(cols.take(i as int), any_case),
            forall|k: int| 0 <= k < i ==> alias_is_cut(#[trigger] cols[k]),
        decreases schema.get.columns.len() - i,
    {
        assert(cols.take(i + 1).drop_last() =~= cols.take(i as int));
        assert(cols[i as int] == schema.get.columns@[i as int]@);
        if !push_projected(&mut out, schema.get.columns[i].as_str(), any_case) {
            return None;
        }
        i += 1;
    }
    assert(cols.take(cols.len() as int) =~= cols);
    let ghost projected = all_projected(cols, any_case);
    let ghost ixs = schema.indexes@;
    let mut j: usize = 0;
    assert(projected + base_names(index_columns(ixs.take(0))) =~= projected);
    while j < schema.indexes.len()
        invariant
            j <= schema.indexes@.len(),
            ixs == schema.indexes@,
            out.deep_view() == projected + base_names(index_columns(ixs.take(j as int))),
        decreases schema.indexes.len() - j,
    {
        assert(ixs.take(j + 1).drop_last() =~= ixs.take(j as int));
        let ghost before = out.deep_view();
        push_bases(&mut out, &schema.indexes[j].columns);
        proof {
            lemma_base_names_append(
                index_columns(ixs.take(j as int)),
                ixs[j as int].columns.deep_view(),
            );
        }
        j += 1;
        assert(out.deep_view() =~= projected + base_names(index_columns(ixs.take(j as int))));
    }
    assert(ixs.take(ixs.len() as int) =~= ixs);
    let ghost indexed = projected + base_names(index_columns(ixs));
    let ghost js = schema.get.join_tables@;
    let mut k: usize = 0;
    assert(indexed + base_names(join_columns(js.take(0))) =~= indexed);
    while k < schema.get.join_tables.len()
        invariant
            k <= schema.get.join_tables@.len(),
            js == schema.get.join_tables@,
            out.deep_view() == indexed + base_names(join_columns(js.take(k as int))),
        decreases schema.get.join_tables.len() - k,
    {
        assert(js.take(k + 1).drop_last() =~= js.take(k as int));
        push_bases(&mut out, &schema.get.join_tables[k].columns);
        proof {
            lemma_base_names_append(
                join_columns(js.take(k as int)),
                js[k as int].columns.deep_view(),
            );
        }
        k += 1;
        assert(out.deep_view() =~= indexed + base_names(join_columns(js.take(k as int))));
    }
    assert(js.take(js.len() as int) =~= js);
    Some(out)
}

// ---------------------------------------------------------------------------
// What is asked for
// ---------------------------------------------------------------------------

/// A column with the direction that was given for it: `-col`, `col asc`,
/// `col desc` or `col`.
pub open spec fn directed(raw: Seq<char>) -> (Seq<char>, Option<bool>) {
    match without_prefix(raw, "-"@) {
        Some(rest) => (trim(rest), Some(false)),
        None => match rsplit_once(raw, ' ') {
            Some((name, dir)) => if ascii_lower(trim(dir)) == "asc"@ {
                (trim(name), Some(true))
            } else if ascii_lower(trim(dir)) == "desc"@ {
                (trim(name), Some(false))
            } else {
                (raw, None)
            },
            None => (raw, None),
        },
    }
}

/// The order that one entry of a list of columns asks for, if it may.
pub open spec fn order_term(
    token: Seq<char>,
    allowed: Seq<Seq<char>>,
    ascending: bool,
) -> Seq<(Seq<char>, bool)> {
    let raw = trim(token);
    let (col, dir) = directed(raw);
    if raw.len() > 0 && allowed.contains(base_name(col)) {
        seq![
            (
                col,
                match dir {
                    Some(d) => d,
                    None => ascending,
                },
            ),
        ]
    } else {
        Seq::empty()
    }
}

/// The order that a list of entries asks for.
pub open spec fn order_terms(
    tokens: Seq<Seq<char>>,
    allowed: Seq<Seq<char>>,
    ascending: bool,
) -> Seq<(Seq<char>, bool)>
    decreases tokens.len(),
{
    if tokens.len() == 0 {
        Seq::empty()
    } else {
        order_terms(tokens.drop_last(), allowed, ascending) + order_term(
            tokens.last(),
            allowed,
            ascending,
        )
    }
}

/// The order that one configured column asks for, if it may.
pub open spec fn default_term(
    column: Seq<char>,
    allowed: Seq<Seq<char>>,
    ascending: bool,
) -> Seq<(Seq<char>, bool)> {
    let c = trim(column);
    if c.len() > 0 && (allowed.contains(after_last(c, '.')) || allowed.contains(c)) {
        seq![(c, ascending)]
    } else {
        Seq::empty()
    }
}

/// The order that the configured columns ask for.
pub open spec fn default_terms(
    columns: Seq<Seq<char>>,
    allowed: Seq<Seq<char>>,
    ascending: bool,
) -> Seq<(Seq<char>, bool)>
    decreases columns.len(),
{
    if columns.len() == 0 {
        Seq::empty()
    } else {
        default_terms(columns.drop_last(), allowed, ascending) + default_term(
            columns.last(),
            allowed,
            ascending,
        )
    }
}

/// The order of a result: that of the list of columns, or the configured one
/// where nothing in the list may be ordered by.
pub open spec fn order_of(
    schema: TableSchema,
    order: Seq<char>,
    ascending: bool,
    any_case: bool,
) -> Seq<(Seq<char>, bool)> {
    let allowed = allowed_names(schema, any_case);
    let asked = order_terms(split(order, ','), allowed, ascending);
    if asked.len() > 0 {
        asked
    } else {
        default_terms(schema.get.order_by.deep_view(), allowed, ascending)
    }
}

/// A column with the direction that was given for it.
fn direct(raw: &str) -> (r: (String, Option<bool>))
    ensures
        (r.0@, r.1) == directed(raw@),
{
    match after_prefix(raw, "-") {
        Some(rest) => (trimmed(rest.as_str()), Some(false)),
        None => match rcut(raw, ' ') {
            Some((name, dir)) => {
                let t = trimmed(dir.as_str());
                let d = to_ascii_lower(t.as_str());
                if same(d.as_str(), "asc") {
                    (trimmed(name.as_str()), Some(true))
                } else if same(d.as_str(), "desc") {
                    (trimmed(name.as_str()), Some(false))
                } else {
                    (raw.to_owned(), None)
                }
            },
            None => (raw.to_owned(), None),
        },
    }
}

/// Appends the order of one entry.
fn push_term(out: &mut Vec<(String, bool)>, token: &str, allowed: &Vec<String>, ascending: bool)
    ensures
        final(out).deep_view() == old(out).deep_view() + order_term(
            token@,
            allowed.deep_view(),
            ascending,
        ),
{
    let raw = trimmed(token);
    let (col, dir) = direct(raw.as_str());
    let base = base_of(col.as_str());
    if !raw.as_str().is_empty() && listed(allowed, base.as_str()) {
        let asc: bool = match dir {
            Some(d) => d,
            None => ascending,
        };
        push_item(out, (col, asc));
    }
    assert(out.deep_view() =~= old(out).deep_view() + order_term(
        token@,
        allowed.deep_view(),
        ascending,
    ));
}

/// Appends the order of one configured column.
fn push_default(out: &mut Vec<(String, bool)>, column: &str, allowed: &Vec<String>, ascending: bool)
    ensures
        final(out).deep_view() == old(out).deep_view() + default_term(
            column@,
            allowed.deep_view(),
            ascending,
        ),
{
    let c = trimmed(column);
    let tail = tail_after(c.as_str(), '.');
    if !c.as_str().is_empty() && (listed(allowed, tail.as_str()) || listed(allowed, c.as_str())) {
        push_item(out, (c, ascending));
    }
    assert(out.deep_view() =~= old(out).deep_view() + default_term(
        column@,
        allowed.deep_view(),
        ascending,
    ));
}

/// The order of a result. None where the alias of a selected column cannot be
/// cut off.
pub fn build_order(schema: &TableSchema, order: &str, ascending: bool, any_case: bool) -> (r: Option<
    Vec<(String, bool)>,
>)
    ensures
        r is Some <==> aliases_are_cut(schema.get.columns.deep_view()),
        r is Some ==> r.deep_view() == Some(order_of(*schema, order@, ascending, any_case)),
{
    let allowed = match order_names(schema, any_case) {
        Some(names) => names,
        None => {
            return None;
        },
    };
    let ghost names = allowed.deep_view();
    let tokens = split_text(order, ',');
    let ghost ts = tokens.deep_view();
    let mut out: Vec<(String, bool)> = Vec::new();
    let mut i: usize = 0;
    assert(out.deep_view() =~= order_terms(ts.take(0), names, ascending));
    while i < tokens.len()
        invariant
            i <= tokens@.len(),
            ts == tokens.deep_view(),
            names == allowed.deep_view(),
            out.deep_view() == order_terms(ts.take(i as int), names, ascending),
        decreases tokens.len() - i,
    {
        assert(ts.take(i + 1).drop_last() =~= ts.take(i as int));
        assert(ts[i as int] == tokens@[i as int]@);
        push_term(&mut out, tokens[i].as_str(), &allowed, ascending);
        i += 1;
    }
    assert(ts.take(ts.len() as int) =~= ts);
    if out.len() > 0 {
        assert(out.deep_view().len() == out@.len());
        return Some(out);
    }
    assert(out.deep_view().len() == 0);
    let ghost cs = schema.get.order_by.deep_view();
    let mut k: usize = 0;
    let mut fallback: Vec<(String, bool)> = Vec::new();
    assert(fallback.deep_view() =~= default_terms(cs.take(0), names, ascending));
    while k < schema.get.order_by.len()
        invariant
            k <= schema.get.order_by@.len(),
            cs == schema.get.order_by.deep_view(),
            names == allowed.deep_view(),
            fallback.deep_view() == default_terms(cs.take(k as int), names, ascending),
        decreases schema.get.order_by.len() - k,
    {
        assert(cs.take(k + 1).drop_last() =~= cs.take(k as int));
        assert(cs[k as int] == schema.get.order_by@[k as int]@);
        push_default(&mut fallback, schema.get.order_by[k].as_str(), &allowed, ascending);
        k += 1;
    }
    assert(cs.take(cs.len() as int) =~= cs);
    Some(fallback)
}

/// A query with columns to order by added.
pub open spec fn with_order(q: QueryV, order: Seq<(Seq<char>, bool)>) -> QueryV {
    QueryV { order_by: q.order_by + order, ..q }
}

/// Adds to a query the order that a list of columns asks for. Returns whether
/// the alias of every selected column could be cut off; the query is left as it
/// was where one could not.
pub fn apply_order_by(
    q: &mut Query,
    order_col_ast: &str,
    order_type_ast: &str,
    table_schema: &TableSchema,
) -> (r: bool)
    ensures
        r == aliases_are_cut(table_schema.get.columns.deep_view()),
        r ==> final(q).deep_view() == with_order(
            old(q).deep_view(),
            order_of(
                *table_schema,
                order_col_ast@,
                same_but_case(order_type_ast@, "ASC"@),
                false,
            ),
        ),
        !r ==> final(q).deep_view() == old(q).deep_view(),
{
    let ascending = same_ignoring_case(order_type_ast, "ASC");
    match build_order(table_schema, order_col_ast, ascending, false) {
        Some(order) => {
            let mut order = order;
            let ghost before = q.order_by.deep_view();
            let ghost more = order.deep_view();
            q.order_by.append(&mut order);
            assert(q.order_by.deep_view() =~= before + more);
            true
        },
        None => false,
    }
}

// ---------------------------------------------------------------------------
// Laws
// ---------------------------------------------------------------------------

proof fn lemma_terms_allowed(
    tokens: Seq<Seq<char>>,
    allowed: Seq<Seq<char>>,
    ascending: bool,
    i: int,
)
    requires
        0 <= i < order_terms(tokens, allowed, ascending).len(),
    ensures
        allowed.contains(base_name(order_terms(tokens, allowed, ascending)[i].0)),
    decreases tokens.len(),
{
    let before = order_terms(tokens.drop_last(), allowed, ascending);
    if i < before.len() {
        lemma_terms_allowed(tokens.drop_last(), allowed, ascending, i);
    }
}

proof fn lemma_defaults_allowed(
    columns: Seq<Seq<char>>,
    allowed: Seq<Seq<char>>,
    ascending: bool,
    i: int,
)
    requires
        0 <= i < default_terms(columns, allowed, ascending).len(),
    ensures
        ({
            let c = default_terms(columns, allowed, ascending)[i].0;
            allowed.contains(after_last(c, '.')) || allowed.contains(c)
        }),
    decreases columns.len(),
{
    let before = default_terms(columns.drop_last(), allowed, ascending);
    if i < before.len() {
        lemma_defaults_allowed(columns.drop_last(), allowed, ascending, i);
    }
}

/// A result is never ordered by a column that is not among the selected, the
/// indexed and the joined ones, whatever the request asks for.
pub proof fn law_order_is_allowed(
    schema: TableSchema,
    order: Seq<char>,
    ascending: bool,
    any_case: bool,
    i: int,
)
    requires
        0 <= i < order_of(schema, order, ascending, any_case).len(),
    ensures
        ({
            let c = order_of(schema, order, ascending, any_case)[i].0;
            let allowed = allowed_names(schema, any_case);
            allowed.contains(base_name(c)) || allowed.contains(after_last(c, '.'))
                || allowed.contains(c)
        }),
{
    let allowed = allowed_names(schema, any_case);
    let asked = order_terms(split(order, ','), allowed, ascending);
    if asked.len() > 0 {
        lemma_terms_allowed(split(order, ','), allowed, ascending, i);
    } else {
        lemma_defaults_allowed(schema.get.order_by.deep_view(), allowed, ascending, i);
    }
}

/// Rows are sorted as the request asks: by a column that may be sorted by, in the asked
/// direction, and with a minus in front of it the other way round.
pub proof fn law_rows_are_sorted_as_asked_for(
    schema: TableSchema,
    name: Seq<char>,
    ascending: bool,
    any_case: bool,
)
    requires
        name.len() > 0,
        !name.contains(','),
        !name.contains(' '),
        !name.contains('.'),
        name[0] != '-',
        !is_white_space(name[0]),
        !is_white_space(name.last()),
        allowed_names(schema, any_case).contains(name),
    ensures
        order_of(schema, name, ascending, any_case) == seq![(name, ascending)],
        order_of(schema, "-"@ + name, ascending, any_case) == seq![(name, false)],
{
    let allowed = allowed_names(schema, any_case);
    reveal_strlit("-");
    assert(trim_start(name) == name && trim_end(name) == name);
    assert(trim(name) == name);
    law_whole_texts_are_one_piece(name, '.');
    law_whole_texts_are_one_piece(name, ' ');
    law_whole_texts_are_one_piece(name, ',');
    assert(base_name(name) == name);
    if starts_with(name, "-"@) {
        assert(name.subrange(0, 1)[0] == name[0]);
    }
    assert(directed(name) == (name, None::<bool>));
    let one = seq![name];
    assert(one.drop_last() =~= Seq::<Seq<char>>::empty());
    assert(order_terms(one.drop_last(), allowed, ascending) =~= Seq::<(Seq<char>, bool)>::empty());
    assert(order_terms(one, allowed, ascending) =~= seq![(name, ascending)]);
    let back = "-"@ + name;
    assert(back[0] == '-');
    assert(back.last() == name.last());
    assert(!is_white_space('-'));
    assert(trim_start(back) == back && trim_end(back) == back);
    assert(!back.contains(',')) by {
        if back.contains(',') {
            let i = choose|i: int| 0 <= i < back.len() && back[i] == ',';
            assert(name[i - 1] == ',');
        }
    }
    law_whole_texts_are_one_piece(back, ',');
    assert(back.subrange(0, 1) =~= "-"@);
    assert(back.skip(1) =~= name);
    assert(directed(back) == (name, Some(false)));
    let other = seq![back];
    assert(other.drop_last() =~= Seq::<Seq<char>>::empty());
    assert(order_terms(other.drop_last(), allowed, ascending)
        =~= Seq::<(Seq<char>, bool)>::empty());
    assert(order_terms(other, allowed, ascending) =~= seq![(name, false)]);
}

} // verus!
