//! Queries, filters and bound values, as they are handed to a data store.
use crate::text::push_item;
use vstd::prelude::*;

verus! {

/// What a bound value is: a float is held by its numeral.
pub enum Scalar {
    Null,
    Bool(bool),
    I64(i64),
    F64(Seq<char>),
    Str(Seq<char>),
}

/// A value bound to a statement. A float is held by its numeral.
#[derive(Debug, PartialEq)]
pub enum DbParam {
    Str(String),
    I64(i64),
    F64(String),
    Bool(bool),
    Null,
}

/// A value in a filter. A float is held by its numeral.
#[derive(Debug, PartialEq)]
pub enum Val {
    Null,
    Bool(bool),
    I64(i64),
    F64(String),
    Str(String),
}

impl DeepView for DbParam {
    type V = Scalar;

    open spec fn deep_view(&self) -> Scalar {
        match self {
            DbParam::Str(s) => Scalar::Str(s@),
            DbParam::I64(n) => Scalar::I64(*n),
            DbParam::F64(t) => Scalar::F64(t@),
            DbParam::Bool(b) => Scalar::Bool(*b),
            DbParam::Null => Scalar::Null,
        }
    }
}

impl DeepView for Val {
    type V = Scalar;

    open spec fn deep_view(&self) -> Scalar {
        match self {
            Val::Null => Scalar::Null,
            Val::Bool(b) => Scalar::Bool(*b),
            Val::I64(n) => Scalar::I64(*n),
            Val::F64(t) => Scalar::F64(t@),
            Val::Str(s) => Scalar::Str(s@),
        }
    }
}

impl DbParam {
    /// A copy.
    pub fn copy(&self) -> (r: DbParam)
        ensures
            r.deep_view() == self.deep_view(),
    {
        match self {
            DbParam::Str(s) => DbParam::Str(s.clone()),
            DbParam::I64(n) => DbParam::I64(*n),
            DbParam::F64(t) => DbParam::F64(t.clone()),
            DbParam::Bool(b) => DbParam::Bool(*b),
            DbParam::Null => DbParam::Null,
        }
    }

    /// The same value for a filter.
    pub fn to_val(&self) -> (r: Val)
        ensures
            r.deep_view() == self.deep_view(),
    {
        match self {
            DbParam::Str(s) => Val::Str(s.clone()),
            DbParam::I64(n) => Val::I64(*n),
            DbParam::F64(t) => Val::F64(t.clone()),
            DbParam::Bool(b) => Val::Bool(*b),
            DbParam::Null => Val::Null,
        }
    }
}

/// A copy of a list of bound values.
pub fn copy_params(v: &Vec<DbParam>) -> (r: Vec<DbParam>)
    ensures
        r.deep_view() == v.deep_view(),
{
    let mut out: Vec<DbParam> = Vec::new();
    let mut i: usize = 0;
    while i < v.len()
        invariant
            i <= v@.len(),
            out.deep_view() == v.deep_view().take(i as int),
        decreases v.len() - i,
    {
        push_item(&mut out, v[i].copy());
        i += 1;
        assert(v.deep_view().take(i as int) =~= v.deep_view().take(i - 1).push(
            v.deep_view()[i - 1],
        ));
    }
    assert(v.deep_view().take(v@.len() as int) =~= v.deep_view());
    out
}

/// A condition on the rows of a table.
#[derive(Debug, PartialEq)]
pub enum Filter {
    Eq(String, Val),
    Ne(String, Val),
    Lt(String, Val),
    Lte(String, Val),
    Gt(String, Val),
    Gte(String, Val),
    Like(String, String),
    ILike(String, String),
    In(String, Vec<Val>),
    NotIn(String, Vec<Val>),
    Between(String, Val, Val),
    IsNull(String),
    IsNotNull(String),
    And(Vec<Filter>),
    Or(Vec<Filter>),
}

/// What a filter is.
pub enum FilterV {
    Eq(Seq<char>, Scalar),
    Ne(Seq<char>, Scalar),
    Lt(Seq<char>, Scalar),
    Lte(Seq<char>, Scalar),
    Gt(Seq<char>, Scalar),
    Gte(Seq<char>, Scalar),
    Like(Seq<char>, Seq<char>),
    ILike(Seq<char>, Seq<char>),
    In(Seq<char>, Seq<Scalar>),
    NotIn(Seq<char>, Seq<Scalar>),
    Between(Seq<char>, Scalar, Scalar),
    IsNull(Seq<char>),
    IsNotNull(Seq<char>),
    And(Seq<FilterV>),
    Or(Seq<FilterV>),
}

/// What a filter is.
pub open spec fn filter_view(f: Filter) -> FilterV
    decreases f,
{
    match f {
        Filter::Eq(c, v) => FilterV::Eq(c@, v.deep_view()),
        Filter::Ne(c, v) => FilterV::Ne(c@, v.deep_view()),
        Filter::Lt(c, v) => FilterV::Lt(c@, v.deep_view()),
        Filter::Lte(c, v) => FilterV::Lte(c@, v.deep_view()),
        Filter::Gt(c, v) => FilterV::Gt(c@, v.deep_view()),
        Filter::Gte(c, v) => FilterV::Gte(c@, v.deep_view()),
        Filter::Like(c, p) => FilterV::Like(c@, p@),
        Filter::ILike(c, p) => FilterV::ILike(c@, p@),
        Filter::In(c, vs) => FilterV::In(c@, vs.deep_view()),
        Filter::NotIn(c, vs) => FilterV::NotIn(c@, vs.deep_view()),
        Filter::Between(c, a, b) => FilterV::Between(c@, a.deep_view(), b.deep_view()),
        Filter::IsNull(c) => FilterV::IsNull(c@),
        Filter::IsNotNull(c) => FilterV::IsNotNull(c@),
        Filter::And(fs) => FilterV::And(
            Seq::new(
                fs@.len(),
                |i: int|
                    if 0 <= i < fs@.len() {
                        filter_view(fs@[i])
                    } else {
                        FilterV::IsNull(Seq::empty())
                    },
            ),
        ),
        Filter::Or(fs) => FilterV::Or(
            Seq::new(
                fs@.len(),
                |i: int|
                    if 0 <= i < fs@.len() {
                        filter_view(fs@[i])
                    } else {
                        FilterV::IsNull(Seq::empty())
                    },
            ),
        ),
    }
}

impl DeepView for Filter {
    type V = FilterV;

    open spec fn deep_view(&self) -> FilterV {
        filter_view(*self)
    }
}

/// The view of a conjunction is the list of its terms' views.
pub broadcast proof fn lemma_and_view(fs: Vec<Filter>)
    ensures
        #[trigger] Filter::And(fs).deep_view() == FilterV::And(fs.deep_view()),
{
    assert(Filter::And(fs).deep_view()->And_0 =~= fs.deep_view());
}

/// The view of a disjunction is the list of its terms' views.
pub broadcast proof fn lemma_or_view(fs: Vec<Filter>)
    ensures
        #[trigger] Filter::Or(fs).deep_view() == FilterV::Or(fs.deep_view()),
{
    assert(Filter::Or(fs).deep_view()->Or_0 =~= fs.deep_view());
}

/// A row as conditions see it: the value of each column.
pub type RowV = spec_fn(Seq<char>) -> Scalar;

/// How a store orders values and matches patterns, by case or without it.
pub struct Collation {
    pub less: spec_fn(Scalar, Scalar) -> bool,
    pub like: spec_fn(Scalar, Seq<char>) -> bool,
    pub ilike: spec_fn(Scalar, Seq<char>) -> bool,
}

/// Whether a row meets a condition.
pub open spec fn satisfies(row: RowV, f: FilterV, by: Collation) -> bool
    decreases f,
{
    match f {
        FilterV::Eq(c, v) => row(c) == v,
        FilterV::Ne(c, v) => row(c) != v,
        FilterV::Lt(c, v) => (by.less)(row(c), v),
        FilterV::Lte(c, v) => row(c) == v || (by.less)(row(c), v),
        FilterV::Gt(c, v) => (by.less)(v, row(c)),
        FilterV::Gte(c, v) => row(c) == v || (by.less)(v, row(c)),
        FilterV::Like(c, p) => (by.like)(row(c), p),
        FilterV::ILike(c, p) => (by.ilike)(row(c), p),
        FilterV::In(c, vs) => vs.contains(row(c)),
        FilterV::NotIn(c, vs) => !vs.contains(row(c)),
        FilterV::Between(c, a, b) => {
            &&& row(c) == a || (by.less)(a, row(c))
            &&& row(c) == b || (by.less)(row(c), b)
        },
        FilterV::IsNull(c) => row(c) == Scalar::Null,
        FilterV::IsNotNull(c) => row(c) != Scalar::Null,
        FilterV::And(fs) => forall|i: int| 0 <= i < fs.len() ==> satisfies(row, #[trigger] fs[i], by),
        FilterV::Or(fs) => exists|i: int| 0 <= i < fs.len() && satisfies(row, #[trigger] fs[i], by),
    }
}

/// A row meets conditions together exactly if it meets each of them.
pub proof fn lemma_meets_all(row: RowV, fs: Seq<FilterV>, by: Collation)
    ensures
        satisfies(row, FilterV::And(fs), by) <==> forall|i: int|
            0 <= i < fs.len() ==> satisfies(row, #[trigger] fs[i], by),
{
    let f = FilterV::And(fs);
    if satisfies(row, f, by) {
        assert forall|i: int| 0 <= i < fs.len() implies satisfies(row, #[trigger] fs[i], by) by {
            assert(f->And_0[i] == fs[i]);
        }
    }
    if forall|i: int| 0 <= i < fs.len() ==> satisfies(row, #[trigger] fs[i], by) {
        assert(satisfies(row, f, by));
    }
}

/// A row meets one of some conditions exactly if there is one that it meets.
pub proof fn lemma_meets_any(row: RowV, fs: Seq<FilterV>, by: Collation)
    ensures
        satisfies(row, FilterV::Or(fs), by) <==> exists|i: int|
            0 <= i < fs.len() && satisfies(row, #[trigger] fs[i], by),
{
    let f = FilterV::Or(fs);
    if satisfies(row, f, by) {
        let i = choose|i: int| 0 <= i < f->Or_0.len() && satisfies(row, #[trigger] f->Or_0[i], by);
        assert(0 <= i < fs.len() && satisfies(row, fs[i], by));
    }
    if exists|i: int| 0 <= i < fs.len() && satisfies(row, #[trigger] fs[i], by) {
        let i = choose|i: int| 0 <= i < fs.len() && satisfies(row, #[trigger] fs[i], by);
        assert(f->Or_0[i] == fs[i]);
        assert(satisfies(row, f, by));
    }
}

/// A condition of a join or of a group.
#[derive(Debug, PartialEq)]
pub enum Expr {
    Raw(String),
    ColEq(String, String),
}

/// What such a condition is.
pub enum ExprV {
    Raw(Seq<char>),
    ColEq(Seq<char>, Seq<char>),
}

impl DeepView for Expr {
    type V = ExprV;

    open spec fn deep_view(&self) -> ExprV {
        match self {
            Expr::Raw(s) => ExprV::Raw(s@),
            Expr::ColEq(a, b) => ExprV::ColEq(a@, b@),
        }
    }
}

/// How a table is joined.
#[derive(Debug, PartialEq, Eq, Clone, Copy, Structural)]
pub enum JoinKind {
    Inner,
    Left,
}

/// A joined table, with its condition as an expression or as a text.
#[derive(Debug, PartialEq)]
pub struct Join {
    pub kind: JoinKind,
    pub table: String,
    pub on: String,
    pub on_expr: Option<Expr>,
}

/// What a join is.
pub struct JoinV {
    pub kind: JoinKind,
    pub table: Seq<char>,
    pub on: Seq<char>,
    pub on_expr: Option<ExprV>,
}

impl DeepView for Join {
    type V = JoinV;

    open spec fn deep_view(&self) -> JoinV {
        JoinV {
            kind: self.kind,
            table: self.table@,
            on: self.on@,
            on_expr: match self.on_expr {
                Some(e) => Some(e.deep_view()),
                None => None,
            },
        }
    }
}

/// A query on one table.
#[derive(Debug, PartialEq)]
pub struct Query {
    pub table: String,
    pub columns: Vec<String>,
    /// Columns of which the greatest value is asked, under a name each.
    pub maxima: Vec<(String, String)>,
    pub filter: Option<Filter>,
    pub joins: Vec<Join>,
    pub group_by: Vec<String>,
    /// Groups of conditions on the result, in the order in which they were given.
    pub having: Vec<Vec<Expr>>,
    /// Columns to order by, each with whether it ascends.
    pub order_by: Vec<(String, bool)>,
    pub limit: Option<u32>,
    pub offset: Option<u32>,
}

/// What a query is.
pub struct QueryV {
    pub table: Seq<char>,
    pub columns: Seq<Seq<char>>,
    pub maxima: Seq<(Seq<char>, Seq<char>)>,
    pub filter: Option<FilterV>,
    pub joins: Seq<JoinV>,
    pub group_by: Seq<Seq<char>>,
    pub having: Seq<Seq<ExprV>>,
    pub order_by: Seq<(Seq<char>, bool)>,
    pub limit: Option<u32>,
    pub offset: Option<u32>,
}

/// The query for everything in a table.
pub open spec fn all_of(table: Seq<char>) -> QueryV {
    QueryV {
        table,
        columns: Seq::empty(),
        maxima: Seq::empty(),
        filter: None,
        joins: Seq::empty(),
        group_by: Seq::empty(),
        having: Seq::empty(),
        order_by: Seq::empty(),
        limit: None,
        offset: None,
    }
}

impl DeepView for Query {
    type V = QueryV;

    open spec fn deep_view(&self) -> QueryV {
        QueryV {
            table: self.table@,
            columns: self.columns.deep_view(),
            maxima: self.maxima.deep_view(),
            filter: match self.filter {
                Some(f) => Some(f.deep_view()),
                None => None,
            },
            joins: self.joins.deep_view(),
            group_by: self.group_by.deep_view(),
            having: self.having.deep_view(),
            order_by: self.order_by.deep_view(),
            limit: self.limit,
            offset: self.offset,
        }
    }
}

impl Query {
    /// The query for everything in a table.
    pub fn of(table: &str) -> (r: Query)
        ensures
            r.deep_view() == all_of(table@),
    {
        let q = Query {
            table: table.to_owned(),
            columns: Vec::new(),
            maxima: Vec::new(),
            filter: None,
            joins: Vec::new(),
            group_by: Vec::new(),
            having: Vec::new(),
            order_by: Vec::new(),
            limit: None,
            offset: None,
        };
        assert(q.columns.deep_view() =~= Seq::empty());
        assert(q.maxima.deep_view() =~= Seq::empty());
        assert(q.joins.deep_view() =~= Seq::empty());
        assert(q.group_by.deep_view() =~= Seq::empty());
        assert(q.having.deep_view() =~= Seq::empty());
        assert(q.order_by.deep_view() =~= Seq::empty());
        q
    }
}

/// What a column is set to: a bound value, or an expression of the database.
#[derive(Debug, PartialEq)]
pub enum InsertValue {
    Param(DbParam),
    Raw(String),
    RawWithParams { sql: String, params: Vec<DbParam> },
}

/// What such a value is.
pub enum InsertValueV {
    Param(Scalar),
    Raw(Seq<char>),
    RawWithParams { sql: Seq<char>, params: Seq<Scalar> },
}

impl DeepView for InsertValue {
    type V = InsertValueV;

    open spec fn deep_view(&self) -> InsertValueV {
        match self {
            InsertValue::Param(p) => InsertValueV::Param(p.deep_view()),
            InsertValue::Raw(s) => InsertValueV::Raw(s@),
            InsertValue::RawWithParams { sql, params } => InsertValueV::RawWithParams {
                sql: sql@,
                params: params.deep_view(),
            },
        }
    }
}

impl InsertValue {
    /// A copy.
    pub fn copy(&self) -> (r: InsertValue)
        ensures
            r.deep_view() == self.deep_view(),
    {
        match self {
            InsertValue::Param(p) => InsertValue::Param(p.copy()),
            InsertValue::Raw(s) => InsertValue::Raw(s.clone()),
            InsertValue::RawWithParams { sql, params } => InsertValue::RawWithParams {
                sql: sql.clone(),
                params: copy_params(params),
            },
        }
    }
}

/// A copy of the values of some columns.
pub fn copy_field_values(v: &Vec<(String, InsertValue)>) -> (r: Vec<(String, InsertValue)>)
    ensures
        r.deep_view() == v.deep_view(),
{
    let mut out: Vec<(String, InsertValue)> = Vec::new();
    let mut i: usize = 0;
    while i < v.len()
        invariant
            i <= v@.len(),
            out.deep_view() == v.deep_view().take(i as int),
        decreases v.len() - i,
    {
        push_item(&mut out, (v[i].0.clone(), v[i].1.copy()));
        i += 1;
        assert(v.deep_view().take(i as int) =~= v.deep_view().take(i - 1).push(
            v.deep_view()[i - 1],
        ));
    }
    assert(v.deep_view().take(v@.len() as int) =~= v.deep_view());
    out
}

/// A copy of some rows of values.
pub fn copy_rows(v: &Vec<Vec<InsertValue>>) -> (r: Vec<Vec<InsertValue>>)
    ensures
        r.deep_view() == v.deep_view(),
{
    let mut out: Vec<Vec<InsertValue>> = Vec::new();
    let mut i: usize = 0;
    while i < v.len()
        invariant
            i <= v@.len(),
            out.deep_view() == v.deep_view().take(i as int),
        decreases v.len() - i,
    {
        let ghost dv = v@[i as int].deep_view();
        let mut row: Vec<InsertValue> = Vec::new();
        let mut k: usize = 0;
        while k < v[i].len()
            invariant
                i < v@.len(),
                k <= v@[i as int]@.len(),
                dv == v@[i as int].deep_view(),
                row.deep_view() == dv.take(k as int),
            decreases v@[i as int]@.len() - k,
        {
            push_item(&mut row, v[i][k].copy());
            k += 1;
            assert(dv.take(k as int) =~= dv.take(k - 1).push(dv[k - 1]));
        }
        assert(dv.take(dv.len() as int) =~= dv);
        push_item(&mut out, row);
        i += 1;
        assert(v.deep_view().take(i as int) =~= v.deep_view().take(i - 1).push(
            v.deep_view()[i - 1],
        ));
    }
    assert(v.deep_view().take(v@.len() as int) =~= v.deep_view());
    out
}

} // verus!
