//! What follows, in the tables that refer to a row, from its deletion or from a
//! change of its key.
use crate::ast::{
    all_of, satisfies, Collation, Filter, FilterV, InsertValue, InsertValueV, Query, QueryV, RowV,
    Scalar,
};
use crate::filters::{id_param, integer_or_text};
use crate::flow::{failure, failure_in, rows_in, told, Action, ActionV, KeyChange, Outcome, Work, WorkV};
use crate::giving::tells;
use crate::json::{Json, JsonV};
use crate::model::{ForeignAction, ReferenceForeignKey};
use crate::number::i64_value;
use crate::post::take_rows;
use crate::text::{push_item, same};
use vstd::prelude::*;
use vstd::string::*;

verus! {

/// A row that is deleted, or whose key changes, and the tables that refer to it.
#[derive(Debug)]
pub struct Followed {
    pub change: KeyChange,
    pub keys: Vec<ReferenceForeignKey>,
    /// The database's expression for the present time.
    pub now_expr: String,
}

/// What is done in a table that refers to the row.
pub enum Consequence {
    /// The rows that refer to it are updated.
    Update(Seq<(Seq<char>, InsertValueV)>),
    /// They are deleted.
    Delete,
    /// There must not be any.
    Restrict,
    /// Nothing.
    Ignore,
}

/// The mark of who updated a row.
pub open spec fn updated_by(q: Followed) -> (Seq<char>, InsertValueV) {
    ("updated_by_id"@, InsertValueV::Param(integer_or_text(q.change.user@)))
}

/// The mark of when a row was updated.
pub open spec fn updated_at(q: Followed) -> (Seq<char>, InsertValueV) {
    ("updated_at"@, InsertValueV::Raw(q.now_expr@))
}

/// The values that clear a reference.
pub open spec fn cleared_fields(q: Followed, a: ForeignAction) -> Seq<(Seq<char>, InsertValueV)> {
    seq![(a.column@, InsertValueV::Raw("NULL"@)), updated_at(q), updated_by(q)]
}

/// What is done in a table whose reference is configured so, when the row is
/// deleted.
pub open spec fn on_delete(q: Followed, a: ForeignAction) -> Consequence {
    if a.action@ == "cascade"@ {
        if a.type_delete@ == "soft"@ {
            Consequence::Update(
                seq![
                    ("deleted_at"@, InsertValueV::Raw(q.now_expr@)),
                    ("deleted_by_id"@, InsertValueV::Param(integer_or_text(q.change.user@))),
                ],
            )
        } else if a.type_delete@ == "hard"@ {
            Consequence::Delete
        } else {
            Consequence::Ignore
        }
    } else if a.action@ == "set null"@ {
        Consequence::Update(cleared_fields(q, a))
    } else if a.action@ == "restrict"@ {
        Consequence::Restrict
    } else {
        Consequence::Ignore
    }
}

/// What is done in a table whose reference is configured so, when the key
/// changes.
pub open spec fn on_update(q: Followed, a: ForeignAction) -> Consequence {
    if a.action@ == "cascade"@ {
        Consequence::Update(
            seq![
                (a.column@, InsertValueV::Param(integer_or_text(q.change.id_new@))),
                updated_at(q),
                updated_by(q),
            ],
        )
    } else if a.action@ == "set null"@ {
        Consequence::Update(cleared_fields(q, a))
    } else if a.action@ == "restrict"@ {
        Consequence::Restrict
    } else {
        Consequence::Ignore
    }
}

/// The configured action of a reference.
pub open spec fn action_of(q: Followed, k: ReferenceForeignKey) -> ForeignAction {
    if q.change.process@ == "DELETE"@ {
        k.on_delete_action
    } else {
        k.on_update_action
    }
}

/// What is done in a table that refers to the row.
pub open spec fn consequence(q: Followed, k: ReferenceForeignKey) -> Consequence {
    if q.change.route@ != k.table@ {
        Consequence::Ignore
    } else if q.change.process@ == "DELETE"@ {
        on_delete(q, k.on_delete_action)
    } else if q.change.process@ == "UPDATE"@ {
        on_update(q, k.on_update_action)
    } else {
        Consequence::Ignore
    }
}

/// The rows that refer to the row.
pub open spec fn referring(q: Followed, a: ForeignAction) -> FilterV {
    FilterV::Eq(a.column@, integer_or_text(q.change.id@))
}

/// The query that looks for a row that refers to the row.
pub open spec fn referring_query(q: Followed, a: ForeignAction) -> QueryV {
    QueryV {
        columns: seq!["1"@],
        filter: Some(referring(q, a)),
        limit: Some(1),
        ..all_of(a.table@)
    }
}

/// Where the following of references stands.
#[derive(Debug, PartialEq, Eq, Clone, Copy, Structural)]
pub enum FollowStage {
    Start,
    /// What is done for this reference is compiled.
    Compiling(usize),
    /// What is done for this reference is run.
    Running(usize),
    /// A row with this reference is looked for.
    Looking(usize),
    Ended,
}

/// What follows from a step: where the following stands, and what it asks for.
pub type FollowTurn = (FollowStage, WorkV);

/// The next reference, at or after the `k`-th, is followed.
pub open spec fn follow_from(q: Followed, k: int) -> FollowTurn
    decreases q.keys@.len() - k,
{
    if k < 0 || k >= q.keys@.len() {
        (FollowStage::Ended, WorkV::Finish(Seq::empty(), 0, JsonV::Null))
    } else {
        let a = action_of(q, q.keys@[k]);
        match consequence(q, q.keys@[k]) {
            Consequence::Update(fields) => (
                FollowStage::Compiling(k as usize),
                WorkV::Ask(ActionV::CompileUpdate(a.table@, referring(q, a), fields)),
            ),
            Consequence::Delete => (
                FollowStage::Compiling(k as usize),
                WorkV::Ask(ActionV::CompileDelete(a.table@, referring(q, a))),
            ),
            Consequence::Restrict => (
                FollowStage::Looking(k as usize),
                WorkV::Ask(ActionV::RunQuery(referring_query(q, a))),
            ),
            Consequence::Ignore => follow_from(q, k + 1),
        }
    }
}

/// What is said of a row that is still referred to.
pub open spec fn still_referenced(table: Seq<char>) -> Seq<char> {
    "Cannot delete data because it is referenced in table "@ + table
}

/// The next step of following references: a failure says why it stopped.
pub open spec fn follow_next(q: Followed, stage: FollowStage, o: Outcome) -> FollowTurn {
    match stage {
        FollowStage::Start => follow_from(q, 0),
        FollowStage::Compiling(k) => match failure_in(o) {
            Some(e) => (FollowStage::Ended, WorkV::Fail(e)),
            None => (FollowStage::Running(k), WorkV::Ask(ActionV::RunCompiled)),
        },
        FollowStage::Running(k) => match failure_in(o) {
            Some(e) => (FollowStage::Ended, WorkV::Fail(e)),
            None => follow_from(q, k + 1),
        },
        FollowStage::Looking(k) => match failure_in(o) {
            Some(e) => (FollowStage::Ended, WorkV::Fail(e)),
            None => if rows_in(o).len() > 0 && k < q.keys@.len() {
                (
                    FollowStage::Ended,
                    WorkV::Fail(still_referenced(action_of(q, q.keys@[k as int]).table@)),
                )
            } else {
                follow_from(q, k + 1)
            },
        },
        FollowStage::Ended => (FollowStage::Ended, WorkV::Ask(ActionV::Nothing)),
    }
}

/// References that are followed.
#[derive(Debug)]
pub struct Following {
    pub request: Followed,
    pub stage: FollowStage,
}

/// References that are to be followed, in the transaction of the change.
pub fn process_foreign_keys_delete_update_txstore(request: Followed) -> (r: Following)
    ensures
        r.request == request,
        r.stage == FollowStage::Start,
{
    Following { request, stage: FollowStage::Start }
}

fn write_cleared(q: &Followed, a: &ForeignAction) -> (r: Vec<(String, InsertValue)>)
    ensures
        r.deep_view() == cleared_fields(*q, *a),
{
    let mut out: Vec<(String, InsertValue)> = Vec::new();
    push_item(&mut out, (a.column.clone(), InsertValue::Raw("NULL".to_owned())));
    push_item(&mut out, ("updated_at".to_owned(), InsertValue::Raw(q.now_expr.clone())));
    push_item(
        &mut out,
        ("updated_by_id".to_owned(), InsertValue::Param(id_param(q.change.user.as_str()))),
    );
    assert(out.deep_view() =~= cleared_fields(*q, *a));
    out
}

fn write_marked(q: &Followed) -> (r: Vec<(String, InsertValue)>)
    ensures
        r.deep_view() == seq![
            ("deleted_at"@, InsertValueV::Raw(q.now_expr@)),
            ("deleted_by_id"@, InsertValueV::Param(integer_or_text(q.change.user@))),
        ],
{
    let mut out: Vec<(String, InsertValue)> = Vec::new();
    push_item(&mut out, ("deleted_at".to_owned(), InsertValue::Raw(q.now_expr.clone())));
    push_item(
        &mut out,
        ("deleted_by_id".to_owned(), InsertValue::Param(id_param(q.change.user.as_str()))),
    );
    assert(out.deep_view() =~= seq![
        ("deleted_at"@, InsertValueV::Raw(q.now_expr@)),
        ("deleted_by_id"@, InsertValueV::Param(integer_or_text(q.change.user@))),
    ]);
    out
}

fn write_moved(q: &Followed, a: &ForeignAction) -> (r: Vec<(String, InsertValue)>)
    ensures
        r.deep_view() == seq![
            (a.column@, InsertValueV::Param(integer_or_text(q.change.id_new@))),
            updated_at(*q),
            updated_by(*q),
        ],
{
    let mut out: Vec<(String, InsertValue)> = Vec::new();
    push_item(&mut out, (a.column.clone(), InsertValue::Param(id_param(q.change.id_new.as_str()))));
    push_item(&mut out, ("updated_at".to_owned(), InsertValue::Raw(q.now_expr.clone())));
    push_item(
        &mut out,
        ("updated_by_id".to_owned(), InsertValue::Param(id_param(q.change.user.as_str()))),
    );
    assert(out.deep_view() =~= seq![
        (a.column@, InsertValueV::Param(integer_or_text(q.change.id_new@))),
        updated_at(*q),
        updated_by(*q),
    ]);
    out
}

/// What is done in a table that refers to the row.
#[derive(Debug)]
pub enum Effect {
    Update(Vec<(String, InsertValue)>),
    Delete,
    Restrict,
    Ignore,
}

impl DeepView for Effect {
    type V = Consequence;

    open spec fn deep_view(&self) -> Consequence {
        match self {
            Effect::Update(fields) => Consequence::Update(fields.deep_view()),
            Effect::Delete => Consequence::Delete,
            Effect::Restrict => Consequence::Restrict,
            Effect::Ignore => Consequence::Ignore,
        }
    }
}

fn effect_of(q: &Followed, k: &ReferenceForeignKey) -> (r: Effect)
    ensures
        r.deep_view() == consequence(*q, *k),
{
    if !same(q.change.route.as_str(), k.table.as_str()) {
        return Effect::Ignore;
    }
    if same(q.change.process.as_str(), "DELETE") {
        let a = &k.on_delete_action;
        if same(a.action.as_str(), "cascade") {
            if same(a.type_delete.as_str(), "soft") {
                Effect::Update(write_marked(q))
            } else if same(a.type_delete.as_str(), "hard") {
                Effect::Delete
            } else {
                Effect::Ignore
            }
        } else if same(a.action.as_str(), "set null") {
            Effect::Update(write_cleared(q, a))
        } else if same(a.action.as_str(), "restrict") {
            Effect::Restrict
        } else {
            Effect::Ignore
        }
    } else if same(q.change.process.as_str(), "UPDATE") {
        let a = &k.on_update_action;
        if same(a.action.as_str(), "cascade") {
            Effect::Update(write_moved(q, a))
        } else if same(a.action.as_str(), "set null") {
            Effect::Update(write_cleared(q, a))
        } else if same(a.action.as_str(), "restrict") {
            Effect::Restrict
        } else {
            Effect::Ignore
        }
    } else {
        Effect::Ignore
    }
}

fn find_action<'a>(q: &Followed, k: &'a ReferenceForeignKey) -> (r: &'a ForeignAction)
    ensures
        *r == action_of(*q, *k),
{
    if same(q.change.process.as_str(), "DELETE") {
        &k.on_delete_action
    } else {
        &k.on_update_action
    }
}

fn build_referring(q: &Followed, a: &ForeignAction) -> (r: Filter)
    ensures
        r.deep_view() == referring(*q, *a),
{
    Filter::Eq(a.column.clone(), id_param(q.change.id.as_str()).to_val())
}

fn build_referring_query(q: &Followed, a: &ForeignAction) -> (r: Query)
    ensures
        r.deep_view() == referring_query(*q, *a),
{
    let mut query = Query::of(a.table.as_str());
    let mut columns: Vec<String> = Vec::new();
    push_item(&mut columns, "1".to_owned());
    assert(columns.deep_view() =~= seq!["1"@]);
    query.columns = columns;
    query.filter = Some(build_referring(q, a));
    query.limit = Some(1);
    query
}

impl Following {
    fn follow(&mut self, from: usize) -> (r: Work)
        ensures
            final(self).request == old(self).request,
            (final(self).stage, r.deep_view()) == follow_from(old(self).request, from as int),
    {
        let ghost q = self.request;
        let ghost goal = follow_from(q, from as int);
        let mut k: usize = from;
        while k < self.request.keys.len()
            invariant
                q == self.request,
                q == old(self).request,
                goal == follow_from(q, k as int),
                goal == follow_from(old(self).request, from as int),
            decreases self.request.keys.len() - k,
        {
            let key = &self.request.keys[k];
            let a = find_action(&self.request, key);
            match effect_of(&self.request, key) {
                Effect::Update(fields) => {
                    let filter = build_referring(&self.request, a);
                    let table = a.table.clone();
                    self.stage = FollowStage::Compiling(k);
                    return Work::Ask(Action::CompileUpdate(table, filter, fields));
                },
                Effect::Delete => {
                    let filter = build_referring(&self.request, a);
                    let table = a.table.clone();
                    self.stage = FollowStage::Compiling(k);
                    return Work::Ask(Action::CompileDelete(table, filter));
                },
                Effect::Restrict => {
                    let query = build_referring_query(&self.request, a);
                    self.stage = FollowStage::Looking(k);
                    return Work::Ask(Action::RunQuery(query));
                },
                Effect::Ignore => {},
            }
            k += 1;
        }
        self.stage = FollowStage::Ended;
        Work::Finish(String::new(), 0, Json::Null)
    }

    fn fail(&mut self, message: String) -> (r: Work)
        ensures
            final(self).request == old(self).request,
            (final(self).stage, r.deep_view()) == (FollowStage::Ended, WorkV::Fail(message@)),
    {
        self.stage = FollowStage::Ended;
        Work::Fail(message)
    }

    /// Takes the next step of following the references, with what came of the
    /// last one. A failure says why it stopped.
    pub fn step(&mut self, outcome: Outcome) -> (r: Work)
        ensures
            final(self).request == old(self).request,
            (final(self).stage, r.deep_view()) == follow_next(
                old(self).request,
                old(self).stage,
                outcome,
            ),
    {
        match self.stage {
            FollowStage::Start => self.follow(0),
            FollowStage::Compiling(k) => match failure(&outcome) {
                Some(e) => self.fail(e.to_owned()),
                None => {
                    self.stage = FollowStage::Running(k);
                    Work::Ask(Action::RunCompiled)
                },
            },
            FollowStage::Running(k) => match failure(&outcome) {
                Some(e) => self.fail(e.to_owned()),
                None => if k < self.request.keys.len() {
                    self.follow(k + 1)
                } else {
                    self.follow(k)
                },
            },
            FollowStage::Looking(k) => match failure(&outcome) {
                Some(e) => self.fail(e.to_owned()),
                None => {
                    let rows = take_rows(outcome);
                    assert(rows.deep_view().len() == rows@.len());
                    if k < self.request.keys.len() {
                        if rows.len() > 0 {
                            let table = find_action(
                                &self.request,
                                &self.request.keys[k],
                            ).table.clone();
                            self.fail(
                                told(
                                    "Cannot delete data because it is referenced in table ",
                                    table.as_str(),
                                ),
                            )
                        } else {
                            self.follow(k + 1)
                        }
                    } else {
                        self.follow(k)
                    }
                },
            },
            FollowStage::Ended => Work::Ask(Action::Nothing),
        }
    }
}

// ---------------------------------------------------------------------------
// Laws
// ---------------------------------------------------------------------------

proof fn lemma_follow_reaches(q: Followed, from: int, k: int)
    requires
        0 <= from <= k < q.keys@.len(),
        !(consequence(q, q.keys@[k]) is Ignore),
    ensures
        ({
            let s = follow_from(q, from).0;
            ||| s matches FollowStage::Compiling(i) && from <= i <= k
            ||| s matches FollowStage::Looking(i) && from <= i <= k
        }),
    decreases k - from,
{
    assert(k <= usize::MAX) by {
        assert(q.keys.len() == q.keys@.len());
    }
    if from < k && consequence(q, q.keys@[from]) is Ignore {
        lemma_follow_reaches(q, from + 1, k);
    }
}

/// No reference is passed over: while one is still to be followed, the following
/// does not finish, and does not skip it.
pub proof fn law_every_reference_is_followed(q: Followed, from: int, k: int)
    requires
        0 <= from <= k < q.keys@.len(),
        !(consequence(q, q.keys@[k]) is Ignore),
    ensures
        ({
            let (s, w) = follow_from(q, from);
            &&& w is Ask
            &&& (s matches FollowStage::Compiling(i) && from <= i <= k) || (
            s matches FollowStage::Looking(i) && from <= i <= k)
        }),
    decreases k - from,
{
    lemma_follow_reaches(q, from, k);
    if from < k && consequence(q, q.keys@[from]) is Ignore {
        law_every_reference_is_followed(q, from + 1, k);
    }
}

/// A row that a restricting table still refers to stops the change.
pub proof fn law_restricted_rows_stop_the_change(q: Followed, k: usize, o: Outcome)
    requires
        failure_in(o) is None,
        rows_in(o).len() > 0,
        k < q.keys@.len(),
    ensures
        follow_next(q, FollowStage::Looking(k), o).1 is Fail,
{
}

/// Whether a row refers to the row that is deleted, or whose key changes: its column
/// has the identifier, as a number where it is a numeral.
pub open spec fn refers(q: Followed, a: ForeignAction, row: RowV) -> bool {
    match i64_value(q.change.id@) {
        Some(n) => row(a.column@) == Scalar::I64(n),
        None => row(a.column@) == Scalar::Str(q.change.id@),
    }
}

/// Whether what is asked for is what the configuration says of the rows that refer
/// to the row: on a deletion they are removed, marked as deleted, or cut loose; on
/// a change of the key they get the new one, or are cut loose; and where they
/// restrict the change, it is looked whether there is one. Rows that do not refer
/// to the row are never touched.
pub open spec fn follows(q: Followed, k: ReferenceForeignKey, w: WorkV, row: RowV, by: Collation) -> bool {
    let deletes = q.change.process@ == "DELETE"@;
    let a = if deletes {
        k.on_delete_action
    } else {
        k.on_update_action
    };
    match w {
        WorkV::Ask(ActionV::CompileDelete(t, f)) => {
            &&& deletes
            &&& a.action@ == "cascade"@
            &&& a.type_delete@ == "hard"@
            &&& t == a.table@
            &&& satisfies(row, f, by) <==> refers(q, a, row)
        },
        WorkV::Ask(ActionV::CompileUpdate(t, f, fields)) => {
            &&& t == a.table@
            &&& satisfies(row, f, by) <==> refers(q, a, row)
            &&& fields.len() > 0
            &&& if a.action@ == "set null"@ {
                fields[0] == (a.column@, InsertValueV::Raw("NULL"@))
            } else if deletes {
                &&& a.action@ == "cascade"@
                &&& a.type_delete@ == "soft"@
                &&& fields[0] == ("deleted_at"@, InsertValueV::Raw(q.now_expr@))
            } else {
                &&& a.action@ == "cascade"@
                &&& fields[0].0 == a.column@
                &&& fields[0].1 is Param
                &&& tells(fields[0].1->Param_0, q.change.id_new@)
            }
        },
        WorkV::Ask(ActionV::RunQuery(query)) => {
            &&& a.action@ == "restrict"@
            &&& query.table == a.table@
            &&& query.filter is Some
            &&& satisfies(row, query.filter->0, by) <==> refers(q, a, row)
        },
        _ => false,
    }
}

proof fn lemma_follow_from(q: Followed, from: int, row: RowV, by: Collation)
    requires
        0 <= from,
    ensures
        ({
            let (s, w) = follow_from(q, from);
            match s {
                FollowStage::Compiling(i) => from <= i < q.keys@.len() && follows(
                    q,
                    q.keys@[i as int],
                    w,
                    row,
                    by,
                ),
                FollowStage::Looking(i) => from <= i < q.keys@.len() && follows(
                    q,
                    q.keys@[i as int],
                    w,
                    row,
                    by,
                ),
                FollowStage::Ended => w is Finish,
                _ => false,
            }
        }),
    decreases q.keys@.len() - from,
{
    reveal_strlit("cascade");
    reveal_strlit("set null");
    reveal_strlit("restrict");
    reveal_strlit("soft");
    reveal_strlit("hard");
    reveal_strlit("DELETE");
    reveal_strlit("UPDATE");
    assert("cascade"@[0] == 'c' && "set null"@[0] == 's' && "restrict"@[0] == 'r');
    assert("soft"@[0] == 's' && "hard"@[0] == 'h' && "DELETE"@[0] == 'D' && "UPDATE"@[0] == 'U');
    if from < q.keys@.len() {
        assert(q.keys.len() == q.keys@.len());
        if consequence(q, q.keys@[from]) is Ignore {
            lemma_follow_from(q, from + 1, row, by);
        }
    }
}

/// Following a key touches the rows that refer to it, and no others, and does to
/// them what the configuration says.
pub proof fn law_references_are_followed_as_configured(
    q: Followed,
    stage: FollowStage,
    o: Outcome,
    row: RowV,
    by: Collation,
)
    ensures
        ({
            let (s, w) = follow_next(q, stage, o);
            match s {
                FollowStage::Compiling(i) => i < q.keys@.len() && follows(
                    q,
                    q.keys@[i as int],
                    w,
                    row,
                    by,
                ),
                FollowStage::Looking(i) => i < q.keys@.len() && follows(
                    q,
                    q.keys@[i as int],
                    w,
                    row,
                    by,
                ),
                FollowStage::Running(i) => w == WorkV::Ask(ActionV::RunCompiled) && stage
                    == FollowStage::Compiling(i) && failure_in(o) is None,
                _ => w is Finish || w is Fail || w == WorkV::Ask(ActionV::Nothing),
            }
        }),
{
    lemma_follow_from(q, 0, row, by);
    match stage {
        FollowStage::Running(k) => {
            lemma_follow_from(q, k + 1, row, by);
        },
        FollowStage::Looking(k) => {
            lemma_follow_from(q, k + 1, row, by);
        },
        _ => {},
    }
}

/// A reference that the configuration says something of is not ignored.
pub proof fn law_configured_references_are_not_ignored(q: Followed, k: ReferenceForeignKey)
    requires
        q.change.route@ == k.table@,
        ({
            let a = if q.change.process@ == "DELETE"@ {
                k.on_delete_action
            } else {
                k.on_update_action
            };
            &&& q.change.process@ == "DELETE"@ || q.change.process@ == "UPDATE"@
            &&& a.action@ == "set null"@ || a.action@ == "restrict"@ || a.action@ == "cascade"@ && (
            q.change.process@ == "UPDATE"@ || a.type_delete@ == "soft"@ || a.type_delete@
                == "hard"@)
        }),
    ensures
        !(consequence(q, k) is Ignore),
{
    reveal_strlit("cascade");
    reveal_strlit("set null");
    reveal_strlit("restrict");
    reveal_strlit("soft");
    reveal_strlit("hard");
    reveal_strlit("DELETE");
    reveal_strlit("UPDATE");
    assert("cascade"@[0] == 'c' && "set null"@[0] == 's' && "restrict"@[0] == 'r');
    assert("soft"@[0] == 's' && "hard"@[0] == 'h' && "DELETE"@[0] == 'D' && "UPDATE"@[0] == 'U');
}

} // verus!
