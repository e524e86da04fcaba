//! A request to read rows.
use crate::ast::{Collation, RowV};
use crate::caching::{build_key_suffix, key_suffix};
use crate::filters::Split;
use crate::flow::{
    checks_access, failure, failure_in, refuse, refused, rows_in, told, touches_data, Action,
    ActionV, Outcome,
};
use crate::get::{found_rows, say_found_rows, say_unknown_entity, tenant, unknown_entity};
use crate::json::{copy_fields, copy_without, fields_of, get_in, lemma_object_view, lookup, without_key, Json, JsonV};
use crate::model::TableSchema;
use crate::number::int_text;
use crate::post::{take_rows, Fields};
use crate::reading::{
    do_splits_fit, is_reading, law_others_stay, law_pages_adjoin,
    law_queries_read_what_is_configured, law_usual_pages, names_of, parameter_names, splits_fit,
    PageLimits, ReadRules,
};
use crate::repositories::data_read_repo::{
    fetch_dynamic_data, fetch_failure, fetch_query, fetch_rules, say_fetch_failure,
};
use crate::services::{collect_missing_required_params, missing_required};
use crate::text::{ascii_lower, copy_texts, join, joined, same, strip_front, to_ascii_lower};
use vstd::prelude::*;
use vstd::string::*;

verus! {

/// A request to read rows.
#[derive(Debug)]
pub struct ReadRequest {
    pub route: String,
    /// Whether the route is open to everyone.
    pub is_public: bool,
    /// Whether routes that are not open ask for a token.
    pub require_auth: bool,
    /// Whether answers are kept in a shared cache.
    pub shared_cache: bool,
    pub schema: TableSchema,
    pub parameters: Json,
    /// What the configured parameters were taken apart into.
    pub splits: Vec<Vec<Split>>,
    pub limits: PageLimits,
}

/// Whether a request asks for its answer to be kept.
pub open spec fn asks_to_keep(params: Fields) -> bool {
    match lookup(params, "redis"@) {
        Some(JsonV::Bool(b)) => b,
        Some(JsonV::Str(s)) => {
            let t = ascii_lower(s);
            t == "true"@ || t == "1"@ || t == "yes"@
        },
        Some(JsonV::Int(n)) => n != 0,
        _ => false,
    }
}

/// Whether a request asks for its answer to be kept.
pub fn keeping_wanted(params: &Vec<(String, Json)>) -> (r: bool)
    ensures
        r == asks_to_keep(params.deep_view()),
{
    match get_in(params, "redis") {
        Some(v) => match v {
            Json::Bool(b) => *b,
            Json::Str(s) => {
                let t = to_ascii_lower(s.as_str());
                same(t.as_str(), "true") || same(t.as_str(), "1") || same(t.as_str(), "yes")
            },
            Json::Int(n) => *n != 0,
            _ => false,
        },
        None => false,
    }
}

/// Where the request stands.
#[derive(Debug, PartialEq, Eq, Clone, Copy, Structural)]
pub enum ReadStage {
    Start,
    Token,
    Access,
    LookingUp,
    LookingUpShared,
    Querying,
    Ended,
}

/// A request under way: the actor is the bearer of the token.
#[derive(Debug)]
pub struct Lookup {
    pub request: ReadRequest,
    pub stage: ReadStage,
    pub actor: String,
}

/// What follows from a step: where the request stands, who makes it and what it
/// asks for.
pub type ReadTurn = (ReadStage, Seq<char>, ActionV);

/// The request is refused.
pub open spec fn read_fails(actor: Seq<char>, status: u16, message: Seq<char>) -> ReadTurn {
    (ReadStage::Ended, actor, ActionV::Answer(refused(status, message)))
}

/// The request cannot be carried out.
pub open spec fn read_faults(actor: Seq<char>) -> ReadTurn {
    (ReadStage::Ended, actor, ActionV::Fault)
}

/// Whether the request needs a token.
pub open spec fn read_guarded(q: ReadRequest) -> bool {
    q.require_auth && !q.is_public
}

/// The parameters that are not for the cache.
pub open spec fn kept_params(q: ReadRequest) -> Fields {
    without_key(fields_of(q.parameters.deep_view()), "redis"@)
}

/// Whether the answer is looked up, and kept.
pub open spec fn is_kept(q: ReadRequest) -> bool {
    asks_to_keep(fields_of(q.parameters.deep_view())) || q.schema.redis_ttl > 0
}

/// What is said of an entity without columns.
pub open spec fn no_columns(route: Seq<char>) -> Seq<char> {
    "ER02(nocode_get): No columns defined for GET operation on entity "@ + route
}

/// The request is checked, and its answer is looked up.
pub open spec fn read_admitted(q: ReadRequest, actor: Seq<char>) -> ReadTurn {
    let params = fields_of(q.parameters.deep_view());
    let missing = missing_required(q.schema.get.parameters.deep_view(), params);
    if q.schema.table@.len() == 0 {
        read_fails(actor, 424, unknown_entity(q.route@))
    } else if q.schema.get.columns@.len() == 0 {
        read_fails(actor, 424, no_columns(q.route@))
    } else if !(q.parameters.deep_view() is Object) {
        read_fails(actor, 400, "Invalid parameters format"@)
    } else if missing.len() > 0 {
        read_fails(actor, 400, "Required parameters missing: "@ + join(missing, ", "@))
    } else if is_kept(q) {
        (
            ReadStage::LookingUp,
            actor,
            ActionV::LookUpLocal(tenant(actor), key_suffix(kept_params(q))),
        )
    } else {
        read_missed(q, actor)
    }
}

/// The rows are read.
pub open spec fn read_missed(q: ReadRequest, actor: Seq<char>) -> ReadTurn {
    if splits_fit(names_of(q.schema.get.parameters.deep_view(), true), q.splits.deep_view()) {
        match fetch_query(q.schema, kept_params(q), q.splits.deep_view(), q.limits) {
            Some(query) => (ReadStage::Querying, actor, ActionV::RunQuery(query)),
            None => read_faults(actor),
        }
    } else {
        read_faults(actor)
    }
}

/// For how long an answer is kept in the shared cache: five minutes where nothing
/// is configured.
pub open spec fn keeping_time(schema: TableSchema) -> usize {
    if schema.redis_ttl > 0 {
        schema.redis_ttl as usize
    } else {
        300
    }
}

/// The rows are answered, and the answer is kept where it is to be.
pub open spec fn read_found(q: ReadRequest, actor: Seq<char>, rows: Seq<JsonV>) -> ReadTurn {
    (
        ReadStage::Ended,
        actor,
        if is_kept(q) {
            ActionV::KeepAndAnswer(
                tenant(actor),
                key_suffix(kept_params(q)),
                true,
                if q.shared_cache {
                    Some(keeping_time(q.schema))
                } else {
                    None
                },
                found_rows(rows),
            )
        } else {
            ActionV::Answer(found_rows(rows))
        },
    )
}

/// The next step of a request.
pub open spec fn read_next(q: ReadRequest, stage: ReadStage, actor: Seq<char>, o: Outcome) -> ReadTurn {
    match stage {
        ReadStage::Start => if read_guarded(q) {
            (ReadStage::Token, actor, ActionV::VerifyToken)
        } else {
            read_admitted(q, actor)
        },
        ReadStage::Token => match o {
            Outcome::Identified(id) => (ReadStage::Access, id@, ActionV::CheckRequest),
            _ => read_fails(actor, 401, "Invalid token"@),
        },
        ReadStage::Access => match failure_in(o) {
            Some(e) => read_fails(actor, 401, "Unauthorized: "@ + e),
            None => read_admitted(q, actor),
        },
        ReadStage::LookingUp => match o {
            Outcome::Found => (ReadStage::Ended, actor, ActionV::AnswerFound),
            _ => if q.shared_cache {
                (
                    ReadStage::LookingUpShared,
                    actor,
                    ActionV::LookUpShared(tenant(actor), key_suffix(kept_params(q))),
                )
            } else {
                read_missed(q, actor)
            },
        },
        ReadStage::LookingUpShared => match o {
            Outcome::Found => (ReadStage::Ended, actor, ActionV::AnswerFound),
            _ => read_missed(q, actor),
        },
        ReadStage::Querying => match o {
            Outcome::QueryFailed(e, query) => read_fails(
                actor,
                500,
                fetch_failure(q.route@, e@, query@),
            ),
            _ => match failure_in(o) {
                Some(e) => read_fails(actor, 500, fetch_failure(q.route@, e, Seq::empty())),
                None => read_found(q, actor, rows_in(o)),
            },
        },
        ReadStage::Ended => (ReadStage::Ended, actor, ActionV::Nothing),
    }
}

/// A request that has not begun.
pub fn process_get_request(request: ReadRequest) -> (r: Lookup)
    ensures
        r.request == request,
        r.stage == ReadStage::Start,
        r.actor@ == Seq::<char>::empty(),
{
    Lookup { request, stage: ReadStage::Start, actor: String::new() }
}

fn fields_in(v: &Json) -> (r: Vec<(String, Json)>)
    ensures
        r.deep_view() == fields_of(v.deep_view()),
{
    broadcast use lemma_object_view;

    match v {
        Json::Object(fields) => copy_fields(fields),
        _ => {
            let none: Vec<(String, Json)> = Vec::new();
            assert(none.deep_view() =~= Seq::empty());
            none
        },
    }
}

impl Lookup {
    /// Where the request stands, who makes it, and what it asks for.
    pub open spec fn turn(&self, a: Action) -> ReadTurn {
        (self.stage, self.actor@, a.deep_view())
    }

    fn fail(&mut self, status: u16, message: String) -> (r: Action)
        ensures
            final(self).request == old(self).request,
            final(self).turn(r) == read_fails(old(self).actor@, status, message@),
    {
        self.stage = ReadStage::Ended;
        Action::Answer(refuse(status, message))
    }

    fn fault(&mut self) -> (r: Action)
        ensures
            final(self).request == old(self).request,
            final(self).turn(r) == read_faults(old(self).actor@),
    {
        self.stage = ReadStage::Ended;
        Action::Fault
    }

    fn tenant(&self) -> (r: String)
        ensures
            r@ == tenant(self.actor@),
    {
        if self.actor.as_str().is_empty() {
            "public".to_owned()
        } else {
            self.actor.clone()
        }
    }

    fn params(&self) -> (r: Vec<(String, Json)>)
        ensures
            r.deep_view() == kept_params(self.request),
    {
        let all = fields_in(&self.request.parameters);
        copy_without(&all, "redis")
    }

    fn suffix(&self) -> (r: String)
        ensures
            r@ == key_suffix(kept_params(self.request)),
    {
        let params = self.params();
        build_key_suffix(&params)
    }

    fn kept(&self) -> (r: bool)
        ensures
            r == is_kept(self.request),
    {
        let all = fields_in(&self.request.parameters);
        keeping_wanted(&all) || self.request.schema.redis_ttl > 0
    }

    fn admitted(&mut self) -> (r: Action)
        ensures
            final(self).request == old(self).request,
            final(self).turn(r) == read_admitted(old(self).request, old(self).actor@),
    {
        if self.request.schema.table.as_str().is_empty() {
            let m = say_unknown_entity(self.request.route.as_str());
            return self.fail(424, m);
        }
        if self.request.schema.get.columns.len() == 0 {
            let m = told(
                "ER02(nocode_get): No columns defined for GET operation on entity ",
                self.request.route.as_str(),
            );
            return self.fail(424, m);
        }
        let object = match self.request.parameters {
            Json::Object(_) => true,
            _ => false,
        };
        if !object {
            return self.fail(400, "Invalid parameters format".to_owned());
        }
        let all = fields_in(&self.request.parameters);
        let mut names = copy_texts(&self.request.schema.get.parameters);
        let missing = collect_missing_required_params(&mut names, &all);
        assert(missing.deep_view().len() == missing@.len());
        if missing.len() > 0 {
            let list = joined(&missing, ", ");
            return self.fail(400, told("Required parameters missing: ", list.as_str()));
        }
        if self.kept() {
            let tenant = self.tenant();
            let suffix = self.suffix();
            self.stage = ReadStage::LookingUp;
            Action::LookUpLocal(tenant, suffix)
        } else {
            self.missed()
        }
    }

    fn missed(&mut self) -> (r: Action)
        ensures
            final(self).request == old(self).request,
            final(self).turn(r) == read_missed(old(self).request, old(self).actor@),
    {
        let names = parameter_names(&self.request.schema.get.parameters, true);
        if do_splits_fit(&names, &self.request.splits) {
            let params = self.params();
            match fetch_dynamic_data(
                &self.request.schema,
                &params,
                &self.request.splits,
                self.request.limits,
            ) {
                Some(query) => {
                    self.stage = ReadStage::Querying;
                    Action::RunQuery(query)
                },
                None => self.fault(),
            }
        } else {
            self.fault()
        }
    }

    fn found(&mut self, rows: Vec<Json>) -> (r: Action)
        ensures
            final(self).request == old(self).request,
            final(self).turn(r) == read_found(
                old(self).request,
                old(self).actor@,
                rows.deep_view(),
            ),
    {
        self.stage = ReadStage::Ended;
        let reply = say_found_rows(rows);
        if self.kept() {
            let tenant = self.tenant();
            let suffix = self.suffix();
            let time: Option<usize> = if self.request.shared_cache {
                if self.request.schema.redis_ttl > 0 {
                    Some(self.request.schema.redis_ttl as usize)
                } else {
                    Some(300)
                }
            } else {
                None
            };
            Action::KeepAndAnswer(tenant, suffix, true, time, reply)
        } else {
            Action::Answer(reply)
        }
    }

    /// Takes the next step of the request, with what came of the last one.
    pub fn step(&mut self, outcome: Outcome) -> (r: Action)
        ensures
            final(self).request == old(self).request,
            (final(self).stage, final(self).actor@, r.deep_view()) == read_next(
                old(self).request,
                old(self).stage,
                old(self).actor@,
                outcome,
            ),
    {
        match self.stage {
            ReadStage::Start => {
                if self.request.require_auth && !self.request.is_public {
                    self.stage = ReadStage::Token;
                    Action::VerifyToken
                } else {
                    self.admitted()
                }
            },
            ReadStage::Token => match outcome {
                Outcome::Identified(id) => {
                    self.actor = id;
                    self.stage = ReadStage::Access;
                    Action::CheckRequest
                },
                _ => self.fail(401, "Invalid token".to_owned()),
            },
            ReadStage::Access => match failure(&outcome) {
                Some(e) => self.fail(401, told("Unauthorized: ", e)),
                None => self.admitted(),
            },
            ReadStage::LookingUp => match outcome {
                Outcome::Found => {
                    self.stage = ReadStage::Ended;
                    Action::AnswerFound
                },
                _ => if self.request.shared_cache {
                    let tenant = self.tenant();
                    let suffix = self.suffix();
                    self.stage = ReadStage::LookingUpShared;
                    Action::LookUpShared(tenant, suffix)
                } else {
                    self.missed()
                },
            },
            ReadStage::LookingUpShared => match outcome {
                Outcome::Found => {
                    self.stage = ReadStage::Ended;
                    Action::AnswerFound
                },
                _ => self.missed(),
            },
            ReadStage::Querying => match outcome {
                Outcome::QueryFailed(e, query) => {
                    let m = say_fetch_failure(
                        self.request.route.as_str(),
                        e.as_str(),
                        query.as_str(),
                    );
                    self.fail(500, m)
                },
                _ => {
                    let e: Option<String> = match failure(&outcome) {
                        Some(e) => Some(e.to_owned()),
                        None => None,
                    };
                    match e {
                        Some(e) => {
                            proof {
                                reveal_strlit("");
                                assert(""@ =~= Seq::<char>::empty());
                            }
                            let m = say_fetch_failure(
                                self.request.route.as_str(),
                                e.as_str(),
                                "",
                            );
                            self.fail(500, m)
                        },
                        None => {
                            let rows = take_rows(outcome);
                            self.found(rows)
                        },
                    }
                },
            },
            ReadStage::Ended => Action::Nothing,
        }
    }
}

// ---------------------------------------------------------------------------
// Laws
// ---------------------------------------------------------------------------

/// Where a request stands, and who makes it, after some outcomes.
pub open spec fn read_after(q: ReadRequest, outcomes: Seq<Outcome>) -> (ReadStage, Seq<char>)
    decreases outcomes.len(),
{
    if outcomes.len() == 0 {
        (ReadStage::Start, Seq::empty())
    } else {
        let (stage, actor) = read_after(q, outcomes.drop_last());
        let (s, a, _) = read_next(q, stage, actor, outcomes.last());
        (s, a)
    }
}

/// What a request asks for after some outcomes.
pub open spec fn read_asks(q: ReadRequest, outcomes: Seq<Outcome>) -> ActionV {
    let (stage, actor) = read_after(q, outcomes.drop_last());
    read_next(q, stage, actor, outcomes.last()).2
}

/// Whether the outcome at `k` answered a check of access, and granted it.
pub open spec fn read_granted_at(q: ReadRequest, outcomes: Seq<Outcome>, k: int) -> bool {
    &&& 0 < k < outcomes.len()
    &&& checks_access(read_asks(q, outcomes.take(k)))
    &&& failure_in(outcomes[k]) is None
}

/// The stages that come before access is granted.
pub open spec fn read_before_access(stage: ReadStage) -> bool {
    stage == ReadStage::Start || stage == ReadStage::Token || stage == ReadStage::Access || stage
        == ReadStage::Ended
}

proof fn lemma_read_granted(q: ReadRequest, outcomes: Seq<Outcome>)
    requires
        read_guarded(q),
    ensures
        !read_before_access(read_after(q, outcomes).0) ==> exists|k: int|
            read_granted_at(q, outcomes, k),
        read_after(q, outcomes).0 == ReadStage::Access ==> outcomes.len() > 0 && checks_access(
            read_asks(q, outcomes),
        ),
    decreases outcomes.len(),
{
    if outcomes.len() > 0 {
        let before = outcomes.drop_last();
        lemma_read_granted(q, before);
        let stage = read_after(q, before).0;
        if !read_before_access(read_after(q, outcomes).0) {
            if read_before_access(stage) {
                let k = outcomes.len() - 1;
                assert(outcomes.take(k) =~= before);
                assert(read_granted_at(q, outcomes, k));
            } else {
                let k = choose|k: int| read_granted_at(q, before, k);
                assert(before.take(k) =~= outcomes.take(k));
                assert(before[k] == outcomes[k]);
                assert(read_granted_at(q, outcomes, k));
            }
        }
    }
}

/// Where a request needs a token, no row is read, from the store or a cache,
/// unless access was checked and granted before.
pub proof fn law_read_is_guarded(q: ReadRequest, outcomes: Seq<Outcome>)
    requires
        read_guarded(q),
        outcomes.len() > 0,
        touches_data(read_asks(q, outcomes)),
    ensures
        exists|k: int| read_granted_at(q, outcomes, k),
{
    let before = outcomes.drop_last();
    lemma_read_granted(q, before);
    let stage = read_after(q, before).0;
    if read_before_access(stage) {
        assert(stage == ReadStage::Access);
        let k = outcomes.len() - 1;
        assert(outcomes.take(k) =~= before);
        assert(read_granted_at(q, outcomes, k));
    } else {
        let k = choose|k: int| read_granted_at(q, before, k);
        assert(before.take(k) =~= outcomes.take(k));
        assert(before[k] == outcomes[k]);
        assert(read_granted_at(q, outcomes, k));
    }
}

/// What is looked up in a cache, and what is kept there, is that of the same user
/// and the same parameters.
pub proof fn law_kept_answers_are_per_user(
    q: ReadRequest,
    stage: ReadStage,
    actor: Seq<char>,
    o: Outcome,
)
    ensures
        ({
            let a = read_next(q, stage, actor, o).2;
            &&& a matches ActionV::LookUpLocal(t, s) ==> t == tenant(actor) && s == key_suffix(
                kept_params(q),
            )
            &&& a matches ActionV::LookUpShared(t, s) ==> t == tenant(actor) && s == key_suffix(
                kept_params(q),
            )
            &&& a matches ActionV::KeepAndAnswer(t, s, _, _, _) ==> t == tenant(actor) && s
                == key_suffix(kept_params(q))
        }),
{
}


/// What a request reads: whenever a query is run, it is on the table of the entity,
/// selects the configured columns, and finds the rows that the parameters ask
/// for, and no others.
pub proof fn law_read_reads_what_is_asked_for(
    q: ReadRequest,
    stage: ReadStage,
    actor: Seq<char>,
    o: Outcome,
    row: RowV,
    by: Collation,
)
    requires
        read_next(q, stage, actor, o).2 is RunQuery,
    ensures
        is_reading(
            read_next(q, stage, actor, o).2->RunQuery_0,
            q.schema,
            Seq::new(
                q.schema.get.parameters@.len(),
                |i: int| strip_front(q.schema.get.parameters@[i]@, '*'),
            ),
            without_key(fields_of(q.parameters.deep_view()), "redis"@),
            q.splits.deep_view(),
            (ReadRules {
                stars: true,
                skips_empty: true,
                lists: false,
                sonic: false,
                any_case: true,
            }),
            row,
            by,
        ),
{
    let names = names_of(q.schema.get.parameters.deep_view(), true);
    assert(names =~= Seq::new(
        q.schema.get.parameters@.len(),
        |i: int| strip_front(q.schema.get.parameters@[i]@, '*'),
    ));
    let query = read_next(q, stage, actor, o).2->RunQuery_0;
    law_queries_read_what_is_configured(
        q.schema,
        kept_params(q),
        q.splits.deep_view(),
        fetch_rules(),
        query.joins,
        query.having,
        (query.limit, query.offset),
        row,
        by,
    );
    assert(fetch_query(q.schema, kept_params(q), q.splits.deep_view(), q.limits) == Some(query));
}

/// A request that names a page and how many rows it wants gets that page: the query
/// that is run takes so many rows, behind those of the pages before it. One that
/// names neither gets the usual number of rows, from the first on.
pub proof fn law_read_reads_its_page(
    q: ReadRequest,
    stage: ReadStage,
    actor: Seq<char>,
    o: Outcome,
    page: int,
    rows: int,
)
    requires
        read_next(q, stage, actor, o).2 is RunQuery,
    ensures
        ({
            let names = Seq::new(
                q.schema.get.parameters@.len(),
                |i: int| strip_front(q.schema.get.parameters@[i]@, '*'),
            );
            let params = fields_of(q.parameters.deep_view());
            let query = read_next(q, stage, actor, o).2->RunQuery_0;
            &&& names.contains("page"@) && names.contains("limit"@) && lookup(params, "page"@)
                == Some(JsonV::Str(int_text(page))) && lookup(params, "limit"@) == Some(
                JsonV::Str(int_text(rows)),
            ) && 1 <= page <= i32::MAX && 1 <= rows <= q.limits.max_rows && (page - 1) * rows
                <= i32::MAX ==> {
                &&& query.limit == Some(rows as u32)
                &&& query.offset == Some(((page - 1) * rows) as u32)
            }
            &&& lookup(params, "page"@) is None && lookup(params, "limit"@) is None
                && q.limits.default_rows >= 0 ==> {
                &&& query.limit == Some(q.limits.default_rows as u32)
                &&& query.offset == Some(0u32)
            }
        }),
{
    let names = names_of(q.schema.get.parameters.deep_view(), true);
    assert(names =~= Seq::new(
        q.schema.get.parameters@.len(),
        |i: int| strip_front(q.schema.get.parameters@[i]@, '*'),
    ));
    let params = fields_of(q.parameters.deep_view());
    let query = read_next(q, stage, actor, o).2->RunQuery_0;
    assert(fetch_query(q.schema, kept_params(q), q.splits.deep_view(), q.limits) == Some(query));
    reveal_strlit("redis");
    reveal_strlit("page");
    reveal_strlit("limit");
    assert("redis"@.len() != "page"@.len());
    assert("redis"@[0] != "limit"@[0]);
    law_others_stay(params, "redis"@, "page"@);
    law_others_stay(params, "redis"@, "limit"@);
    if names.contains("page"@) && names.contains("limit"@) && lookup(params, "page"@) == Some(
        JsonV::Str(int_text(page)),
    ) && lookup(params, "limit"@) == Some(JsonV::Str(int_text(rows))) && 1 <= page <= i32::MAX
        && 1 <= rows <= q.limits.max_rows && (page - 1) * rows <= i32::MAX {
        law_pages_adjoin(names, kept_params(q), q.limits, page, rows);
    }
    if lookup(params, "page"@) is None && lookup(params, "limit"@) is None && q.limits.default_rows
        >= 0 {
        law_usual_pages(names, kept_params(q), q.limits);
    }
}

/// The rows that a query found are the rows that are answered, with success, and in
/// their order; and a failed query is answered with an error.
pub proof fn law_read_answers_what_was_found(q: ReadRequest, actor: Seq<char>, o: Outcome)
    ensures
        match read_next(q, ReadStage::Querying, actor, o).2 {
            ActionV::Answer(r) => if failure_in(o) is None && !(o is QueryFailed) {
                r.status == 200 && r.body.success && r.body.data == JsonV::Array(rows_in(o))
            } else {
                r.status == 500 && !r.body.success
            },
            ActionV::KeepAndAnswer(_, _, _, _, r) => {
                &&& failure_in(o) is None
                &&& !(o is QueryFailed)
                &&& r.status == 200
                &&& r.body.success
                &&& r.body.data == JsonV::Array(rows_in(o))
            },
            _ => false,
        },
{
}

} // verus!
