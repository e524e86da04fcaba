//! Reading rows.
use crate::ast::{Collation, Query, QueryV, RowV};
use crate::caching::{build_key_suffix, key_suffix};
use crate::filters::{Split, SplitV};
use crate::flow::{
    failure, failure_in, refuse, refused, rows_in, succeed, succeeded, told, touches_data, Action,
    ActionV, Outcome, Reply, ReplyV,
};
use crate::json::{
    copy_without, get_in, lemma_array_view, lookup, without_key, Json, JsonV,
};
use crate::model::TableSchema;
use crate::number::int_text;
use crate::ordering::aliases_are_cut;
use crate::post::{take_rows, Fields};
use crate::reading::{
    build_having, build_joins, build_query, configured_joins, do_splits_fit, having_of, is_reading,
    joins_of, law_others_stay, law_pages_adjoin, law_queries_read_what_is_configured,
    law_usual_pages, names_of, parameter_names, query_of, read_configured_joins, read_window,
    splits_fit, window_of, PageLimits, ReadRules,
};
use crate::text::same;
use vstd::prelude::*;
use vstd::string::*;

verus! {

/// A request to read rows.
#[derive(Debug)]
pub struct SelectRequest {
    pub route: String,
    /// The address of the client.
    pub ip: String,
    /// Whether the route is open to everyone.
    pub is_public: bool,
    /// How many requests a client, and a user, may make in a second; none is
    /// counted where it is not positive.
    pub limit_per_second: i64,
    pub schema: TableSchema,
    pub params: Vec<(String, Json)>,
    /// What the configured parameters were taken apart into.
    pub splits: Vec<Vec<Split>>,
    pub limits: PageLimits,
    /// What is said of a token that is not valid, and of one that does not
    /// suffice.
    pub invalid_token: String,
    pub unauthorized: String,
}

// ---------------------------------------------------------------------------
// The query
// ---------------------------------------------------------------------------

/// How the parameters of a request are treated.
pub open spec fn select_rules() -> ReadRules {
    ReadRules { stars: false, skips_empty: false, lists: false, sonic: true, any_case: true }
}

/// The query of a request. None where the rows cannot be counted, or where the
/// alias of a selected column cannot be cut off.
pub open spec fn select_query(
    schema: TableSchema,
    params: Fields,
    splits: Seq<Seq<SplitV>>,
    limits: PageLimits,
) -> Option<QueryV> {
    let names = names_of(schema.get.parameters.deep_view(), false);
    match window_of(names, params, limits) {
        Some((limit, offset)) => if aliases_are_cut(schema.get.columns.deep_view()) {
            Some(
                query_of(
                    schema,
                    params,
                    splits,
                    select_rules(),
                    joins_of(
                        schema.get.join_tables@,
                        configured_joins(schema.get.parameters.deep_view(), params),
                        true,
                    ),
                    having_of(schema, false),
                    (Some(limit), Some(offset)),
                ),
            )
        } else {
            None
        },
        None => None,
    }
}

/// The query of a request.
pub fn build_select(
    schema: &TableSchema,
    params: &Vec<(String, Json)>,
    splits: &Vec<Vec<Split>>,
    limits: PageLimits,
) -> (r: Option<Query>)
    requires
        splits_fit(names_of(schema.get.parameters.deep_view(), false), splits.deep_view()),
    ensures
        r.deep_view() == select_query(*schema, params.deep_view(), splits.deep_view(), limits),
{
    let names = parameter_names(&schema.get.parameters, false);
    match read_window(&names, params, limits) {
        Some((limit, offset)) => {
            let given = read_configured_joins(&schema.get.parameters, params);
            let joins = build_joins(&schema.get.join_tables, &given, true);
            let having = build_having(schema, false);
            let rules = ReadRules {
                stars: false,
                skips_empty: false,
                lists: false,
                sonic: true,
                any_case: true,
            };
            build_query(
                schema,
                params,
                splits,
                rules,
                joins,
                having,
                Some(limit),
                Some(offset),
            )
        },
        None => None,
    }
}

/// Whether a request asks for the shared cache.
pub open spec fn asks_for_cache(params: Fields) -> bool {
    match lookup(params, "redis"@) {
        Some(JsonV::Bool(b)) => b,
        Some(JsonV::Str(s)) => s == "true"@,
        _ => false,
    }
}

/// Whether a request asks for the shared cache.
pub fn cache_wanted(params: &Vec<(String, Json)>) -> (r: bool)
    ensures
        r == asks_for_cache(params.deep_view()),
{
    match get_in(params, "redis") {
        Some(v) => match v {
            Json::Bool(b) => *b,
            Json::Str(s) => same(s.as_str(), "true"),
            _ => false,
        },
        None => false,
    }
}

// ---------------------------------------------------------------------------
// The steps
// ---------------------------------------------------------------------------

/// Where a reading stands.
#[derive(Debug, PartialEq, Eq, Clone, Copy, Structural)]
pub enum SelectStage {
    Start,
    Limiting,
    Token,
    Access,
    LimitingUser,
    LookingUp,
    Dropping,
    Querying,
    Ended,
}

/// A reading under way: the actor is the bearer of the token.
#[derive(Debug)]
pub struct Selection {
    pub request: SelectRequest,
    pub stage: SelectStage,
    pub actor: String,
}

/// What follows from a step: where the reading stands, who makes it and what it
/// asks for.
pub type SelectTurn = (SelectStage, Seq<char>, ActionV);

/// The request is answered.
pub open spec fn select_ends(actor: Seq<char>, a: ActionV) -> SelectTurn {
    (SelectStage::Ended, actor, a)
}

/// The request is refused.
pub open spec fn select_answers(actor: Seq<char>, status: u16, message: Seq<char>) -> SelectTurn {
    select_ends(actor, ActionV::Answer(refused(status, message)))
}

/// How often something may be counted: a limit in 32 bits.
pub open spec fn limit_bits(n: i64) -> u32 {
    (n % 0x1_0000_0000) as u32
}

/// The key under which the requests of a client are counted.
pub open spec fn client_key(q: SelectRequest) -> Seq<char> {
    "get:"@ + q.route@ + ":"@ + q.ip@
}

/// The key under which the requests of a user are counted.
pub open spec fn user_key(q: SelectRequest, actor: Seq<char>) -> Seq<char> {
    "get:"@ + q.route@ + ":user:"@ + actor
}

/// What is said of an entity that is not configured.
pub open spec fn unknown_entity(route: Seq<char>) -> Seq<char> {
    "ER01(nocode_get): Entity "@ + route + " on folder config/"@ + route + ".json not found"@
}

/// Whose answers are kept: the user's, or everyone's.
pub open spec fn tenant(actor: Seq<char>) -> Seq<char> {
    if actor.len() > 0 {
        actor
    } else {
        "public"@
    }
}

/// The parameters that are not for the cache.
pub open spec fn read_params(q: SelectRequest) -> Fields {
    without_key(q.params.deep_view(), "redis"@)
}

/// What follows once the client's requests are counted.
pub open spec fn select_counted(q: SelectRequest, actor: Seq<char>) -> SelectTurn {
    if q.is_public {
        select_admitted(q, actor)
    } else {
        (SelectStage::Token, actor, ActionV::VerifyToken)
    }
}

/// What follows once the actor may read: the caches.
pub open spec fn select_admitted(q: SelectRequest, actor: Seq<char>) -> SelectTurn {
    if q.schema.table@.len() == 0 {
        select_answers(actor, 424, unknown_entity(q.route@))
    } else {
        let suffix = key_suffix(read_params(q));
        if asks_for_cache(q.params.deep_view()) {
            (SelectStage::LookingUp, actor, ActionV::LookUpShared(tenant(actor), suffix))
        } else {
            (SelectStage::Dropping, actor, ActionV::DropShared(tenant(actor), suffix))
        }
    }
}

/// What follows once the answer is not in a cache.
pub open spec fn select_missed(q: SelectRequest, actor: Seq<char>) -> SelectTurn {
    let names = names_of(q.schema.get.parameters.deep_view(), false);
    if splits_fit(names, q.splits.deep_view()) {
        match select_query(q.schema, read_params(q), q.splits.deep_view(), q.limits) {
            Some(query) => (SelectStage::Querying, actor, ActionV::RunQuery(query)),
            None => select_ends(actor, ActionV::Fault),
        }
    } else {
        select_ends(actor, ActionV::Fault)
    }
}

/// The answer with some rows.
pub open spec fn found_rows(rows: Seq<JsonV>) -> ReplyV {
    succeeded("Data found"@, 9999, JsonV::Array(rows))
}

/// The answer with some rows.
pub fn say_found_rows(rows: Vec<Json>) -> (r: Reply)
    ensures
        r.deep_view() == found_rows(rows.deep_view()),
{
    broadcast use lemma_array_view;

    succeed("Data found", 9999, Json::Array(rows))
}

/// What follows from the rows of a query.
pub open spec fn select_found(q: SelectRequest, actor: Seq<char>, rows: Seq<JsonV>) -> SelectTurn {
    if asks_for_cache(q.params.deep_view()) && q.schema.redis_ttl > 0 {
        select_ends(
            actor,
            ActionV::KeepAndAnswer(
                tenant(actor),
                key_suffix(read_params(q)),
                false,
                Some(q.schema.redis_ttl as usize),
                found_rows(rows),
            ),
        )
    } else {
        select_ends(actor, ActionV::Answer(found_rows(rows)))
    }
}

/// The next step of a reading.
pub open spec fn select_next(
    q: SelectRequest,
    stage: SelectStage,
    actor: Seq<char>,
    outcome: Outcome,
) -> SelectTurn {
    match stage {
        SelectStage::Start => if q.limit_per_second > 0 {
            (
                SelectStage::Limiting,
                actor,
                ActionV::RateLimit(client_key(q), limit_bits(q.limit_per_second)),
            )
        } else {
            select_counted(q, actor)
        },
        SelectStage::Limiting => match failure_in(outcome) {
            Some(_) => select_answers(actor, 429, "Too many requests"@),
            None => select_counted(q, actor),
        },
        SelectStage::Token => match outcome {
            Outcome::Identified(id) => (
                SelectStage::Access,
                id@,
                ActionV::CheckAccess("read"@),
            ),
            _ => select_answers(actor, 401, q.invalid_token@),
        },
        SelectStage::Access => match failure_in(outcome) {
            Some(_) => select_answers(actor, 401, q.unauthorized@),
            None => if q.limit_per_second > 0 && actor.len() > 0 {
                (
                    SelectStage::LimitingUser,
                    actor,
                    ActionV::RateLimit(user_key(q, actor), limit_bits(q.limit_per_second)),
                )
            } else {
                select_admitted(q, actor)
            },
        },
        SelectStage::LimitingUser => match failure_in(outcome) {
            Some(_) => select_answers(actor, 429, "Too many requests"@),
            None => select_admitted(q, actor),
        },
        SelectStage::LookingUp => match outcome {
            Outcome::Found => select_ends(actor, ActionV::AnswerFound),
            _ => select_missed(q, actor),
        },
        SelectStage::Dropping => select_missed(q, actor),
        SelectStage::Querying => match failure_in(outcome) {
            Some(e) => select_answers(actor, 500, "Error NCO-GET(AST): "@ + e),
            None => select_found(q, actor, rows_in(outcome)),
        },
        SelectStage::Ended => select_ends(actor, ActionV::Nothing),
    }
}

/// A reading that has not begun.
pub fn select(request: SelectRequest) -> (r: Selection)
    ensures
        r.request == request,
        r.stage == SelectStage::Start,
        r.actor@ == Seq::<char>::empty(),
{
    Selection { request, stage: SelectStage::Start, actor: String::new() }
}

/// What is said of an entity that is not configured.
pub fn say_unknown_entity(route: &str) -> (r: String)
    ensures
        r@ == unknown_entity(route@),
{
    let mut m = "ER01(nocode_get): Entity ".to_owned();
    m.append(route);
    m.append(" on folder config/");
    m.append(route);
    m.append(".json not found");
    m
}

fn limit_of(n: i64) -> (r: u32)
    requires
        n > 0,
    ensures
        r == limit_bits(n),
{
    (n % 0x1_0000_0000) as u32
}

impl Selection {
    fn answer(&mut self, status: u16, message: String) -> (r: Action)
        ensures
            final(self).request == old(self).request,
            (final(self).stage, final(self).actor@, r.deep_view()) == select_answers(
                old(self).actor@,
                status,
                message@,
            ),
    {
        self.stage = SelectStage::Ended;
        Action::Answer(refuse(status, message))
    }

    fn tenant(&self) -> (r: String)
        ensures
            r@ == tenant(self.actor@),
    {
        if self.actor.as_str().is_empty() {
            "public".to_owned()
        } else {
            self.actor.clone()
        }
    }

    fn suffix(&self) -> (r: String)
        ensures
            r@ == key_suffix(read_params(self.request)),
    {
        let params = copy_without(&self.request.params, "redis");
        build_key_suffix(&params)
    }

    fn counted(&mut self) -> (r: Action)
        ensures
            final(self).request == old(self).request,
            (final(self).stage, final(self).actor@, r.deep_view()) == select_counted(
                old(self).request,
                old(self).actor@,
            ),
    {
        if self.request.is_public {
            self.admitted()
        } else {
            self.stage = SelectStage::Token;
            Action::VerifyToken
        }
    }

    fn admitted(&mut self) -> (r: Action)
        ensures
            final(self).request == old(self).request,
            (final(self).stage, final(self).actor@, r.deep_view()) == select_admitted(
                old(self).request,
                old(self).actor@,
            ),
    {
        if self.request.schema.table.as_str().is_empty() {
            let message = say_unknown_entity(self.request.route.as_str());
            return self.answer(424, message);
        }
        let tenant = self.tenant();
        let suffix = self.suffix();
        if cache_wanted(&self.request.params) {
            self.stage = SelectStage::LookingUp;
            Action::LookUpShared(tenant, suffix)
        } else {
            self.stage = SelectStage::Dropping;
            Action::DropShared(tenant, suffix)
        }
    }

    fn missed(&mut self) -> (r: Action)
        ensures
            final(self).request == old(self).request,
            (final(self).stage, final(self).actor@, r.deep_view()) == select_missed(
                old(self).request,
                old(self).actor@,
            ),
    {
        let names = parameter_names(&self.request.schema.get.parameters, false);
        if do_splits_fit(&names, &self.request.splits) {
            let params = copy_without(&self.request.params, "redis");
            match build_select(
                &self.request.schema,
                &params,
                &self.request.splits,
                self.request.limits,
            ) {
                Some(query) => {
                    self.stage = SelectStage::Querying;
                    Action::RunQuery(query)
                },
                None => {
                    self.stage = SelectStage::Ended;
                    Action::Fault
                },
            }
        } else {
            self.stage = SelectStage::Ended;
            Action::Fault
        }
    }

    fn found(&mut self, rows: Vec<Json>) -> (r: Action)
        ensures
            final(self).request == old(self).request,
            (final(self).stage, final(self).actor@, r.deep_view()) == select_found(
                old(self).request,
                old(self).actor@,
                rows.deep_view(),
            ),
    {
        let reply = say_found_rows(rows);
        self.stage = SelectStage::Ended;
        if cache_wanted(&self.request.params) && self.request.schema.redis_ttl > 0 {
            let ttl: usize = self.request.schema.redis_ttl as usize;
            Action::KeepAndAnswer(self.tenant(), self.suffix(), false, Some(ttl), reply)
        } else {
            Action::Answer(reply)
        }
    }

    /// Takes the next step of the reading, with what came of the last one.
    pub fn step(&mut self, outcome: Outcome) -> (r: Action)
        ensures
            final(self).request == old(self).request,
            (final(self).stage, final(self).actor@, r.deep_view()) == select_next(
                old(self).request,
                old(self).stage,
                old(self).actor@,
                outcome,
            ),
    {
        match self.stage {
            SelectStage::Start => {
                if self.request.limit_per_second > 0 {
                    let mut key = "get:".to_owned();
                    key.append(self.request.route.as_str());
                    key.append(":");
                    key.append(self.request.ip.as_str());
                    self.stage = SelectStage::Limiting;
                    Action::RateLimit(key, limit_of(self.request.limit_per_second))
                } else {
                    self.counted()
                }
            },
            SelectStage::Limiting => match failure(&outcome) {
                Some(_) => self.answer(429, "Too many requests".to_owned()),
                None => self.counted(),
            },
            SelectStage::Token => match outcome {
                Outcome::Identified(id) => {
                    self.actor = id;
                    self.stage = SelectStage::Access;
                    Action::CheckAccess("read".to_owned())
                },
                _ => {
                    let message = self.request.invalid_token.clone();
                    self.answer(401, message)
                },
            },
            SelectStage::Access => match failure(&outcome) {
                Some(_) => {
                    let message = self.request.unauthorized.clone();
                    self.answer(401, message)
                },
                None => if self.request.limit_per_second > 0 && !self.actor.as_str().is_empty() {
                    let mut key = "get:".to_owned();
                    key.append(self.request.route.as_str());
                    key.append(":user:");
                    key.append(self.actor.as_str());
                    self.stage = SelectStage::LimitingUser;
                    Action::RateLimit(key, limit_of(self.request.limit_per_second))
                } else {
                    self.admitted()
                },
            },
            SelectStage::LimitingUser => match failure(&outcome) {
                Some(_) => self.answer(429, "Too many requests".to_owned()),
                None => self.admitted(),
            },
            SelectStage::LookingUp => match outcome {
                Outcome::Found => {
                    self.stage = SelectStage::Ended;
                    Action::AnswerFound
                },
                _ => self.missed(),
            },
            SelectStage::Dropping => self.missed(),
            SelectStage::Querying => match failure(&outcome) {
                Some(e) => self.answer(500, told("Error NCO-GET(AST): ", e)),
                None => {
                    let rows = take_rows(outcome);
                    self.found(rows)
                },
            },
            SelectStage::Ended => Action::Nothing,
        }
    }
}

// ---------------------------------------------------------------------------
// Laws
// ---------------------------------------------------------------------------

/// Where a reading stands, and who makes it, after some outcomes, one after the
/// other.
pub open spec fn select_after(q: SelectRequest, outcomes: Seq<Outcome>) -> (SelectStage, Seq<char>)
    decreases outcomes.len(),
{
    if outcomes.len() == 0 {
        (SelectStage::Start, Seq::empty())
    } else {
        let (stage, actor) = select_after(q, outcomes.drop_last());
        let (s, a, _) = select_next(q, stage, actor, outcomes.last());
        (s, a)
    }
}

/// What a reading asks for after some outcomes.
pub open spec fn select_asks(q: SelectRequest, outcomes: Seq<Outcome>) -> ActionV {
    let (stage, actor) = select_after(q, outcomes.drop_last());
    select_next(q, stage, actor, outcomes.last()).2
}

/// Whether the outcome at `k` answered a check of access, and granted it.
pub open spec fn select_granted_at(q: SelectRequest, outcomes: Seq<Outcome>, k: int) -> bool {
    &&& 0 < k < outcomes.len()
    &&& select_asks(q, outcomes.take(k)) is CheckAccess
    &&& failure_in(outcomes[k]) is None
}

/// The stages that come before access is granted.
pub open spec fn select_before_access(stage: SelectStage) -> bool {
    stage == SelectStage::Start || stage == SelectStage::Limiting || stage == SelectStage::Token
        || stage == SelectStage::Access || stage == SelectStage::Ended
}

proof fn lemma_select_granted(q: SelectRequest, outcomes: Seq<Outcome>)
    requires
        !q.is_public,
    ensures
        !select_before_access(select_after(q, outcomes).0) ==> exists|k: int|
            select_granted_at(q, outcomes, k),
        select_after(q, outcomes).0 == SelectStage::Access ==> outcomes.len() > 0 && select_asks(
            q,
            outcomes,
        ) is CheckAccess,
    decreases outcomes.len(),
{
    if outcomes.len() > 0 {
        let before = outcomes.drop_last();
        lemma_select_granted(q, before);
        let (stage, actor) = select_after(q, before);
        if !select_before_access(select_after(q, outcomes).0) {
            if select_before_access(stage) {
                let k = outcomes.len() - 1;
                assert(outcomes.take(k) =~= before);
                assert(select_granted_at(q, outcomes, k));
            } else {
                let k = choose|k: int| select_granted_at(q, before, k);
                assert(before.take(k) =~= outcomes.take(k));
                assert(before[k] == outcomes[k]);
                assert(select_granted_at(q, outcomes, k));
            }
        }
    }
}

/// On a route that is not open, neither stored data nor a cache is touched
/// unless access was checked and granted before.
pub proof fn law_select_is_guarded(q: SelectRequest, outcomes: Seq<Outcome>)
    requires
        !q.is_public,
        outcomes.len() > 0,
        touches_data(select_asks(q, outcomes)),
    ensures
        exists|k: int| select_granted_at(q, outcomes, k),
{
    let before = outcomes.drop_last();
    lemma_select_granted(q, before);
    let (stage, actor) = select_after(q, before);
    if select_before_access(stage) {
        assert(stage == SelectStage::Access);
        let k = outcomes.len() - 1;
        assert(outcomes.take(k) =~= before);
        assert(select_granted_at(q, outcomes, k));
    } else {
        let k = choose|k: int| select_granted_at(q, before, k);
        assert(before.take(k) =~= outcomes.take(k));
        assert(before[k] == outcomes[k]);
        assert(select_granted_at(q, outcomes, k));
    }
}

/// Answers are never shared between users: what is looked up, dropped or kept is
/// under the user's own name, or, for a request without a user, under everyone's.
pub proof fn law_caches_are_per_user(
    q: SelectRequest,
    stage: SelectStage,
    actor: Seq<char>,
    outcome: Outcome,
)
    ensures
        match select_next(q, stage, actor, outcome).2 {
            ActionV::LookUpShared(t, _) => t == tenant(
                select_next(q, stage, actor, outcome).1,
            ),
            ActionV::DropShared(t, _) => t == tenant(select_next(q, stage, actor, outcome).1),
            ActionV::KeepAndAnswer(t, _, _, _, _) => t == tenant(
                select_next(q, stage, actor, outcome).1,
            ),
            _ => true,
        },
{
}


/// What a request reads: whenever a query is run, it is on the table of the entity,
/// selects the configured columns, and finds the rows that the parameters ask
/// for, and no others.
pub proof fn law_select_reads_what_is_asked_for(
    q: SelectRequest,
    stage: SelectStage,
    actor: Seq<char>,
    outcome: Outcome,
    row: RowV,
    by: Collation,
)
    requires
        select_next(q, stage, actor, outcome).2 is RunQuery,
    ensures
        is_reading(
            select_next(q, stage, actor, outcome).2->RunQuery_0,
            q.schema,
            q.schema.get.parameters.deep_view(),
            without_key(q.params.deep_view(), "redis"@),
            q.splits.deep_view(),
            (ReadRules {
                stars: false,
                skips_empty: false,
                lists: false,
                sonic: true,
                any_case: true,
            }),
            row,
            by,
        ),
{
    let names = names_of(q.schema.get.parameters.deep_view(), false);
    assert(names =~= q.schema.get.parameters.deep_view());
    let query = select_next(q, stage, actor, outcome).2->RunQuery_0;
    law_queries_read_what_is_configured(
        q.schema,
        read_params(q),
        q.splits.deep_view(),
        select_rules(),
        query.joins,
        query.having,
        (query.limit, query.offset),
        row,
        by,
    );
    assert(select_query(q.schema, read_params(q), q.splits.deep_view(), q.limits) == Some(query));
}

/// A request that names a page and how many rows it wants gets that page: the query
/// that is run takes so many rows, behind those of the pages before it. One that
/// names neither gets the usual number of rows, from the first on.
pub proof fn law_select_reads_its_page(
    q: SelectRequest,
    stage: SelectStage,
    actor: Seq<char>,
    outcome: Outcome,
    page: int,
    rows: int,
)
    requires
        select_next(q, stage, actor, outcome).2 is RunQuery,
    ensures
        ({
            let names = q.schema.get.parameters.deep_view();
            let params = q.params.deep_view();
            let query = select_next(q, stage, actor, outcome).2->RunQuery_0;
            &&& names.contains("page"@) && names.contains("limit"@) && lookup(params, "page"@)
                == Some(JsonV::Str(int_text(page))) && lookup(params, "limit"@) == Some(
                JsonV::Str(int_text(rows)),
            ) && 1 <= page <= i32::MAX && 1 <= rows <= q.limits.max_rows && (page - 1) * rows
                <= i32::MAX ==> {
                &&& query.limit == Some(rows as u32)
                &&& query.offset == Some(((page - 1) * rows) as u32)
            }
            &&& lookup(params, "page"@) is None && lookup(params, "limit"@) is None
                && q.limits.default_rows >= 0 ==> {
                &&& query.limit == Some(q.limits.default_rows as u32)
                &&& query.offset == Some(0u32)
            }
        }),
{
    let names = names_of(q.schema.get.parameters.deep_view(), false);
    assert(names =~= q.schema.get.parameters.deep_view());
    let params = q.params.deep_view();
    let query = select_next(q, stage, actor, outcome).2->RunQuery_0;
    assert(select_query(q.schema, read_params(q), q.splits.deep_view(), q.limits) == Some(query));
    reveal_strlit("redis");
    reveal_strlit("page");
    reveal_strlit("limit");
    assert("redis"@.len() != "page"@.len());
    assert("redis"@[0] != "limit"@[0]);
    law_others_stay(params, "redis"@, "page"@);
    law_others_stay(params, "redis"@, "limit"@);
    if names.contains("page"@) && names.contains("limit"@) && lookup(params, "page"@) == Some(
        JsonV::Str(int_text(page)),
    ) && lookup(params, "limit"@) == Some(JsonV::Str(int_text(rows))) && 1 <= page <= i32::MAX
        && 1 <= rows <= q.limits.max_rows && (page - 1) * rows <= i32::MAX {
        law_pages_adjoin(names, read_params(q), q.limits, page, rows);
    }
    if lookup(params, "page"@) is None && lookup(params, "limit"@) is None && q.limits.default_rows
        >= 0 {
        law_usual_pages(names, read_params(q), q.limits);
    }
}

/// The rows that a query found are the rows that are answered, with success, and in
/// their order; and a failed query is answered with an error.
pub proof fn law_select_answers_what_was_found(
    q: SelectRequest,
    actor: Seq<char>,
    outcome: Outcome,
)
    ensures
        match select_next(q, SelectStage::Querying, actor, outcome).2 {
            ActionV::Answer(r) => if failure_in(outcome) is None {
                r.status == 200 && r.body.success && r.body.data == JsonV::Array(rows_in(outcome))
            } else {
                r.status == 500 && !r.body.success
            },
            ActionV::KeepAndAnswer(_, _, _, _, r) => {
                &&& failure_in(outcome) is None
                &&& r.status == 200
                &&& r.body.success
                &&& r.body.data == JsonV::Array(rows_in(outcome))
            },
            _ => false,
        },
{
}

} // verus!
