//! Reading rows.
use crate::ast::{Query, QueryV};
use crate::filters::{Split, SplitV};
use crate::json::Json;
use crate::model::TableSchema;
use crate::ordering::aliases_are_cut;
use crate::post::Fields;
use crate::reading::{
    build_having, build_joins, build_query, given_joins, having_of, joins_of, names_of,
    parameter_names, query_of, read_given_joins, read_window, splits_fit, window_of, PageLimits,
    ReadRules,
};
use vstd::prelude::*;
use vstd::string::*;

verus! {

/// How the parameters of a request are treated.
pub open spec fn fetch_rules() -> ReadRules {
    ReadRules { stars: true, skips_empty: true, lists: false, sonic: false, any_case: true }
}

/// The query of a request. None where the rows cannot be counted, or where the
/// alias of a selected column cannot be cut off.
pub open spec fn fetch_query(
    schema: TableSchema,
    params: Fields,
    splits: Seq<Seq<SplitV>>,
    limits: PageLimits,
) -> Option<QueryV> {
    match window_of(names_of(schema.get.parameters.deep_view(), true), params, limits) {
        Some((limit, offset)) => if aliases_are_cut(schema.get.columns.deep_view()) {
            Some(
                query_of(
                    schema,
                    params,
                    splits,
                    fetch_rules(),
                    joins_of(schema.get.join_tables@, given_joins(params), true),
                    having_of(schema, true),
                    (Some(limit), Some(offset)),
                ),
            )
        } else {
            None
        },
        None => None,
    }
}

/// The query of a request. `splits` is what its configured parameters were taken
/// apart into.
pub fn fetch_dynamic_data(
    schema: &TableSchema,
    params: &Vec<(String, Json)>,
    splits: &Vec<Vec<Split>>,
    limits: PageLimits,
) -> (r: Option<Query>)
    requires
        splits_fit(names_of(schema.get.parameters.deep_view(), true), splits.deep_view()),
    ensures
        r.deep_view() == fetch_query(*schema, params.deep_view(), splits.deep_view(), limits),
{
    let names = parameter_names(&schema.get.parameters, true);
    match read_window(&names, params, limits) {
        Some((limit, offset)) => {
            let given = read_given_joins(params);
            let joins = build_joins(&schema.get.join_tables, &given, true);
            let having = build_having(schema, true);
            let rules = ReadRules {
                stars: true,
                skips_empty: true,
                lists: false,
                sonic: false,
                any_case: true,
            };
            build_query(schema, params, splits, rules, joins, having, Some(limit), Some(offset))
        },
        None => None,
    }
}

/// What is said of a query that failed: the query is shown as it was written
/// down.
pub open spec fn fetch_failure(route: Seq<char>, e: Seq<char>, query: Seq<char>) -> Seq<char> {
    "Error NCO-GET(AST) route "@ + route + ": "@ + e + ". Query : "@ + query
}

/// What is said of a query that failed.
pub fn say_fetch_failure(route: &str, e: &str, query: &str) -> (r: String)
    ensures
        r@ == fetch_failure(route@, e@, query@),
{
    let mut m = "Error NCO-GET(AST) route ".to_owned();
    m.append(route);
    m.append(": ");
    m.append(e);
    m.append(". Query : ");
    m.append(query);
    m
}

} // verus!
