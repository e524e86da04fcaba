//! From requests to what is carried out for them.
use crate::json::{get_in, lookup, Json, JsonV};
use crate::post::Fields;
use crate::text::{after_prefix, blank, push_item, trim, without_prefix};
use vstd::prelude::*;
use vstd::string::*;

pub mod data_create_service;
pub mod data_delete_service;
pub mod data_export_service;
pub mod data_import_service;
pub mod data_patch_service;
pub mod data_read_service;
pub mod data_trace_service;
pub mod data_update_service;

verus! {

/// Whether a required parameter was given: it is neither null nor a blank text.
pub open spec fn is_given(v: Option<JsonV>) -> bool {
    match v {
        None => false,
        Some(JsonV::Null) => false,
        Some(JsonV::Str(s)) => trim(s).len() > 0,
        Some(_) => true,
    }
}

fn given(v: Option<&Json>) -> (r: bool)
    ensures
        r == is_given(v.deep_view()),
{
    match v {
        None => false,
        Some(v) => match v {
            Json::Null => false,
            Json::Str(s) => !blank(s.as_str()),
            _ => true,
        },
    }
}

/// The name of a parameter, without the star that marks a required one.
pub open spec fn plain_name(parameter: Seq<char>) -> Seq<char> {
    match without_prefix(parameter, "*"@) {
        Some(name) => name,
        None => parameter,
    }
}

/// The names of parameters, without the stars that mark the required ones.
pub open spec fn plain_names(parameters: Seq<Seq<char>>) -> Seq<Seq<char>> {
    Seq::new(parameters.len(), |i: int| plain_name(parameters[i]))
}

/// The names of the required parameters that were not given.
pub open spec fn missing_required(parameters: Seq<Seq<char>>, params: Fields) -> Seq<Seq<char>>
    decreases parameters.len(),
{
    if parameters.len() == 0 {
        Seq::empty()
    } else {
        let before = missing_required(parameters.drop_last(), params);
        match without_prefix(parameters.last(), "*"@) {
            Some(name) => if is_given(lookup(params, name)) {
                before
            } else {
                before.push(name)
            },
            None => before,
        }
    }
}

/// The names of the required parameters, those with a star in front, that were
/// not given. The stars are taken off.
pub fn collect_missing_required_params(
    parameters: &mut Vec<String>,
    params_map: &Vec<(String, Json)>,
) -> (r: Vec<String>)
    ensures
        r.deep_view() == missing_required(old(parameters).deep_view(), params_map.deep_view()),
        final(parameters).deep_view() == plain_names(old(parameters).deep_view()),
{
    let ghost ps = parameters.deep_view();
    let ghost all = plain_names(ps);
    let mut missing: Vec<String> = Vec::new();
    let mut names: Vec<String> = Vec::new();
    assert(missing.deep_view() =~= Seq::empty());
    let mut i: usize = 0;
    while i < parameters.len()
        invariant
            i <= parameters@.len(),
            ps == parameters.deep_view(),
            all == plain_names(ps),
            missing.deep_view() == missing_required(ps.take(i as int), params_map.deep_view()),
            names.deep_view() == all.take(i as int),
        decreases parameters.len() - i,
    {
        assert(ps.take(i + 1).drop_last() =~= ps.take(i as int));
        assert(ps[i as int] == parameters@[i as int]@);
        match after_prefix(parameters[i].as_str(), "*") {
            Some(name) => {
                if !given(get_in(params_map, name.as_str())) {
                    push_item(&mut missing, name.clone());
                }
                push_item(&mut names, name);
            },
            None => {
                push_item(&mut names, parameters[i].clone());
            },
        }
        i += 1;
        assert(all.take(i as int) =~= all.take(i - 1).push(all[i - 1]));
    }
    assert(ps.take(ps.len() as int) =~= ps);
    assert(all.take(parameters@.len() as int) =~= all);
    *parameters = names;
    missing
}

/// A parameter that is marked as required is missing exactly if no value is given for
/// it: then it is named, and else it is not, and no other parameter ever is.
pub proof fn law_missing_parameters_are_named(
    parameters: Seq<Seq<char>>,
    params: Fields,
    name: Seq<char>,
)
    ensures
        missing_required(parameters, params).contains(name) <==> (exists|i: int|
            0 <= i < parameters.len() && without_prefix(#[trigger] parameters[i], "*"@) == Some(
                name,
            )) && match lookup(params, name) {
            None => true,
            Some(JsonV::Null) => true,
            Some(JsonV::Str(s)) => trim(s).len() == 0,
            Some(_) => false,
        },
    decreases parameters.len(),
{
    let all = missing_required(parameters, params);
    if parameters.len() > 0 {
        let rest = parameters.drop_last();
        let before = missing_required(rest, params);
        law_missing_parameters_are_named(rest, params, name);
        if exists|i: int|
            0 <= i < rest.len() && without_prefix(#[trigger] rest[i], "*"@) == Some(name) {
            let i = choose|i: int|
                0 <= i < rest.len() && without_prefix(#[trigger] rest[i], "*"@) == Some(name);
            assert(parameters[i] == rest[i]);
        }
        if exists|i: int|
            0 <= i < parameters.len() && without_prefix(#[trigger] parameters[i], "*"@) == Some(
                name,
            ) {
            let i = choose|i: int|
                0 <= i < parameters.len() && without_prefix(#[trigger] parameters[i], "*"@) == Some(
                    name,
                );
            if i < rest.len() {
                assert(rest[i] == parameters[i]);
            }
        }
        if before.contains(name) {
            let k = choose|k: int| 0 <= k < before.len() && before[k] == name;
            assert(all[k] == name);
        }
        if all.len() > before.len() {
            assert(all[all.len() - 1] == all.last());
            if all.contains(name) && all.last() != name {
                let k = choose|k: int| 0 <= k < all.len() && all[k] == name;
                assert(before[k] == name);
            }
            if all.last() == name {
                assert(all.contains(name));
            }
        }
    }
}

} // verus!
