//! The rules on responses.
use crate::config::Response;
use crate::filter::header::filter_headers;
use crate::filter::header::headers_match;
use crate::filter::status::FilterStatus;
use crate::http::message::ResponseView;
use vstd::prelude::*;

verus! {

/// Whether the rule at `i` is the first of `rules` that refuses `response`.
pub open spec fn first_response_match(rules: Seq<Response>, response: ResponseView, i: int) -> bool {
    &&& 0 <= i < rules.len()
    &&& headers_match(response.headers, rules[i].rule.headers@)
    &&& forall|j: int|
        0 <= j < i ==> !headers_match(response.headers, (#[trigger] rules[j]).rule.headers@)
}

/// Index of the first of `rules` that refuses `response`, if any does.
pub open spec fn refusing_response_rule(rules: Seq<Response>, response: ResponseView) -> Option<
    int,
> {
    if exists|i: int| first_response_match(rules, response, i) {
        Some(choose|i: int| first_response_match(rules, response, i))
    } else {
        None
    }
}

/// The verdict of `rules` on `response`: `Reject` where every header
/// condition of some rule holds.
pub open spec fn spec_filter_response(rules: Seq<Response>, response: ResponseView) -> FilterStatus {
    match refusing_response_rule(rules, response) {
        Some(_) => FilterStatus::Reject,
        None => FilterStatus::Forward,
    }
}

/// Tries the rules in their order and stops at the first that refuses
/// `response`. Returns the index of that rule.
pub fn rejecting_response_rule(
    response_config: &Vec<Response>,
    response: &crate::http::message::Response,
) -> (r: Option<usize>)
    ensures
        match r {
            Some(i) => refusing_response_rule(response_config@, response@) == Some(i as int)
                && first_response_match(response_config@, response@, i as int),
            None => refusing_response_rule(response_config@, response@) is None,
        },
{
    let mut i: usize = 0;
    while i < response_config.len()
        invariant
            i <= response_config.len(),
            forall|j: int|
                0 <= j < i ==> !headers_match(
                    response@.headers,
                    (#[trigger] response_config@[j]).rule.headers@,
                ),
        decreases response_config.len() - i,
    {
        if filter_headers(response.headers(), &response_config[i].rule.headers) {
            assert(first_response_match(response_config@, response@, i as int));
            return Some(i);
        }
        i += 1;
    }
    None
}

/// The verdict of the rules on `response`: `Reject` as soon as one refuses
/// it, `Forward` where none does.
pub fn filter_response(response_config: &Vec<Response>, response: &crate::http::message::Response) -> (r:
    FilterStatus)
    ensures
        r == spec_filter_response(response_config@, response@),
{
    match rejecting_response_rule(response_config, response) {
        Some(_) => FilterStatus::Reject,
        None => FilterStatus::Forward,
    }
}

} // verus!
