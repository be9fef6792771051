//! The rules on requests.
use crate::config::Request;
use crate::config::RequestDeny;
use crate::filter::header::filter_headers;
use crate::filter::header::headers_match;
use crate::filter::method::filter_request_method;
use crate::filter::method::method_listed;
use crate::filter::path::filter_request_path;
use crate::filter::path::path_listed;
use crate::filter::status::FilterStatus;
use crate::http::message::RequestView;
use vstd::prelude::*;

verus! {

/// Whether `rule` refuses `request`: every header condition holds, the method
/// is one of those listed and the path meets one of the patterns. A list of
/// methods or of patterns that is empty asks for nothing.
pub open spec fn request_rule_matches(rule: RequestDeny, request: RequestView) -> bool {
    &&& headers_match(request.headers, rule.headers@)
    &&& (rule.line.methods@.len() == 0 || method_listed(rule.line.methods@, request.method))
    &&& (rule.line.path@.len() == 0 || path_listed(rule.line.path@, request.path))
}

/// Whether the rule at `i` is the first of `rules` that refuses `request`.
pub open spec fn first_request_match(rules: Seq<Request>, request: RequestView, i: int) -> bool {
    &&& 0 <= i < rules.len()
    &&& request_rule_matches(rules[i].rule, request)
    &&& forall|j: int| 0 <= j < i ==> !request_rule_matches((#[trigger] rules[j]).rule, request)
}

/// Index of the first of `rules` that refuses `request`, if any does.
pub open spec fn refusing_request_rule(rules: Seq<Request>, request: RequestView) -> Option<int> {
    if exists|i: int| first_request_match(rules, request, i) {
        Some(choose|i: int| first_request_match(rules, request, i))
    } else {
        None
    }
}

/// The verdict of `rules` on `request`: `Reject` where a rule refuses it.
pub open spec fn spec_filter_request(rules: Seq<Request>, request: RequestView) -> FilterStatus {
    match refusing_request_rule(rules, request) {
        Some(_) => FilterStatus::Reject,
        None => FilterStatus::Forward,
    }
}

/// `Reject` is the verdict exactly where some rule refuses the request.
pub proof fn lemma_reject_iff_some_rule(rules: Seq<Request>, request: RequestView)
    ensures
        spec_filter_request(rules, request) == FilterStatus::Reject <==> exists|i: int|
            0 <= i < rules.len() && request_rule_matches((#[trigger] rules[i]).rule, request),
{
    if exists|i: int|
        0 <= i < rules.len() && request_rule_matches((#[trigger] rules[i]).rule, request) {
        let i = choose|i: int|
            0 <= i < rules.len() && request_rule_matches((#[trigger] rules[i]).rule, request);
        lemma_first_match_exists(rules, request, i);
    }
}

/// Where a rule refuses the request, a first such rule exists.
proof fn lemma_first_match_exists(rules: Seq<Request>, request: RequestView, i: int)
    requires
        0 <= i < rules.len(),
        request_rule_matches(rules[i].rule, request),
    ensures
        exists|k: int| first_request_match(rules, request, k),
    decreases i,
{
    if exists|j: int| 0 <= j < i && request_rule_matches((#[trigger] rules[j]).rule, request) {
        let j = choose|j: int|
            0 <= j < i && request_rule_matches((#[trigger] rules[j]).rule, request);
        lemma_first_match_exists(rules, request, j);
    } else {
        assert(first_request_match(rules, request, i));
    }
}

/// Whether `rule` refuses `request`.
pub fn request_rule_applies(rule: &RequestDeny, request: &crate::http::message::Request) -> (r:
    bool)
    ensures
        r == request_rule_matches(*rule, request@),
{
    if !filter_headers(request.headers(), &rule.headers) {
        return false;
    }
    if rule.line.methods.len() != 0 && !filter_request_method(&rule.line.methods, request) {
        return false;
    }
    if rule.line.path.len() != 0 && !filter_request_path(&rule.line.path, request) {
        return false;
    }
    true
}

/// Tries the rules in their order and stops at the first that refuses
/// `request`. Returns the index of that rule.
pub fn rejecting_request_rule(
    request_config: &Vec<Request>,
    request: &crate::http::message::Request,
) -> (r: Option<usize>)
    ensures
        match r {
            Some(i) => refusing_request_rule(request_config@, request@) == Some(i as int)
                && first_request_match(request_config@, request@, i as int),
            None => refusing_request_rule(request_config@, request@) is None,
        },
{
    let mut i: usize = 0;
    while i < request_config.len()
        invariant
            i <= request_config.len(),
            forall|j: int|
                0 <= j < i ==> !request_rule_matches((#[trigger] request_config@[j]).rule, request@),
        decreases request_config.len() - i,
    {
        if request_rule_applies(&request_config[i].rule, request) {
            assert(first_request_match(request_config@, request@, i as int));
            return Some(i);
        }
        i += 1;
    }
    None
}

/// The verdict of the rules on `request`: `Reject` as soon as one refuses it,
/// `Forward` where none does.
pub fn filter_request(request_config: &Vec<Request>, request: &crate::http::message::Request) -> (r:
    FilterStatus)
    ensures
        r == spec_filter_request(request_config@, request@),
{
    match rejecting_request_rule(request_config, request) {
        Some(_) => FilterStatus::Reject,
        None => FilterStatus::Forward,
    }
}

} // verus!
