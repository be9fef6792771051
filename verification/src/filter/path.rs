//! Conditions on the path of a request: regular expressions, of which a plain
//! text is one.
use crate::config::DenyConfig;
use crate::http::message::Request;
use vstd::prelude::*;

verus! {

/// The error of `regex::Regex::new`, carried through and never read.
#[verifier::external_type_specification]
#[verifier::external_body]
pub struct ExRegexError(regex::Error);

/// Whether `regex::Regex::new` accepts `pattern`: the pattern is well formed,
/// and what is compiled from it stays within the size that the crate allows.
pub uninterp spec fn regex_compiles(pattern: Seq<char>) -> bool;

/// Whether the regular expression that `pattern` writes matches somewhere in
/// `haystack`: what `regex::Regex::is_match` returns for them.
pub uninterp spec fn regex_is_match(pattern: Seq<char>, haystack: Seq<char>) -> bool;

/// Compiles `pattern` with `regex::Regex::new` and searches `haystack` with
/// `regex::Regex::is_match`. The error of the first is handed on. Both are
/// functions of their arguments: the contract gives their results a name and
/// says no more of them.
#[verifier::external_body]
fn search(pattern: &str, haystack: &str) -> (r: Result<bool, regex::Error>)
    ensures
        r is Ok <==> regex_compiles(pattern@),
        r matches Ok(hit) ==> hit == regex_is_match(pattern@, haystack@),
{
    match regex::Regex::new(pattern) {
        Ok(re) => Ok(re.is_match(haystack)),
        Err(e) => Err(e),
    }
}

/// Whether a search that ended in `outcome` counts against the request. A
/// pattern that cannot be compiled counts against it: a rule never lets
/// traffic pass because it is broken.
pub open spec fn spec_pattern_hit(outcome: Result<bool, regex::Error>) -> bool {
    match outcome {
        Ok(hit) => hit,
        Err(_) => true,
    }
}

/// Whether a search that ended in `outcome` counts against the request.
pub fn pattern_hit(outcome: Result<bool, regex::Error>) -> (r: bool)
    ensures
        r == spec_pattern_hit(outcome),
{
    match outcome {
        Ok(hit) => hit,
        Err(_) => true,
    }
}

/// Whether `pattern` counts against `path`: it matches, or it is broken.
pub open spec fn path_hit(pattern: Seq<char>, path: Seq<char>) -> bool {
    !regex_compiles(pattern) || regex_is_match(pattern, path)
}

/// Whether one of `paths` counts against `path`.
pub open spec fn path_listed(paths: Seq<String>, path: Seq<char>) -> bool {
    exists|i: int| 0 <= i < paths.len() && path_hit((#[trigger] paths[i])@, path)
}

/// Whether one of the patterns `paths` counts against the path of `request`.
pub fn filter_request_path(paths: &Vec<String>, request: &Request) -> (r: bool)
    ensures
        r == path_listed(paths@, request@.path),
{
    let mut i: usize = 0;
    while i < paths.len()
        invariant
            i <= paths.len(),
            forall|j: int| 0 <= j < i ==> !path_hit((#[trigger] paths@[j])@, request@.path),
        decreases paths.len() - i,
    {
        if pattern_hit(search(paths[i].as_str(), request.target())) {
            return true;
        }
        i += 1;
    }
    false
}

/// A pattern of the configuration that cannot be compiled.
#[derive(Debug, Clone, Copy, PartialEq, Eq, Structural)]
pub struct ConfigError {
    /// Index of the rule on requests that holds the pattern.
    pub rule: usize,
    /// Index of the pattern among the patterns of that rule.
    pub pattern: usize,
}

/// Whether each of `paths` can be compiled.
pub open spec fn all_compile(paths: Seq<String>) -> bool {
    forall|i: int| 0 <= i < paths.len() ==> regex_compiles((#[trigger] paths[i])@)
}

/// Index of the first of `paths` that cannot be compiled.
pub fn broken_pattern(paths: &Vec<String>) -> (r: Option<usize>)
    ensures
        match r {
            Some(i) => i < paths.len() && !regex_compiles(paths@[i as int]@) && all_compile(
                paths@.take(i as int),
            ),
            None => all_compile(paths@),
        },
{
    let mut i: usize = 0;
    while i < paths.len()
        invariant
            i <= paths.len(),
            all_compile(paths@.take(i as int)),
        decreases paths.len() - i,
    {
        if search(paths[i].as_str(), "").is_err() {
            return Some(i);
        }
        proof {
            let now = paths@.take(i + 1);
            assert forall|j: int| 0 <= j < now.len() implies regex_compiles(
                (#[trigger] now[j])@,
            ) by {
                if j < i {
                    assert(paths@.take(i as int)[j] == now[j]);
                }
            }
        }
        i += 1;
    }
    assert(paths@.take(i as int) =~= paths@);
    None
}

/// Checks the patterns of a configuration when it is loaded, so that a broken
/// pattern is found before the first request. Returns the place of the first
/// pattern that cannot be compiled.
pub fn check_patterns(deny: &DenyConfig) -> (r: Result<(), ConfigError>)
    ensures
        match r {
            Ok(_) => forall|i: int|
                0 <= i < deny.request@.len() ==> all_compile(
                    (#[trigger] deny.request@[i]).rule.line.path@,
                ),
            Err(e) => {
                &&& e.rule < deny.request@.len()
                &&& e.pattern < deny.request@[e.rule as int].rule.line.path@.len()
                &&& !regex_compiles(
                    deny.request@[e.rule as int].rule.line.path@[e.pattern as int]@,
                )
                &&& all_compile(
                    deny.request@[e.rule as int].rule.line.path@.take(e.pattern as int),
                )
                &&& forall|i: int|
                    0 <= i < e.rule ==> all_compile((#[trigger] deny.request@[i]).rule.line.path@)
            },
        },
{
    let mut i: usize = 0;
    while i < deny.request.len()
        invariant
            i <= deny.request.len(),
            forall|j: int|
                0 <= j < i ==> all_compile((#[trigger] deny.request@[j]).rule.line.path@),
        decreases deny.request.len() - i,
    {
        match broken_pattern(&deny.request[i].rule.line.path) {
            Some(pattern) => {
                return Err(ConfigError { rule: i, pattern });
            },
            None => {},
        }
        i += 1;
    }
    Ok(())
}

} // verus!
