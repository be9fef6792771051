//! Conditions on headers: a header is present and its value holds a given
//! text.
use crate::config::Header;
use crate::http::headers::lookup;
use crate::http::headers::Entries;
use crate::http::headers::Headers;
use crate::text::contains;
use crate::text::is_substring;
use crate::text::to_chars;
use vstd::prelude::*;

verus! {

/// Whether `headers` holds `key` with a value in which `value` occurs.
pub open spec fn header_matches(headers: Entries, key: Seq<char>, value: Seq<char>) -> bool {
    match lookup(headers, key) {
        Some(found) => is_substring(value, found),
        None => false,
    }
}

/// Whether `headers` meets every one of `conditions`.
pub open spec fn headers_match(headers: Entries, conditions: Seq<Header>) -> bool {
    forall|i: int|
        0 <= i < conditions.len() ==> header_matches(
            headers,
            (#[trigger] conditions[i]).key@,
            conditions[i].value@,
        )
}

/// Whether `headers` holds `key` with a value in which `value` occurs.
pub fn filter_header(headers: &Headers, key: &str, value: &str) -> (r: bool)
    ensures
        r == header_matches(headers.entries(), key@, value@),
{
    match headers.get(key) {
        Some(found) => {
            let hay = to_chars(found.as_str());
            let needle = to_chars(value);
            contains(&hay, &needle)
        },
        None => false,
    }
}

/// Whether `headers` meets every one of `conditions`.
pub fn filter_headers(headers: &Headers, conditions: &Vec<Header>) -> (r: bool)
    ensures
        r == headers_match(headers.entries(), conditions@),
{
    let mut i: usize = 0;
    while i < conditions.len()
        invariant
            i <= conditions.len(),
            forall|j: int|
                0 <= j < i ==> header_matches(
                    headers.entries(),
                    (#[trigger] conditions@[j]).key@,
                    conditions@[j].value@,
                ),
        decreases conditions.len() - i,
    {
        if !filter_header(headers, conditions[i].key.as_str(), conditions[i].value.as_str()) {
            return false;
        }
        i += 1;
    }
    true
}

} // verus!
