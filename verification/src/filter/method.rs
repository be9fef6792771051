//! Conditions on the method of a request.
use crate::http::line::MethodView;
use crate::http::message::Request;
use vstd::prelude::*;

verus! {

/// Whether the token of `method` is one of `methods`.
pub open spec fn method_listed(methods: Seq<String>, method: MethodView) -> bool {
    exists|i: int| 0 <= i < methods.len() && (#[trigger] methods[i])@ == method.token()
}

/// Whether the method of `request` is one of `methods`.
pub fn filter_request_method(methods: &Vec<String>, request: &Request) -> (r: bool)
    ensures
        r == method_listed(methods@, request@.method),
{
    let req_method = request.method().to_string();
    let mut i: usize = 0;
    while i < methods.len()
        invariant
            i <= methods.len(),
            req_method@ == request@.method.token(),
            forall|j: int| 0 <= j < i ==> (#[trigger] methods@[j])@ != request@.method.token(),
        decreases methods.len() - i,
    {
        if methods[i] == req_method {
            return true;
        }
        i += 1;
    }
    false
}

} // verus!
