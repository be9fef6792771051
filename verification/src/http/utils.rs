//! The replies that the proxy gives on its own account.
use vstd::prelude::*;
use vstd::slice::slice_to_vec;
use vstd::utf8::encode_utf8;

verus! {

/// The reply with which a server, rather than a proxy, asks for credentials.
pub open spec fn spec_unauthorized() -> Seq<u8> {
    encode_utf8("HTTP/1.1 401 Unauthorized\r\nConnection: close\r\n\r\n"@)
}

/// The reply to a message that a rule refuses.
pub open spec fn spec_forbidden() -> Seq<u8> {
    encode_utf8("HTTP/1.1 403 Forbidden\r\nConnection: close\r\n\r\n"@)
}

/// The reply that asks a client for its credentials.
pub open spec fn spec_proxy_auth() -> Seq<u8> {
    encode_utf8(
        "HTTP/1.1 407 Proxy Authentication Required\r\nProxy-Authenticate: Basic\r\n\r\n"@,
    )
}

/// The reply of a proxy that does not tunnel.
pub open spec fn spec_not_support_https() -> Seq<u8> {
    encode_utf8(
        "HTTP/1.1 400 Bad Request\r\nConnection: close\r\nContent-Length: 31\r\n\r\nProxy do not support https Now"@,
    )
}

/// The reply that opens a tunnel.
pub open spec fn spec_http_status_ok() -> Seq<u8> {
    encode_utf8("HTTP/1.1 200 OK\r\nProxy-Connection: keep-alive\r\n\r\n"@)
}

/// Status 401 with `Connection: close`.
pub fn unauthorized() -> (r: Vec<u8>)
    ensures
        r@ == spec_unauthorized(),
{
    slice_to_vec("HTTP/1.1 401 Unauthorized\r\nConnection: close\r\n\r\n".as_bytes())
}

/// Status 403 with `Connection: close`.
pub fn forbidden() -> (r: Vec<u8>)
    ensures
        r@ == spec_forbidden(),
{
    slice_to_vec("HTTP/1.1 403 Forbidden\r\nConnection: close\r\n\r\n".as_bytes())
}

/// Status 407 with `Proxy-Authenticate: Basic`.
pub fn proxy_auth() -> (r: Vec<u8>)
    ensures
        r@ == spec_proxy_auth(),
{
    slice_to_vec(
        "HTTP/1.1 407 Proxy Authentication Required\r\nProxy-Authenticate: Basic\r\n\r\n".as_bytes(),
    )
}

/// Status 400 with `Connection: close` and a body that says why.
pub fn not_support_https() -> (r: Vec<u8>)
    ensures
        r@ == spec_not_support_https(),
{
    slice_to_vec(
        "HTTP/1.1 400 Bad Request\r\nConnection: close\r\nContent-Length: 31\r\n\r\nProxy do not support https Now".as_bytes(),
    )
}

/// Status 200 with `Proxy-Connection: keep-alive`.
pub fn http_status_ok() -> (r: Vec<u8>)
    ensures
        r@ == spec_http_status_ok(),
{
    slice_to_vec("HTTP/1.1 200 OK\r\nProxy-Connection: keep-alive\r\n\r\n".as_bytes())
}

} // verus!
