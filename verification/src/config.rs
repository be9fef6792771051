//! What steers the proxy: the credentials that it asks of its clients, and the
//! rules by which it refuses requests and responses.
use vstd::prelude::*;

verus! {

/// The whole configuration.
#[derive(Debug, Default)]
pub struct Config {
    pub server: Server,
    pub deny: DenyConfig,
}

/// The part that concerns the proxy itself.
#[derive(Debug, Default)]
pub struct Server {
    pub auth: Auth,
}

/// The user name and the password that a client has to present.
#[derive(Debug, Default)]
pub struct Auth {
    pub enable: bool,
    pub username: String,
    pub password: String,
}

/// The rules, in the order in which they are tried.
#[derive(Debug, Default)]
pub struct DenyConfig {
    pub request: Vec<Request>,
    pub response: Vec<Response>,
}

/// A named rule on requests.
#[derive(Debug, Default)]
pub struct Request {
    pub name: String,
    pub rule: RequestDeny,
}

/// A named rule on responses.
#[derive(Debug, Default)]
pub struct Response {
    pub name: String,
    pub rule: ResponseDeny,
}

/// What a request must show for a rule to refuse it.
#[derive(Debug, Default)]
pub struct RequestDeny {
    pub line: RequestLine,
    pub headers: Vec<Header>,
}

/// The conditions of a rule on the request line.
#[derive(Debug, Default)]
pub struct RequestLine {
    pub methods: Vec<String>,
    pub path: Vec<String>,
}

/// A condition on one header: the header is present and its value holds
/// `value`.
#[derive(Debug, Default)]
pub struct Header {
    pub key: String,
    pub value: String,
}

/// What a response must show for a rule to refuse it.
#[derive(Debug, Default)]
pub struct ResponseDeny {
    pub headers: Vec<Header>,
}

impl Config {
    /// The configuration of a proxy that asks for no credentials and refuses
    /// nothing.
    pub fn generate_default() -> (r: Config)
        ensures
            !r.server.auth.enable,
            r.server.auth.username@ == Seq::<char>::empty(),
            r.server.auth.password@ == Seq::<char>::empty(),
            r.deny.request@ == Seq::<Request>::empty(),
            r.deny.response@ == Seq::<Response>::empty(),
    {
        Config {
            server: Server {
                auth: Auth { enable: false, username: String::new(), password: String::new() },
            },
            deny: DenyConfig { request: Vec::new(), response: Vec::new() },
        }
    }
}

} // verus!
