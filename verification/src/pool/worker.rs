//! What a worker does with one connection. The worker reads and writes; what
//! to do next is decided here, from where the connection stands and from what
//! has just happened.
use crate::config::Config;
use crate::filter::request::refusing_request_rule;
use crate::filter::request::rejecting_request_rule;
use crate::filter::response::refusing_response_rule;
use crate::filter::response::rejecting_response_rule;
use crate::http::error::ParseError;
use crate::http::headers::lookup;
use crate::http::message::request_wire;
use crate::http::message::response_wire;
use crate::http::message::spec_path;
use crate::http::message::Request;
use crate::http::message::RequestView;
use crate::http::message::Response;
use crate::http::message::ResponseView;
use crate::http::utils::forbidden;
use crate::http::utils::http_status_ok;
use crate::http::utils::proxy_auth;
use crate::http::utils::spec_forbidden;
use crate::http::utils::spec_http_status_ok;
use crate::http::utils::spec_proxy_auth;
use crate::text::find_char;
use crate::text::lemma_first_index;
use crate::text::to_chars;
use crate::utils::authorize;
use crate::utils::spec_authorize;
use crate::utils::AuthError;
use vstd::prelude::*;

verus! {

/// The seconds that an address of a host is given to answer.
pub const CONNECT_TIMEOUT_SECS: u64 = 4;

/// What the proxy decides on reading a request.
#[derive(Debug)]
pub enum Admission {
    /// The rule at `rule` refuses the request.
    Forbidden { rule: usize },
    /// The request names no host.
    NoHost,
    /// The proxy asks for credentials and the request does not present them.
    Unauthorized(AuthError),
    /// The request may go on to `host`. `user` is who sent it, where the
    /// proxy asks for credentials.
    Connect { host: String, user: Option<String> },
}

/// Mathematical model of an `Admission`.
pub enum AdmissionView {
    Forbidden { rule: usize },
    NoHost,
    Unauthorized(AuthError),
    Connect { host: Seq<char>, user: Option<Seq<char>> },
}

/// `s` by its view.
pub open spec fn view_text(s: Option<String>) -> Option<Seq<char>> {
    match s {
        Some(text) => Some(text@),
        None => None,
    }
}

impl View for Admission {
    type V = AdmissionView;

    open spec fn view(&self) -> AdmissionView {
        match self {
            Admission::Forbidden { rule } => AdmissionView::Forbidden { rule: *rule },
            Admission::NoHost => AdmissionView::NoHost,
            Admission::Unauthorized(e) => AdmissionView::Unauthorized(*e),
            Admission::Connect { host, user } => AdmissionView::Connect {
                host: host@,
                user: view_text(*user),
            },
        }
    }
}

/// The address to connect to for `host`: `host` itself where it names a port,
/// else `host` with port 80.
pub open spec fn with_port(host: Seq<char>) -> Seq<char> {
    if host.contains(':') {
        host
    } else {
        host + ":80"@
    }
}

/// What the proxy decides on `request`. The rules come first, then the host,
/// then the credentials.
pub open spec fn spec_screen(config: Config, request: RequestView) -> AdmissionView {
    match refusing_request_rule(config.deny.request@, request) {
        Some(rule) => AdmissionView::Forbidden { rule: rule as usize },
        None => match lookup(request.headers, "Host"@) {
            None => AdmissionView::NoHost,
            Some(host) => if config.server.auth.enable {
                match spec_authorize(
                    config.server.auth,
                    lookup(request.headers, "Proxy-Authorization"@),
                ) {
                    Err(e) => AdmissionView::Unauthorized(e),
                    Ok(user) => AdmissionView::Connect { host: with_port(host), user: Some(user) },
                }
            } else {
                AdmissionView::Connect { host: with_port(host), user: None }
            },
        },
    }
}

/// Decides on a request that has just been read.
pub fn screen(config: &Config, request: &Request) -> (r: Admission)
    ensures
        r@ == spec_screen(*config, request@),
{
    match rejecting_request_rule(&config.deny.request, request) {
        Some(rule) => {
            return Admission::Forbidden { rule };
        },
        None => {},
    }
    let mut host = match request.headers().get("Host") {
        Some(host) => host.clone(),
        None => {
            return Admission::NoHost;
        },
    };
    let user = if config.server.auth.enable {
        match authorize(&config.server.auth, request.headers().get("Proxy-Authorization")) {
            Ok(user) => Some(user),
            Err(e) => {
                return Admission::Unauthorized(e);
            },
        }
    } else {
        None
    };
    let chars = to_chars(host.as_str());
    let colon = find_char(&chars, 0, ':');
    proof {
        assert(chars@.skip(0) =~= chars@);
        lemma_first_index(chars@, ':');
    }
    if colon == chars.len() {
        host.append(":80");
    }
    Admission::Connect { host, user }
}

/// The two ends of a tunnel.
#[derive(Debug, Clone, Copy, PartialEq, Eq, Structural)]
pub enum Side {
    /// The client that asked for the tunnel.
    Client,
    /// The server that the tunnel leads to.
    Upstream,
}

impl Side {
    /// The other end.
    pub open spec fn spec_opposite(self) -> Side {
        match self {
            Side::Client => Side::Upstream,
            Side::Upstream => Side::Client,
        }
    }

    /// The other end.
    pub fn opposite(&self) -> (r: Side)
        ensures
            r == self.spec_opposite(),
    {
        match self {
            Side::Client => Side::Upstream,
            Side::Upstream => Side::Client,
        }
    }
}

/// Why a connection is closed, or answered by the proxy itself.
#[derive(Debug, Clone, Copy, PartialEq, Eq, Structural)]
pub enum Reason {
    /// The bytes of the client were no request.
    BadRequest(ParseError),
    /// The rule on requests at this index refuses the request.
    RequestRefused(usize),
    /// The request names no host.
    NoHost,
    /// The request lacks the credentials that the proxy asks for.
    Unauthorized(AuthError),
    /// No address of the host has answered in time.
    Unreachable,
    /// The bytes of the host were no response.
    BadResponse(ParseError),
    /// The rule on responses at this index refuses the response.
    ResponseRefused(usize),
    /// This end of the tunnel has closed.
    PeerClosed(Side),
    /// Reading, writing or connecting has failed.
    Failed,
    /// Something has happened that cannot happen where the connection stands.
    Unexpected,
}

/// Where the handling of a connection stands.
#[derive(Debug)]
pub enum Phase {
    /// The request of the client is awaited.
    Reading,
    /// The request may pass; the connection to its host is awaited.
    Connecting { request: Request, user: Option<String> },
    /// The request has gone to its host; the response is awaited.
    Forwarding { address: String, user: Option<String> },
    /// Bytes pass between client and host as they come. The end `turn` is
    /// the one that is being read.
    Tunneling { turn: Side },
    /// Nothing more is done.
    Closed,
}

/// Mathematical model of a `Phase`.
pub enum PhaseView {
    Reading,
    Connecting { request: RequestView, user: Option<Seq<char>> },
    Forwarding { address: Seq<char>, user: Option<Seq<char>> },
    Tunneling { turn: Side },
    Closed,
}

impl View for Phase {
    type V = PhaseView;

    open spec fn view(&self) -> PhaseView {
        match self {
            Phase::Reading => PhaseView::Reading,
            Phase::Connecting { request, user } => PhaseView::Connecting {
                request: request@,
                user: view_text(*user),
            },
            Phase::Forwarding { address, user } => PhaseView::Forwarding {
                address: address@,
                user: view_text(*user),
            },
            Phase::Tunneling { turn } => PhaseView::Tunneling { turn: *turn },
            Phase::Closed => PhaseView::Closed,
        }
    }
}

/// What has just happened on a connection.
#[derive(Debug)]
pub enum Event {
    /// The bytes of the client have been read as a request.
    Request(Result<Request, ParseError>),
    /// The host has answered.
    Connected,
    /// No address of the host has answered in time.
    Unreachable,
    /// The bytes of the host have been read as a response.
    Response(Result<Response, ParseError>),
    /// One end of the tunnel has sent `bytes`; none where it has closed.
    Received { from: Side, bytes: Vec<u8> },
    /// One end of the tunnel has nothing to read for now.
    Blocked,
    /// Reading, writing or connecting has failed.
    Failed,
}

/// What the worker is to do next.
#[derive(Debug)]
pub enum Action {
    /// Close the connection without writing to it.
    Close { reason: Reason },
    /// Write `bytes` to the client and close.
    Reply { bytes: Vec<u8>, reason: Reason },
    /// Connect to `host`, trying each of its addresses in turn and giving each
    /// `CONNECT_TIMEOUT_SECS` seconds to answer.
    Connect { host: String },
    /// Write `bytes` to the host and read its response.
    Forward { bytes: Vec<u8> },
    /// Write `bytes` to the client, let neither socket block from now on, and
    /// try to read from the end `poll`.
    Tunnel { bytes: Vec<u8>, poll: Side },
    /// Write `bytes` to the end `to` of the tunnel, then try to read from the
    /// end `poll`.
    Relay { to: Side, bytes: Vec<u8>, poll: Side },
    /// Try to read from the end `from` of the tunnel.
    Poll { from: Side },
    /// Write `bytes`, the response of the host, to the client and close.
    /// `user` has visited `address`.
    Deliver { bytes: Vec<u8>, address: String, user: Option<String> },
}

/// Mathematical model of an `Action`.
pub enum ActionView {
    Close { reason: Reason },
    Reply { bytes: Seq<u8>, reason: Reason },
    Connect { host: Seq<char> },
    Forward { bytes: Seq<u8> },
    Tunnel { bytes: Seq<u8>, poll: Side },
    Relay { to: Side, bytes: Seq<u8>, poll: Side },
    Poll { from: Side },
    Deliver { bytes: Seq<u8>, address: Seq<char>, user: Option<Seq<char>> },
}

impl View for Action {
    type V = ActionView;

    open spec fn view(&self) -> ActionView {
        match self {
            Action::Close { reason } => ActionView::Close { reason: *reason },
            Action::Reply { bytes, reason } => ActionView::Reply { bytes: bytes@, reason: *reason },
            Action::Connect { host } => ActionView::Connect { host: host@ },
            Action::Forward { bytes } => ActionView::Forward { bytes: bytes@ },
            Action::Tunnel { bytes, poll } => ActionView::Tunnel { bytes: bytes@, poll: *poll },
            Action::Relay { to, bytes, poll } => ActionView::Relay {
                to: *to,
                bytes: bytes@,
                poll: *poll,
            },
            Action::Poll { from } => ActionView::Poll { from: *from },
            Action::Deliver { bytes, address, user } => ActionView::Deliver {
                bytes: bytes@,
                address: address@,
                user: view_text(*user),
            },
        }
    }
}

/// The step that closes a connection without a reply.
pub open spec fn closing(reason: Reason) -> (PhaseView, ActionView) {
    (PhaseView::Closed, ActionView::Close { reason })
}

/// The step that closes a connection with a reply of the proxy's own.
pub open spec fn replying(bytes: Seq<u8>, reason: Reason) -> (PhaseView, ActionView) {
    (PhaseView::Closed, ActionView::Reply { bytes, reason })
}

/// What follows the reading of a request: no reply where the bytes were no
/// request or no host is named, status 403 where a rule refuses it, status 407
/// where it lacks the credentials, else the connection to its host.
pub open spec fn on_request(config: Config, read: Result<RequestView, ParseError>) -> (
    PhaseView,
    ActionView,
) {
    match read {
        Err(e) => closing(Reason::BadRequest(e)),
        Ok(request) => match spec_screen(config, request) {
            AdmissionView::Forbidden { rule } => replying(
                spec_forbidden(),
                Reason::RequestRefused(rule),
            ),
            AdmissionView::NoHost => closing(Reason::NoHost),
            AdmissionView::Unauthorized(e) => replying(spec_proxy_auth(), Reason::Unauthorized(e)),
            AdmissionView::Connect { host, user } => (
                PhaseView::Connecting { request, user },
                ActionView::Connect { host },
            ),
        },
    }
}

/// What follows the connection to the host: a tunnel for `CONNECT`, read
/// first at the end of the client, else the request itself, written anew from
/// what was read.
pub open spec fn on_connected(request: RequestView, user: Option<Seq<char>>) -> (
    PhaseView,
    ActionView,
) {
    if request.method == crate::http::line::MethodView::Connect {
        (
            PhaseView::Tunneling { turn: Side::Client },
            ActionView::Tunnel { bytes: spec_http_status_ok(), poll: Side::Client },
        )
    } else {
        (
            PhaseView::Forwarding { address: spec_path(request), user },
            ActionView::Forward { bytes: request_wire(request) },
        )
    }
}

/// What follows the reading of a response: no reply where the bytes were no
/// response, status 403 where a rule refuses it, else the response itself,
/// written anew from what was read.
pub open spec fn on_response(
    config: Config,
    address: Seq<char>,
    user: Option<Seq<char>>,
    read: Result<ResponseView, ParseError>,
) -> (PhaseView, ActionView) {
    match read {
        Err(e) => closing(Reason::BadResponse(e)),
        Ok(response) => match refusing_response_rule(config.deny.response@, response) {
            Some(rule) => replying(spec_forbidden(), Reason::ResponseRefused(rule as usize)),
            None => (
                PhaseView::Closed,
                ActionView::Deliver { bytes: response_wire(response), address, user },
            ),
        },
    }
}

/// What follows an attempt to read from the end `turn` of a tunnel: what came
/// goes to the other end as it is; an end that has closed, or a failure, ends
/// the tunnel; an end with nothing to read is left alone for now. The two
/// ends are read in turn.
pub open spec fn on_tunnel(turn: Side, event: Event) -> (PhaseView, ActionView) {
    match event {
        Event::Received { from, bytes } => if bytes@.len() == 0 {
            closing(Reason::PeerClosed(from))
        } else {
            (
                PhaseView::Tunneling { turn: turn.spec_opposite() },
                ActionView::Relay {
                    to: from.spec_opposite(),
                    bytes: bytes@,
                    poll: turn.spec_opposite(),
                },
            )
        },
        Event::Blocked => (
            PhaseView::Tunneling { turn: turn.spec_opposite() },
            ActionView::Poll { from: turn.spec_opposite() },
        ),
        Event::Failed => closing(Reason::Failed),
        _ => closing(Reason::Unexpected),
    }
}

/// The bytes that the worker is told to write to the end `to` while a tunnel
/// that reads the end `turn` next meets `events` in their order, up to the
/// event that closes it.
pub open spec fn relayed(turn: Side, events: Seq<Event>, to: Side) -> Seq<u8>
    decreases events.len(),
{
    if events.len() == 0 {
        Seq::empty()
    } else {
        match on_tunnel(turn, events[0]) {
            (PhaseView::Tunneling { turn: next }, ActionView::Relay { to: target, bytes, .. }) => (
            if target == to {
                bytes
            } else {
                Seq::empty()
            }) + relayed(next, events.drop_first(), to),
            (PhaseView::Tunneling { turn: next }, _) => relayed(next, events.drop_first(), to),
            _ => Seq::empty(),
        }
    }
}

/// The bytes that the end `from` has sent among `events`, up to the first
/// event that tells of a closed end or of a failure.
pub open spec fn received(events: Seq<Event>, from: Side) -> Seq<u8>
    decreases events.len(),
{
    if events.len() == 0 {
        Seq::empty()
    } else {
        match events[0] {
            Event::Received { from: source, bytes } => if bytes@.len() == 0 {
                Seq::empty()
            } else {
                (if source == from {
                    bytes@
                } else {
                    Seq::empty()
                }) + received(events.drop_first(), from)
            },
            Event::Blocked => received(events.drop_first(), from),
            _ => Seq::empty(),
        }
    }
}

/// A tunnel passes on what it gets: whatever the events, the bytes that the
/// worker is told to write to one end are the bytes that the other end has
/// sent, in their order, up to the event that closes the tunnel.
pub proof fn lemma_tunnel_fidelity(turn: Side, events: Seq<Event>, from: Side)
    ensures
        relayed(turn, events, from.spec_opposite()) == received(events, from),
    decreases events.len(),
{
    if events.len() > 0 {
        lemma_tunnel_fidelity(turn.spec_opposite(), events.drop_first(), from);
    }
}

/// The step that a connection in `phase` takes on `event`. A failure closes
/// the connection wherever it stands, and so does an event that does not
/// belong to the phase.
pub open spec fn spec_step(config: Config, phase: Phase, event: Event) -> (PhaseView, ActionView) {
    match (phase, event) {
        (Phase::Reading, Event::Request(read)) => on_request(
            config,
            crate::http::line::view_ok(read),
        ),
        (Phase::Connecting { request, user }, Event::Connected) => on_connected(
            request@,
            view_text(user),
        ),
        (Phase::Forwarding { address, user }, Event::Response(read)) => on_response(
            config,
            address@,
            view_text(user),
            crate::http::line::view_ok(read),
        ),
        (Phase::Connecting { .. }, Event::Unreachable) => closing(Reason::Unreachable),
        (Phase::Tunneling { turn }, event) => on_tunnel(turn, event),
        (_, Event::Failed) => closing(Reason::Failed),
        _ => closing(Reason::Unexpected),
    }
}

/// The steps of a connection come in one order: the request is read and
/// screened before the host is connected to, the host is connected to before
/// anything goes to it, and its response is read before anything of it goes
/// to the client. A connection that is closed stays closed.
pub proof fn lemma_steps_in_order(config: Config, phase: Phase, event: Event)
    ensures
        ({
            let (next, action) = spec_step(config, phase, event);
            &&& action is Connect ==> phase is Reading && next is Connecting
            &&& action is Forward ==> phase is Connecting && next is Forwarding
            &&& action is Tunnel ==> phase is Connecting && next is Tunneling
            &&& action is Deliver ==> phase is Forwarding && next is Closed
            &&& action is Relay || action is Poll ==> phase is Tunneling && next is Tunneling
            &&& action is Close || action is Reply ==> next is Closed
            &&& phase is Closed ==> next is Closed
        }),
{
}

/// Takes one step on a connection: from where it stands and what has just
/// happened to where it stands next and what the worker is to do.
///
/// A connection begins in `Phase::Reading`, with the worker reading the
/// request of the client.
pub fn handle_stream(config: &Config, phase: Phase, event: Event) -> (r: (Phase, Action))
    ensures
        (r.0@, r.1@) == spec_step(*config, phase, event),
{
    match (phase, event) {
        (Phase::Reading, Event::Request(read)) => {
            let request = match read {
                Ok(request) => request,
                Err(e) => {
                    return (Phase::Closed, Action::Close { reason: Reason::BadRequest(e) });
                },
            };
            match screen(config, &request) {
                Admission::Forbidden { rule } => (
                    Phase::Closed,
                    Action::Reply { bytes: forbidden(), reason: Reason::RequestRefused(rule) },
                ),
                Admission::NoHost => (Phase::Closed, Action::Close { reason: Reason::NoHost }),
                Admission::Unauthorized(e) => (
                    Phase::Closed,
                    Action::Reply { bytes: proxy_auth(), reason: Reason::Unauthorized(e) },
                ),
                Admission::Connect { host, user } => (
                    Phase::Connecting { request, user },
                    Action::Connect { host },
                ),
            }
        },
        (Phase::Connecting { request, user }, Event::Connected) => {
            match request.method() {
                crate::http::line::Method::CONNECT => (
                    Phase::Tunneling { turn: Side::Client },
                    Action::Tunnel { bytes: http_status_ok(), poll: Side::Client },
                ),
                _ => {
                    let bytes = request.to_bytes();
                    let address = request.path();
                    (Phase::Forwarding { address, user }, Action::Forward { bytes })
                },
            }
        },
        (Phase::Connecting { .. }, Event::Unreachable) => (
            Phase::Closed,
            Action::Close { reason: Reason::Unreachable },
        ),
        (Phase::Forwarding { address, user }, Event::Response(read)) => {
            let response = match read {
                Ok(response) => response,
                Err(e) => {
                    return (Phase::Closed, Action::Close { reason: Reason::BadResponse(e) });
                },
            };
            match rejecting_response_rule(&config.deny.response, &response) {
                Some(rule) => (
                    Phase::Closed,
                    Action::Reply { bytes: forbidden(), reason: Reason::ResponseRefused(rule) },
                ),
                None => {
                    let bytes = response.to_bytes();
                    (Phase::Closed, Action::Deliver { bytes, address, user })
                },
            }
        },
        (Phase::Tunneling { turn }, Event::Received { from, bytes }) => {
            if bytes.len() == 0 {
                (Phase::Closed, Action::Close { reason: Reason::PeerClosed(from) })
            } else {
                let next = turn.opposite();
                (
                    Phase::Tunneling { turn: next },
                    Action::Relay { to: from.opposite(), bytes, poll: next },
                )
            }
        },
        (Phase::Tunneling { turn }, Event::Blocked) => {
            let next = turn.opposite();
            (Phase::Tunneling { turn: next }, Action::Poll { from: next })
        },
        (_, Event::Failed) => (Phase::Closed, Action::Close { reason: Reason::Failed }),
        _ => (Phase::Closed, Action::Close { reason: Reason::Unexpected }),
    }
}

} // verus!
