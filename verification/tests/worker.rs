use proxy::config::Auth;
use proxy::config::Config;
use proxy::config::Header;
use proxy::config::Request as RequestRule;
use proxy::config::RequestDeny;
use proxy::config::RequestLine;
use proxy::config::Response as ResponseRule;
use proxy::config::ResponseDeny;
use proxy::http::forbidden;
use proxy::http::http_status_ok;
use proxy::http::parse_request;
use proxy::http::parse_response;
use proxy::http::proxy_auth;
use proxy::http::wanted;
use proxy::http::ParseError;
use proxy::http::Reader;
use proxy::pool::worker::handle_stream;
use proxy::pool::worker::screen;
use proxy::pool::worker::Action;
use proxy::pool::worker::Admission;
use proxy::pool::worker::Event;
use proxy::pool::worker::Phase;
use proxy::pool::worker::Reason;
use proxy::pool::worker::Side;
use proxy::utils::AuthError;

fn config() -> Config {
    let mut config = Config::generate_default();
    config.deny.request.push(RequestRule {
        name: "no admin".to_string(),
        rule: RequestDeny {
            headers: Vec::new(),
            line: RequestLine { methods: Vec::new(), path: vec!["^/admin".to_string()] },
        },
    });
    config.deny.response.push(ResponseRule {
        name: "no pdf".to_string(),
        rule: ResponseDeny {
            headers: vec![Header { key: "Content-Type".to_string(), value: "pdf".to_string() }],
        },
    });
    config
}

fn with_auth() -> Config {
    let mut config = config();
    config.server.auth =
        Auth { enable: true, username: "rust".to_string(), password: "proxy".to_string() };
    config
}

fn request(text: &str) -> Event {
    Event::Request(parse_request(text.as_bytes()))
}

#[test]
fn default_config_refuses_nothing() {
    let config = Config::generate_default();
    assert!(!config.server.auth.enable);
    assert_eq!(config.server.auth.username, "");
    assert_eq!(config.server.auth.password, "");
    assert!(config.deny.request.is_empty());
    assert!(config.deny.response.is_empty());
}

#[test]
fn request_that_cannot_be_read_gets_no_reply() {
    let (phase, action) = handle_stream(&config(), Phase::Reading, request("GET /\r\n\r\n"));
    assert!(matches!(phase, Phase::Closed));
    assert!(matches!(
        action,
        Action::Close { reason: Reason::BadRequest(ParseError::RequestLine) }
    ));
    let (phase, action) =
        handle_stream(&config(), Phase::Reading, Event::Request(Err(ParseError::Protocol)));
    assert!(matches!(phase, Phase::Closed));
    assert!(matches!(action, Action::Close { reason: Reason::BadRequest(ParseError::Protocol) }));
}

#[test]
fn refused_request_gets_403() {
    let (phase, action) =
        handle_stream(&config(), Phase::Reading, request("GET /admin/x HTTP/1.1\r\nHost: a\r\n\r\n"));
    assert!(matches!(phase, Phase::Closed));
    match action {
        Action::Reply { bytes, reason } => {
            assert_eq!(bytes, forbidden());
            assert_eq!(reason, Reason::RequestRefused(0));
        }
        other => panic!("{:?}", other),
    }
}

#[test]
fn request_without_host_gets_no_reply() {
    let (phase, action) =
        handle_stream(&with_auth(), Phase::Reading, request("GET / HTTP/1.1\r\nA: b\r\n\r\n"));
    assert!(matches!(phase, Phase::Closed));
    assert!(matches!(action, Action::Close { reason: Reason::NoHost }));
}

#[test]
fn request_without_credentials_gets_407() {
    for (text, why) in [
        ("GET / HTTP/1.1\r\nHost: a\r\n\r\n", AuthError::Missing),
        (
            "GET / HTTP/1.1\r\nHost: a\r\nProxy-Authorization: Basic !!\r\n\r\n",
            AuthError::Encoding,
        ),
        (
            "GET / HTTP/1.1\r\nHost: a\r\nProxy-Authorization: Basic cnVzdDp4\r\n\r\n",
            AuthError::Mismatch,
        ),
        (
            "GET / HTTP/1.1\r\nHost: a\r\nProxy-Authorization: cnVzdDpwcm94eQ==\r\n\r\n",
            AuthError::Scheme,
        ),
    ] {
        let (phase, action) = handle_stream(&with_auth(), Phase::Reading, request(text));
        assert!(matches!(phase, Phase::Closed));
        match action {
            Action::Reply { bytes, reason } => {
                assert_eq!(bytes, proxy_auth());
                assert_eq!(reason, Reason::Unauthorized(why));
            }
            other => panic!("{:?}", other),
        }
    }
}

#[test]
fn rules_come_before_host_and_credentials() {
    let (_, action) =
        handle_stream(&with_auth(), Phase::Reading, request("GET /admin HTTP/1.1\r\nA: b\r\n\r\n"));
    match action {
        Action::Reply { bytes, reason } => {
            assert_eq!(bytes, forbidden());
            assert_eq!(reason, Reason::RequestRefused(0));
        }
        other => panic!("{:?}", other),
    }
}

#[test]
fn screen_tells_why() {
    let read = |text: &str| parse_request(text.as_bytes()).unwrap();
    let config = with_auth();
    assert!(matches!(
        screen(&config, &read("GET /admin HTTP/1.1\r\nHost: a\r\n\r\n")),
        Admission::Forbidden { rule: 0 }
    ));
    assert!(matches!(screen(&config, &read("GET / HTTP/1.1\r\nA: a\r\n\r\n")), Admission::NoHost));
    assert!(matches!(
        screen(&config, &read("GET / HTTP/1.1\r\nHost: a\r\n\r\n")),
        Admission::Unauthorized(AuthError::Missing)
    ));
    assert!(matches!(
        screen(&config, &read("GET / HTTP/1.1\r\nHost: a\r\nProxy-Authorization: x\r\n\r\n")),
        Admission::Unauthorized(AuthError::Scheme)
    ));
    assert!(matches!(
        screen(
            &config,
            &read("GET / HTTP/1.1\r\nHost: a\r\nProxy-Authorization: Basic cnVzdDp4\r\n\r\n")
        ),
        Admission::Unauthorized(AuthError::Mismatch)
    ));
    match screen(
        &config,
        &read("GET / HTTP/1.1\r\nHost: a:8080\r\nProxy-Authorization: Basic cnVzdDpwcm94eQ==\r\n\r\n"),
    ) {
        Admission::Connect { host, user } => {
            assert_eq!(host, "a:8080");
            assert_eq!(user, Some("rust".to_string()));
        }
        other => panic!("{:?}", other),
    }
}

#[test]
fn plain_request_is_forwarded_and_answered() {
    let config = config();
    let text = "POST /x HTTP/1.1\r\nHost: a.example\r\nContent-Length: 2\r\n\r\nhi";
    let (phase, action) = handle_stream(&config, Phase::Reading, request(text));
    match action {
        Action::Connect { host } => assert_eq!(host, "a.example:80"),
        other => panic!("{:?}", other),
    }
    assert!(matches!(phase, Phase::Connecting { .. }));

    let (phase, action) = handle_stream(&config, phase, Event::Connected);
    match action {
        Action::Forward { bytes } => assert_eq!(bytes, text.as_bytes()),
        other => panic!("{:?}", other),
    }
    assert!(matches!(phase, Phase::Forwarding { .. }));

    let reply = b"HTTP/1.1 200 OK\r\nContent-Length: 2\r\n\r\nok";
    let (phase, action) = handle_stream(&config, phase, Event::Response(parse_response(reply)));
    assert!(matches!(phase, Phase::Closed));
    match action {
        Action::Deliver { bytes, address, user } => {
            assert_eq!(bytes, b"HTTP/1.1 200 OK\r\nContent-Length: 2\r\n\r\nok");
            assert_eq!(address, "a.example/x");
            assert_eq!(user, None);
        }
        other => panic!("{:?}", other),
    }
}

#[test]
fn user_is_kept_for_the_log() {
    let config = with_auth();
    let text =
        "GET http://a/x HTTP/1.1\r\nHost: a\r\nProxy-Authorization: Basic cnVzdDpwcm94eQ==\r\n\r\n";
    let (phase, _) = handle_stream(&config, Phase::Reading, request(text));
    let (phase, _) = handle_stream(&config, phase, Event::Connected);
    let reply = b"HTTP/1.1 204 No Content\r\nA: b\r\n\r\n";
    let (_, action) = handle_stream(&config, phase, Event::Response(parse_response(reply)));
    match action {
        Action::Deliver { address, user, .. } => {
            assert_eq!(address, "http://a/x");
            assert_eq!(user, Some("rust".to_string()));
        }
        other => panic!("{:?}", other),
    }
}

#[test]
fn refused_response_gets_403() {
    let config = config();
    let (phase, _) =
        handle_stream(&config, Phase::Reading, request("GET / HTTP/1.1\r\nHost: a\r\n\r\n"));
    let (phase, _) = handle_stream(&config, phase, Event::Connected);
    let reply = b"HTTP/1.1 200 OK\r\nContent-Type: application/pdf\r\n\r\n";
    let (phase, action) = handle_stream(&config, phase, Event::Response(parse_response(reply)));
    assert!(matches!(phase, Phase::Closed));
    match action {
        Action::Reply { bytes, reason } => {
            assert_eq!(bytes, forbidden());
            assert_eq!(reason, Reason::ResponseRefused(0));
        }
        other => panic!("{:?}", other),
    }
}

#[test]
fn response_that_cannot_be_read_gets_no_reply() {
    let config = config();
    let (phase, _) =
        handle_stream(&config, Phase::Reading, request("GET / HTTP/1.1\r\nHost: a\r\n\r\n"));
    let (phase, _) = handle_stream(&config, phase, Event::Connected);
    let (phase, action) =
        handle_stream(&config, phase, Event::Response(parse_response(b"HTTP/1.1 200\r\n\r\n")));
    assert!(matches!(phase, Phase::Closed));
    assert!(matches!(
        action,
        Action::Close { reason: Reason::BadResponse(ParseError::ResponseLine) }
    ));
}

#[test]
fn unreachable_host_and_failures_close() {
    let config = config();
    let (phase, _) =
        handle_stream(&config, Phase::Reading, request("GET / HTTP/1.1\r\nHost: a\r\n\r\n"));
    let (phase, action) = handle_stream(&config, phase, Event::Unreachable);
    assert!(matches!(phase, Phase::Closed));
    assert!(matches!(action, Action::Close { reason: Reason::Unreachable }));

    let (phase, action) = handle_stream(&config, Phase::Reading, Event::Failed);
    assert!(matches!(phase, Phase::Closed));
    assert!(matches!(action, Action::Close { reason: Reason::Failed }));
    let (phase, action) =
        handle_stream(&config, Phase::Tunneling { turn: Side::Client }, Event::Failed);
    assert!(matches!(phase, Phase::Closed));
    assert!(matches!(action, Action::Close { reason: Reason::Failed }));
    let (phase, action) = handle_stream(&config, Phase::Reading, Event::Connected);
    assert!(matches!(phase, Phase::Closed));
    assert!(matches!(action, Action::Close { reason: Reason::Unexpected }));
    let (phase, action) = handle_stream(&config, Phase::Reading, Event::Unreachable);
    assert!(matches!(phase, Phase::Closed));
    assert!(matches!(action, Action::Close { reason: Reason::Unexpected }));
    let (phase, action) = handle_stream(&config, Phase::Closed, Event::Blocked);
    assert!(matches!(phase, Phase::Closed));
    assert!(matches!(action, Action::Close { reason: Reason::Unexpected }));
    let (phase, action) = handle_stream(&config, Phase::Closed, Event::Failed);
    assert!(matches!(phase, Phase::Closed));
    assert!(matches!(action, Action::Close { reason: Reason::Failed }));
}

#[test]
fn connect_opens_a_tunnel() {
    let config = config();
    let text = "CONNECT a.example:443 HTTP/1.1\r\nHost: a.example:443\r\n\r\n";
    let (phase, action) = handle_stream(&config, Phase::Reading, request(text));
    match action {
        Action::Connect { host } => assert_eq!(host, "a.example:443"),
        other => panic!("{:?}", other),
    }
    let (phase, action) = handle_stream(&config, phase, Event::Connected);
    assert!(matches!(phase, Phase::Tunneling { turn: Side::Client }));
    match action {
        Action::Tunnel { bytes, poll } => {
            assert_eq!(bytes, http_status_ok());
            assert_eq!(poll, Side::Client);
        }
        other => panic!("{:?}", other),
    }
}

#[test]
fn tunnel_reads_its_ends_in_turn() {
    let config = config();
    let phase = Phase::Tunneling { turn: Side::Client };
    let (phase, action) = handle_stream(&config, phase, Event::Blocked);
    assert!(matches!(action, Action::Poll { from: Side::Upstream }));
    let (phase, action) = handle_stream(&config, phase, Event::Blocked);
    assert!(matches!(action, Action::Poll { from: Side::Client }));
    let (phase, action) =
        handle_stream(&config, phase, Event::Received { from: Side::Client, bytes: vec![1] });
    assert!(matches!(action, Action::Relay { to: Side::Upstream, poll: Side::Upstream, .. }));
    let (phase, action) =
        handle_stream(&config, phase, Event::Received { from: Side::Upstream, bytes: vec![2] });
    assert!(matches!(action, Action::Relay { to: Side::Client, poll: Side::Client, .. }));
    assert!(matches!(phase, Phase::Tunneling { turn: Side::Client }));
    assert_eq!(proxy::pool::worker::CONNECT_TIMEOUT_SECS, 4);
}

#[test]
fn tunnel_passes_bytes_as_they_come() {
    let config = config();
    let events = vec![
        (Side::Client, b"\x16\x03\x01hello".to_vec()),
        (Side::Upstream, b"\x16\x03\x03world".to_vec()),
        (Side::Client, vec![0, 255, 13, 10]),
        (Side::Client, b"more".to_vec()),
        (Side::Upstream, b"!".to_vec()),
    ];
    let mut phase = Phase::Tunneling { turn: Side::Client };
    let mut to_upstream = Vec::new();
    let mut to_client = Vec::new();
    for (from, bytes) in events.iter().cloned() {
        let (next, action) = handle_stream(&config, phase, Event::Blocked);
        assert!(matches!(action, Action::Poll { .. }));
        let (next, action) = handle_stream(&config, next, Event::Received { from, bytes });
        match action {
            Action::Relay { to: Side::Upstream, bytes, .. } => to_upstream.extend(bytes),
            Action::Relay { to: Side::Client, bytes, .. } => to_client.extend(bytes),
            other => panic!("{:?}", other),
        }
        phase = next;
        assert!(matches!(phase, Phase::Tunneling { .. }));
    }
    assert_eq!(to_upstream, b"\x16\x03\x01hello\x00\xff\r\nmore");
    assert_eq!(to_client, b"\x16\x03\x03world!");

    let (phase, action) =
        handle_stream(&config, phase, Event::Received { from: Side::Upstream, bytes: Vec::new() });
    assert!(matches!(phase, Phase::Closed));
    assert!(matches!(action, Action::Close { reason: Reason::PeerClosed(Side::Upstream) }));
    let (phase, action) =
        handle_stream(&config, phase, Event::Received { from: Side::Client, bytes: vec![1] });
    assert!(matches!(phase, Phase::Closed));
    assert!(matches!(action, Action::Close { reason: Reason::Unexpected }));
    assert_eq!(Side::Client.opposite(), Side::Upstream);
    assert_eq!(Side::Upstream.opposite(), Side::Client);
}

#[test]
fn wanted_tells_how_much_to_read() {
    let text = b"POST /login HTTP/1.1\r\nContent-Length: 5\r\n\r\nhello";
    let head = text.len() - 5;
    for n in 0..head {
        assert_eq!(wanted(&text[..n]), 1, "after {} bytes", n);
    }
    assert_eq!(wanted(&text[..head]), 5);
    assert_eq!(wanted(&text[..head + 2]), 3);
    assert_eq!(wanted(text), 0);
    assert_eq!(wanted(b"POST /login HTTP/1.1\r\nContent-Length: 5\r\n\r\nhello and more"), 0);

    assert_eq!(wanted(b"GET / HTTP/1.1\r\nA: b\r\n\r\n"), 0);
    assert_eq!(wanted(b"GET / HTTP/1.1\nA: b\n\n"), 0);
    assert_eq!(wanted(b"GET / HTTP/1.1\nA: b\n"), 1);
    assert_eq!(wanted(b"GET / HTTP/1.1\r\n\r"), 0);
    assert_eq!(wanted(b"GET / HTTP/1.1\r\nA\r\n"), 0);
    assert_eq!(wanted(b"GET / HTTP/1.1\r\nContent-Length: x\r\n\r\n"), 0);
    assert_eq!(wanted(b"whatever\nA: b\n\n"), 0);
}

#[test]
fn reading_as_wanted_reads_the_message() {
    let stream = b"POST /a HTTP/1.1\r\nHost: h\r\nContent-Length: 4\r\n\r\nbodyGET /next HTTP/1.1\r\n";
    let mut read = 0;
    loop {
        let n = wanted(&stream[..read]);
        if n == 0 {
            break;
        }
        read += n;
    }
    assert_eq!(&stream[..read], &b"POST /a HTTP/1.1\r\nHost: h\r\nContent-Length: 4\r\n\r\nbody"[..]);
    let whole = parse_request(stream).unwrap();
    let part = parse_request(&stream[..read]).unwrap();
    assert_eq!(whole.path, part.path);
    assert_eq!(whole.body, part.body);
    assert_eq!(whole.body, b"body");
}

#[test]
fn text_for_the_log() {
    let request =
        parse_request(b"GET /x HTTP/1.1\r\nHost: a\r\nX-Q: say \"hi\"\r\n\r\n").unwrap();
    assert_eq!(
        request.string(),
        "GET /x HTTP/1.1 \n {\"Host\": \"a\", \"X-Q\": \"say \\\"hi\\\"\"}"
    );
    let response = parse_response(b"HTTP/1.0 301 Moved\r\nLocation: /y\r\n\r\n").unwrap();
    assert_eq!(response.string(), "HTTP/1.0 301 Moved \n {\"Location\": \"/y\"}");
    let request = parse_request(b"GET /x HTTP/1.1").unwrap();
    assert_eq!(request.string(), "GET /x HTTP/1.1 \n {}");
    let pairs = vec![("a".to_string(), "b".to_string()), ("c".to_string(), "".to_string())];
    assert_eq!(proxy::http::message::write_map(&pairs), "{a: b, c: }");
    assert_eq!(proxy::http::message::write_map(&Vec::new()), "{}");
}

#[test]
fn reader_wants_what_the_bytes_ask_for() {
    for text in [
        &b"POST /login HTTP/1.1\r\nContent-Length: 5\r\n\r\nhello and more"[..],
        &b"GET / HTTP/1.1\nA: b\n\nrest"[..],
        &b"GET / HTTP/1.1\r\n\r\nrest"[..],
        &b"GET / HTTP/1.1\r\nA: b\rC\r\n\r\n"[..],
        &b"GET / HTTP/1.1\r\nnothing\r\nA: b\r\n\r\n"[..],
        &b"HTTP/1.1 200 OK\r\nContent-Length: 12\r\nContent-Length: 3\r\n\r\nabcdef"[..],
        &b"HTTP/1.1 200 OK\r\nContent-Length: many\r\n\r\nabcdef"[..],
        &b"\n\n\n"[..],
    ] {
        let mut reader = Reader::new();
        assert_eq!(reader.wanted(), 1);
        assert_eq!(reader.as_slice(), b"");
        for n in 0..text.len() {
            assert_eq!(reader.wanted(), wanted(&text[..n]), "after {} bytes of {:?}", n, text);
            reader = reader.push(text[n]);
            assert_eq!(reader.as_slice(), &text[..n + 1]);
        }
        assert_eq!(reader.wanted(), wanted(text));
        assert_eq!(reader.into_bytes(), text);
    }
}

#[test]
fn reader_stops_behind_the_message() {
    let stream = b"POST /a HTTP/1.1\r\nHost: h\r\nContent-Length: 4\r\n\r\nbodyGET /next HTTP/1.1\r\n";
    let mut reader = Reader::new();
    let mut at = 0;
    loop {
        let want = reader.wanted();
        if want == 0 {
            break;
        }
        reader = reader.extend(&stream[at..at + want]);
        at += want;
    }
    assert_eq!(at, stream.len() - 20);
    let request = parse_request(reader.as_slice()).unwrap();
    assert_eq!(request.path, "/a");
    assert_eq!(request.body, b"body");
    let reader = reader.extend(b"");
    assert_eq!(reader.wanted(), 0);
}
