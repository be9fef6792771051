use proxy::http::parse_request;
use proxy::http::parse_request_header;
use proxy::http::parse_response;
use proxy::http::parse_response_header;
use proxy::http::split_key_value;
use proxy::http::to_char_type;
use proxy::http::transform;
use proxy::http::CharType;
use proxy::http::ErrorKind;
use proxy::http::Headers;
use proxy::http::HttpVersion;
use proxy::http::Method;
use proxy::http::ParseError;
use proxy::http::Request;
use proxy::http::Response;
use proxy::http::State;

#[test]
fn http_to_char_type_test() {
    assert_eq!(to_char_type('\n' as u8), CharType::NewLine);
    assert_eq!(to_char_type('\r' as u8), CharType::Return);
    assert_eq!(to_char_type('a' as u8), CharType::Others);
}

#[test]
fn http_method_test() {
    assert_eq!(Method::parse("POST"), Method::POST);
    assert_eq!(Method::parse("PUT"), Method::OTHERS("PUT".to_string()));

    assert!(HttpVersion::parse("HTTP/1.1").is_ok());

    assert_eq!(HttpVersion::parse("HTTP/1.1").unwrap(), HttpVersion::Http11);
    assert_eq!(HttpVersion::parse("HTTP/2").unwrap(), HttpVersion::Http2);
    assert_eq!(HttpVersion::parse("HTTP/3").unwrap(), HttpVersion::Http3);
}

#[test]
fn to_char_type_test() {
    assert_eq!(to_char_type('\n' as u8), CharType::NewLine);
    assert_eq!(to_char_type('\r' as u8), CharType::Return);
    assert_eq!(to_char_type('a' as u8), CharType::Others);
}

#[test]
fn method_test() {
    assert_eq!(Method::parse("POST"), Method::POST);
    assert_eq!(Method::parse("wrong"), Method::OTHERS("wrong".to_string()));

    assert!(HttpVersion::parse("HTTP/1.1").is_ok());

    assert_eq!(HttpVersion::parse("HTTP/1.1").unwrap(), HttpVersion::Http11);
    assert_eq!(HttpVersion::parse("HTTP/2").unwrap(), HttpVersion::Http2);
    assert_eq!(HttpVersion::parse("HTTP/3").unwrap(), HttpVersion::Http3);
}

#[test]
fn parse_request_test() {
    let request_str = "POST /login HTTP/1.1\r\nContent-Length: 5\r\n\r\nhello".as_bytes();
    let request = parse_request(request_str);
    assert!(request.is_ok());

    let request = request.unwrap();

    assert_eq!(request.path, "/login");
    assert_eq!(request.body, "hello".as_bytes());
    assert!(request.headers.get("Content-Length").is_some());
    assert_eq!(request.headers.get("Content-Length").unwrap(), "5")
}

#[test]
fn parse_response_test() {
    let response_str = "HTTP/1.1 200 OK\r\nContent-Length: 5\r\n\r\nhello".as_bytes();
    let response = parse_response(response_str);
    assert!(response.is_ok());

    let response = response.unwrap();

    assert_eq!(response.body, "hello".as_bytes());
    assert!(response.headers.get("Content-Length").is_some());
    assert_eq!(response.headers.get("Content-Length").unwrap(), "5")
}

#[test]
fn method_tokens_are_kept() {
    assert_eq!(Method::parse("GET"), Method::GET);
    assert_eq!(Method::parse("HEAD"), Method::HEAD);
    assert_eq!(Method::parse("CONNECT"), Method::CONNECT);
    assert_eq!(Method::parse("get"), Method::OTHERS("get".to_string()));
    assert_eq!(Method::parse(""), Method::OTHERS(String::new()));
    assert_eq!(Method::GET.to_string(), "GET");
    assert_eq!(Method::POST.to_string(), "POST");
    assert_eq!(Method::HEAD.to_string(), "HEAD");
    assert_eq!(Method::CONNECT.to_string(), "CONNECT");
    assert_eq!(Method::OTHERS("PATCH".to_string()).to_string(), "PATCH");
    assert_eq!(Method::default(), Method::GET);
}

#[test]
fn version_tokens() {
    assert_eq!(HttpVersion::parse("HTTP/1.0"), Ok(HttpVersion::Http1));
    assert_eq!(HttpVersion::parse("HTTP/1.2"), Err(ParseError::Version));
    assert_eq!(HttpVersion::parse("http/1.1"), Err(ParseError::Version));
    assert_eq!(HttpVersion::parse(""), Err(ParseError::Version));
    assert_eq!(HttpVersion::Http1.to_string(), "HTTP/1.0");
    assert_eq!(HttpVersion::Http11.to_string(), "HTTP/1.1");
    assert_eq!(HttpVersion::Http2.to_string(), "HTTP/2");
    assert_eq!(HttpVersion::Http3.to_string(), "HTTP/3");
    assert_eq!(HttpVersion::default(), HttpVersion::Http11);
}

#[test]
fn request_line_has_three_tokens() {
    let line = parse_request_header("GET /hello HTTP/1.1").unwrap();
    assert_eq!(line.method, Method::GET);
    assert_eq!(line.path, "/hello");
    assert_eq!(line.version, HttpVersion::Http11);

    let line = parse_request_header("PURGE  HTTP/2").unwrap();
    assert_eq!(line.method, Method::OTHERS("PURGE".to_string()));
    assert_eq!(line.path, "");
    let line = parse_request_header("PURGE / HTTP/2").unwrap();
    assert_eq!(line.method, Method::OTHERS("PURGE".to_string()));
    assert_eq!(line.version, HttpVersion::Http2);

    assert_eq!(parse_request_header("").unwrap_err(), ParseError::RequestLine);
    assert_eq!(parse_request_header("GET /").unwrap_err(), ParseError::RequestLine);
    assert_eq!(parse_request_header("GET / HTTP/1.1 ").unwrap_err(), ParseError::RequestLine);
    assert_eq!(parse_request_header("GET / a HTTP/1.1").unwrap_err(), ParseError::RequestLine);
    assert_eq!(parse_request_header("GET / HTTP/4").unwrap_err(), ParseError::Version);
}

#[test]
fn request_line_round_trip() {
    for text in ["GET / HTTP/1.0", "POST /a/b?c=d HTTP/1.1", "BREW /pot HTTP/3", " x HTTP/2"] {
        let line = parse_request_header(text).unwrap();
        let again = format!(
            "{} {} {}",
            line.method.to_string(),
            line.path,
            line.version.to_string()
        );
        assert_eq!(again, text);
    }
}

#[test]
fn response_line_keeps_spaces_in_text() {
    let line = parse_response_header("HTTP/1.1 404 Not Found").unwrap();
    assert_eq!(line.version, HttpVersion::Http11);
    assert_eq!(line.code, 404);
    assert_eq!(line.text, "Not Found");

    let line = parse_response_header("HTTP/1.0 200 ").unwrap();
    assert_eq!(line.code, 200);
    assert_eq!(line.text, "");

    let line = parse_response_header("HTTP/2 +7 x").unwrap();
    assert_eq!(line.code, 7);
    let line = parse_response_header("HTTP/2 65535 x").unwrap();
    assert_eq!(line.code, 65535);

    assert_eq!(parse_response_header("HTTP/1.1 200").unwrap_err(), ParseError::ResponseLine);
    assert_eq!(parse_response_header("HTTP/1.1").unwrap_err(), ParseError::ResponseLine);
    assert_eq!(parse_response_header("HTTP/9 200 OK").unwrap_err(), ParseError::Version);
    assert_eq!(parse_response_header("HTTP/1.1 abc OK").unwrap_err(), ParseError::StatusCode);
    assert_eq!(parse_response_header("HTTP/1.1 65536 OK").unwrap_err(), ParseError::StatusCode);
    assert_eq!(parse_response_header("HTTP/1.1 -1 OK").unwrap_err(), ParseError::StatusCode);
    assert_eq!(parse_response_header("HTTP/1.1  OK").unwrap_err(), ParseError::StatusCode);
    assert_eq!(parse_response_header("HTTP/1.1 + OK").unwrap_err(), ParseError::StatusCode);
}

#[test]
fn machine_follows_its_table() {
    let r = CharType::Return;
    let n = CharType::NewLine;
    let o = CharType::Others;
    assert_eq!(transform(State::Init, o), State::More);
    assert_eq!(transform(State::Init, r), State::Invalid);
    assert_eq!(transform(State::Init, n), State::Invalid);
    assert_eq!(transform(State::More, o), State::More);
    assert_eq!(transform(State::More, r), State::Return1);
    assert_eq!(transform(State::More, n), State::NewLine);
    assert_eq!(transform(State::Return1, n), State::NewLine);
    assert_eq!(transform(State::Return1, r), State::Invalid);
    assert_eq!(transform(State::Return1, o), State::Invalid);
    assert_eq!(transform(State::NewLine, o), State::More);
    assert_eq!(transform(State::NewLine, r), State::Return2);
    assert_eq!(transform(State::NewLine, n), State::End);
    assert_eq!(transform(State::Return2, n), State::End);
    assert_eq!(transform(State::Return2, r), State::Invalid);
    assert_eq!(transform(State::Return2, o), State::Invalid);
    assert_eq!(transform(State::End, n), State::More);
    assert_eq!(transform(State::Invalid, r), State::More);
}

fn run(bytes: &[u8]) -> Vec<State> {
    let mut state = State::Init;
    let mut seen = Vec::new();
    for b in bytes {
        state = transform(state, to_char_type(*b));
        seen.push(state);
    }
    seen
}

#[test]
fn blank_line_is_found_where_it_stands() {
    for block in ["a: b\r\n\r\n", "a: b\n\n", "a: b\r\n\n", "a: b\n\r\n", "a: b\r\nc: d\n\r\n"] {
        let seen = run(block.as_bytes());
        assert_eq!(*seen.last().unwrap(), State::End);
        for state in &seen[..seen.len() - 1] {
            assert_ne!(*state, State::End);
            assert_ne!(*state, State::Invalid);
        }
    }
}

#[test]
fn block_without_a_line_is_refused() {
    assert_eq!(run(b"\r\n\r\n")[0], State::Invalid);
    assert_eq!(run(b"\n")[0], State::Invalid);
    assert_eq!(parse_request(b"GET / HTTP/1.1\r\n\r\n").unwrap_err(), ParseError::Protocol);
}

#[test]
fn header_line_is_cut_at_first_colon() {
    let (k, v) = split_key_value(b"Host: example.org:8080".to_vec()).unwrap();
    assert_eq!(k, "Host");
    assert_eq!(v, "example.org:8080");
    let (k, v) = split_key_value(b"  X-A \t:\t  b c  ".to_vec()).unwrap();
    assert_eq!(k, "X-A");
    assert_eq!(v, "b c");
    let (k, v) = split_key_value(b":".to_vec()).unwrap();
    assert_eq!(k, "");
    assert_eq!(v, "");
    let (k, v) = split_key_value("k\u{3000}:\u{a0}v\u{2003}".as_bytes().to_vec()).unwrap();
    assert_eq!(k, "k");
    assert_eq!(v, "v");
    assert_eq!(split_key_value(b"no colon".to_vec()).unwrap_err(), ParseError::HeaderLine);
    assert_eq!(split_key_value(vec![b'a', 0xff, b':', b'b']).unwrap_err(), ParseError::Encoding);
}

#[test]
fn headers_last_write_wins() {
    let mut h = Headers::new();
    assert!(h.is_empty());
    assert_eq!(h.insert("A".to_string(), "1".to_string()), None);
    assert_eq!(h.insert("B".to_string(), "2".to_string()), None);
    assert_eq!(h.insert("A".to_string(), "3".to_string()), Some("1".to_string()));
    assert_eq!(h.len(), 2);
    assert_eq!(h.get("A").unwrap(), "3");
    assert_eq!(h.get("B").unwrap(), "2");
    assert!(h.get("a").is_none());
    assert!(h.contains_key("B"));
    assert!(!h.contains_key("C"));
    assert_eq!(h.key_at(0), "A");
    assert_eq!(h.value_at(0), "3");
    assert_eq!(h.key_at(1), "B");
    let copy = h.clone();
    assert_eq!(copy.len(), 2);
    assert_eq!(copy.get("A").unwrap(), "3");

    let request =
        parse_request(b"GET / HTTP/1.1\r\nX: 1\r\nY: 2\r\nX: 3\r\n\r\n").unwrap();
    assert_eq!(request.headers.len(), 2);
    assert_eq!(request.headers.get("X").unwrap(), "3");
}

#[test]
fn line_ends_may_be_mixed() {
    for text in [
        "GET /x HTTP/1.1\r\nHost: a\r\nK: v\r\n\r\n",
        "GET /x HTTP/1.1\nHost: a\nK: v\n\n",
        "GET /x HTTP/1.1\r\nHost: a\nK: v\r\n\n",
        "GET /x HTTP/1.1\nHost: a\r\nK: v\n\r\n",
    ] {
        let request = parse_request(text.as_bytes()).unwrap();
        assert_eq!(request.method, Method::GET);
        assert_eq!(request.path, "/x");
        assert_eq!(request.version, HttpVersion::Http11);
        assert_eq!(request.headers.len(), 2);
        assert_eq!(request.headers.get("Host").unwrap(), "a");
        assert_eq!(request.headers.get("K").unwrap(), "v");
        assert!(request.body.is_empty());
    }
}

#[test]
fn request_errors() {
    assert_eq!(parse_request(b"").unwrap_err(), ParseError::RequestLine);
    assert_eq!(parse_request(b"GET /\r\nA: b\r\n\r\n").unwrap_err(), ParseError::RequestLine);
    assert_eq!(parse_request(b"GET / HTTP/7\r\nA: b\r\n\r\n").unwrap_err(), ParseError::Version);
    assert_eq!(
        parse_request(b"GET /\xff HTTP/1.1\r\nA: b\r\n\r\n").unwrap_err(),
        ParseError::Encoding
    );
    assert_eq!(
        parse_request(b"GET / HTTP/1.1\r\nA: b\rC: d\r\n\r\n").unwrap_err(),
        ParseError::Protocol
    );
    assert_eq!(
        parse_request(b"GET / HTTP/1.1\r\nA: b\r\n\rx").unwrap_err(),
        ParseError::Protocol
    );
    assert_eq!(
        parse_request(b"GET / HTTP/1.1\r\nnothing\r\n\r\n").unwrap_err(),
        ParseError::HeaderLine
    );
    assert_eq!(
        parse_request(b"GET / HTTP/1.1\r\nA: \xc3\x28\r\n\r\n").unwrap_err(),
        ParseError::Encoding
    );
    assert_eq!(
        parse_request(b"GET / HTTP/1.1\r\nContent-Length: five\r\n\r\nhello").unwrap_err(),
        ParseError::ContentLength
    );
    assert_eq!(
        parse_request(b"GET / HTTP/1.1\r\nContent-Length: -5\r\n\r\nhello").unwrap_err(),
        ParseError::ContentLength
    );
    assert_eq!(
        parse_request(b"GET / HTTP/1.1\r\nContent-Length: 99999999999999999999999\r\n\r\n")
            .unwrap_err(),
        ParseError::ContentLength
    );
    assert_eq!(
        parse_request(b"GET / HTTP/1.1\r\nContent-Length: 6\r\n\r\nhello").unwrap_err(),
        ParseError::IncompleteBody
    );
}

#[test]
fn response_errors() {
    assert_eq!(parse_response(b"HTTP/1.1 200\r\nA: b\r\n\r\n").unwrap_err(), ParseError::ResponseLine);
    assert_eq!(parse_response(b"HTTP/1.1 2x0 OK\r\nA: b\r\n\r\n").unwrap_err(), ParseError::StatusCode);
    assert_eq!(parse_response(b"SPDY/1 200 OK\r\nA: b\r\n\r\n").unwrap_err(), ParseError::Version);
    assert_eq!(parse_response(b"HTTP/1.1 200 OK\r\n\r\n").unwrap_err(), ParseError::Protocol);
}

#[test]
fn error_texts_and_kinds() {
    assert_eq!(ParseError::RequestLine.message(), "Request line is not correct");
    assert_eq!(ParseError::ResponseLine.message(), "Response line is not correct");
    assert_eq!(ParseError::Version.message(), "No such http version supported");
    assert_eq!(ParseError::StatusCode.message(), "parser http code failed");
    assert_eq!(ParseError::Encoding.message(), "convert to &str failed");
    assert_eq!(ParseError::HeaderLine.message(), "wrong format");
    assert_eq!(
        ParseError::Protocol.message(),
        "http content not fits the protocol definition"
    );
    assert_eq!(ParseError::ContentLength.message(), "parse Content-Length failed");
    assert_eq!(ParseError::IncompleteBody.message(), "body is less than Content-Length");
    assert_eq!(ParseError::ContentLength.kind(), ErrorKind::Config);
    assert_eq!(ParseError::Protocol.kind(), ErrorKind::Protocol);
    assert_eq!(ParseError::HeaderLine.kind(), ErrorKind::Protocol);
}

#[test]
fn body_is_what_content_length_says() {
    let request = parse_request(b"POST / HTTP/1.1\r\nContent-Length: 3\r\n\r\nhello").unwrap();
    assert_eq!(request.body, b"hel");
    let request = parse_request(b"POST / HTTP/1.1\r\nContent-Length: 0\r\n\r\nhello").unwrap();
    assert!(request.body.is_empty());
    let request = parse_request(b"POST / HTTP/1.1\r\nContent-Length: +2\r\n\r\nhello").unwrap();
    assert_eq!(request.body, b"he");
    let request = parse_request(b"POST / HTTP/1.1\r\ncontent-length: 3\r\n\r\nhello").unwrap();
    assert!(request.body.is_empty());
    let request = parse_request(b"POST / HTTP/1.1\r\nA: b\r\n\r\nhello").unwrap();
    assert!(request.body.is_empty());
    let request = parse_request(b"POST / HTTP/1.1\r\nContent-Length: 2\r\n\r\n\r\nxx").unwrap();
    assert_eq!(request.body, b"\r\n");
}

#[test]
fn input_that_ends_early() {
    let request = parse_request(b"GET / HTTP/1.1").unwrap();
    assert!(request.headers.is_empty());
    let request = parse_request(b"GET / HTTP/1.1\r\nA: b\r\nC: d").unwrap();
    assert_eq!(request.headers.len(), 1);
    assert_eq!(request.headers.get("A").unwrap(), "b");
    let request = parse_request(b"GET / HTTP/1.1\r\nA: b\r\n\r").unwrap();
    assert_eq!(request.headers.len(), 1);
}

#[test]
fn request_is_written_as_it_was_read() {
    let text = b"POST /login HTTP/1.1\r\nHost: a.example\r\nContent-Length: 5\r\n\r\nhello";
    let mut request = parse_request(text).unwrap();
    assert_eq!(request.to_bytes(), text);
    assert_eq!(request.as_bytes(), text);
    assert_eq!(request.body, b"hello");

    let again = parse_request(&request.to_bytes()).unwrap();
    assert_eq!(again.method, request.method);
    assert_eq!(again.path, request.path);
    assert_eq!(again.version, request.version);
    assert_eq!(again.headers.len(), 2);
    assert_eq!(again.headers.get("Host").unwrap(), "a.example");
    assert_eq!(again.headers.get("Content-Length").unwrap(), "5");
    assert_eq!(again.body, request.body);
}

#[test]
fn request_bytes_are_normalised() {
    let mut request = parse_request(b"GET /p HTTP/1.0\nB:2\nA :  1 \n\n").unwrap();
    assert_eq!(request.as_bytes(), b"GET /p HTTP/1.0\r\nB: 2\r\nA: 1\r\n\r\n");
}

#[test]
fn request_bytes_are_kept() {
    let mut request = Request::default();
    request.method = Method::OTHERS("PUT".to_string());
    request.path = "/a".to_string();
    request.headers.insert("K".to_string(), "v".to_string());
    request.body = b"xy".to_vec();
    assert_eq!(request.as_bytes(), b"PUT /a HTTP/1.1\r\nK: v\r\n\r\nxy");
    request.path = "/b".to_string();
    assert_eq!(request.as_bytes(), b"PUT /a HTTP/1.1\r\nK: v\r\n\r\nxy");
    assert_eq!(request.to_bytes(), b"PUT /b HTTP/1.1\r\nK: v\r\n\r\nxy");
}

#[test]
fn default_request_and_response() {
    let request = Request::default();
    assert_eq!(request.method, Method::GET);
    assert_eq!(request.path, "");
    assert_eq!(request.version, HttpVersion::Http11);
    assert!(request.headers.is_empty());
    assert!(request.body.is_empty());
    assert_eq!(request.to_bytes(), b"GET  HTTP/1.1\r\n\r\n");
    let response = Response::default();
    assert_eq!(response.version, HttpVersion::Http11);
    assert_eq!(response.code, 0);
    assert_eq!(response.to_bytes(), b"HTTP/1.1 0 \r\n\r\n");
}

#[test]
fn response_bytes() {
    let mut response =
        parse_response(b"HTTP/1.1 404 Not Found\nServer: x\nContent-Length: 2\n\nno").unwrap();
    assert_eq!(response.code, 404);
    assert_eq!(response.text, "Not Found");
    assert_eq!(
        response.as_bytes(),
        b"HTTP/1.1 404 Not Found\r\nServer: x\r\nContent-Length: 2\r\n\r\nno"
    );
    response.code = 65535;
    assert_eq!(
        response.to_bytes(),
        b"HTTP/1.1 65535 Not Found\r\nServer: x\r\nContent-Length: 2\r\n\r\nno"
    );
    assert_eq!(
        response.as_bytes(),
        b"HTTP/1.1 404 Not Found\r\nServer: x\r\nContent-Length: 2\r\n\r\nno"
    );
    response.code = 100;
    assert!(response.to_bytes().starts_with(b"HTTP/1.1 100 "));
    response.code = 7;
    assert!(response.to_bytes().starts_with(b"HTTP/1.1 7 "));
}

#[test]
fn address_of_a_request() {
    let mut request = Request::default();
    request.path = "http://a.example/x".to_string();
    assert_eq!(request.path(), "http://a.example/x");
    request.path = "/x".to_string();
    assert_eq!(request.path(), "unknown path: /x");
    request.headers.insert("Host".to_string(), "b.example".to_string());
    assert_eq!(request.path(), "b.example/x");
    request.path = "htt".to_string();
    assert_eq!(request.path(), "b.examplehtt");
    request.path = "https://c".to_string();
    assert_eq!(request.path(), "https://c");
}

#[test]
fn canned_replies() {
    assert_eq!(
        proxy::http::unauthorized(),
        b"HTTP/1.1 401 Unauthorized\r\nConnection: close\r\n\r\n"
    );
    assert_eq!(
        proxy::http::forbidden(),
        b"HTTP/1.1 403 Forbidden\r\nConnection: close\r\n\r\n"
    );
    assert_eq!(
        proxy::http::proxy_auth(),
        b"HTTP/1.1 407 Proxy Authentication Required\r\nProxy-Authenticate: Basic\r\n\r\n"
    );
    assert_eq!(
        proxy::http::http_status_ok(),
        b"HTTP/1.1 200 OK\r\nProxy-Connection: keep-alive\r\n\r\n"
    );
    let reply = proxy::http::not_support_https();
    assert!(reply.starts_with(
        b"HTTP/1.1 400 Bad Request\r\nConnection: close\r\nContent-Length: 31\r\n\r\n"
    ));
    assert!(reply.ends_with(b"Proxy do not support https Now"));

    let parsed = parse_response(&proxy::http::forbidden()).unwrap();
    assert_eq!(parsed.code, 403);
    assert_eq!(parsed.headers.get("Connection").unwrap(), "close");
    let parsed = parse_response(&proxy::http::proxy_auth()).unwrap();
    assert_eq!(parsed.code, 407);
    assert_eq!(parsed.text, "Proxy Authentication Required");
    assert_eq!(parsed.headers.get("Proxy-Authenticate").unwrap(), "Basic");
    let parsed = parse_response(&proxy::http::http_status_ok()).unwrap();
    assert_eq!(parsed.code, 200);
    assert_eq!(parsed.headers.get("Proxy-Connection").unwrap(), "keep-alive");
    let parsed = parse_response(&proxy::http::unauthorized()).unwrap();
    assert_eq!(parsed.code, 401);
}

#[test]
fn response_is_written_as_it_reads() {
    let mut headers = Headers::new();
    headers.insert("Content-Length".to_string(), "5".to_string());
    let mut response =
        Response::new(HttpVersion::Http11, 200, "OK".to_string(), headers, b"hello".to_vec());
    let bytes = response.as_bytes();
    assert_eq!(bytes, b"HTTP/1.1 200 OK\r\nContent-Length: 5\r\n\r\nhello");
    let again = parse_response(&bytes).unwrap();
    assert_eq!(again.version, HttpVersion::Http11);
    assert_eq!(again.code, 200);
    assert_eq!(again.text, "OK");
    assert_eq!(again.headers.len(), 1);
    assert_eq!(again.headers.get("Content-Length").unwrap(), "5");
    assert_eq!(again.body, b"hello");
    assert_eq!(again.to_bytes(), bytes);

    let mut default = Response::default();
    default.code = 200;
    default.text = "OK".to_string();
    default.headers.insert("Content-Length".to_string(), "5".to_string());
    default.body = b"hello".to_vec();
    assert_eq!(default.as_bytes(), bytes);
}

#[test]
fn response_read_and_written_reads_the_same() {
    for text in [
        &b"HTTP/1.0 +0301 Moved  for good \nLocation:/y\n\n"[..],
        &b"HTTP/2 007 \r\nA: b\r\nContent-Length: 3\r\n\r\nabcd"[..],
        &b"HTTP/1.1 404 Not Found\r\nServer: x\r\n\r\n"[..],
    ] {
        let first = parse_response(text).unwrap();
        let second = parse_response(&first.to_bytes()).unwrap();
        assert_eq!(second.version, first.version);
        assert_eq!(second.code, first.code);
        assert_eq!(second.text, first.text);
        assert_eq!(second.headers.len(), first.headers.len());
        for i in 0..first.headers.len() {
            assert_eq!(second.headers.key_at(i), first.headers.key_at(i));
            assert_eq!(second.headers.value_at(i), first.headers.value_at(i));
        }
        assert_eq!(second.body, first.body);
        assert_eq!(second.to_bytes(), first.to_bytes());
    }
    let moved = parse_response(b"HTTP/1.0 +0301 Moved  for good \nLocation:/y\n\n").unwrap();
    assert_eq!(moved.code, 301);
    assert_eq!(moved.text, "Moved  for good ");
    assert_eq!(moved.to_bytes(), b"HTTP/1.0 301 Moved  for good \r\nLocation: /y\r\n\r\n");
}

#[test]
fn parts_of_messages() {
    let mut headers = Headers::new();
    headers.insert("Host".to_string(), "a".to_string());
    let request = Request::new(
        Method::POST,
        "/p".to_string(),
        HttpVersion::Http2,
        headers.clone(),
        b"xy".to_vec(),
    );
    assert_eq!(*request.method(), Method::POST);
    assert_eq!(request.target(), "/p");
    assert_eq!(request.version(), HttpVersion::Http2);
    assert_eq!(request.headers().get("Host").unwrap(), "a");
    assert_eq!(request.body(), b"xy");
    assert_eq!(request.to_bytes(), b"POST /p HTTP/2\r\nHost: a\r\n\r\nxy");
    let response = Response::new(HttpVersion::Http3, 204, "No Content".to_string(), headers, Vec::new());
    assert_eq!(response.version(), HttpVersion::Http3);
    assert_eq!(response.code(), 204);
    assert_eq!(response.text(), "No Content");
    assert_eq!(response.headers().len(), 1);
    assert_eq!(response.body(), b"");
    assert_eq!(response.to_bytes(), b"HTTP/3 204 No Content\r\nHost: a\r\n\r\n");
}
