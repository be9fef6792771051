//! The first line of a message: method, path and version of a request;
//! version, status code and status text of a response.
use crate::http::error::ParseError;
use crate::text::find_char;
use crate::text::lemma_first_index;
use crate::text::lemma_split_once_join;
use crate::text::lemma_split_once_parts;
use crate::text::parse_unsigned;
use crate::text::read_unsigned;
use crate::text::split_once;
use crate::text::str_eq;
use crate::text::substring;
use crate::text::to_chars;
use vstd::prelude::*;

verus! {

/// The method of a request. The four that the proxy tells apart have a variant
/// each; any other token is kept as it came.
#[derive(Debug, PartialEq, Eq)]
pub enum Method {
    GET,
    POST,
    HEAD,
    CONNECT,
    OTHERS(String),
}

/// Mathematical model of a `Method`.
pub enum MethodView {
    Get,
    Post,
    Head,
    Connect,
    Others(Seq<char>),
}

impl View for Method {
    type V = MethodView;

    open spec fn view(&self) -> MethodView {
        match self {
            Method::GET => MethodView::Get,
            Method::POST => MethodView::Post,
            Method::HEAD => MethodView::Head,
            Method::CONNECT => MethodView::Connect,
            Method::OTHERS(s) => MethodView::Others(s@),
        }
    }
}

impl MethodView {
    /// The token that stands for this method on the wire.
    pub open spec fn token(self) -> Seq<char> {
        match self {
            MethodView::Get => "GET"@,
            MethodView::Post => "POST"@,
            MethodView::Head => "HEAD"@,
            MethodView::Connect => "CONNECT"@,
            MethodView::Others(s) => s,
        }
    }

    /// Whether this value is what reading its own token gives: an `Others`
    /// never holds one of the four tokens that have a variant.
    pub open spec fn canonical(self) -> bool {
        method_of(self.token()) == self
    }
}

/// The method that `token` stands for.
pub open spec fn method_of(token: Seq<char>) -> MethodView {
    if token == "GET"@ {
        MethodView::Get
    } else if token == "POST"@ {
        MethodView::Post
    } else if token == "HEAD"@ {
        MethodView::Head
    } else if token == "CONNECT"@ {
        MethodView::Connect
    } else {
        MethodView::Others(token)
    }
}

impl Method {
    /// Reads a method from its token. Every token is a method.
    pub fn parse(method: &str) -> (r: Method)
        ensures
            r@ == method_of(method@),
    {
        if str_eq(method, "GET") {
            Method::GET
        } else if str_eq(method, "POST") {
            Method::POST
        } else if str_eq(method, "HEAD") {
            Method::HEAD
        } else if str_eq(method, "CONNECT") {
            Method::CONNECT
        } else {
            Method::OTHERS(method.to_owned())
        }
    }

    /// The token of this method.
    pub fn to_string(&self) -> (r: String)
        ensures
            r@ == self@.token(),
    {
        match self {
            Method::GET => "GET".to_owned(),
            Method::POST => "POST".to_owned(),
            Method::HEAD => "HEAD".to_owned(),
            Method::CONNECT => "CONNECT".to_owned(),
            Method::OTHERS(method) => method.clone(),
        }
    }
}

impl Clone for Method {
    fn clone(&self) -> (r: Method)
        ensures
            r@ == self@,
    {
        match self {
            Method::GET => Method::GET,
            Method::POST => Method::POST,
            Method::HEAD => Method::HEAD,
            Method::CONNECT => Method::CONNECT,
            Method::OTHERS(method) => Method::OTHERS(method.clone()),
        }
    }
}

impl Default for Method {
    fn default() -> (r: Method)
        ensures
            r@ == MethodView::Get,
    {
        Method::GET
    }
}

/// The version of the protocol that a message names.
#[derive(Debug, Clone, Copy, PartialEq, Eq, Structural)]
pub enum HttpVersion {
    Http1,
    Http11,
    Http2,
    Http3,
}

/// The token that stands for `version` on the wire.
pub open spec fn version_token(version: HttpVersion) -> Seq<char> {
    match version {
        HttpVersion::Http1 => "HTTP/1.0"@,
        HttpVersion::Http11 => "HTTP/1.1"@,
        HttpVersion::Http2 => "HTTP/2"@,
        HttpVersion::Http3 => "HTTP/3"@,
    }
}

/// The version that `token` stands for, if any.
pub open spec fn version_of(token: Seq<char>) -> Option<HttpVersion> {
    if token == "HTTP/1.0"@ {
        Some(HttpVersion::Http1)
    } else if token == "HTTP/1.1"@ {
        Some(HttpVersion::Http11)
    } else if token == "HTTP/2"@ {
        Some(HttpVersion::Http2)
    } else if token == "HTTP/3"@ {
        Some(HttpVersion::Http3)
    } else {
        None
    }
}

impl HttpVersion {
    /// Reads a version from its token.
    pub fn parse(version: &str) -> (r: Result<HttpVersion, ParseError>)
        ensures
            r == match version_of(version@) {
                Some(v) => Ok::<HttpVersion, ParseError>(v),
                None => Err(ParseError::Version),
            },
    {
        if str_eq(version, "HTTP/1.0") {
            Ok(HttpVersion::Http1)
        } else if str_eq(version, "HTTP/1.1") {
            Ok(HttpVersion::Http11)
        } else if str_eq(version, "HTTP/2") {
            Ok(HttpVersion::Http2)
        } else if str_eq(version, "HTTP/3") {
            Ok(HttpVersion::Http3)
        } else {
            Err(ParseError::Version)
        }
    }

    /// The token of this version.
    pub fn to_string(&self) -> (r: String)
        ensures
            r@ == version_token(*self),
    {
        match self {
            HttpVersion::Http1 => "HTTP/1.0".to_owned(),
            HttpVersion::Http11 => "HTTP/1.1".to_owned(),
            HttpVersion::Http2 => "HTTP/2".to_owned(),
            HttpVersion::Http3 => "HTTP/3".to_owned(),
        }
    }
}

impl Default for HttpVersion {
    fn default() -> (r: HttpVersion)
        ensures
            r == HttpVersion::Http11,
    {
        HttpVersion::Http11
    }
}

/// The first line of a request.
#[derive(Debug)]
pub struct RequestLine {
    pub method: Method,
    pub path: String,
    pub version: HttpVersion,
}

/// Mathematical model of a `RequestLine`.
pub struct RequestLineView {
    pub method: MethodView,
    pub path: Seq<char>,
    pub version: HttpVersion,
}

impl View for RequestLine {
    type V = RequestLineView;

    open spec fn view(&self) -> RequestLineView {
        RequestLineView { method: self.method@, path: self.path@, version: self.version }
    }
}

/// The request line that `line` writes: three tokens with one space between
/// each two. A line with fewer or more spaces is malformed; a third token that
/// names no version is refused.
pub open spec fn spec_request_line(line: Seq<char>) -> Result<RequestLineView, ParseError> {
    match split_once(line, ' ') {
        None => Err(ParseError::RequestLine),
        Some((method, rest)) => match split_once(rest, ' ') {
            None => Err(ParseError::RequestLine),
            Some((path, version)) => if version.contains(' ') {
                Err(ParseError::RequestLine)
            } else {
                match version_of(version) {
                    None => Err(ParseError::Version),
                    Some(v) => Ok(RequestLineView { method: method_of(method), path, version: v }),
                }
            },
        },
    }
}

/// The line that writes `line`: the three tokens with one space between each
/// two.
pub open spec fn render_request_line(line: RequestLineView) -> Seq<char> {
    line.method.token() + seq![' '] + line.path + seq![' '] + version_token(line.version)
}

/// A token that names a version is the token of that version.
pub proof fn lemma_version_token(token: Seq<char>)
    requires
        version_of(token) is Some,
    ensures
        version_token(version_of(token)->0) == token,
{
}

/// The token of a version names that version, and holds no space.
pub proof fn lemma_version_of_token(version: HttpVersion)
    ensures
        version_of(version_token(version)) == Some(version),
        !version_token(version).contains(' '),
{
    reveal_strlit("HTTP/1.0");
    reveal_strlit("HTTP/1.1");
    reveal_strlit("HTTP/2");
    reveal_strlit("HTTP/3");
    let t = version_token(version);
    assert("HTTP/1.0"@[7] != "HTTP/1.1"@[7]);
    assert("HTTP/2"@[5] != "HTTP/3"@[5]);
    if t.contains(' ') {
        let i = choose|i: int| 0 <= i < t.len() && t[i] == ' ';
        assert(t[i] == ' ');
    }
}

/// The token of the method that a token stands for is that token.
pub proof fn lemma_method_token(token: Seq<char>)
    ensures
        method_of(token).token() == token,
        method_of(token).canonical(),
{
}

/// Reading a request line and writing it again gives the same line: method,
/// path and version are kept.
pub proof fn lemma_request_line_round_trip(line: Seq<char>)
    requires
        spec_request_line(line) is Ok,
    ensures
        render_request_line(spec_request_line(line)->Ok_0) == line,
{
    let (method, rest) = split_once(line, ' ')->0;
    let (path, version) = split_once(rest, ' ')->0;
    lemma_split_once_parts(line, ' ');
    lemma_split_once_parts(rest, ' ');
    lemma_method_token(method);
    lemma_version_token(version);
    assert(line =~= method + seq![' '] + path + seq![' '] + version);
}

/// Writing a request line and reading it again gives the same method, path
/// and version, where neither the token of the method nor the path holds a
/// space and the method is what reading its token gives.
pub proof fn lemma_request_line_parses(line: RequestLineView)
    requires
        line.method.canonical(),
        !line.method.token().contains(' '),
        !line.path.contains(' '),
    ensures
        spec_request_line(render_request_line(line)) == Ok::<RequestLineView, ParseError>(line),
{
    let method = line.method.token();
    let version = version_token(line.version);
    let rest = line.path + seq![' '] + version;
    lemma_version_of_token(line.version);
    lemma_split_once_join(method, ' ', rest);
    lemma_split_once_join(line.path, ' ', version);
    assert(render_request_line(line) =~= method + seq![' '] + rest);
}

/// `r`, its value taken by its view.
pub open spec fn view_ok<T: View, E>(r: Result<T, E>) -> Result<T::V, E> {
    match r {
        Ok(v) => Ok(v@),
        Err(e) => Err(e),
    }
}

/// Reads a request line such as `GET /hello HTTP/1.1`.
pub fn parse_request_header(line: &str) -> (r: Result<RequestLine, ParseError>)
    ensures
        view_ok(r) == spec_request_line(line@),
{
    let chars = to_chars(line);
    let n = chars.len();
    let i = find_char(&chars, 0, ' ');
    proof {
        assert(chars@.skip(0) =~= chars@);
    }
    if i == n {
        return Err(ParseError::RequestLine);
    }
    let ghost rest = chars@.skip(i + 1);
    let j = find_char(&chars, i + 1, ' ');
    if i + 1 + j == n {
        return Err(ParseError::RequestLine);
    }
    let ghost tail = rest.skip(j + 1);
    proof {
        assert(tail =~= chars@.skip(i + j + 2));
    }
    let k = find_char(&chars, i + j + 2, ' ');
    proof {
        lemma_first_index(tail, ' ');
    }
    if i + j + 2 + k != n {
        return Err(ParseError::RequestLine);
    }
    let method = Method::parse(substring(line, 0, i).as_str());
    let path = substring(line, i + 1, i + 1 + j);
    let version_token = substring(line, i + j + 2, n);
    proof {
        assert(chars@.subrange(0, i as int) =~= chars@.take(i as int));
        assert(chars@.subrange(i + 1, i + 1 + j) =~= rest.take(j as int));
        assert(chars@.subrange(i + j + 2, n as int) =~= tail);
    }
    let version = HttpVersion::parse(version_token.as_str())?;
    Ok(RequestLine { method, path, version })
}

/// The first line of a response.
#[derive(Debug)]
pub struct ResponseLine {
    pub version: HttpVersion,
    pub code: u16,
    pub text: String,
}

/// Mathematical model of a `ResponseLine`.
pub struct ResponseLineView {
    pub version: HttpVersion,
    pub code: u16,
    pub text: Seq<char>,
}

impl View for ResponseLine {
    type V = ResponseLineView;

    open spec fn view(&self) -> ResponseLineView {
        ResponseLineView { version: self.version, code: self.code, text: self.text@ }
    }
}

/// The response line that `line` writes: a version token, a status code and
/// the status text, cut at the first two spaces, so that the text may itself
/// hold spaces.
pub open spec fn spec_response_line(line: Seq<char>) -> Result<ResponseLineView, ParseError> {
    match split_once(line, ' ') {
        None => Err(ParseError::ResponseLine),
        Some((version, rest)) => match split_once(rest, ' ') {
            None => Err(ParseError::ResponseLine),
            Some((code, text)) => match version_of(version) {
                None => Err(ParseError::Version),
                Some(v) => match parse_unsigned(code, 0xffff) {
                    None => Err(ParseError::StatusCode),
                    Some(c) => Ok(ResponseLineView { version: v, code: c as u16, text }),
                },
            },
        },
    }
}

/// Reads a response line such as `HTTP/1.1 200 OK`.
pub fn parse_response_header(line: &str) -> (r: Result<ResponseLine, ParseError>)
    ensures
        view_ok(r) == spec_response_line(line@),
{
    let chars = to_chars(line);
    let n = chars.len();
    let i = find_char(&chars, 0, ' ');
    proof {
        assert(chars@.skip(0) =~= chars@);
    }
    if i == n {
        return Err(ParseError::ResponseLine);
    }
    let ghost rest = chars@.skip(i + 1);
    let j = find_char(&chars, i + 1, ' ');
    if i + 1 + j == n {
        return Err(ParseError::ResponseLine);
    }
    let version_token = substring(line, 0, i);
    let code_token = substring(line, i + 1, i + 1 + j);
    let text = substring(line, i + j + 2, n);
    proof {
        assert(chars@.subrange(0, i as int) =~= chars@.take(i as int));
        assert(chars@.subrange(i + 1, i + 1 + j) =~= rest.take(j as int));
        assert(chars@.subrange(i + j + 2, n as int) =~= rest.skip(j + 1));
    }
    let version = HttpVersion::parse(version_token.as_str())?;
    let code_chars = to_chars(code_token.as_str());
    let code: u16 = match read_unsigned(&code_chars, 0xffff) {
        Some(c) => c as u16,
        None => {
            return Err(ParseError::StatusCode);
        },
    };
    Ok(ResponseLine { version, code, text })
}

} // verus!
