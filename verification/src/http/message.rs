//! Whole messages: what a request and a response hold, how they are read from
//! bytes and how they are written back.
use crate::http::error::ParseError;
use crate::http::headers::lookup;
use crate::http::headers::Entries;
use crate::http::headers::Headers;
use crate::http::line::parse_request_header;
use crate::http::line::parse_response_header;
use crate::http::line::spec_request_line;
use crate::http::line::spec_response_line;
use crate::http::line::version_token;
use crate::http::line::HttpVersion;
use crate::http::line::Method;
use crate::http::line::MethodView;
use crate::http::scanner::head_start;
use crate::http::scanner::read_head;
use crate::http::scanner::scan_head;
use crate::text::first_index;
use crate::text::parse_unsigned;
use crate::text::read_unsigned;
use crate::text::starts_with;
use crate::text::to_chars;
use vstd::prelude::*;
use vstd::slice::slice_subrange;
use vstd::slice::slice_to_vec;
use vstd::utf8::decode_utf8;
use vstd::utf8::encode_utf8;
use vstd::utf8::valid_utf8;

verus! {

/// A request: its line, its headers and its body.
#[derive(Debug)]
pub struct Request {
    pub method: Method,
    pub path: String,
    pub version: HttpVersion,
    pub headers: Headers,
    pub body: Vec<u8>,
    /// The bytes that `as_bytes` computed, kept for the calls that follow.
    cache: Vec<u8>,
}

/// Mathematical model of a `Request`.
pub struct RequestView {
    pub method: MethodView,
    pub path: Seq<char>,
    pub version: HttpVersion,
    pub headers: Entries,
    pub body: Seq<u8>,
}

impl View for Request {
    type V = RequestView;

    closed spec fn view(&self) -> RequestView {
        RequestView {
            method: self.method@,
            path: self.path@,
            version: self.version,
            headers: self.headers.entries(),
            body: self.body@,
        }
    }
}

/// A response: its line, its headers and its body.
#[derive(Debug)]
pub struct Response {
    pub version: HttpVersion,
    pub code: u16,
    pub text: String,
    pub headers: Headers,
    pub body: Vec<u8>,
    /// The bytes that `as_bytes` computed, kept for the calls that follow.
    cache: Vec<u8>,
}

/// Mathematical model of a `Response`.
pub struct ResponseView {
    pub version: HttpVersion,
    pub code: u16,
    pub text: Seq<char>,
    pub headers: Entries,
    pub body: Seq<u8>,
}

impl View for Response {
    type V = ResponseView;

    closed spec fn view(&self) -> ResponseView {
        ResponseView {
            version: self.version,
            code: self.code,
            text: self.text@,
            headers: self.headers.entries(),
            body: self.body@,
        }
    }
}

/// Carriage return and line feed: the line end that the proxy writes.
pub open spec fn crlf() -> Seq<u8> {
    seq![13u8, 10u8]
}

/// The bytes of one header line: key, colon, space, value, line end.
pub open spec fn header_wire(key: Seq<char>, value: Seq<char>) -> Seq<u8> {
    encode_utf8(key) + seq![58u8, 32u8] + encode_utf8(value) + crlf()
}

/// The bytes of the header lines of `entries`, in their order.
pub open spec fn headers_wire(entries: Entries) -> Seq<u8>
    decreases entries.len(),
{
    if entries.len() == 0 {
        Seq::empty()
    } else {
        headers_wire(entries.drop_last()) + header_wire(entries.last().0, entries.last().1)
    }
}

/// The decimal digits of `n` as ASCII bytes, without leading zeros.
pub open spec fn decimal_wire(n: nat) -> Seq<u8>
    decreases n,
{
    if n < 10 {
        seq![(48 + n) as u8]
    } else {
        decimal_wire(n / 10).push((48 + n % 10) as u8)
    }
}

/// The bytes that write a request: method, path and version with one space
/// between each two, a line end, the header lines, a blank line and the body.
pub open spec fn request_wire(r: RequestView) -> Seq<u8> {
    encode_utf8(r.method.token()) + seq![32u8] + encode_utf8(r.path) + seq![32u8] + encode_utf8(
        version_token(r.version),
    ) + crlf() + headers_wire(r.headers) + crlf() + r.body
}

/// The bytes that write a response: version, status code and status text with
/// one space between each two, a line end, the header lines, a blank line and
/// the body.
pub open spec fn response_wire(r: ResponseView) -> Seq<u8> {
    encode_utf8(version_token(r.version)) + seq![32u8] + decimal_wire(r.code as nat) + seq![32u8]
        + encode_utf8(r.text) + crlf() + headers_wire(r.headers) + crlf() + r.body
}

/// The address that a request asks for: its path where that begins with
/// `http`, else the value of `Host` followed by the path.
pub open spec fn spec_path(r: RequestView) -> Seq<char> {
    if "http"@.is_prefix_of(r.path) {
        r.path
    } else {
        match lookup(r.headers, "Host"@) {
            Some(host) => host + r.path,
            None => "unknown path: "@ + r.path,
        }
    }
}

/// Appends `bytes` to `buf`.
fn append_bytes(buf: &mut Vec<u8>, bytes: &[u8])
    ensures
        final(buf)@ == old(buf)@ + bytes@,
{
    let mut i: usize = 0;
    while i < bytes.len()
        invariant
            i <= bytes.len(),
            buf@ == old(buf)@ + bytes@.take(i as int),
        decreases bytes.len() - i,
    {
        buf.push(bytes[i]);
        assert(bytes@.take(i + 1) =~= bytes@.take(i as int).push(bytes@[i as int]));
        i += 1;
    }
    assert(bytes@.take(i as int) =~= bytes@);
}

/// Appends the UTF-8 bytes of `s` to `buf`.
fn append_str(buf: &mut Vec<u8>, s: &str)
    ensures
        final(buf)@ == old(buf)@ + encode_utf8(s@),
{
    append_bytes(buf, s.as_bytes());
}

/// Appends the header lines of `headers` and the blank line to `buf`.
fn append_headers(buf: &mut Vec<u8>, headers: &Headers)
    ensures
        final(buf)@ == old(buf)@ + headers_wire(headers.entries()) + crlf(),
{
    let n = headers.len();
    let mut i: usize = 0;
    while i < n
        invariant
            i <= n,
            n == headers.entries().len(),
            buf@ == old(buf)@ + headers_wire(headers.entries().take(i as int)),
        decreases n - i,
    {
        let ghost before = buf@;
        append_str(buf, headers.key_at(i).as_str());
        buf.push(58);
        buf.push(32);
        append_str(buf, headers.value_at(i).as_str());
        buf.push(13);
        buf.push(10);
        proof {
            let e = headers.entries();
            let now = e.take(i + 1);
            assert(now.drop_last() =~= e.take(i as int));
            assert(now.last() == e[i as int]);
            assert(buf@ =~= before + header_wire(e[i as int].0, e[i as int].1));
            assert(buf@ =~= old(buf)@ + headers_wire(now));
        }
        i += 1;
    }
    assert(headers.entries().take(i as int) =~= headers.entries());
    buf.push(13);
    buf.push(10);
    assert(buf@ =~= old(buf)@ + headers_wire(headers.entries()) + crlf());
}

/// Appends the decimal digits of `n` to `buf`.
fn append_decimal(buf: &mut Vec<u8>, n: u16)
    ensures
        final(buf)@ == old(buf)@ + decimal_wire(n as nat),
    decreases n,
{
    if n < 10 {
        buf.push(48 + n as u8);
        assert(buf@ =~= old(buf)@ + decimal_wire(n as nat));
    } else {
        append_decimal(buf, n / 10);
        buf.push(48 + (n % 10) as u8);
        assert(buf@ =~= old(buf)@ + decimal_wire(n as nat));
    }
}

/// The text `text` as `{:?}` prints it: in double quotes, with the characters
/// that cannot stand there as they are written as escapes.
pub uninterp spec fn debug_text(text: Seq<char>) -> Seq<char>;

/// `format!("{:?}", text)` for a string slice: a function of the text. The
/// contract gives its result a name and says no more of it.
#[verifier::external_body]
fn quoted(text: &str) -> (r: String)
    ensures
        r@ == debug_text(text@),
{
    format!("{:?}", text)
}

/// `pairs` as a list: each pair as `key: value`, a comma and a space between
/// each two.
pub open spec fn pairs_text(pairs: Entries) -> Seq<char>
    decreases pairs.len(),
{
    if pairs.len() == 0 {
        Seq::empty()
    } else {
        pairs_text(pairs.drop_last()) + (if pairs.len() > 1 {
            ", "@
        } else {
            Seq::empty()
        }) + pairs.last().0 + ": "@ + pairs.last().1
    }
}

/// `pairs` as a map prints: the list of the pairs in braces.
pub open spec fn map_text(pairs: Entries) -> Seq<char> {
    "{"@ + pairs_text(pairs) + "}"@
}

/// The pairs of `entries`, each key and each value as `{:?}` prints it.
pub open spec fn quoted_entries(entries: Entries) -> Entries {
    Seq::new(entries.len(), |i: int| (debug_text(entries[i].0), debug_text(entries[i].1)))
}

/// `entries` as a map of strings prints with `{:?}`.
pub open spec fn headers_text(entries: Entries) -> Seq<char> {
    map_text(quoted_entries(entries))
}

/// The decimal digits of `n` as text, without leading zeros.
pub open spec fn decimal_text(n: nat) -> Seq<char>
    decreases n,
{
    if n < 10 {
        seq![(48 + n) as char]
    } else {
        decimal_text(n / 10).push((48 + n % 10) as char)
    }
}

/// A request in one piece of text, for a log: its line, a space, a line feed,
/// a space and its headers.
pub open spec fn request_text(r: RequestView) -> Seq<char> {
    r.method.token() + " "@ + r.path + " "@ + version_token(r.version) + " \n "@ + headers_text(
        r.headers,
    )
}

/// A response in one piece of text, for a log: its line, a space, a line
/// feed, a space and its headers.
pub open spec fn response_text(r: ResponseView) -> Seq<char> {
    version_token(r.version) + " "@ + decimal_text(r.code as nat) + " "@ + r.text + " \n "@
        + headers_text(r.headers)
}

/// The pairs of `headers`, each key and each value as `{:?}` prints it.
fn quote_entries(headers: &Headers) -> (r: Vec<(String, String)>)
    ensures
        crate::http::headers::pairs_view(r@) == quoted_entries(headers.entries()),
{
    let mut out: Vec<(String, String)> = Vec::new();
    let n = headers.len();
    let mut i: usize = 0;
    while i < n
        invariant
            i <= n,
            n == headers.entries().len(),
            out@.len() == i,
            crate::http::headers::pairs_view(out@) == quoted_entries(headers.entries()).take(
                i as int,
            ),
        decreases n - i,
    {
        let ghost before = out@;
        let key = quoted(headers.key_at(i).as_str());
        let value = quoted(headers.value_at(i).as_str());
        out.push((key, value));
        proof {
            let now = crate::http::headers::pairs_view(out@);
            let want = quoted_entries(headers.entries()).take(i + 1);
            assert forall|j: int| 0 <= j < now.len() implies now[j] == want[j] by {
                if j < i {
                    assert(out@[j] == before[j]);
                    assert(crate::http::headers::pairs_view(before)[j] == quoted_entries(
                        headers.entries(),
                    ).take(i as int)[j]);
                }
            }
            assert(now =~= want);
        }
        i += 1;
    }
    assert(quoted_entries(headers.entries()).take(i as int) =~= quoted_entries(headers.entries()));
    out
}

/// Writes `pairs` as a map prints: `{key: value, key: value}`.
pub fn write_map(pairs: &Vec<(String, String)>) -> (r: String)
    ensures
        r@ == map_text(crate::http::headers::pairs_view(pairs@)),
{
    let ghost all = crate::http::headers::pairs_view(pairs@);
    let mut text = "{".to_owned();
    let mut i: usize = 0;
    while i < pairs.len()
        invariant
            i <= pairs@.len(),
            all == crate::http::headers::pairs_view(pairs@),
            text@ == "{"@ + pairs_text(all.take(i as int)),
        decreases pairs@.len() - i,
    {
        if i > 0 {
            text.append(", ");
        }
        text.append(pairs[i].0.as_str());
        text.append(": ");
        text.append(pairs[i].1.as_str());
        proof {
            let now = all.take(i + 1);
            assert(now.drop_last() =~= all.take(i as int));
            assert(now.last() == all[i as int]);
            assert(text@ =~= "{"@ + pairs_text(now));
        }
        i += 1;
    }
    assert(all.take(i as int) =~= all);
    text.append("}");
    text
}

/// Appends `headers` to `text` as a map of strings prints with `{:?}`.
fn append_headers_text(text: &mut String, headers: &Headers)
    ensures
        final(text)@ == old(text)@ + headers_text(headers.entries()),
{
    let pairs = quote_entries(headers);
    text.append(write_map(&pairs).as_str());
}

/// The text of one decimal digit.
fn digit_text(d: u16) -> (r: &'static str)
    requires
        d < 10,
    ensures
        r@ == seq![(48 + d) as char],
{
    proof {
        reveal_strlit("0");
        reveal_strlit("1");
        reveal_strlit("2");
        reveal_strlit("3");
        reveal_strlit("4");
        reveal_strlit("5");
        reveal_strlit("6");
        reveal_strlit("7");
        reveal_strlit("8");
        reveal_strlit("9");
    }
    let r = if d == 0 {
        "0"
    } else if d == 1 {
        "1"
    } else if d == 2 {
        "2"
    } else if d == 3 {
        "3"
    } else if d == 4 {
        "4"
    } else if d == 5 {
        "5"
    } else if d == 6 {
        "6"
    } else if d == 7 {
        "7"
    } else if d == 8 {
        "8"
    } else {
        "9"
    };
    assert(r@ =~= seq![(48 + d) as char]);
    r
}

/// Appends the decimal digits of `n` to `text`.
fn append_decimal_text(text: &mut String, n: u16)
    ensures
        final(text)@ == old(text)@ + decimal_text(n as nat),
    decreases n,
{
    if n < 10 {
        text.append(digit_text(n));
        assert(text@ =~= old(text)@ + decimal_text(n as nat));
    } else {
        append_decimal_text(text, n / 10);
        text.append(digit_text(n % 10));
        assert(text@ =~= old(text)@ + decimal_text(n as nat));
    }
}

impl Request {
    /// The bytes kept from the last call of `as_bytes` that computed any;
    /// empty before the first.
    pub closed spec fn cached(&self) -> Seq<u8> {
        self.cache@
    }

    /// A request of these parts, of which no bytes are kept yet.
    pub fn new(
        method: Method,
        path: String,
        version: HttpVersion,
        headers: Headers,
        body: Vec<u8>,
    ) -> (r: Request)
        ensures
            r@ == (RequestView {
                method: method@,
                path: path@,
                version,
                headers: headers.entries(),
                body: body@,
            }),
            r.cached() == Seq::<u8>::empty(),
    {
        Request { method, path, version, headers, body, cache: Vec::new() }
    }

    /// The method of this request.
    pub fn method(&self) -> (r: &Method)
        ensures
            r@ == self@.method,
    {
        &self.method
    }

    /// The path of this request, as its line gives it.
    pub fn target(&self) -> (r: &str)
        ensures
            r@ == self@.path,
    {
        self.path.as_str()
    }

    /// The version of this request.
    pub fn version(&self) -> (r: HttpVersion)
        ensures
            r == self@.version,
    {
        self.version
    }

    /// The headers of this request.
    pub fn headers(&self) -> (r: &Headers)
        ensures
            r.entries() == self@.headers,
    {
        &self.headers
    }

    /// The body of this request.
    pub fn body(&self) -> (r: &[u8])
        ensures
            r@ == self@.body,
    {
        self.body.as_slice()
    }

    /// The bytes that write this request. They are computed at the first call
    /// and kept: while anything is kept, what is kept is returned.
    pub fn as_bytes(&mut self) -> (r: Vec<u8>)
        ensures
            r@ == if old(self).cached().len() != 0 {
                old(self).cached()
            } else {
                request_wire(old(self)@)
            },
            final(self).cached() == r@,
            final(self)@ == old(self)@,
    {
        if self.cache.len() != 0 {
            return slice_to_vec(self.cache.as_slice());
        }
        let buf = self.to_bytes();
        self.cache = slice_to_vec(buf.as_slice());
        buf
    }

    /// The bytes that write this request, computed anew.
    pub fn to_bytes(&self) -> (r: Vec<u8>)
        ensures
            r@ == request_wire(self@),
    {
        let mut buf: Vec<u8> = Vec::new();
        append_str(&mut buf, self.method.to_string().as_str());
        buf.push(32);
        append_str(&mut buf, self.path.as_str());
        buf.push(32);
        append_str(&mut buf, self.version.to_string().as_str());
        buf.push(13);
        buf.push(10);
        append_headers(&mut buf, &self.headers);
        append_bytes(&mut buf, self.body.as_slice());
        assert(buf@ =~= request_wire(self@));
        buf
    }

    /// The address that this request asks for.
    pub fn path(&self) -> (r: String)
        ensures
            r@ == spec_path(self@),
    {
        let p = to_chars(self.path.as_str());
        let prefix = to_chars("http");
        if starts_with(&p, &prefix) {
            return self.path.clone();
        }
        match self.headers.get("Host") {
            Some(host) => {
                let mut res = host.clone();
                res.append(self.path.as_str());
                res
            },
            None => {
                let mut res = "unknown path: ".to_owned();
                res.append(self.path.as_str());
                res
            },
        }
    }
}

impl Request {
    /// This request in one piece of text, for a log.
    pub fn string(self) -> (r: String)
        ensures
            r@ == request_text(self@),
    {
        let mut res = self.method.to_string();
        res.append(" ");
        res.append(self.path.as_str());
        res.append(" ");
        res.append(self.version.to_string().as_str());
        res.append(" \n ");
        append_headers_text(&mut res, &self.headers);
        assert(res@ =~= request_text(self@));
        res
    }
}

impl Default for Request {
    fn default() -> (r: Request)
        ensures
            r@ == (RequestView {
                method: MethodView::Get,
                path: Seq::empty(),
                version: HttpVersion::Http11,
                headers: Seq::empty(),
                body: Seq::empty(),
            }),
            r.cached() == Seq::<u8>::empty(),
    {
        Request {
            method: Method::GET,
            path: String::new(),
            version: HttpVersion::Http11,
            headers: Headers::new(),
            body: Vec::new(),
            cache: Vec::new(),
        }
    }
}

impl Response {
    /// The bytes kept from the last call of `as_bytes` that computed any;
    /// empty before the first.
    pub closed spec fn cached(&self) -> Seq<u8> {
        self.cache@
    }

    /// A response of these parts, of which no bytes are kept yet.
    pub fn new(
        version: HttpVersion,
        code: u16,
        text: String,
        headers: Headers,
        body: Vec<u8>,
    ) -> (r: Response)
        ensures
            r@ == (ResponseView {
                version,
                code,
                text: text@,
                headers: headers.entries(),
                body: body@,
            }),
            r.cached() == Seq::<u8>::empty(),
    {
        Response { version, code, text, headers, body, cache: Vec::new() }
    }

    /// The version of this response.
    pub fn version(&self) -> (r: HttpVersion)
        ensures
            r == self@.version,
    {
        self.version
    }

    /// The status code of this response.
    pub fn code(&self) -> (r: u16)
        ensures
            r == self@.code,
    {
        self.code
    }

    /// The status text of this response.
    pub fn text(&self) -> (r: &str)
        ensures
            r@ == self@.text,
    {
        self.text.as_str()
    }

    /// The headers of this response.
    pub fn headers(&self) -> (r: &Headers)
        ensures
            r.entries() == self@.headers,
    {
        &self.headers
    }

    /// The body of this response.
    pub fn body(&self) -> (r: &[u8])
        ensures
            r@ == self@.body,
    {
        self.body.as_slice()
    }

    /// The bytes that write this response. They are computed at the first call
    /// and kept: while anything is kept, what is kept is returned.
    pub fn as_bytes(&mut self) -> (r: Vec<u8>)
        ensures
            r@ == if old(self).cached().len() != 0 {
                old(self).cached()
            } else {
                response_wire(old(self)@)
            },
            final(self).cached() == r@,
            final(self)@ == old(self)@,
    {
        if self.cache.len() > 0 {
            return slice_to_vec(self.cache.as_slice());
        }
        let buf = self.to_bytes();
        self.cache = slice_to_vec(buf.as_slice());
        buf
    }

    /// The bytes that write this response, computed anew.
    pub fn to_bytes(&self) -> (r: Vec<u8>)
        ensures
            r@ == response_wire(self@),
    {
        let mut buf: Vec<u8> = Vec::new();
        append_str(&mut buf, self.version.to_string().as_str());
        buf.push(32);
        append_decimal(&mut buf, self.code);
        buf.push(32);
        append_str(&mut buf, self.text.as_str());
        buf.push(13);
        buf.push(10);
        append_headers(&mut buf, &self.headers);
        append_bytes(&mut buf, self.body.as_slice());
        assert(buf@ =~= response_wire(self@));
        buf
    }
}

impl Response {
    /// This response in one piece of text, for a log.
    pub fn string(self) -> (r: String)
        ensures
            r@ == response_text(self@),
    {
        let mut res = self.version.to_string();
        res.append(" ");
        append_decimal_text(&mut res, self.code);
        res.append(" ");
        res.append(self.text.as_str());
        res.append(" \n ");
        append_headers_text(&mut res, &self.headers);
        assert(res@ =~= response_text(self@));
        res
    }
}

impl Default for Response {
    fn default() -> (r: Response)
        ensures
            r@ == (ResponseView {
                version: HttpVersion::Http11,
                code: 0,
                text: Seq::empty(),
                headers: Seq::empty(),
                body: Seq::empty(),
            }),
            r.cached() == Seq::<u8>::empty(),
    {
        Response {
            version: HttpVersion::Http11,
            code: 0,
            text: String::new(),
            headers: Headers::new(),
            body: Vec::new(),
            cache: Vec::new(),
        }
    }
}

/// Whether `byte` is no carriage return.
pub open spec fn not_return(byte: u8) -> bool {
    byte != 13
}

/// The first line of `input`: its bytes up to the first line feed, or all of
/// them where there is none, without carriage returns; and the position
/// behind that line feed.
pub open spec fn start_line(input: Seq<u8>) -> (Seq<u8>, int) {
    let end = first_index(input, 10u8);
    (
        input.take(end).filter(|b: u8| not_return(b)),
        if end < input.len() {
            end + 1
        } else {
            end
        },
    )
}

/// The length of the body that `entries` announces: the value of
/// `Content-Length`, 0 where that header is absent.
pub open spec fn body_length(entries: Entries) -> Result<nat, ParseError> {
    match lookup(entries, "Content-Length"@) {
        None => Ok(0),
        Some(value) => match parse_unsigned(value, usize::MAX as nat) {
            None => Err(ParseError::ContentLength),
            Some(n) => Ok(n),
        },
    }
}

/// The body that follows a header block which ends at `pos`: as many bytes as
/// `entries` announces. An input that does not hold that many is refused.
pub open spec fn spec_body(entries: Entries, input: Seq<u8>, pos: int) -> Result<
    Seq<u8>,
    ParseError,
> {
    match body_length(entries) {
        Err(e) => Err(e),
        Ok(n) => if n == 0 {
            Ok(Seq::empty())
        } else if pos + n <= input.len() {
            Ok(input.subrange(pos, pos + n))
        } else {
            Err(ParseError::IncompleteBody)
        },
    }
}

/// The headers and the body that `input` holds from `pos` on.
pub open spec fn spec_parse(input: Seq<u8>, pos: int) -> Result<(Entries, Seq<u8>), ParseError> {
    let scanned = scan_head(head_start(), input, pos);
    match scanned.result {
        Err(e) => Err(e),
        Ok(entries) => match spec_body(entries, input, scanned.end) {
            Err(e) => Err(e),
            Ok(body) => Ok((entries, body)),
        },
    }
}

/// The request that `input` writes.
pub open spec fn spec_parse_request(input: Seq<u8>) -> Result<RequestView, ParseError> {
    let (line, pos) = start_line(input);
    if !valid_utf8(line) {
        Err(ParseError::Encoding)
    } else {
        match spec_request_line(decode_utf8(line)) {
            Err(e) => Err(e),
            Ok(first) => match spec_parse(input, pos) {
                Err(e) => Err(e),
                Ok((headers, body)) => Ok(
                    RequestView {
                        method: first.method,
                        path: first.path,
                        version: first.version,
                        headers,
                        body,
                    },
                ),
            },
        }
    }
}

/// The response that `input` writes.
pub open spec fn spec_parse_response(input: Seq<u8>) -> Result<ResponseView, ParseError> {
    let (line, pos) = start_line(input);
    if !valid_utf8(line) {
        Err(ParseError::Encoding)
    } else {
        match spec_response_line(decode_utf8(line)) {
            Err(e) => Err(e),
            Ok(first) => match spec_parse(input, pos) {
                Err(e) => Err(e),
                Ok((headers, body)) => Ok(
                    ResponseView {
                        version: first.version,
                        code: first.code,
                        text: first.text,
                        headers,
                        body,
                    },
                ),
            },
        }
    }
}

/// Reads the first line of `input`. Returns its bytes without carriage returns
/// and the position behind it.
fn read_start_line(input: &[u8]) -> (r: (Vec<u8>, usize))
    ensures
        (r.0@, r.1 as int) == start_line(input@),
        r.1 <= input.len(),
{
    let mut writer: Vec<u8> = Vec::new();
    let mut i: usize = 0;
    while i < input.len() && input[i] != 10
        invariant
            i <= input.len(),
            forall|j: int| 0 <= j < i ==> input@[j] != 10,
            writer@ == input@.take(i as int).filter(|b: u8| not_return(b)),
        decreases input.len() - i,
    {
        let ghost before = input@.take(i as int);
        let ghost now = input@.take(i + 1);
        proof {
            assert(now.drop_last() =~= before);
            reveal_with_fuel(Seq::filter, 2);
        }
        if input[i] != 13 {
            writer.push(input[i]);
        }
        i += 1;
    }
    proof {
        crate::text::lemma_first_index_unique(input@, 10u8, i as int);
    }
    if i < input.len() {
        (writer, i + 1)
    } else {
        (writer, i)
    }
}

/// Reads the length of the body that `headers` announces.
pub fn read_body_length(headers: &Headers) -> (r: Result<usize, ParseError>)
    ensures
        match r {
            Ok(n) => body_length(headers.entries()) == Ok::<nat, ParseError>(n as nat),
            Err(e) => body_length(headers.entries()) == Err::<nat, ParseError>(e),
        },
{
    match headers.get("Content-Length") {
        Some(length) => {
            let digits = to_chars(length.as_str());
            match read_unsigned(&digits, usize::MAX as u64) {
                Some(n) => Ok(n as usize),
                None => Err(ParseError::ContentLength),
            }
        },
        None => Ok(0),
    }
}

/// Reads the headers and the body that `input` holds from `from` on.
pub fn parse(input: &[u8], from: usize) -> (r: Result<(Headers, Vec<u8>), ParseError>)
    ensures
        match r {
            Ok((headers, body)) => spec_parse(input@, from as int) == Ok::<
                (Entries, Seq<u8>),
                ParseError,
            >((headers.entries(), body@)),
            Err(e) => spec_parse(input@, from as int) == Err::<(Entries, Seq<u8>), ParseError>(e),
        },
{
    let head = read_head(input, from)?;
    let length = read_body_length(&head.headers)?;
    if length == 0 {
        return Ok((head.headers, Vec::new()));
    }
    if head.end > input.len() || length > input.len() - head.end {
        return Err(ParseError::IncompleteBody);
    }
    let body = slice_to_vec(slice_subrange(input, head.end, head.end + length));
    Ok((head.headers, body))
}

/// Reads a request from the bytes of a connection. The request ends with its
/// body; what follows it in `input` is not read.
pub fn parse_request(input: &[u8]) -> (r: Result<Request, ParseError>)
    ensures
        crate::http::line::view_ok(r) == spec_parse_request(input@),
        r matches Ok(request) ==> request.cached().len() == 0,
{
    let (writer, pos) = read_start_line(input);
    let line = match core::str::from_utf8(writer.as_slice()) {
        Ok(line) => line,
        Err(_) => {
            return Err(ParseError::Encoding);
        },
    };
    let first = parse_request_header(line)?;
    let (headers, body) = parse(input, pos)?;
    Ok(
        Request {
            method: first.method,
            path: first.path,
            version: first.version,
            headers,
            body,
            cache: Vec::new(),
        },
    )
}

/// Reads a response from the bytes of a connection. The response ends with
/// its body; what follows it in `input` is not read.
pub fn parse_response(input: &[u8]) -> (r: Result<Response, ParseError>)
    ensures
        crate::http::line::view_ok(r) == spec_parse_response(input@),
        r matches Ok(response) ==> response.cached().len() == 0,
{
    let (writer, pos) = read_start_line(input);
    let line = match core::str::from_utf8(writer.as_slice()) {
        Ok(line) => line,
        Err(_) => {
            return Err(ParseError::Encoding);
        },
    };
    let first = parse_response_header(line)?;
    let (headers, body) = parse(input, pos)?;
    Ok(
        Response {
            version: first.version,
            code: first.code,
            text: first.text,
            headers,
            body,
            cache: Vec::new(),
        },
    )
}

} // verus!
