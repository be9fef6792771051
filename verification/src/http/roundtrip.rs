//! Writing and reading undo each other: a request or a response that is
//! written and read again is the same, and one that was read can be written
//! and read again.
use crate::http::error::ParseError;
use crate::http::headers::distinct;
use crate::http::headers::keys;
use crate::http::headers::put;
use crate::http::headers::Entries;
use crate::http::line::lemma_request_line_parses;
use crate::http::line::render_request_line;
use crate::http::line::version_token;
use crate::http::line::RequestLineView;
use crate::http::line::lemma_version_of_token;
use crate::http::line::spec_response_line;
use crate::http::line::ResponseLineView;
use crate::http::message::body_length;
use crate::http::message::decimal_text;
use crate::http::message::decimal_wire;
use crate::http::message::response_wire;
use crate::http::message::spec_parse_response;
use crate::http::message::ResponseView;
use crate::text::all_digits;
use crate::text::decimal_value;
use crate::text::digit_value;
use crate::text::parse_unsigned;
use crate::http::message::crlf;
use crate::http::message::header_wire;
use crate::http::message::headers_wire;
use crate::http::message::not_return;
use crate::http::message::request_wire;
use crate::http::message::spec_body;
use crate::http::message::spec_parse;
use crate::http::message::spec_parse_request;
use crate::http::message::start_line;
use crate::http::message::RequestView;
use crate::http::scanner::head_start;
use crate::http::scanner::head_step;
use crate::http::scanner::scan_head;
use crate::http::scanner::spec_split_key_value;
use crate::http::scanner::step;
use crate::http::scanner::HeadScan;
use crate::http::scanner::HeadStep;
use crate::http::scanner::Scanned;
use crate::http::scanner::State;
use crate::http::headers::lemma_key_index;
use crate::http::headers::lemma_put_distinct;
use crate::http::headers::key_index;
use crate::http::line::lemma_method_token;
use crate::text::first_index;
use crate::text::is_trimmed;
use crate::text::lemma_decode_ascii;
use crate::text::lemma_first_index;
use crate::text::lemma_split_once_parts;
use crate::text::lemma_trim_end_shape;
use crate::text::lemma_trim_is_trimmed;
use crate::text::lemma_trim_of_trimmed;
use crate::text::lemma_trim_start_shape;
use crate::text::trim_start;
use crate::http::framing::lemma_scan_head_end;
use vstd::utf8::decode_utf8;
use vstd::utf8::valid_utf8;
use crate::text::lemma_encode_ascii;
use crate::text::lemma_encode_concat;
use crate::text::lemma_first_index_unique;
use crate::text::lemma_split_once_join;
use crate::text::split_once;
use crate::text::trim;
use vstd::prelude::*;
use vstd::utf8::encode_utf8;
use vstd::utf8::encode_utf8_decode_utf8;
use vstd::utf8::encode_utf8_valid_utf8;
use vstd::utf8::is_ascii_chars;
use vstd::utf8::is_ascii_chars_encode_utf8;

verus! {

/// Whether `text` holds neither a carriage return nor a line feed.
pub open spec fn one_line(text: Seq<char>) -> bool {
    !text.contains('\r') && !text.contains('\n')
}

/// Whether `bytes` holds neither a carriage return nor a line feed.
pub open spec fn no_line_end(bytes: Seq<u8>) -> bool {
    forall|i: int| 0 <= i < bytes.len() ==> bytes[i] != 13 && bytes[i] != 10
}

/// Whether a header is read back as it is written: key and value stand on
/// one line and have no white space around them, and the key holds no colon.
pub open spec fn plain_header(key: Seq<char>, value: Seq<char>) -> bool {
    &&& is_trimmed(key)
    &&& is_trimmed(value)
    &&& !key.contains(':')
    &&& one_line(key)
    &&& one_line(value)
}

/// Whether each of `entries` is read back as it is written, and no key occurs
/// twice.
pub open spec fn plain_headers(entries: Entries) -> bool {
    &&& distinct(entries)
    &&& forall|i: int|
        0 <= i < entries.len() ==> plain_header((#[trigger] entries[i]).0, entries[i].1)
}

/// Whether a request is read back as it is written: the tokens of its line
/// hold neither space nor line end, it has a header, its headers are plain,
/// and its body is as long as its headers say.
pub open spec fn plain_request(r: RequestView) -> bool {
    &&& r.method.canonical()
    &&& !r.method.token().contains(' ')
    &&& one_line(r.method.token())
    &&& !r.path.contains(' ')
    &&& one_line(r.path)
    &&& r.headers.len() > 0
    &&& plain_headers(r.headers)
    &&& body_length(r.headers) == Ok::<nat, ParseError>(r.body.len())
}

/// A text on one line is encoded without the bytes of a line end.
pub proof fn lemma_one_line_bytes(text: Seq<char>)
    requires
        one_line(text),
    ensures
        no_line_end(encode_utf8(text)),
{
    lemma_encode_ascii(text, 13);
    lemma_encode_ascii(text, 10);
    let bytes = encode_utf8(text);
    assert(13u8 as char == '\r');
    assert(10u8 as char == '\n');
    assert forall|i: int| 0 <= i < bytes.len() implies bytes[i] != 13 && bytes[i] != 10 by {
        if bytes[i] == 13 {
            assert(bytes.contains(13u8));
        }
        if bytes[i] == 10 {
            assert(bytes.contains(10u8));
        }
    }
}

/// The encoding of a text of ASCII characters is the characters as bytes.
pub proof fn lemma_encode_two(a: char, b: char)
    requires
        a as u32 <= 0x7f,
        b as u32 <= 0x7f,
    ensures
        encode_utf8(seq![a, b]) == seq![a as u8, b as u8],
        encode_utf8(seq![a]) == seq![a as u8],
{
    let two = seq![a, b];
    assert(is_ascii_chars(two));
    is_ascii_chars_encode_utf8(two);
    assert(encode_utf8(two)[0] == two[0] as u8);
    assert(encode_utf8(two)[1] == two[1] as u8);
    assert(encode_utf8(two) =~= seq![a as u8, b as u8]);
    let one = seq![a];
    assert(is_ascii_chars(one));
    is_ascii_chars_encode_utf8(one);
    assert(encode_utf8(one)[0] == one[0] as u8);
    assert(encode_utf8(one) =~= seq![a as u8]);
}

/// The text of a plain header line: key, colon, space, value.
pub open spec fn header_text(key: Seq<char>, value: Seq<char>) -> Seq<char> {
    key + seq![':', ' '] + value
}

/// The line of a plain header holds no line end, and is cut into the key and
/// the value that it was written from.
pub proof fn lemma_header_line(key: Seq<char>, value: Seq<char>)
    requires
        plain_header(key, value),
    ensures
        header_wire(key, value) == encode_utf8(header_text(key, value)) + crlf(),
        encode_utf8(header_text(key, value)).len() > 0,
        no_line_end(encode_utf8(header_text(key, value))),
        spec_split_key_value(encode_utf8(header_text(key, value))) == Ok::<
            (Seq<char>, Seq<char>),
            ParseError,
        >((key, value)),
{
    let middle = seq![':', ' '];
    let text = header_text(key, value);
    let bytes = encode_utf8(text);
    lemma_encode_concat(key, middle);
    lemma_encode_concat(key + middle, value);
    lemma_encode_two(':', ' ');
    assert(bytes =~= encode_utf8(key) + seq![58u8, 32u8] + encode_utf8(value));
    assert(bytes[encode_utf8(key).len() as int] == 58u8);
    assert(one_line(text)) by {
        if text.contains('\r') {
            let i = choose|i: int| 0 <= i < text.len() && text[i] == '\r';
            if i < key.len() {
                assert(key[i] == '\r');
            } else if i >= key.len() + 2 {
                assert(value[i - key.len() - 2] == '\r');
            }
        }
        if text.contains('\n') {
            let i = choose|i: int| 0 <= i < text.len() && text[i] == '\n';
            if i < key.len() {
                assert(key[i] == '\n');
            } else if i >= key.len() + 2 {
                assert(value[i - key.len() - 2] == '\n');
            }
        }
    }
    lemma_one_line_bytes(text);
    encode_utf8_valid_utf8(text);
    encode_utf8_decode_utf8(text);
    let after = seq![' '] + value;
    assert(text =~= key + seq![':'] + after);
    lemma_split_once_join(key, ':', after);
    assert(crate::text::is_space(' '));
    assert(after.drop_first() =~= value);
    assert(crate::text::trim_start(after) == crate::text::trim_start(value));
    assert(trim(after) == value);
    lemma_trim_of_trimmed(key);
}

/// The bytes of a list of headers in two parts are the bytes of the first
/// part followed by those of the second.
pub proof fn lemma_headers_wire_concat(a: Entries, b: Entries)
    ensures
        headers_wire(a + b) == headers_wire(a) + headers_wire(b),
    decreases b.len(),
{
    if b.len() == 0 {
        assert(a + b =~= a);
        assert(headers_wire(a) + headers_wire(b) =~= headers_wire(a));
    } else {
        lemma_headers_wire_concat(a, b.drop_last());
        assert((a + b).drop_last() =~= a + b.drop_last());
        assert((a + b).last() == b.last());
        assert(headers_wire(a + b) =~= headers_wire(a) + headers_wire(b));
    }
}

/// The bytes of a list of headers begin with the bytes of its first header.
pub proof fn lemma_headers_wire_first(entries: Entries)
    requires
        entries.len() > 0,
    ensures
        headers_wire(entries) == header_wire(entries[0].0, entries[0].1) + headers_wire(
            entries.drop_first(),
        ),
{
    let first = entries.take(1);
    assert(entries =~= first + entries.drop_first());
    lemma_headers_wire_concat(first, entries.drop_first());
    assert(first.drop_last() =~= Entries::empty());
    assert(first.last() == entries[0]);
    assert(headers_wire(Entries::empty()) =~= Seq::<u8>::empty());
    assert(headers_wire(first) =~= header_wire(entries[0].0, entries[0].1));
}

/// The text of a line joins the line that is being read, byte by byte.
pub proof fn lemma_scan_content(scan: HeadScan, input: Seq<u8>, pos: int, n: int)
    requires
        0 <= pos,
        0 <= n,
        pos + n <= input.len(),
        scan.state == State::Init || scan.state == State::NewLine || scan.state == State::More,
        no_line_end(input.subrange(pos, pos + n)),
    ensures
        scan_head(scan, input, pos) == scan_head(
            HeadScan {
                state: if n > 0 {
                    State::More
                } else {
                    scan.state
                },
                line: scan.line + input.subrange(pos, pos + n),
                entries: scan.entries,
            },
            input,
            pos + n,
        ),
    decreases n,
{
    let text = input.subrange(pos, pos + n);
    if n == 0 {
        assert(scan.line + text =~= scan.line);
    } else {
        let byte = input[pos];
        assert(text[0] == byte);
        let next = HeadScan {
            state: State::More,
            line: scan.line.push(byte),
            entries: scan.entries,
        };
        assert(head_step(scan, byte) == HeadStep::Go(next));
        let rest = input.subrange(pos + 1, pos + n);
        assert forall|i: int| 0 <= i < rest.len() implies rest[i] != 13 && rest[i] != 10 by {
            assert(rest[i] == text[i + 1]);
        }
        lemma_scan_content(next, input, pos + 1, n - 1);
        assert(next.line + rest =~= scan.line + text);
    }
}

/// A carriage return and a line feed behind the text of a line complete the
/// line: its key and value are written into the headers.
pub proof fn lemma_scan_line_end(scan: HeadScan, input: Seq<u8>, pos: int)
    requires
        0 <= pos,
        pos + 2 <= input.len(),
        scan.state == State::More,
        input[pos] == 13,
        input[pos + 1] == 10,
        spec_split_key_value(scan.line) is Ok,
    ensures
        scan_head(scan, input, pos) == scan_head(
            HeadScan {
                state: State::NewLine,
                line: Seq::empty(),
                entries: put(
                    scan.entries,
                    spec_split_key_value(scan.line)->Ok_0.0,
                    spec_split_key_value(scan.line)->Ok_0.1,
                ),
            },
            input,
            pos + 2,
        ),
{
    let mid = HeadScan { state: State::Return1, line: scan.line, entries: scan.entries };
    assert(head_step(scan, input[pos]) == HeadStep::Go(mid));
    assert(scan_head(scan, input, pos) == scan_head(mid, input, pos + 1));
    assert(step(State::Return1, input[pos + 1]) == State::NewLine);
}

/// A carriage return and a line feed at the start of a line end the block.
pub proof fn lemma_scan_blank(scan: HeadScan, input: Seq<u8>, pos: int)
    requires
        0 <= pos,
        pos + 2 <= input.len(),
        scan.state == State::NewLine,
        input[pos] == 13,
        input[pos + 1] == 10,
    ensures
        scan_head(scan, input, pos) == (Scanned {
            result: Ok(scan.entries),
            end: pos + 2,
            complete: true,
        }),
{
    let mid = HeadScan { state: State::Return2, line: scan.line, entries: scan.entries };
    assert(head_step(scan, input[pos]) == HeadStep::Go(mid));
    assert(scan_head(scan, input, pos) == scan_head(mid, input, pos + 1));
    assert(step(State::Return2, input[pos + 1]) == State::End);
}

/// Reading the lines of the headers `coming` and the blank line behind them,
/// with the headers `seen` read before, gives `seen` and `coming` together, and
/// ends behind the blank line.
pub proof fn lemma_scan_headers(input: Seq<u8>, pos: int, seen: Entries, coming: Entries)
    requires
        0 <= pos,
        pos + headers_wire(coming).len() + 2 <= input.len(),
        input.subrange(pos, pos + headers_wire(coming).len() + 2) == headers_wire(coming) + crlf(),
        plain_headers(seen + coming),
        seen.len() + coming.len() > 0,
    ensures
        scan_head(
            HeadScan {
                state: if seen.len() == 0 {
                    State::Init
                } else {
                    State::NewLine
                },
                line: Seq::empty(),
                entries: seen,
            },
            input,
            pos,
        ) == (Scanned {
            result: Ok(seen + coming),
            end: pos + headers_wire(coming).len() + 2,
            complete: true,
        }),
    decreases coming.len(),
{
    let scan = HeadScan {
        state: if seen.len() == 0 {
            State::Init
        } else {
            State::NewLine
        },
        line: Seq::empty(),
        entries: seen,
    };
    let all = seen + coming;
    let block = headers_wire(coming) + crlf();
    let window = input.subrange(pos, pos + headers_wire(coming).len() + 2);
    if coming.len() == 0 {
        assert(all =~= seen);
        assert(input[pos] == window[0]);
        assert(input[pos + 1] == window[1]);
        lemma_scan_blank(scan, input, pos);
    } else {
        let key = coming[0].0;
        let value = coming[0].1;
        let rest = coming.drop_first();
        assert(all[seen.len() as int] == coming[0]);
        assert(plain_header(key, value));
        lemma_header_line(key, value);
        lemma_headers_wire_first(coming);
        let text = encode_utf8(header_text(key, value));
        let n = text.len() as int;
        assert(block =~= text + crlf() + headers_wire(rest) + crlf());
        assert(input.subrange(pos, pos + n) =~= text) by {
            assert forall|i: int| 0 <= i < n implies input.subrange(pos, pos + n)[i] == text[i] by {
                assert(input[pos + i] == window[i]);
                assert(block[i] == text[i]);
            }
        }
        lemma_scan_content(scan, input, pos, n);
        let inside = HeadScan { state: State::More, line: text, entries: seen };
        assert(scan.line + text =~= text);
        assert(input[pos + n] == 13 && input[pos + n + 1] == 10) by {
            assert(input[pos + n] == window[n]);
            assert(input[pos + n + 1] == window[n + 1]);
            assert(block[n] == 13);
            assert(block[n + 1] == 10);
        }
        lemma_scan_line_end(inside, input, pos + n);
        assert(put(seen, key, value) == seen.push((key, value))) by {
            assert forall|j: int| 0 <= j < seen.len() implies keys(seen)[j] != key by {
                assert(all[j] == seen[j]);
                assert(all[j].0 != all[seen.len() as int].0);
            }
            lemma_first_index_unique(keys(seen), key, seen.len() as int);
        }
        let more = seen.push((key, value));
        assert(more + rest =~= all);
        assert(headers_wire(coming).len() == n + 2 + headers_wire(rest).len());
        assert(input.subrange(pos + n + 2, pos + n + 2 + headers_wire(rest).len() + 2)
            =~= headers_wire(rest) + crlf()) by {
            let inner = input.subrange(pos + n + 2, pos + n + 2 + headers_wire(rest).len() + 2);
            let want = headers_wire(rest) + crlf();
            assert forall|i: int| 0 <= i < want.len() implies inner[i] == want[i] by {
                assert(input[pos + n + 2 + i] == window[n + 2 + i]);
                assert(block[n + 2 + i] == want[i]);
            }
        }
        lemma_scan_headers(input, pos + n + 2, more, rest);
    }
}

/// The header block that writes plain headers is read as those headers, and
/// the reading ends behind its blank line, whatever follows.
pub proof fn lemma_head_round_trip(entries: Entries, before: Seq<u8>, after: Seq<u8>)
    requires
        entries.len() > 0,
        plain_headers(entries),
    ensures
        scan_head(
            head_start(),
            before + headers_wire(entries) + crlf() + after,
            before.len() as int,
        ) == (Scanned {
            result: Ok(entries),
            end: before.len() as int + headers_wire(entries).len() + 2,
            complete: true,
        }),
{
    let input = before + headers_wire(entries) + crlf() + after;
    let pos = before.len() as int;
    assert(input.subrange(pos, pos + headers_wire(entries).len() + 2) =~= headers_wire(entries)
        + crlf());
    assert(Entries::empty() + entries =~= entries);
    lemma_scan_headers(input, pos, Entries::empty(), entries);
}

/// Dropping the carriage returns from bytes that hold none changes nothing,
/// also where one carriage return follows them.
pub proof fn lemma_strip_returns(bytes: Seq<u8>)
    requires
        forall|i: int| 0 <= i < bytes.len() ==> bytes[i] != 13,
    ensures
        bytes.filter(|b: u8| not_return(b)) == bytes,
        bytes.push(13u8).filter(|b: u8| not_return(b)) == bytes,
    decreases bytes.len(),
{
    let keep = |b: u8| not_return(b);
    reveal_with_fuel(Seq::filter, 2);
    if bytes.len() > 0 {
        lemma_strip_returns(bytes.drop_last());
        assert(bytes.drop_last().push(bytes.last()) =~= bytes);
    }
    assert(bytes.push(13u8).drop_last() =~= bytes);
}

/// A first line without line ends, written with a carriage return and a line
/// feed behind it, is read as it was written.
pub proof fn lemma_start_line(line: Seq<u8>, after: Seq<u8>)
    requires
        no_line_end(line),
    ensures
        start_line(line + crlf() + after) == (line, line.len() as int + 2),
{
    let input = line + crlf() + after;
    let end = line.len() as int + 1;
    assert forall|j: int| 0 <= j < end implies input[j] != 10u8 by {
        if j < line.len() {
            assert(input[j] == line[j]);
        }
    }
    assert(input[end] == 10u8);
    lemma_first_index_unique(input, 10u8, end);
    assert(input.take(end) =~= line.push(13u8));
    lemma_strip_returns(line);
}

/// The bytes of the line of a plain request hold no line end, and encode the
/// line.
pub proof fn lemma_request_line_bytes(r: RequestView)
    requires
        plain_request(r),
    ensures
        ({
            let line = RequestLineView { method: r.method, path: r.path, version: r.version };
            &&& no_line_end(encode_utf8(render_request_line(line)))
            &&& encode_utf8(render_request_line(line)) == encode_utf8(r.method.token()) + seq![32u8]
                + encode_utf8(r.path) + seq![32u8] + encode_utf8(version_token(r.version))
        }),
{
    let line = RequestLineView { method: r.method, path: r.path, version: r.version };
    let method = r.method.token();
    let version = version_token(r.version);
    let space = seq![' '];
    let text = render_request_line(line);
    lemma_encode_two(' ', ' ');
    lemma_encode_concat(method, space);
    lemma_encode_concat(method + space, r.path);
    lemma_encode_concat(method + space + r.path, space);
    lemma_encode_concat(method + space + r.path + space, version);
    reveal_strlit("HTTP/1.0");
    reveal_strlit("HTTP/1.1");
    reveal_strlit("HTTP/2");
    reveal_strlit("HTTP/3");
    assert(one_line(version)) by {
        if version.contains('\r') {
            let i = choose|i: int| 0 <= i < version.len() && version[i] == '\r';
            assert(version[i] == '\r');
        }
        if version.contains('\n') {
            let i = choose|i: int| 0 <= i < version.len() && version[i] == '\n';
            assert(version[i] == '\n');
        }
    }
    assert(one_line(text)) by {
        let a = method.len() as int;
        let b = a + 1 + r.path.len();
        if text.contains('\r') {
            let i = choose|i: int| 0 <= i < text.len() && text[i] == '\r';
            if i < a {
                assert(method[i] == '\r');
            } else if a < i < b {
                assert(r.path[i - a - 1] == '\r');
            } else if i > b {
                assert(version[i - b - 1] == '\r');
            }
        }
        if text.contains('\n') {
            let i = choose|i: int| 0 <= i < text.len() && text[i] == '\n';
            if i < a {
                assert(method[i] == '\n');
            } else if a < i < b {
                assert(r.path[i - a - 1] == '\n');
            } else if i > b {
                assert(version[i - b - 1] == '\n');
            }
        }
    }
    lemma_one_line_bytes(text);
}

/// A plain request that is written and read again is the same request:
/// method, path, version, headers and body are kept.
pub proof fn lemma_request_round_trip(r: RequestView)
    requires
        plain_request(r),
    ensures
        spec_parse_request(request_wire(r)) == Ok::<RequestView, ParseError>(r),
{
    let line = RequestLineView { method: r.method, path: r.path, version: r.version };
    let text = render_request_line(line);
    let first = encode_utf8(text);
    let head = headers_wire(r.headers);
    let wire = request_wire(r);
    lemma_request_line_bytes(r);
    assert(wire =~= first + crlf() + (head + crlf() + r.body));
    lemma_start_line(first, head + crlf() + r.body);
    encode_utf8_valid_utf8(text);
    encode_utf8_decode_utf8(text);
    lemma_request_line_parses(line);
    let pos = first.len() as int + 2;
    assert(wire =~= (first + crlf()) + head + crlf() + r.body);
    lemma_head_round_trip(r.headers, first + crlf(), r.body);
    let end = pos + head.len() + 2;
    assert(wire.len() == end + r.body.len());
    if r.body.len() == 0 {
        assert(r.body =~= Seq::<u8>::empty());
    } else {
        assert(wire.subrange(end, end + r.body.len()) =~= r.body);
    }
    assert(spec_body(r.headers, wire, end) == Ok::<Seq<u8>, ParseError>(r.body));
    assert(spec_parse(wire, pos) == Ok::<(Entries, Seq<u8>), ParseError>(
        (r.headers, r.body),
    ));
}

/// What `trim` keeps of a text stood in the text.
pub proof fn lemma_trim_within(text: Seq<char>, c: char)
    requires
        trim(text).contains(c),
    ensures
        text.contains(c),
{
    lemma_trim_start_shape(text);
    let inner = trim_start(text);
    lemma_trim_end_shape(inner);
    let kept = trim(text);
    let i = choose|i: int| 0 <= i < kept.len() && kept[i] == c;
    assert(kept[i] == inner[i]);
    assert(inner[i] == text[i + (text.len() - inner.len())]);
}

/// Bytes without line ends that are well-formed UTF-8 encode a text on one
/// line.
pub proof fn lemma_one_line_text(bytes: Seq<u8>)
    requires
        valid_utf8(bytes),
        no_line_end(bytes),
    ensures
        one_line(decode_utf8(bytes)),
{
    lemma_decode_ascii(bytes, 13);
    lemma_decode_ascii(bytes, 10);
    assert(13u8 as char == '\r');
    assert(10u8 as char == '\n');
    if bytes.contains(13u8) {
        let i = choose|i: int| 0 <= i < bytes.len() && bytes[i] == 13u8;
        assert(bytes[i] != 13);
    }
    if bytes.contains(10u8) {
        let i = choose|i: int| 0 <= i < bytes.len() && bytes[i] == 10u8;
        assert(bytes[i] != 10);
    }
}

/// The key and the value that a line without line ends is cut into are plain.
pub proof fn lemma_split_plain(line: Seq<u8>)
    requires
        no_line_end(line),
        spec_split_key_value(line) is Ok,
    ensures
        plain_header(spec_split_key_value(line)->Ok_0.0, spec_split_key_value(line)->Ok_0.1),
{
    let text = decode_utf8(line);
    lemma_one_line_text(line);
    lemma_split_once_parts(text, ':');
    let (before, after) = split_once(text, ':')->0;
    let key = trim(before);
    let value = trim(after);
    lemma_trim_is_trimmed(before);
    lemma_trim_is_trimmed(after);
    assert(text =~= before + seq![':'] + after);
    if key.contains(':') {
        lemma_trim_within(before, ':');
    }
    if key.contains('\r') {
        lemma_trim_within(before, '\r');
        let i = choose|i: int| 0 <= i < before.len() && before[i] == '\r';
        assert(text[i] == '\r');
    }
    if key.contains('\n') {
        lemma_trim_within(before, '\n');
        let i = choose|i: int| 0 <= i < before.len() && before[i] == '\n';
        assert(text[i] == '\n');
    }
    if value.contains('\r') {
        lemma_trim_within(after, '\r');
        let i = choose|i: int| 0 <= i < after.len() && after[i] == '\r';
        assert(text[before.len() + 1 + i] == '\r');
    }
    if value.contains('\n') {
        lemma_trim_within(after, '\n');
        let i = choose|i: int| 0 <= i < after.len() && after[i] == '\n';
        assert(text[before.len() + 1 + i] == '\n');
    }
}

/// Writing a plain header into plain headers leaves them plain.
pub proof fn lemma_put_plain(entries: Entries, key: Seq<char>, value: Seq<char>)
    requires
        plain_headers(entries),
        plain_header(key, value),
    ensures
        plain_headers(put(entries, key, value)),
{
    lemma_put_distinct(entries, key, value);
    lemma_key_index(entries, key);
    let after = put(entries, key, value);
    let at = key_index(entries, key);
    assert forall|i: int| 0 <= i < after.len() implies plain_header(
        (#[trigger] after[i]).0,
        after[i].1,
    ) by {
        if i != at {
            assert(after[i] == entries[i]);
        }
    }
}

/// A scan that begins with plain headers ends with plain headers.
pub proof fn lemma_scan_plain(scan: HeadScan, input: Seq<u8>, pos: int)
    requires
        0 <= pos,
        plain_headers(scan.entries),
        no_line_end(scan.line),
    ensures
        scan_head(scan, input, pos).result is Ok ==> plain_headers(
            scan_head(scan, input, pos).result->Ok_0,
        ),
    decreases input.len() - pos,
{
    if pos < input.len() {
        let byte = input[pos];
        match head_step(scan, byte) {
            HeadStep::Go(next) => {
                if byte == 13 {
                } else if byte == 10 {
                    lemma_split_plain(scan.line);
                    let (key, value) = spec_split_key_value(scan.line)->Ok_0;
                    lemma_put_plain(scan.entries, key, value);
                } else {
                    assert forall|i: int| 0 <= i < next.line.len() implies next.line[i] != 13
                        && next.line[i] != 10 by {
                        if i < scan.line.len() {
                            assert(next.line[i] == scan.line[i]);
                        }
                    }
                }
                lemma_scan_plain(next, input, pos + 1);
            },
            HeadStep::Stop(_) => {},
        }
    }
}

/// Bytes without line feed, with their carriage returns dropped, hold no
/// line end.
pub proof fn lemma_stripped(bytes: Seq<u8>)
    requires
        forall|i: int| 0 <= i < bytes.len() ==> bytes[i] != 10,
    ensures
        no_line_end(bytes.filter(|b: u8| not_return(b))),
    decreases bytes.len(),
{
    let keep = |b: u8| not_return(b);
    reveal_with_fuel(Seq::filter, 2);
    if bytes.len() > 0 {
        let front = bytes.drop_last();
        lemma_stripped(front);
        let kept = bytes.filter(keep);
        let before = front.filter(keep);
        assert forall|i: int| 0 <= i < kept.len() implies kept[i] != 13 && kept[i] != 10 by {
            if i < before.len() {
                assert(kept[i] == before[i]);
            }
        }
    }
}

/// The first line of an input holds no line end.
pub proof fn lemma_start_line_plain(input: Seq<u8>)
    ensures
        no_line_end(start_line(input).0),
        0 <= start_line(input).1 <= input.len(),
{
    lemma_first_index(input, 10u8);
    let end = first_index(input, 10u8);
    let front = input.take(end);
    assert forall|i: int| 0 <= i < front.len() implies front[i] != 10 by {
        assert(front[i] == input[i]);
    }
    lemma_stripped(front);
}

/// A request that was read and has a header is plain: it can be written and
/// read again.
pub proof fn lemma_parsed_request_is_plain(input: Seq<u8>)
    requires
        spec_parse_request(input) is Ok,
        spec_parse_request(input)->Ok_0.headers.len() > 0,
    ensures
        plain_request(spec_parse_request(input)->Ok_0),
{
    let r = spec_parse_request(input)->Ok_0;
    let (line, pos) = start_line(input);
    lemma_start_line_plain(input);
    lemma_one_line_text(line);
    let text = decode_utf8(line);
    lemma_split_once_parts(text, ' ');
    let (method, rest) = split_once(text, ' ')->0;
    lemma_split_once_parts(rest, ' ');
    let (path, version) = split_once(rest, ' ')->0;
    lemma_method_token(method);
    assert(text =~= method + seq![' '] + path + seq![' '] + version);
    assert(one_line(method)) by {
        if method.contains('\r') {
            let i = choose|i: int| 0 <= i < method.len() && method[i] == '\r';
            assert(text[i] == '\r');
        }
        if method.contains('\n') {
            let i = choose|i: int| 0 <= i < method.len() && method[i] == '\n';
            assert(text[i] == '\n');
        }
    }
    assert(one_line(path)) by {
        if path.contains('\r') {
            let i = choose|i: int| 0 <= i < path.len() && path[i] == '\r';
            assert(text[method.len() + 1 + i] == '\r');
        }
        if path.contains('\n') {
            let i = choose|i: int| 0 <= i < path.len() && path[i] == '\n';
            assert(text[method.len() + 1 + i] == '\n');
        }
    }
    lemma_scan_plain(head_start(), input, pos);
    lemma_scan_head_end(head_start(), input, pos);
}

/// Reading, writing and reading again gives what the first reading gave: a
/// request that was read and has a header keeps its method, its path, its
/// version, its headers and its body when it is written and read again.
pub proof fn lemma_request_read_write_read(input: Seq<u8>)
    requires
        spec_parse_request(input) is Ok,
        spec_parse_request(input)->Ok_0.headers.len() > 0,
    ensures
        spec_parse_request(request_wire(spec_parse_request(input)->Ok_0)) == spec_parse_request(
            input,
        ),
{
    lemma_parsed_request_is_plain(input);
    lemma_request_round_trip(spec_parse_request(input)->Ok_0);
}

/// Whether a response is read back as it is written: its status text stands
/// on one line, it has a header, its headers are plain, and its body is as
/// long as its headers say.
pub open spec fn plain_response(r: ResponseView) -> bool {
    &&& one_line(r.text)
    &&& r.headers.len() > 0
    &&& plain_headers(r.headers)
    &&& body_length(r.headers) == Ok::<nat, ParseError>(r.body.len())
}

/// The line that writes the first line of a response: version, status code and
/// status text with one space between each two.
pub open spec fn render_response_line(line: ResponseLineView) -> Seq<char> {
    version_token(line.version) + seq![' '] + decimal_text(line.code as nat) + seq![' ']
        + line.text
}

/// Two texts on one line, one behind the other, stand on one line.
pub proof fn lemma_one_line_concat(a: Seq<char>, b: Seq<char>)
    requires
        one_line(a),
        one_line(b),
    ensures
        one_line(a + b),
{
    let text = a + b;
    if text.contains('\r') {
        let i = choose|i: int| 0 <= i < text.len() && text[i] == '\r';
        if i < a.len() {
            assert(a[i] == '\r');
        } else {
            assert(b[i - a.len()] == '\r');
        }
    }
    if text.contains('\n') {
        let i = choose|i: int| 0 <= i < text.len() && text[i] == '\n';
        if i < a.len() {
            assert(a[i] == '\n');
        } else {
            assert(b[i - a.len()] == '\n');
        }
    }
}

/// The digits that write a number are digits, at least one, and read as that
/// number; as bytes they are the digits that go on the wire.
pub proof fn lemma_decimal_text(n: nat)
    ensures
        decimal_text(n).len() > 0,
        all_digits(decimal_text(n)),
        decimal_value(decimal_text(n)) == n,
        encode_utf8(decimal_text(n)) == decimal_wire(n),
    decreases n,
{
    let text = decimal_text(n);
    if n < 10 {
        let c = (48 + n) as char;
        assert(text =~= seq![c]);
        assert(c as u32 == 48 + n);
        assert(digit_value(c) == Some(n));
        assert(text.drop_last() =~= Seq::<char>::empty());
        assert(decimal_value(text.drop_last()) == 0);
        lemma_encode_two(c, c);
        assert(decimal_wire(n) =~= seq![c as u8]);
    } else {
        let front = decimal_text(n / 10);
        let c = (48 + n % 10) as char;
        lemma_decimal_text(n / 10);
        assert(c as u32 == 48 + n % 10);
        assert(digit_value(c) == Some(n % 10));
        assert(text == front.push(c));
        assert(text.drop_last() =~= front);
        assert forall|i: int| 0 <= i < text.len() implies (#[trigger] digit_value(text[i]))
            is Some by {
            if i < front.len() {
                assert(text[i] == front[i]);
            }
        }
        assert(text =~= front + seq![c]);
        lemma_encode_concat(front, seq![c]);
        lemma_encode_two(c, c);
        assert(decimal_wire(n) =~= decimal_wire(n / 10) + seq![c as u8]);
    }
}

/// Digits hold neither a space nor a sign nor a line end.
pub proof fn lemma_digits_plain(digits: Seq<char>)
    requires
        all_digits(digits),
    ensures
        !digits.contains(' '),
        one_line(digits),
        digits.len() > 0 ==> digits[0] != '+',
{
    if digits.contains(' ') {
        let i = choose|i: int| 0 <= i < digits.len() && digits[i] == ' ';
        assert(digit_value(digits[i]) is Some);
    }
    if digits.contains('\r') {
        let i = choose|i: int| 0 <= i < digits.len() && digits[i] == '\r';
        assert(digit_value(digits[i]) is Some);
    }
    if digits.contains('\n') {
        let i = choose|i: int| 0 <= i < digits.len() && digits[i] == '\n';
        assert(digit_value(digits[i]) is Some);
    }
    if digits.len() > 0 {
        assert(digit_value(digits[0]) is Some);
    }
}

/// Writing the first line of a response and reading it again gives the same
/// version, status code and status text, whatever the text holds.
pub proof fn lemma_response_line_parses(line: ResponseLineView)
    ensures
        spec_response_line(render_response_line(line)) == Ok::<ResponseLineView, ParseError>(
            line,
        ),
{
    let version = version_token(line.version);
    let digits = decimal_text(line.code as nat);
    let rest = digits + seq![' '] + line.text;
    lemma_version_of_token(line.version);
    lemma_decimal_text(line.code as nat);
    lemma_digits_plain(digits);
    lemma_split_once_join(version, ' ', rest);
    lemma_split_once_join(digits, ' ', line.text);
    assert(render_response_line(line) =~= version + seq![' '] + rest);
    assert(parse_unsigned(digits, 0xffff) == Some(line.code as nat));
}

/// Reading the first line of a response and writing it again gives a line
/// that reads the same: version, status code and status text are kept.
pub proof fn lemma_response_line_round_trip(line: Seq<char>)
    requires
        spec_response_line(line) is Ok,
    ensures
        spec_response_line(render_response_line(spec_response_line(line)->Ok_0))
            == spec_response_line(line),
{
    lemma_response_line_parses(spec_response_line(line)->Ok_0);
}

/// The bytes of the first line of a plain response hold no line end, and
/// encode the line.
pub proof fn lemma_response_line_bytes(r: ResponseView)
    requires
        one_line(r.text),
    ensures
        ({
            let line = ResponseLineView { version: r.version, code: r.code, text: r.text };
            &&& no_line_end(encode_utf8(render_response_line(line)))
            &&& encode_utf8(render_response_line(line)) == encode_utf8(version_token(r.version))
                + seq![32u8] + decimal_wire(r.code as nat) + seq![32u8] + encode_utf8(r.text)
        }),
{
    let line = ResponseLineView { version: r.version, code: r.code, text: r.text };
    let version = version_token(r.version);
    let digits = decimal_text(r.code as nat);
    let space = seq![' '];
    let text = render_response_line(line);
    lemma_encode_two(' ', ' ');
    lemma_decimal_text(r.code as nat);
    lemma_digits_plain(digits);
    lemma_encode_concat(version, space);
    lemma_encode_concat(version + space, digits);
    lemma_encode_concat(version + space + digits, space);
    lemma_encode_concat(version + space + digits + space, r.text);
    reveal_strlit("HTTP/1.0");
    reveal_strlit("HTTP/1.1");
    reveal_strlit("HTTP/2");
    reveal_strlit("HTTP/3");
    assert(one_line(version)) by {
        if version.contains('\r') {
            let i = choose|i: int| 0 <= i < version.len() && version[i] == '\r';
            assert(version[i] == '\r');
        }
        if version.contains('\n') {
            let i = choose|i: int| 0 <= i < version.len() && version[i] == '\n';
            assert(version[i] == '\n');
        }
    }
    assert(one_line(space)) by {
        if space.contains('\r') {
            let i = choose|i: int| 0 <= i < space.len() && space[i] == '\r';
            assert(space[i] == '\r');
        }
        if space.contains('\n') {
            let i = choose|i: int| 0 <= i < space.len() && space[i] == '\n';
            assert(space[i] == '\n');
        }
    }
    lemma_one_line_concat(version, space);
    lemma_one_line_concat(version + space, digits);
    lemma_one_line_concat(version + space + digits, space);
    lemma_one_line_concat(version + space + digits + space, r.text);
    lemma_one_line_bytes(text);
}

/// A plain response that is written and read again is the same response:
/// version, status code, status text, headers and body are kept.
pub proof fn lemma_response_round_trip(r: ResponseView)
    requires
        plain_response(r),
    ensures
        spec_parse_response(response_wire(r)) == Ok::<ResponseView, ParseError>(r),
{
    let line = ResponseLineView { version: r.version, code: r.code, text: r.text };
    let text = render_response_line(line);
    let first = encode_utf8(text);
    let head = headers_wire(r.headers);
    let wire = response_wire(r);
    lemma_response_line_bytes(r);
    assert(wire =~= first + crlf() + (head + crlf() + r.body));
    lemma_start_line(first, head + crlf() + r.body);
    encode_utf8_valid_utf8(text);
    encode_utf8_decode_utf8(text);
    lemma_response_line_parses(line);
    let pos = first.len() as int + 2;
    assert(wire =~= (first + crlf()) + head + crlf() + r.body);
    lemma_head_round_trip(r.headers, first + crlf(), r.body);
    let end = pos + head.len() + 2;
    assert(wire.len() == end + r.body.len());
    if r.body.len() == 0 {
        assert(r.body =~= Seq::<u8>::empty());
    } else {
        assert(wire.subrange(end, end + r.body.len()) =~= r.body);
    }
    assert(spec_body(r.headers, wire, end) == Ok::<Seq<u8>, ParseError>(r.body));
    assert(spec_parse(wire, pos) == Ok::<(Entries, Seq<u8>), ParseError>((r.headers, r.body)));
}

/// A response that was read and has a header is plain: it can be written and
/// read again.
pub proof fn lemma_parsed_response_is_plain(input: Seq<u8>)
    requires
        spec_parse_response(input) is Ok,
        spec_parse_response(input)->Ok_0.headers.len() > 0,
    ensures
        plain_response(spec_parse_response(input)->Ok_0),
{
    let (line, pos) = start_line(input);
    lemma_start_line_plain(input);
    lemma_one_line_text(line);
    let text = decode_utf8(line);
    lemma_split_once_parts(text, ' ');
    let (version, rest) = split_once(text, ' ')->0;
    lemma_split_once_parts(rest, ' ');
    let (code, status) = split_once(rest, ' ')->0;
    assert(text =~= version + seq![' '] + code + seq![' '] + status);
    assert(one_line(status)) by {
        let before = version.len() + 1 + code.len() + 1;
        if status.contains('\r') {
            let i = choose|i: int| 0 <= i < status.len() && status[i] == '\r';
            assert(text[before + i] == '\r');
        }
        if status.contains('\n') {
            let i = choose|i: int| 0 <= i < status.len() && status[i] == '\n';
            assert(text[before + i] == '\n');
        }
    }
    lemma_scan_plain(head_start(), input, pos);
    lemma_scan_head_end(head_start(), input, pos);
}

/// Reading, writing and reading again gives what the first reading gave: a
/// response that was read and has a header keeps its version, its status
/// code, its status text, its headers and its body when it is written and
/// read again.
pub proof fn lemma_response_read_write_read(input: Seq<u8>)
    requires
        spec_parse_response(input) is Ok,
        spec_parse_response(input)->Ok_0.headers.len() > 0,
    ensures
        spec_parse_response(response_wire(spec_parse_response(input)->Ok_0))
            == spec_parse_response(input),
{
    lemma_parsed_response_is_plain(input);
    lemma_response_round_trip(spec_parse_response(input)->Ok_0);
}

} // verus!
