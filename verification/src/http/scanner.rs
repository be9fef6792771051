//! The header block of a message, read byte by byte: a state machine finds the
//! blank line that ends the block; each line completed on the way is cut at
//! its first colon into a key and a value.
use crate::http::error::ParseError;
use crate::http::headers::put;
use crate::http::headers::Entries;
use crate::http::headers::Headers;
use crate::text::find_char;
use crate::text::split_once;
use crate::text::substring;
use crate::text::to_chars;
use crate::text::trim;
use crate::text::trim_bounds;
use vstd::prelude::*;
use vstd::utf8::decode_utf8;
use vstd::utf8::valid_utf8;

verus! {

/// Where the scan of a header block stands.
#[derive(Debug, Clone, Copy, PartialEq, Eq, Structural)]
pub enum State {
    /// Nothing has been read.
    Init,
    /// Inside a line.
    More,
    /// A line has just ended with a line feed.
    NewLine,
    /// A carriage return has been read inside a line.
    Return1,
    /// A carriage return has been read at the start of a line.
    Return2,
    /// The blank line that ends the block has been read.
    End,
    /// The bytes read cannot begin a header block.
    Invalid,
}

/// The three kinds of byte that the scan tells apart.
#[derive(Debug, Clone, Copy, PartialEq, Eq, Structural)]
pub enum CharType {
    /// Carriage return, byte 13.
    Return,
    /// Line feed, byte 10.
    NewLine,
    /// Any other byte.
    Others,
}

/// The kind of `byte`.
pub open spec fn spec_to_char_type(byte: u8) -> CharType {
    if byte == 10 {
        CharType::NewLine
    } else if byte == 13 {
        CharType::Return
    } else {
        CharType::Others
    }
}

/// The state that follows `current` on a byte of kind `input`.
///
/// A block begins with a line that is not empty. A line ends with a line feed,
/// or with a carriage return and a line feed. A line feed at the start of a
/// line, alone or after one carriage return, ends the block. A carriage return
/// that no line feed follows is an error. `End` and `Invalid` are left for
/// `More` by any byte: the scan stops on reaching either, so that this is
/// never used.
pub open spec fn spec_transform(current: State, input: CharType) -> State {
    match current {
        State::Init => match input {
            CharType::Others => State::More,
            _ => State::Invalid,
        },
        State::More => match input {
            CharType::Return => State::Return1,
            CharType::NewLine => State::NewLine,
            CharType::Others => State::More,
        },
        State::Return1 => match input {
            CharType::NewLine => State::NewLine,
            _ => State::Invalid,
        },
        State::NewLine => match input {
            CharType::Return => State::Return2,
            CharType::NewLine => State::End,
            CharType::Others => State::More,
        },
        State::Return2 => match input {
            CharType::NewLine => State::End,
            _ => State::Invalid,
        },
        State::End => State::More,
        State::Invalid => State::More,
    }
}

/// One step of the scan.
pub fn transform(current: State, input: CharType) -> (r: State)
    ensures
        r == spec_transform(current, input),
{
    match current {
        State::Init => match input {
            CharType::Return | CharType::NewLine => State::Invalid,
            _ => State::More,
        },
        State::More => match input {
            CharType::Return => State::Return1,
            CharType::NewLine => State::NewLine,
            _ => State::More,
        },
        State::Return1 => match input {
            CharType::NewLine => State::NewLine,
            _ => State::Invalid,
        },
        State::NewLine => match input {
            CharType::Return => State::Return2,
            CharType::NewLine => State::End,
            _ => State::More,
        },
        State::Return2 => match input {
            CharType::NewLine => State::End,
            _ => State::Invalid,
        },
        _ => State::More,
    }
}

/// The kind of `byte`.
pub fn to_char_type(byte: u8) -> (r: CharType)
    ensures
        r == spec_to_char_type(byte),
{
    match byte {
        10 => CharType::NewLine,
        13 => CharType::Return,
        _ => CharType::Others,
    }
}

/// The state that follows `state` on `byte`.
pub open spec fn step(state: State, byte: u8) -> State {
    spec_transform(state, spec_to_char_type(byte))
}

/// The state in which the machine is after reading `bytes` from `state`.
pub open spec fn run(state: State, bytes: Seq<u8>) -> State
    decreases bytes.len(),
{
    if bytes.len() == 0 {
        state
    } else {
        step(run(state, bytes.drop_last()), bytes.last())
    }
}

/// Whether the machine may go on from `state`: it has neither met the blank
/// line nor refused the bytes.
pub open spec fn open_state(state: State) -> bool {
    state != State::End && state != State::Invalid
}

/// Whether the machine, started in `state`, may go on after each proper
/// prefix of `bytes`.
pub open spec fn quiet(state: State, bytes: Seq<u8>) -> bool {
    forall|n: int| 0 <= n < bytes.len() ==> open_state(#[trigger] run(state, bytes.take(n)))
}

/// The text of a header line: at least one byte, none of them a carriage
/// return or a line feed.
pub open spec fn is_content(bytes: Seq<u8>) -> bool {
    bytes.len() > 0 && forall|i: int| 0 <= i < bytes.len() ==> bytes[i] != 13 && bytes[i] != 10
}

/// A line end: a line feed, alone or after a carriage return.
pub open spec fn is_line_end(bytes: Seq<u8>) -> bool {
    bytes == seq![13u8, 10u8] || bytes == seq![10u8]
}

/// The bytes of the lines `lines`, each given as its text and its line end.
pub open spec fn block(lines: Seq<(Seq<u8>, Seq<u8>)>) -> Seq<u8>
    decreases lines.len(),
{
    if lines.len() == 0 {
        Seq::empty()
    } else {
        lines[0].0 + lines[0].1 + block(lines.drop_first())
    }
}

/// Reading `a + b` is reading `a` and then `b`.
pub proof fn lemma_run_concat(state: State, a: Seq<u8>, b: Seq<u8>)
    ensures
        run(state, a + b) == run(run(state, a), b),
    decreases b.len(),
{
    if b.len() == 0 {
        assert(a + b =~= a);
    } else {
        lemma_run_concat(state, a, b.drop_last());
        assert((a + b).drop_last() =~= a + b.drop_last());
        assert((a + b).last() == b.last());
    }
}

/// Where the machine may go on through `a`, and from where it then stands
/// through `b`, it may go on through `a + b`.
pub proof fn lemma_quiet_concat(state: State, a: Seq<u8>, b: Seq<u8>)
    requires
        quiet(state, a),
        quiet(run(state, a), b),
    ensures
        quiet(state, a + b),
{
    assert forall|n: int| 0 <= n < (a + b).len() implies open_state(
        #[trigger] run(state, (a + b).take(n)),
    ) by {
        if n < a.len() {
            assert((a + b).take(n) =~= a.take(n));
        } else {
            assert((a + b).take(n) =~= a + b.take(n - a.len()));
            lemma_run_concat(state, a, b.take(n - a.len()));
        }
    }
}

/// The text of a line takes the machine, from the start of a line, into the
/// line, and lets it go on all the way.
pub proof fn lemma_run_content(state: State, bytes: Seq<u8>)
    requires
        state == State::Init || state == State::NewLine || state == State::More,
        forall|i: int| 0 <= i < bytes.len() ==> bytes[i] != 13 && bytes[i] != 10,
    ensures
        run(state, bytes) == if bytes.len() == 0 {
            state
        } else {
            State::More
        },
        quiet(state, bytes),
    decreases bytes.len(),
{
    if bytes.len() > 0 {
        let front = bytes.drop_last();
        lemma_run_content(state, front);
        assert forall|n: int| 0 <= n < bytes.len() implies open_state(
            #[trigger] run(state, bytes.take(n)),
        ) by {
            if n < front.len() {
                assert(bytes.take(n) =~= front.take(n));
            } else {
                assert(bytes.take(n) =~= front);
            }
        }
    }
}

/// A line end takes the machine out of a line to the start of the next, and
/// lets it go on all the way.
pub proof fn lemma_run_line_end(end: Seq<u8>)
    requires
        is_line_end(end),
    ensures
        run(State::More, end) == State::NewLine,
        quiet(State::More, end),
{
    reveal_with_fuel(run, 3);
    if end == seq![10u8] {
        assert(end.drop_last() =~= Seq::<u8>::empty());
        assert forall|n: int| 0 <= n < end.len() implies open_state(
            #[trigger] run(State::More, end.take(n)),
        ) by {
            assert(end.take(n) =~= Seq::<u8>::empty());
        }
    } else {
        assert(end.drop_last() =~= seq![13u8]);
        assert(end.drop_last().drop_last() =~= Seq::<u8>::empty());
        assert forall|n: int| 0 <= n < end.len() implies open_state(
            #[trigger] run(State::More, end.take(n)),
        ) by {
            if n == 0 {
                assert(end.take(n) =~= Seq::<u8>::empty());
            } else {
                assert(end.take(n) =~= seq![13u8]);
                assert(end.take(n).drop_last() =~= Seq::<u8>::empty());
            }
        }
    }
}

/// A line end at the start of a line is the blank line: it takes the machine
/// to `End`, and not before its last byte.
pub proof fn lemma_run_blank(blank: Seq<u8>)
    requires
        is_line_end(blank),
    ensures
        run(State::NewLine, blank) == State::End,
        quiet(State::NewLine, blank),
{
    reveal_with_fuel(run, 3);
    if blank == seq![10u8] {
        assert(blank.drop_last() =~= Seq::<u8>::empty());
        assert forall|n: int| 0 <= n < blank.len() implies open_state(
            #[trigger] run(State::NewLine, blank.take(n)),
        ) by {
            assert(blank.take(n) =~= Seq::<u8>::empty());
        }
    } else {
        assert(blank.drop_last() =~= seq![13u8]);
        assert(blank.drop_last().drop_last() =~= Seq::<u8>::empty());
        assert forall|n: int| 0 <= n < blank.len() implies open_state(
            #[trigger] run(State::NewLine, blank.take(n)),
        ) by {
            if n == 0 {
                assert(blank.take(n) =~= Seq::<u8>::empty());
            } else {
                assert(blank.take(n) =~= seq![13u8]);
                assert(blank.take(n).drop_last() =~= Seq::<u8>::empty());
            }
        }
    }
}

/// Lines take the machine from the start of a line to the start of a line,
/// and let it go on all the way.
pub proof fn lemma_run_block(state: State, lines: Seq<(Seq<u8>, Seq<u8>)>)
    requires
        state == State::Init || state == State::NewLine,
        forall|i: int|
            0 <= i < lines.len() ==> is_content((#[trigger] lines[i]).0) && is_line_end(lines[i].1),
    ensures
        run(state, block(lines)) == if lines.len() == 0 {
            state
        } else {
            State::NewLine
        },
        quiet(state, block(lines)),
    decreases lines.len(),
{
    if lines.len() > 0 {
        let text = lines[0].0;
        let end = lines[0].1;
        let rest = lines.drop_first();
        assert(is_content(lines[0].0));
        lemma_run_content(state, text);
        lemma_run_line_end(end);
        lemma_run_concat(state, text, end);
        lemma_quiet_concat(state, text, end);
        assert forall|i: int| 0 <= i < rest.len() implies is_content((#[trigger] rest[i]).0)
            && is_line_end(rest[i].1) by {
            assert(rest[i] == lines[i + 1]);
        }
        lemma_run_block(State::NewLine, rest);
        lemma_run_concat(state, text + end, block(rest));
        lemma_quiet_concat(state, text + end, block(rest));
    }
}

/// The blank line is found where it stands, and not earlier.
///
/// Let a header block consist of at least one line, each a text without
/// carriage return and line feed followed by a line end, and of a blank line.
/// Both the line ends and the blank line may be a line feed alone or a
/// carriage return with a line feed, in any mixture. Then the machine is in
/// `End` after the last byte of the blank line, and after no shorter prefix
/// of the block is it in `End` or in `Invalid`.
pub proof fn lemma_blank_line_ends_block(lines: Seq<(Seq<u8>, Seq<u8>)>, blank: Seq<u8>)
    requires
        lines.len() > 0,
        forall|i: int|
            0 <= i < lines.len() ==> is_content((#[trigger] lines[i]).0) && is_line_end(lines[i].1),
        is_line_end(blank),
    ensures
        run(State::Init, block(lines) + blank) == State::End,
        forall|n: int|
            0 <= n < (block(lines) + blank).len() ==> open_state(
                #[trigger] run(State::Init, (block(lines) + blank).take(n)),
            ),
{
    lemma_run_block(State::Init, lines);
    lemma_run_blank(blank);
    lemma_run_concat(State::Init, block(lines), blank);
    lemma_quiet_concat(State::Init, block(lines), blank);
}

/// The key and the value that a header line writes: the text before its first
/// colon and the text after it, each without the white space around it.
pub open spec fn spec_split_key_value(line: Seq<u8>) -> Result<(Seq<char>, Seq<char>), ParseError> {
    if !valid_utf8(line) {
        Err(ParseError::Encoding)
    } else {
        match split_once(decode_utf8(line), ':') {
            None => Err(ParseError::HeaderLine),
            Some((key, value)) => Ok((trim(key), trim(value))),
        }
    }
}

/// Cuts a header line into its key and its value.
pub fn split_key_value(line: Vec<u8>) -> (r: Result<(String, String), ParseError>)
    ensures
        match r {
            Ok((key, value)) => spec_split_key_value(line@) == Ok::<
                (Seq<char>, Seq<char>),
                ParseError,
            >((key@, value@)),
            Err(e) => spec_split_key_value(line@) == Err::<(Seq<char>, Seq<char>), ParseError>(e),
        },
{
    let text = match core::str::from_utf8(line.as_slice()) {
        Ok(text) => text,
        Err(_) => {
            return Err(ParseError::Encoding);
        },
    };
    let chars = to_chars(text);
    let n = chars.len();
    let i = find_char(&chars, 0, ':');
    proof {
        assert(chars@.skip(0) =~= chars@);
    }
    if i == n {
        return Err(ParseError::HeaderLine);
    }
    let (a, b) = trim_bounds(&chars, 0, i);
    let (c, d) = trim_bounds(&chars, i + 1, n);
    proof {
        assert(chars@.subrange(0, i as int) =~= chars@.take(i as int));
        assert(chars@.subrange(i + 1, n as int) =~= chars@.skip(i + 1));
    }
    Ok((substring(text, a, b), substring(text, c, d)))
}

/// What the scan of a header block has gathered.
pub struct HeadScan {
    /// Where the machine stands.
    pub state: State,
    /// The bytes of the line that is being read, without carriage returns.
    pub line: Seq<u8>,
    /// The headers of the lines completed so far.
    pub entries: Entries,
}

/// What one byte does to the scan of a header block.
pub enum HeadStep {
    /// The scan goes on.
    Go(HeadScan),
    /// The scan ends: with the headers of the block, or on an error.
    Stop(Result<Entries, ParseError>),
}

/// The scan before the first byte.
pub open spec fn head_start() -> HeadScan {
    HeadScan { state: State::Init, line: Seq::empty(), entries: Seq::empty() }
}

/// One byte of a header block. The machine moves first: on `End` the block is
/// complete, on `Invalid` it is refused. Otherwise a carriage return is passed
/// over, a line feed completes the line, which is cut into key and value and
/// written into the headers, and any other byte joins the line.
pub open spec fn head_step(scan: HeadScan, byte: u8) -> HeadStep {
    let state = step(scan.state, byte);
    if state == State::End {
        HeadStep::Stop(Ok(scan.entries))
    } else if state == State::Invalid {
        HeadStep::Stop(Err(ParseError::Protocol))
    } else if byte == 13 {
        HeadStep::Go(HeadScan { state, line: scan.line, entries: scan.entries })
    } else if byte == 10 {
        match spec_split_key_value(scan.line) {
            Err(e) => HeadStep::Stop(Err(e)),
            Ok((key, value)) => HeadStep::Go(
                HeadScan { state, line: Seq::empty(), entries: put(scan.entries, key, value) },
            ),
        }
    } else {
        HeadStep::Go(HeadScan { state, line: scan.line.push(byte), entries: scan.entries })
    }
}

/// How the scan of a header block ended.
pub struct Scanned {
    /// The headers of the block, or why the block is refused.
    pub result: Result<Entries, ParseError>,
    /// The position behind the last byte that was read.
    pub end: int,
    /// Whether the scan ended on a byte of the input. Where it did not, the
    /// input ran out before the blank line, and `result` holds the headers of
    /// the lines completed so far.
    pub complete: bool,
}

/// The scan of `input` from `pos` on.
pub open spec fn scan_head(scan: HeadScan, input: Seq<u8>, pos: int) -> Scanned
    decreases input.len() - pos,
{
    if pos < 0 || pos >= input.len() {
        Scanned { result: Ok(scan.entries), end: pos, complete: false }
    } else {
        match head_step(scan, input[pos]) {
            HeadStep::Go(next) => scan_head(next, input, pos + 1),
            HeadStep::Stop(r) => Scanned { result: r, end: pos + 1, complete: true },
        }
    }
}

/// Reading one byte and then `rest` is reading the byte in front of `rest`.
pub proof fn lemma_run_first(state: State, byte: u8, rest: Seq<u8>)
    ensures
        run(state, seq![byte] + rest) == run(step(state, byte), rest),
{
    let one = seq![byte];
    lemma_run_concat(state, one, rest);
    assert(one.drop_last() =~= Seq::<u8>::empty());
    assert(run(state, one) == step(state, byte)) by {
        reveal_with_fuel(run, 2);
    }
}

/// The scan is the machine at work. A scan that gives the headers of a
/// complete block has taken the machine to `End` with the last byte that it
/// read; one that refuses the line ends has taken it to `Invalid`; and before
/// that last byte the machine was in neither.
pub proof fn lemma_scan_runs_machine(scan: HeadScan, input: Seq<u8>, pos: int)
    requires
        0 <= pos <= input.len(),
        open_state(scan.state),
    ensures
        ({
            let scanned = scan_head(scan, input, pos);
            &&& pos <= scanned.end <= input.len()
            &&& scanned.complete && scanned.result is Ok ==> run(
                scan.state,
                input.subrange(pos, scanned.end),
            ) == State::End
            &&& scanned.result == Err::<Entries, ParseError>(ParseError::Protocol) ==> run(
                scan.state,
                input.subrange(pos, scanned.end),
            ) == State::Invalid
            &&& quiet(scan.state, input.subrange(pos, scanned.end))
        }),
    decreases input.len() - pos,
{
    let scanned = scan_head(scan, input, pos);
    if pos < input.len() {
        let byte = input[pos];
        let first = seq![byte];
        let state = step(scan.state, byte);
        match head_step(scan, byte) {
            HeadStep::Go(next) => {
                lemma_scan_runs_machine(next, input, pos + 1);
                let rest = input.subrange(pos + 1, scanned.end);
                let read = input.subrange(pos, scanned.end);
                assert(read =~= first + rest);
                lemma_run_first(scan.state, byte, rest);
                assert(quiet(scan.state, read)) by {
                    assert forall|n: int| 0 <= n < read.len() implies open_state(
                        #[trigger] run(scan.state, read.take(n)),
                    ) by {
                        if n == 0 {
                            assert(read.take(0) =~= Seq::<u8>::empty());
                        } else {
                            assert(read.take(n) =~= first + rest.take(n - 1));
                            lemma_run_first(scan.state, byte, rest.take(n - 1));
                        }
                    }
                }
            },
            HeadStep::Stop(r) => {
                let read = input.subrange(pos, pos + 1);
                assert(read =~= first + Seq::<u8>::empty());
                lemma_run_first(scan.state, byte, Seq::<u8>::empty());
                assert forall|n: int| 0 <= n < read.len() implies open_state(
                    #[trigger] run(scan.state, read.take(n)),
                ) by {
                    assert(read.take(n) =~= Seq::<u8>::empty());
                }
                if r == Err::<Entries, ParseError>(ParseError::Protocol) && state
                    != State::Invalid {
                    lemma_split_never_protocol(scan.line);
                }
            },
        }
    } else {
        assert(input.subrange(pos, pos) =~= Seq::<u8>::empty());
    }
}

/// A header line is never refused for its line ends.
proof fn lemma_split_never_protocol(line: Seq<u8>)
    ensures
        spec_split_key_value(line) != Err::<(Seq<char>, Seq<char>), ParseError>(
            ParseError::Protocol,
        ),
{
}

/// What `read_head` returns for a block that is not refused.
pub struct Head {
    /// The headers of the block.
    pub headers: Headers,
    /// The position behind the last byte that was read.
    pub end: usize,
    /// Whether the blank line was read.
    pub complete: bool,
}

/// The scan of a header block as it runs.
pub struct Scan {
    /// Where the machine stands.
    pub state: State,
    /// The bytes of the line that is being read, without carriage returns.
    pub line: Vec<u8>,
    /// The headers of the lines completed so far.
    pub headers: Headers,
}

impl View for Scan {
    type V = HeadScan;

    open spec fn view(&self) -> HeadScan {
        HeadScan { state: self.state, line: self.line@, entries: self.headers.entries() }
    }
}

/// What one byte has done to a scan.
pub enum Fed {
    /// The scan goes on.
    Go(Scan),
    /// The scan has ended: with the headers of the block, or on an error.
    Stop(Result<Headers, ParseError>),
}

impl View for Fed {
    type V = HeadStep;

    open spec fn view(&self) -> HeadStep {
        match self {
            Fed::Go(scan) => HeadStep::Go(scan@),
            Fed::Stop(Ok(headers)) => HeadStep::Stop(Ok(headers.entries())),
            Fed::Stop(Err(e)) => HeadStep::Stop(Err(*e)),
        }
    }
}

impl Scan {
    /// The scan before the first byte.
    pub fn start() -> (r: Scan)
        ensures
            r@ == head_start(),
    {
        Scan { state: State::Init, line: Vec::new(), headers: Headers::new() }
    }

    /// Takes one byte of the header block.
    pub fn feed(self, byte: u8) -> (r: Fed)
        ensures
            r@ == head_step(self@, byte),
    {
        let state = transform(self.state, to_char_type(byte));
        if state == State::End {
            return Fed::Stop(Ok(self.headers));
        }
        if state == State::Invalid {
            return Fed::Stop(Err(ParseError::Protocol));
        }
        let mut line = self.line;
        let mut headers = self.headers;
        if byte == 13 {
        } else if byte == 10 {
            match split_key_value(line) {
                Ok((key, value)) => {
                    headers.insert(key, value);
                    line = Vec::new();
                },
                Err(e) => {
                    return Fed::Stop(Err(e));
                },
            }
        } else {
            line.push(byte);
        }
        Fed::Go(Scan { state, line, headers })
    }
}

/// Reads the header block that begins at `from`.
pub fn read_head(input: &[u8], from: usize) -> (r: Result<Head, ParseError>)
    ensures
        match r {
            Ok(head) => scan_head(head_start(), input@, from as int) == (Scanned {
                result: Ok(head.headers.entries()),
                end: head.end as int,
                complete: head.complete,
            }),
            Err(e) => {
                let scanned = scan_head(head_start(), input@, from as int);
                scanned.result == Err::<Entries, ParseError>(e) && scanned.complete
            },
        },
        r matches Ok(head) ==> from <= head.end && (from <= input.len() ==> head.end
            <= input.len()),
{
    if from > input.len() {
        return Ok(Head { headers: Headers::new(), end: from, complete: false });
    }
    let mut scan = Scan::start();
    let mut i: usize = from;
    while i < input.len()
        invariant
            from <= i <= input.len(),
            scan_head(head_start(), input@, from as int) == scan_head(scan@, input@, i as int),
        decreases input.len() - i,
    {
        match scan.feed(input[i]) {
            Fed::Go(next) => {
                scan = next;
            },
            Fed::Stop(Ok(headers)) => {
                return Ok(Head { headers, end: i + 1, complete: true });
            },
            Fed::Stop(Err(e)) => {
                return Err(e);
            },
        }
        i += 1;
    }
    Ok(Head { headers: scan.headers, end: i, complete: false })
}

} // verus!
