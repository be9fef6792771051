//! Where a message ends. Whoever reads from a connection reads as much as
//! `wanted` says, until it says 0; what has been read by then is the message,
//! whatever may follow it on the connection.
use crate::http::message::body_length;
use crate::http::message::read_body_length;
use crate::http::message::spec_body;
use crate::http::message::spec_parse;
use crate::http::message::spec_parse_request;
use crate::http::message::spec_parse_response;
use crate::http::message::start_line;
use crate::http::scanner::head_start;
use crate::http::scanner::head_step;
use crate::http::scanner::read_head;
use crate::http::scanner::scan_head;
use crate::http::scanner::Fed;
use crate::http::scanner::HeadScan;
use crate::http::scanner::HeadStep;
use crate::http::scanner::Scan;
use crate::http::scanner::Scanned;
use crate::text::find_byte;
use crate::text::first_index;
use crate::text::lemma_first_index;
use crate::text::lemma_first_index_unique;
use vstd::prelude::*;

verus! {

/// The number of bytes to read next where `input` has been read so far: one
/// while the first line or the header block is not complete, then what is
/// missing of the body. 0 where the message is complete, and where it is
/// refused whatever follows.
pub open spec fn spec_wanted(input: Seq<u8>) -> nat {
    if first_index(input, 10u8) >= input.len() {
        1
    } else {
        let scanned = scan_head(head_start(), input, start_line(input).1);
        if !scanned.complete {
            1
        } else {
            match scanned.result {
                Err(_) => 0,
                Ok(entries) => match body_length(entries) {
                    Err(_) => 0,
                    Ok(n) => if scanned.end + n <= input.len() {
                        0
                    } else {
                        (scanned.end + n - input.len()) as nat
                    },
                },
            }
        }
    }
}

/// The number of bytes to read next where `input` has been read so far.
pub fn wanted(input: &[u8]) -> (r: usize)
    ensures
        r == spec_wanted(input@),
{
    let line_end = find_byte(input, 10);
    if line_end >= input.len() {
        return 1;
    }
    let head = match read_head(input, line_end + 1) {
        Ok(head) => head,
        Err(_) => {
            return 0;
        },
    };
    if !head.complete {
        return 1;
    }
    let length = match read_body_length(&head.headers) {
        Ok(length) => length,
        Err(_) => {
            return 0;
        },
    };
    let have = input.len() - head.end;
    if length <= have {
        0
    } else {
        length - have
    }
}

/// A line feed that has been read stays the first: more input does not move
/// the end of the first line.
pub proof fn lemma_start_line_extend(input: Seq<u8>, more: Seq<u8>)
    requires
        first_index(input, 10u8) < input.len(),
    ensures
        first_index(input + more, 10u8) == first_index(input, 10u8),
        start_line(input + more) == start_line(input),
{
    lemma_first_index(input, 10u8);
    let end = first_index(input, 10u8);
    let all = input + more;
    assert forall|j: int| 0 <= j < end implies all[j] != 10u8 by {
        assert(all[j] == input[j]);
    }
    assert(all[end] == input[end]);
    lemma_first_index_unique(all, 10u8, end);
    assert(all.take(end) =~= input.take(end));
}

/// A scan that ended on a byte of the input ends there whatever follows.
pub proof fn lemma_scan_head_extend(scan: HeadScan, input: Seq<u8>, more: Seq<u8>, pos: int)
    requires
        0 <= pos,
        scan_head(scan, input, pos).complete,
    ensures
        scan_head(scan, input + more, pos) == scan_head(scan, input, pos),
    decreases input.len() - pos,
{
    if pos < input.len() {
        assert((input + more)[pos] == input[pos]);
        match head_step(scan, input[pos]) {
            HeadStep::Go(next) => {
                lemma_scan_head_extend(next, input, more, pos + 1);
            },
            HeadStep::Stop(_) => {},
        }
    }
}

/// The scan of a header block never ends behind the input.
pub proof fn lemma_scan_head_end(scan: HeadScan, input: Seq<u8>, pos: int)
    requires
        0 <= pos <= input.len(),
    ensures
        pos <= scan_head(scan, input, pos).end <= input.len(),
    decreases input.len() - pos,
{
    if pos < input.len() {
        match head_step(scan, input[pos]) {
            HeadStep::Go(next) => {
                lemma_scan_head_end(next, input, pos + 1);
            },
            HeadStep::Stop(_) => {},
        }
    }
}

/// A message of which nothing more is wanted is read the same whatever
/// follows it: as a request and as a response, and nothing more is wanted of
/// the longer input either.
pub proof fn lemma_complete_message(input: Seq<u8>, more: Seq<u8>)
    requires
        spec_wanted(input) == 0,
    ensures
        spec_parse_request(input + more) == spec_parse_request(input),
        spec_parse_response(input + more) == spec_parse_response(input),
        spec_wanted(input + more) == 0,
{
    let all = input + more;
    let pos = start_line(input).1;
    lemma_first_index(input, 10u8);
    lemma_start_line_extend(input, more);
    lemma_scan_head_extend(head_start(), input, more, pos);
    lemma_scan_head_end(head_start(), input, pos);
    let scanned = scan_head(head_start(), input, pos);
    match scanned.result {
        Err(_) => {},
        Ok(entries) => {
            match body_length(entries) {
                Err(_) => {},
                Ok(n) => {
                    assert(all.subrange(scanned.end, scanned.end + n) =~= input.subrange(
                        scanned.end,
                        scanned.end + n,
                    ));
                },
            }
            assert(spec_body(entries, all, scanned.end) == spec_body(entries, input, scanned.end));
        },
    }
    assert(spec_parse(all, pos) == spec_parse(input, pos));
}

/// The scan after all of `input` from `pos` on, where it has not ended by
/// then.
pub open spec fn scan_state(scan: HeadScan, input: Seq<u8>, pos: int) -> Option<HeadScan>
    decreases input.len() - pos,
{
    if pos < 0 || pos >= input.len() {
        Some(scan)
    } else {
        match head_step(scan, input[pos]) {
            HeadStep::Go(next) => scan_state(next, input, pos + 1),
            HeadStep::Stop(_) => None,
        }
    }
}

/// A scan that has not ended has read all of the input, and holds the headers
/// of the lines completed so far.
pub proof fn lemma_scan_state_open(scan: HeadScan, input: Seq<u8>, pos: int)
    requires
        0 <= pos <= input.len(),
        scan_state(scan, input, pos) is Some,
    ensures
        scan_head(scan, input, pos) == (Scanned {
            result: Ok(scan_state(scan, input, pos)->0.entries),
            end: input.len() as int,
            complete: false,
        }),
    decreases input.len() - pos,
{
    if pos < input.len() {
        match head_step(scan, input[pos]) {
            HeadStep::Go(next) => {
                lemma_scan_state_open(next, input, pos + 1);
            },
            HeadStep::Stop(_) => {},
        }
    }
}

/// One more byte takes a scan that has not ended one step further.
pub proof fn lemma_scan_state_push(scan: HeadScan, input: Seq<u8>, pos: int, byte: u8)
    requires
        0 <= pos <= input.len(),
        scan_state(scan, input, pos) is Some,
    ensures
        match head_step(scan_state(scan, input, pos)->0, byte) {
            HeadStep::Go(next) => scan_state(scan, input.push(byte), pos) == Some(next),
            HeadStep::Stop(r) => scan_state(scan, input.push(byte), pos) is None && scan_head(
                scan,
                input.push(byte),
                pos,
            ) == (Scanned { result: r, end: input.len() as int + 1, complete: true }),
        },
    decreases input.len() - pos,
{
    let longer = input.push(byte);
    if pos == input.len() {
        assert(longer[pos] == byte);
        match head_step(scan, byte) {
            HeadStep::Go(next) => {
                assert(scan_state(next, longer, pos + 1) == Some(next));
            },
            HeadStep::Stop(_) => {},
        }
    } else {
        assert(longer[pos] == input[pos]);
        match head_step(scan, input[pos]) {
            HeadStep::Go(next) => {
                lemma_scan_state_push(next, input, pos + 1, byte);
            },
            HeadStep::Stop(_) => {},
        }
    }
}

/// Where the reading of a message stands.
enum Cursor {
    /// In the first line.
    Line,
    /// In the header block, which begins at `pos`.
    Head { pos: usize, scan: Scan },
    /// In the body, of which `need` bytes are missing.
    Body { need: usize },
    /// Behind the message, or behind what made it unreadable.
    Done,
}

/// What has been read of a message, and how much is to be read next. Each byte
/// is looked at once, when it comes.
pub struct Reader {
    input: Vec<u8>,
    cursor: Cursor,
}

impl Reader {
    /// The bytes read so far.
    pub closed spec fn bytes(&self) -> Seq<u8> {
        self.input@
    }

    /// The cursor stands where the bytes read so far put it.
    #[verifier::type_invariant]
    closed spec fn inv(&self) -> bool {
        let input = self.input@;
        match self.cursor {
            Cursor::Line => first_index(input, 10u8) == input.len(),
            Cursor::Head { pos, scan } => {
                &&& first_index(input, 10u8) + 1 == pos
                &&& pos <= input.len()
                &&& scan_state(head_start(), input, pos as int) == Some(scan@)
            },
            Cursor::Body { need } => {
                &&& need > 0
                &&& first_index(input, 10u8) < input.len()
                &&& scan_head(head_start(), input, start_line(input).1).complete
                &&& spec_wanted(input) == need
            },
            Cursor::Done => spec_wanted(input) == 0,
        }
    }

    /// A reader that has read nothing.
    pub fn new() -> (r: Reader)
        ensures
            r.bytes() == Seq::<u8>::empty(),
    {
        Reader { input: Vec::new(), cursor: Cursor::Line }
    }

    /// The bytes read so far.
    pub fn as_slice(&self) -> (r: &[u8])
        ensures
            r@ == self.bytes(),
    {
        self.input.as_slice()
    }

    /// The bytes read so far, handed over.
    pub fn into_bytes(self) -> (r: Vec<u8>)
        ensures
            r@ == self.bytes(),
    {
        self.input
    }

    /// The number of bytes to read next.
    pub fn wanted(&self) -> (r: usize)
        ensures
            r == spec_wanted(self.bytes()),
    {
        proof {
            use_type_invariant(self);
        }
        match &self.cursor {
            Cursor::Line => 1,
            Cursor::Head { pos, scan } => {
                proof {
                    lemma_scan_state_open(head_start(), self.input@, *pos as int);
                }
                1
            },
            Cursor::Body { need } => *need,
            Cursor::Done => 0,
        }
    }

    /// Takes one more byte.
    pub fn push(self, byte: u8) -> (r: Reader)
        ensures
            r.bytes() == self.bytes().push(byte),
    {
        proof {
            use_type_invariant(&self);
        }
        let ghost before = self.input@;
        let ghost after = before.push(byte);
        let mut input = self.input;
        input.push(byte);
        proof {
            assert(after =~= before + seq![byte]);
            lemma_first_index(before, 10u8);
        }
        match self.cursor {
            Cursor::Line => {
                if byte == 10 {
                    proof {
                        assert forall|j: int| 0 <= j < before.len() implies after[j] != 10u8 by {
                            assert(after[j] == before[j]);
                        }
                        lemma_first_index_unique(after, 10u8, before.len() as int);
                    }
                    let pos = input.len();
                    Reader { input, cursor: Cursor::Head { pos, scan: Scan::start() } }
                } else {
                    proof {
                        assert forall|j: int| 0 <= j < after.len() implies after[j] != 10u8 by {
                            if j < before.len() {
                                assert(after[j] == before[j]);
                            }
                        }
                        lemma_first_index_unique(after, 10u8, after.len() as int);
                    }
                    Reader { input, cursor: Cursor::Line }
                }
            },
            Cursor::Head { pos, scan } => {
                proof {
                    lemma_start_line_extend(before, seq![byte]);
                    lemma_scan_state_push(head_start(), before, pos as int, byte);
                }
                match scan.feed(byte) {
                    Fed::Go(next) => Reader { input, cursor: Cursor::Head { pos, scan: next } },
                    Fed::Stop(Err(_)) => Reader { input, cursor: Cursor::Done },
                    Fed::Stop(Ok(headers)) => match read_body_length(&headers) {
                        Err(_) => Reader { input, cursor: Cursor::Done },
                        Ok(need) => if need == 0 {
                            Reader { input, cursor: Cursor::Done }
                        } else {
                            Reader { input, cursor: Cursor::Body { need } }
                        },
                    },
                }
            },
            Cursor::Body { need } => {
                proof {
                    lemma_start_line_extend(before, seq![byte]);
                    lemma_scan_head_extend(head_start(), before, seq![byte], start_line(before).1);
                }
                if need == 1 {
                    Reader { input, cursor: Cursor::Done }
                } else {
                    Reader { input, cursor: Cursor::Body { need: need - 1 } }
                }
            },
            Cursor::Done => {
                proof {
                    lemma_complete_message(before, seq![byte]);
                }
                Reader { input, cursor: Cursor::Done }
            },
        }
    }

    /// Takes more bytes, in their order.
    pub fn extend(self, bytes: &[u8]) -> (r: Reader)
        ensures
            r.bytes() == self.bytes() + bytes@,
    {
        let ghost start = self.bytes();
        let mut reader = self;
        let mut i: usize = 0;
        while i < bytes.len()
            invariant
                i <= bytes.len(),
                reader.bytes() == start + bytes@.take(i as int),
            decreases bytes.len() - i,
        {
            reader = reader.push(bytes[i]);
            assert(bytes@.take(i + 1) =~= bytes@.take(i as int).push(bytes@[i as int]));
            assert(reader.bytes() =~= start + bytes@.take(i + 1));
            i += 1;
        }
        assert(bytes@.take(i as int) =~= bytes@);
        reader
    }
}

} // verus!
