//! What can be wrong with the bytes of a message.
use vstd::prelude::*;

verus! {

/// Why a message was refused.
#[derive(Debug, Clone, Copy, PartialEq, Eq, Structural)]
pub enum ParseError {
    /// The request line does not consist of exactly three tokens.
    RequestLine,
    /// The response line has fewer than three parts.
    ResponseLine,
    /// The version token names no known version of the protocol.
    Version,
    /// The status code is no unsigned 16-bit decimal number.
    StatusCode,
    /// A line is not well-formed UTF-8.
    Encoding,
    /// A header line holds no colon.
    HeaderLine,
    /// The line ends of the header block do not fit the protocol.
    Protocol,
    /// The value of `Content-Length` is no unsigned decimal number.
    ContentLength,
    /// The input ends before the body has the length that was announced.
    IncompleteBody,
}

/// The classes of failure that a connection can run into.
#[derive(Debug, Clone, Copy, PartialEq, Eq, Structural)]
pub enum ErrorKind {
    /// The peer broke the wire protocol.
    Protocol,
    /// A value that steers the proxy could not be read.
    Config,
}

impl ParseError {
    /// The class of this error.
    pub open spec fn spec_kind(self) -> ErrorKind {
        match self {
            ParseError::ContentLength => ErrorKind::Config,
            _ => ErrorKind::Protocol,
        }
    }

    /// The class of this error.
    pub fn kind(&self) -> (r: ErrorKind)
        ensures
            r == self.spec_kind(),
    {
        match self {
            ParseError::ContentLength => ErrorKind::Config,
            _ => ErrorKind::Protocol,
        }
    }

    /// The text that describes this error in a log.
    pub open spec fn spec_message(self) -> Seq<char> {
        match self {
            ParseError::RequestLine => "Request line is not correct"@,
            ParseError::ResponseLine => "Response line is not correct"@,
            ParseError::Version => "No such http version supported"@,
            ParseError::StatusCode => "parser http code failed"@,
            ParseError::Encoding => "convert to &str failed"@,
            ParseError::HeaderLine => "wrong format"@,
            ParseError::Protocol => "http content not fits the protocol definition"@,
            ParseError::ContentLength => "parse Content-Length failed"@,
            ParseError::IncompleteBody => "body is less than Content-Length"@,
        }
    }

    /// The text that describes this error in a log.
    pub fn message(&self) -> (r: &'static str)
        ensures
            r@ == self.spec_message(),
    {
        match self {
            ParseError::RequestLine => "Request line is not correct",
            ParseError::ResponseLine => "Response line is not correct",
            ParseError::Version => "No such http version supported",
            ParseError::StatusCode => "parser http code failed",
            ParseError::Encoding => "convert to &str failed",
            ParseError::HeaderLine => "wrong format",
            ParseError::Protocol => "http content not fits the protocol definition",
            ParseError::ContentLength => "parse Content-Length failed",
            ParseError::IncompleteBody => "body is less than Content-Length",
        }
    }
}

} // verus!
