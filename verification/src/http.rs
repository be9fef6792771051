//! The message codec: requests and responses as values, read from bytes and
//! written to bytes.
pub mod error;
pub mod framing;
pub mod headers;
pub mod line;
pub mod message;
pub mod roundtrip;
pub mod scanner;
pub mod utils;

pub use error::ErrorKind;
pub use error::ParseError;
pub use framing::wanted;
pub use framing::Reader;
pub use headers::Headers;
pub use line::parse_request_header;
pub use line::parse_response_header;
pub use line::HttpVersion;
pub use line::Method;
pub use line::RequestLine;
pub use line::ResponseLine;
pub use message::parse;
pub use message::parse_request;
pub use message::parse_response;
pub use message::Request;
pub use message::Response;
pub use scanner::split_key_value;
pub use scanner::to_char_type;
pub use scanner::transform;
pub use scanner::CharType;
pub use scanner::State;
pub use utils::forbidden;
pub use utils::http_status_ok;
pub use utils::not_support_https;
pub use utils::proxy_auth;
pub use utils::unauthorized;
