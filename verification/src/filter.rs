//! The filter engine: rules as data, tried in their order, the first that
//! matches refusing the message.
pub mod header;
pub mod method;
pub mod path;
pub mod request;
pub mod response;
pub mod status;

pub use header::filter_header;
pub use method::filter_request_method;
pub use path::check_patterns;
pub use path::filter_request_path;
pub use path::ConfigError;
pub use request::filter_request;
pub use response::filter_response;
pub use status::FilterStatus;
