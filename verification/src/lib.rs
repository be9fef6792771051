//! The logic of a forward HTTP proxy: reading and writing messages, the rules
//! that refuse requests and responses, the credentials of clients, the steps
//! of a connection and the books of the worker pool.
//!
//! Nothing here touches a socket or a thread. A program that does hands the
//! bytes that it reads to this library and does what the library answers:
//!
//! - `http` reads requests and responses from bytes, tells where a message
//!   ends, and writes messages back;
//! - `filter` gives the verdict of the configured rules on a message;
//! - `utils` reads the credentials in `Proxy-Authorization`;
//! - `pool::worker` decides, step by step, what is done with a connection;
//! - `pool::pool` keeps the queue of accepted connections and the state of
//!   each worker;
//! - `config` holds what steers all of this;
//! - `text` holds what the others need of sequences of characters and bytes.
//!
//! Each function states what it returns over a mathematical model of its
//! arguments, and the statements that relate several functions (a request
//! that is written and read again is the same request; the blank line of a
//! header block is found where it stands; a tunnel passes on what it gets)
//! are proved as lemmas beside them.
pub mod config;
pub mod filter;
pub mod http;
pub mod pool;
pub mod text;
pub mod utils;

pub use config::Config;
