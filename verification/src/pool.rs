//! The worker pool: what the dispatcher queues, who takes it, and what a
//! worker does with the connection that it took.
pub mod message;
pub mod pool;
pub mod worker;

pub use message::Message;
pub use pool::ThreadPool;
