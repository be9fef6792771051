//! What the dispatcher hands to the workers.
use vstd::prelude::*;

verus! {

/// One item of work. `C` is the handle of an accepted connection.
#[derive(Debug)]
pub enum Message<C> {
    /// A connection to handle.
    NewStream(C),
    /// The worker that takes this is to stop.
    Terminate,
}

} // verus!
