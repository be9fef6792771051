//! The verdict of the rules on a message.
use vstd::prelude::*;

verus! {

/// Whether a message may go on to where it is headed.
#[derive(Debug, Clone, Copy, PartialEq, Eq, Structural)]
pub enum FilterStatus {
    /// The message goes on.
    Forward,
    /// The message is refused.
    Reject,
}

} // verus!
