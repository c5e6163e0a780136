//! The cancellation gate: a per-call flag, created clear at call start, set
//! by the user's stop action, observed by the streaming loop between
//! frames, and reset by the consumer after it acknowledges the terminal
//! event. The runtime host shares it across tasks; its meaning lives here.

use vstd::prelude::*;

verus! {

/// The cooperative cancellation flag of the single streaming call in
/// flight.
#[derive(Debug, Clone, Copy, PartialEq, Eq, Structural)]
pub struct CancellationFlag {
    pub requested: bool,
}

impl CancellationFlag {
    /// A fresh flag, clear.
    pub fn new() -> (r: CancellationFlag)
        ensures
            !r.requested,
    {
        CancellationFlag { requested: false }
    }

    /// Request cancellation of the in-flight call.
    pub fn set(&mut self)
        ensures
            final(self).requested,
    {
        self.requested = true;
    }

    /// Clear the flag; the consumer does this right after handling the
    /// terminal event, and clearing an already clear flag changes nothing.
    pub fn reset(&mut self)
        ensures
            !final(self).requested,
    {
        self.requested = false;
    }

    /// Whether cancellation has been requested.
    pub fn is_set(&self) -> (r: bool)
        ensures
            r == self.requested,
    {
        self.requested
    }
}

} // verus!
