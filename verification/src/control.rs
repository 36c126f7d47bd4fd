//! What reaches an extension over its control channel.

use vstd::prelude::*;

verus! {

/// An outcome of waiting on the control channel.
#[derive(Clone, Copy, Debug, PartialEq, Eq, Structural)]
pub enum ControlSignal {
    /// The engine asks the extension to shut down.
    Shutdown,
    /// Any other message.
    Other,
    /// The channel is closed.
    Closed,
}

impl ControlSignal {
    /// Whether an extension ends on this signal.
    pub open spec fn ends(self) -> bool {
        self is Shutdown || self is Closed
    }

    /// Whether an extension ends on this signal; other messages are ignored.
    pub fn is_end(self) -> (r: bool)
        ensures
            r == self.ends(),
    {
        match self {
            ControlSignal::Shutdown => true,
            ControlSignal::Other => false,
            ControlSignal::Closed => true,
        }
    }
}

/// An extension ends when it is told to shut down and when its channel is closed, and on nothing
/// else.
pub proof fn law_what_ends_an_extension(signal: ControlSignal, r: bool)
    requires
        call_ensures(ControlSignal::is_end, (signal,), r),
    ensures
        signal == ControlSignal::Shutdown ==> r,
        signal == ControlSignal::Closed ==> r,
        signal == ControlSignal::Other ==> !r,
{
}

} // verus!
