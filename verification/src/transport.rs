//! Where the lines of a client go.
use vstd::prelude::*;

verus! {

/// A destination for metric lines; each call of `send` carries one complete line.
pub trait Transport {
    /// Whether `line` has been handed to this transport. The contracts of the client's sending
    /// functions state, through it, which line each of them hands over. A transport that keeps
    /// no account of its lines leaves it at `true`.
    open spec fn delivered(&self, line: Seq<char>) -> bool {
        true
    }

    /// Hands one line to the transport.
    fn send(&self, metric: &str)
        ensures
            self.delivered(metric@),
    ;
}

/// A transport that drops every line.
pub struct BlackHoleTransport {}

impl Default for BlackHoleTransport {
    fn default() -> (t: BlackHoleTransport) {
        BlackHoleTransport {}
    }
}

impl Transport for BlackHoleTransport {
    fn send(&self, _metric: &str) {
    }
}

} // verus!
