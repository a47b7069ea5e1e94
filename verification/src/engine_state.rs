//! State of the requests in flight.

use vstd::prelude::*;

verus! {

/// One request currently occupying a slot.
#[derive(Debug, Clone, Copy, PartialEq, Eq, Structural)]
pub struct InFlight {
    pub session: u64,
    /// Tokens sampled so far, the terminator included.
    pub produced: usize,
    pub max_tokens: usize,
    /// The requested penalty window, kept as requested so that the effective
    /// window of a step grows with the session.
    pub repeat_window_req: usize,
    /// Tokens reused from the prefix cache.
    pub reused_tokens: usize,
    /// Last page-aligned boundary published to the prefix cache.
    pub last_published_boundary: usize,
    /// Whether the request's output is constrained by a grammar.
    pub constrained: bool,
}

} // verus!
