//! Current-session byte counters for one client.
use vstd::prelude::*;

verus! {

/// Bytes moved through the tunnel in the current session.
#[derive(Debug, Clone, Copy, PartialEq, Eq, Structural)]
pub struct Usage {
    pub up: i128,
    pub down: i128,
}

} // verus!
