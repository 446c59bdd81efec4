//! Control plane of a WireGuard-fronted VPN edge node.
//!
//! The library holds the verified core: the slot registry that hands out
//! internal tunnel addresses, the per-client record with its tier quota,
//! the client table, the session state machine driven by `open` / `close`
//! control queries, and the meter step that enforces quotas.
use vstd::prelude::*;

pub mod client;
mod clock;
pub mod frames;
pub mod handlers;
mod ids;
pub mod meter;
pub mod params;
pub mod query;
pub mod strings;
pub mod usage;
pub mod wireguard;
pub mod ws;

verus! {

/// The exclusive upper bound of the first internal-address coordinate:
/// rows `a` run over `[2, A_MAX)`.
pub const A_MAX: u8 = 12;

} // verus!
