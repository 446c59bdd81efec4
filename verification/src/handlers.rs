//! The health endpoint's payload, computed from the node state.
use vstd::prelude::*;

use crate::strings::{dec_of_nat, usize_to_dec};
use crate::wireguard::WireGuardConfig;
use vstd::string::StringExecFns;

verus! {

/// What `GET /health` reports: the node's own status and the identity the
/// client can verify against its records.
#[derive(Debug, Clone)]
pub struct NodeResponse {
    pub status: String,
    pub usage: String,
    pub ip: String,
    pub cert: String,
    pub record_id: String,
}

/// The health report: `OK`, the number of admitted clients in decimal,
/// and the node identity assigned at registration.
pub fn health_status(config: &WireGuardConfig) -> (r: NodeResponse)
    ensures
        r.status@ == "OK"@,
        r.usage@ == dec_of_nat(config.clients.entries@.len()),
        r.ip@ == config.information.ip@,
        r.cert@ == config.information.cert@,
        r.record_id@ == config.information.record_id@,
{
    NodeResponse {
        status: String::from_str("OK"),
        usage: usize_to_dec(config.clients.len()),
        ip: config.information.ip.clone(),
        cert: config.information.cert.clone(),
        record_id: config.information.record_id.clone(),
    }
}

} // verus!
